//! The rules a tick follows, stated by what they do to the game: the phase
//! being played is the current phase, lands are played only by the player
//! whose turn it is, a draw takes the top card (or loses the game for the
//! player who must draw), priority goes first to the player whose turn it
//! is, and each step reports its own beginning and end.

use crate::card::{is_land, Card, CardId};
use crate::model::{eval_frame, lemma_eval_frame_weight, lemma_eval_frame_wf, run_frames, stack_weight, StateModel};
use crate::reachable::{phase_tracked, fresh_priority_current};
use crate::sequence::{BeginStep, CombatStep, EndStep, Phase, SequenceFrame, SequenceStep, UntapEvent};
use crate::state::{PlayerAction, PlayerId, Priority, StackFrame, TickEvent};
use vstd::prelude::*;

verus! {

/// Entering a phase makes it the current phase, and leaves the players and
/// the current player as they are. Above the phase's end it puts what the
/// phase consists of: the beginning steps from untap, a main phase, the
/// combat steps from the beginning of combat, or the end steps from the end
/// step.
pub proof fn entering_a_phase_makes_it_current(p: Phase, s: StateModel)
    ensures
        eval_frame(StackFrame::Phase(SequenceFrame { seq: p, step: SequenceStep::Eval }), s).0.state_stack
            == s.state_stack.push(StackFrame::Phase(SequenceFrame { seq: p, step: SequenceStep::End })).push(
            match p {
                Phase::Begin => StackFrame::BeginStep(
                    SequenceFrame { seq: BeginStep::Untap, step: SequenceStep::Begin },
                ),
                Phase::PreCombat => StackFrame::MainPhase(crate::state::MainPhase),
                Phase::Combat => StackFrame::CombatStep(
                    SequenceFrame { seq: CombatStep::Begin, step: SequenceStep::Begin },
                ),
                Phase::PostCombat => StackFrame::MainPhase(crate::state::MainPhase),
                Phase::End => StackFrame::EndStep(
                    SequenceFrame { seq: EndStep::End, step: SequenceStep::Begin },
                ),
            },
        ),
        eval_frame(StackFrame::Phase(SequenceFrame { seq: p, step: SequenceStep::Eval }), s).0.current_phase == p,
        eval_frame(StackFrame::Phase(SequenceFrame { seq: p, step: SequenceStep::Eval }), s).0.players == s.players,
        eval_frame(StackFrame::Phase(SequenceFrame { seq: p, step: SequenceStep::Eval }), s).0.current_player
            == s.current_player,
{
}

/// In a state reached by play, while a phase is being played (its end frame
/// lies at the bottom of the stack) it is the current phase; so a player
/// holding priority in a main phase finds the current phase to be a main
/// phase.
pub proof fn the_phase_played_is_current(s: StateModel)
    requires
        s.is_consistent(),
        s.state_stack.len() >= 1,
    ensures
        match s.state_stack[0] {
            StackFrame::Phase(pf) => pf.step is End ==> s.current_phase == pf.seq,
            _ => true,
        },
        s.state_stack.len() == 2 && s.state_stack[1] is Priority ==> (s.current_phase
            == Phase::PreCombat || s.current_phase == Phase::PostCombat),
{
    assert(phase_tracked(s.state_stack, s.current_phase));
}

/// A land may be played only by the player whose turn it is, in one of the
/// two main phases, while that player holds priority and the in-game stack is
/// empty, and only a card from that player's hand whose definition is a land.
pub proof fn lands_are_played_by_the_active_player(s: StateModel, player: PlayerId, cid: CardId)
    requires
        s.can_perform(crate::state::PendingAction { player, action: PlayerAction::PlayLand(cid) }),
    ensures
        player == s.current_player,
        s.current_phase == Phase::PreCombat || s.current_phase == Phase::PostCombat,
        s.state_stack.len() > 0,
        s.state_stack.last() is Priority,
        match s.state_stack.last() {
            StackFrame::Priority(p) => p.active == player,
            _ => false,
        },
        s.game_stack.len() == 0,
        player < s.players.len(),
        exists|i: int|
            0 <= i < s.players[player as int].hand.len() && #[trigger] s.players[player as int].hand[i].id
                == cid && s.players[player as int].hand[i].def.0 < s.card_defs.len() && is_land(
                s.card_defs[s.players[player as int].hand[i].def.0 as int],
            ),
{
    crate::model::lemma_card_index(s.players[player as int].hand, cid);
}

/// Playing a land moves one card with that identifier from the player's hand
/// to the top of their battlefield, reports it, and changes nothing else.
pub proof fn playing_a_land_moves_it_to_the_battlefield(s: StateModel)
    requires
        s.wf(),
        s.next_action_ok(),
        s.actions.len() > 0,
        s.actions.last().action is PlayLand,
    ensures
        ({
            let pid = s.actions.last().player;
            let cid = s.actions.last().action->PlayLand_0;
            let r = s.tick_model();
            let before = s.players[pid as int];
            let after = r.0.players[pid as int];
            &&& r.1 == TickEvent::PlayCard(pid, cid)
            &&& after.battlefield.len() == before.battlefield.len() + 1
            &&& after.battlefield.drop_last() == before.battlefield
            &&& after.battlefield.last().id == cid
            &&& before.hand.contains(after.battlefield.last())
            &&& after.hand.len() == before.hand.len() - 1
            &&& after.library == before.library
            &&& after.graveyard == before.graveyard
            &&& after.command == before.command
            &&& r.0.players.len() == s.players.len()
            &&& forall|q: int| 0 <= q < s.players.len() && q != pid ==> #[trigger] r.0.players[q] == s.players[q]
            &&& r.0.state_stack == s.state_stack
            &&& r.0.current_player == s.current_player
            &&& r.0.current_phase == s.current_phase
            &&& r.0.actions == s.actions.drop_last()
        }),
{
    let pid = s.actions.last().player;
    let cid = s.actions.last().action->PlayLand_0;
    let hand = s.players[pid as int].hand;
    crate::model::lemma_card_index(hand, cid);
    let i = crate::model::card_index(hand, cid);
    let after = s.tick_model().0.players[pid as int];
    assert(after.battlefield.drop_last() =~= s.players[pid as int].battlefield);
    assert(hand.contains(hand[i]));
}

/// At the draw step the current player draws the top card of their library:
/// it moves to the top of their hand, the draw is reported, and they get
/// priority with nobody having acted yet. A player who must draw from an
/// empty library loses the game, and nothing moves.
pub proof fn drawing_takes_the_top_card(s: StateModel)
    requires
        s.wf(),
    ensures
        ({
            let r = eval_frame(
                StackFrame::BeginStep(SequenceFrame { seq: BeginStep::Draw, step: SequenceStep::Eval }),
                s,
            );
            let cp = s.current_player;
            let before = s.players[cp as int];
            let after = r.0.players[cp as int];
            &&& r.0.current_player == cp
            &&& r.0.players.len() == s.players.len()
            &&& forall|q: int| 0 <= q < s.players.len() && q != cp ==> #[trigger] r.0.players[q] == s.players[q]
            &&& before.library.len() == 0 ==> r.1 == Some(TickEvent::LoseGame(cp)) && r.0.players
                == s.players
            &&& before.library.len() > 0 ==> {
                &&& r.1 == Some(TickEvent::Draw(before.library.last().id))
                &&& after.library == before.library.drop_last()
                &&& after.hand == before.hand.push(before.library.last())
                &&& after.battlefield == before.battlefield
                &&& r.0.state_stack.len() > 0
                &&& r.0.state_stack.last() == StackFrame::Priority(
                    Priority { active: cp, last_actor: None },
                )
            }
        }),
{
}

proof fn lemma_frame_lose_game(frame: StackFrame, t: StateModel, p: PlayerId)
    requires
        t.wf(),
        eval_frame(frame, t).1 == Some(TickEvent::LoseGame(p)),
    ensures
        p == t.current_player,
        t.players[p as int].library.len() == 0,
        eval_frame(frame, t).0.players == t.players,
        eval_frame(frame, t).0.current_player == t.current_player,
{
}

proof fn lemma_run_frames_lose_game(s: StateModel)
    requires
        s.wf(),
    ensures
        run_frames(s).1 matches TickEvent::LoseGame(p) ==> p == run_frames(s).0.current_player
            && run_frames(s).0.players[p as int].library.len() == 0,
    decreases stack_weight(s.state_stack),
{
    if s.state_stack.len() != 0 {
        let f = s.state_stack.last();
        lemma_eval_frame_weight(f, s.pop_frame());
        lemma_eval_frame_wf(f, s.pop_frame());
        let r = eval_frame(f, s.pop_frame());
        if let Some(TickEvent::LoseGame(p)) = r.1 {
            lemma_frame_lose_game(f, s.pop_frame(), p);
        }
        if r.1 is None {
            lemma_run_frames_lose_game(r.0);
        }
    }
}

/// The player a tick reports as losing the game is the current player, and
/// their library is empty: it is the player who had to draw and could not.
pub proof fn the_loser_is_the_player_who_could_not_draw(s: StateModel)
    requires
        s.wf(),
        s.next_action_ok(),
    ensures
        s.tick_model().1 matches TickEvent::LoseGame(p) ==> p == s.tick_model().0.current_player
            && s.tick_model().0.players[p as int].library.len() == 0,
{
    if s.actions.len() == 0 {
        lemma_run_frames_lose_game(s);
    } else {
        let pa = s.actions.last();
        let s0 = crate::model::StateModel { actions: s.actions.drop_last(), ..s };
        if pa.action is PassPriority {
            lemma_run_frames_lose_game(s0.pass_priority());
        }
    }
}

proof fn lemma_frame_priority_event(frame: StackFrame, t: StateModel, a: PlayerId)
    requires
        eval_frame(frame, t).1 == Some(TickEvent::Priority(a)),
    ensures
        frame is Priority,
        eval_frame(frame, t).0.state_stack == t.state_stack.push(frame),
        match frame {
            StackFrame::Priority(p) => p.active == a,
            _ => false,
        },
{
}

proof fn lemma_run_frames_priority_event(s: StateModel)
    requires
        s.wf(),
    ensures
        run_frames(s).1 matches TickEvent::Priority(a) ==> run_frames(s).0.state_stack.len() > 0 && match run_frames(
            s,
        ).0.state_stack.last() {
            StackFrame::Priority(p) => p.active == a,
            _ => false,
        },
    decreases stack_weight(s.state_stack),
{
    if s.state_stack.len() != 0 {
        let f = s.state_stack.last();
        lemma_eval_frame_weight(f, s.pop_frame());
        lemma_eval_frame_wf(f, s.pop_frame());
        let r = eval_frame(f, s.pop_frame());
        if let Some(TickEvent::Priority(a)) = r.1 {
            lemma_frame_priority_event(f, s.pop_frame(), a);
        }
        if r.1 is None {
            lemma_run_frames_priority_event(r.0);
        }
    }
}

/// The player a tick reports as holding priority is the one the priority
/// frame left on top names; in a state reached by play, when nobody has
/// acted yet in that frame, it is the player whose turn it is.
pub proof fn priority_goes_first_to_the_active_player(s: StateModel)
    requires
        s.is_consistent(),
        s.tick_ok(),
    ensures
        s.tick_model().1 matches TickEvent::Priority(a) ==> {
            let after = s.tick_model().0;
            &&& after.state_stack.len() > 0
            &&& match after.state_stack.last() {
                StackFrame::Priority(p) => p.active == a && (p.last_actor is None ==> a
                    == after.current_player),
                _ => false,
            }
        },
{
    crate::reachable::tick_keeps_consistent(s);
    let after = s.tick_model().0;
    assert(fresh_priority_current(after.state_stack, after.current_player));
    if s.actions.len() == 0 {
        lemma_run_frames_priority_event(s);
    } else {
        let pa = s.actions.last();
        let s0 = crate::model::StateModel { actions: s.actions.drop_last(), ..s };
        if pa.action is PassPriority {
            assert(s0.pass_priority().wf());
            lemma_run_frames_priority_event(s0.pass_priority());
        }
    }
    if after.state_stack.len() > 0 {
        assert(match after.state_stack[after.state_stack.len() - 1] {
            StackFrame::Priority(p) => p.last_actor is None ==> p.active == after.current_player,
            _ => true,
        });
    }
}

/// Each phase reports its own beginning and end.
pub proof fn phases_report_themselves(p: Phase, s: StateModel)
    ensures
        eval_frame(StackFrame::Phase(SequenceFrame { seq: p, step: SequenceStep::Begin }), s).1 == Some(
            TickEvent::BeginPhase(p),
        ),
        eval_frame(StackFrame::Phase(SequenceFrame { seq: p, step: SequenceStep::End }), s).1 == Some(
            TickEvent::EndPhase(p),
        ),
        eval_frame(StackFrame::Phase(SequenceFrame { seq: p, step: SequenceStep::Eval }), s).1 is None,
{
}

/// Each beginning step reports its own beginning and end.
pub proof fn beginning_steps_report_themselves(b: BeginStep, s: StateModel)
    ensures
        eval_frame(StackFrame::BeginStep(SequenceFrame { seq: b, step: SequenceStep::Begin }), s).1
            == Some(TickEvent::BeginBeginStep(b)),
        eval_frame(StackFrame::BeginStep(SequenceFrame { seq: b, step: SequenceStep::End }), s).1 == Some(
            TickEvent::EndBeginStep(b),
        ),
{
}

/// Each combat step and each end step is reported as itself when it is
/// evaluated; their beginnings and ends pass silently.
pub proof fn combat_and_end_steps_report_themselves(c: CombatStep, e: EndStep, s: StateModel)
    ensures
        eval_frame(StackFrame::CombatStep(SequenceFrame { seq: c, step: SequenceStep::Eval }), s).1
            == Some(TickEvent::CombatStep(c)),
        eval_frame(StackFrame::EndStep(SequenceFrame { seq: e, step: SequenceStep::Eval }), s).1 == Some(
            TickEvent::EndStep(e),
        ),
        eval_frame(StackFrame::CombatStep(SequenceFrame { seq: c, step: SequenceStep::Begin }), s).1 is None,
        eval_frame(StackFrame::CombatStep(SequenceFrame { seq: c, step: SequenceStep::End }), s).1 is None,
        eval_frame(StackFrame::EndStep(SequenceFrame { seq: e, step: SequenceStep::Begin }), s).1 is None,
        eval_frame(StackFrame::EndStep(SequenceFrame { seq: e, step: SequenceStep::End }), s).1 is None,
{
}

/// Of the untap events, selecting what to untap and untapping are reported;
/// phasing and day and night pass silently; none changes the game.
pub proof fn untap_events_report_themselves(u: UntapEvent, s: StateModel)
    ensures
        eval_frame(StackFrame::UntapEvent(SequenceFrame { seq: u, step: SequenceStep::Eval }), s).1
            == match u {
            UntapEvent::SelectUntap => Some(TickEvent::SelectUntap),
            UntapEvent::Untap => Some(TickEvent::Untap),
            _ => None,
        },
        eval_frame(StackFrame::UntapEvent(SequenceFrame { seq: u, step: SequenceStep::Eval }), s).0.players
            == s.players,
{
}

/// The untap step runs the untap events from phasing on, and the upkeep gives
/// the current player priority, nobody having acted yet; neither reports
/// anything nor changes the players.
pub proof fn untap_and_upkeep_steps(s: StateModel)
    ensures
        eval_frame(
            StackFrame::BeginStep(SequenceFrame { seq: BeginStep::Untap, step: SequenceStep::Eval }),
            s,
        ) == (
            s.push_frame(
                StackFrame::BeginStep(SequenceFrame { seq: BeginStep::Untap, step: SequenceStep::End }),
            ).push_frame(
                StackFrame::UntapEvent(
                    SequenceFrame { seq: UntapEvent::Phasing, step: SequenceStep::Begin },
                ),
            ),
            None::<TickEvent>,
        ),
        eval_frame(
            StackFrame::BeginStep(SequenceFrame { seq: BeginStep::Upkeep, step: SequenceStep::Eval }),
            s,
        ) == (
            s.push_frame(
                StackFrame::BeginStep(SequenceFrame { seq: BeginStep::Upkeep, step: SequenceStep::End }),
            ).push_frame(
                StackFrame::Priority(Priority { active: s.current_player, last_actor: None }),
            ),
            None::<TickEvent>,
        ),
{
}

/// A main phase gives the current player priority, nobody having acted yet;
/// a priority frame stays where it is, reporting who holds priority.
pub proof fn main_phase_and_priority_frames(p: Priority, s: StateModel)
    ensures
        eval_frame(StackFrame::MainPhase(crate::state::MainPhase), s) == (
            s.push_frame(StackFrame::Priority(Priority { active: s.current_player, last_actor: None })),
            None::<TickEvent>,
        ),
        eval_frame(StackFrame::Priority(p), s) == (
            s.push_frame(StackFrame::Priority(p)),
            Some(TickEvent::Priority(p.active)),
        ),
{
}

/// Passing priority may be done only by the player who holds it.
pub proof fn only_the_holder_passes(s: StateModel, player: PlayerId)
    requires
        s.can_perform(crate::state::PendingAction { player, action: PlayerAction::PassPriority }),
    ensures
        player < s.players.len(),
        s.state_stack.len() > 0,
        match s.state_stack.last() {
            StackFrame::Priority(p) => p.active == player,
            _ => false,
        },
{
}

/// The main phases are exactly the pre-combat and post-combat ones.
pub proof fn the_main_phases(p: Phase)
    ensures
        p.spec_is_main() <==> (p == Phase::PreCombat || p == Phase::PostCombat),
{
}

/// A card is a land exactly when land is among its types.
pub proof fn lands_are_cards_of_type_land(d: crate::card::CardDef)
    ensures
        is_land(d) <==> d.types@.contains(crate::card::CardType::Land),
{
    if is_land(d) {
        let i = choose|i: int| 0 <= i < d.types@.len() && d.types@[i] is Land;
        assert(d.types@[i] == crate::card::CardType::Land);
    }
}

} // verus!
