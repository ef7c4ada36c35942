//! What holds of the game across ticks: cards are never created, lost or
//! duplicated, their identifiers stay distinct, priority goes round the
//! table, and turns pass from player to player.

use crate::card::{records_ids_below, Card, CardDefId, CardId};
use crate::model::{
    card_index, cards_before, eval_frame, holds_card, initial_player, initial_players,
    lemma_card_index, lemma_cards_before_monotonic, lemma_eval_frame_weight, reify, run_frames, stack_weight, PlayerModel,
    StateModel,
};
use crate::sequence::{
    BeginStep, CombatStep, EndStep, Phase, Sequence, SequenceFrame, SequenceStep, UntapEvent,
};
use crate::state::{
    PendingAction, PlayerAction, PlayerConfig, PlayerId, Priority, StackFrame, TickEvent,
};
use vstd::arithmetic::div_mod::{lemma_add_mod_noop, lemma_mod_pos_bound, lemma_small_mod};
use vstd::prelude::*;
use vstd::seq_lib::lemma_multiset_commutative;

verus! {

broadcast use vstd::seq_lib::group_to_multiset_ensures, vstd::multiset::group_multiset_axioms;

/// The cards in a player's zones: library, hand, battlefield, graveyard and
/// command zone, in that order.
pub open spec fn zone_cards(p: PlayerModel) -> Seq<Card> {
    p.library + p.hand + p.battlefield + p.graveyard + p.command
}

/// The cards of all players, player after player.
pub open spec fn all_cards(players: Seq<PlayerModel>) -> Seq<Card>
    decreases players.len(),
{
    if players.len() == 0 {
        Seq::empty()
    } else {
        all_cards(players.drop_last()) + zone_cards(players.last())
    }
}

/// No two cards share an identifier.
pub open spec fn ids_distinct(cards: Seq<Card>) -> bool {
    forall|i: int, j: int| 0 <= i < cards.len() && 0 <= j < cards.len() && i != j ==> cards[i].id != cards[j].id
}

proof fn lemma_zone_multiset(p: PlayerModel)
    ensures
        zone_cards(p).to_multiset() == p.library.to_multiset().add(p.hand.to_multiset()).add(
            p.battlefield.to_multiset(),
        ).add(p.graveyard.to_multiset()).add(p.command.to_multiset()),
{
    lemma_multiset_commutative(p.library, p.hand);
    lemma_multiset_commutative(p.library + p.hand, p.battlefield);
    lemma_multiset_commutative(p.library + p.hand + p.battlefield, p.graveyard);
    lemma_multiset_commutative(p.library + p.hand + p.battlefield + p.graveyard, p.command);
}

/// Replacing one player by a player holding the same cards keeps the cards of
/// all players.
proof fn lemma_all_cards_update(ps: Seq<PlayerModel>, i: int, p: PlayerModel)
    requires
        0 <= i < ps.len(),
        zone_cards(p).to_multiset() == zone_cards(ps[i]).to_multiset(),
    ensures
        all_cards(ps.update(i, p)).to_multiset() == all_cards(ps).to_multiset(),
    decreases ps.len(),
{
    let u = ps.update(i, p);
    lemma_multiset_commutative(all_cards(u.drop_last()), zone_cards(u.last()));
    lemma_multiset_commutative(all_cards(ps.drop_last()), zone_cards(ps.last()));
    if i == ps.len() - 1 {
        assert(u.drop_last() =~= ps.drop_last());
    } else {
        assert(u.drop_last() =~= ps.drop_last().update(i, p));
        lemma_all_cards_update(ps.drop_last(), i, p);
    }
}

/// Drawing moves a card from library to hand and keeps everybody's cards.
proof fn lemma_draw_conserves(s: StateModel)
    requires
        s.wf(),
    ensures
        s.draw().0.wf(),
        s.draw().0.card_defs == s.card_defs,
        all_cards(s.draw().0.players).to_multiset() == all_cards(s.players).to_multiset(),
{
    let cp = s.current_player as int;
    let p = s.players[cp];
    if p.library.len() > 0 {
        let card = p.library.last();
        let p2 = PlayerModel { library: p.library.drop_last(), hand: p.hand.push(card), ..p };
        assert(p.library =~= p.library.drop_last().push(card));
        lemma_zone_multiset(p);
        lemma_zone_multiset(p2);
        assert(zone_cards(p2).to_multiset() =~= zone_cards(p).to_multiset());
        lemma_all_cards_update(s.players, cp, p2);
    }
}

/// Playing a land moves a card from hand to battlefield and keeps
/// everybody's cards.
proof fn lemma_play_land_conserves(s: StateModel, pid: usize, cid: CardId)
    requires
        pid < s.players.len(),
        holds_card(s.players[pid as int].hand, cid),
    ensures
        all_cards(s.play_land(pid, cid).players).to_multiset() == all_cards(s.players).to_multiset(),
{
    let p = s.players[pid as int];
    lemma_card_index(p.hand, cid);
    let i = card_index(p.hand, cid);
    let p2 = PlayerModel { hand: p.hand.remove(i), battlefield: p.battlefield.push(p.hand[i]), ..p };
    lemma_zone_multiset(p);
    lemma_zone_multiset(p2);
    assert(p.hand.to_multiset().count(p.hand[i]) > 0);
    assert(zone_cards(p2).to_multiset() =~= zone_cards(p).to_multiset());
    lemma_all_cards_update(s.players, pid as int, p2);
}

/// Evaluating a frame keeps the state well formed, the card definitions, and
/// everybody's cards.
proof fn lemma_eval_frame_conserves(frame: StackFrame, s: StateModel)
    requires
        s.wf(),
    ensures
        eval_frame(frame, s).0.wf(),
        eval_frame(frame, s).0.card_defs == s.card_defs,
        all_cards(eval_frame(frame, s).0.players).to_multiset() == all_cards(s.players).to_multiset(),
{
    lemma_draw_conserves(s.push_frame(
        StackFrame::BeginStep(SequenceFrame { seq: BeginStep::Draw, step: SequenceStep::End }),
    ));
}

/// Running frames until an event keeps the state well formed, the card
/// definitions, and everybody's cards.
proof fn lemma_run_frames_conserves(s: StateModel)
    requires
        s.wf(),
    ensures
        run_frames(s).0.wf(),
        run_frames(s).0.card_defs == s.card_defs,
        all_cards(run_frames(s).0.players).to_multiset() == all_cards(s.players).to_multiset(),
    decreases stack_weight(s.state_stack),
{
    if s.state_stack.len() != 0 {
        let f = s.state_stack.last();
        lemma_eval_frame_weight(f, s.pop_frame());
        lemma_eval_frame_conserves(f, s.pop_frame());
        let r = eval_frame(f, s.pop_frame());
        if r.1 is None {
            lemma_run_frames_conserves(r.0);
        }
    }
}

/// A tick never creates, loses or duplicates a card: the cards of all
/// players, counted with multiplicity, are the same after the tick as before.
/// The card definitions stay as they are and the state stays well formed.
pub proof fn tick_conserves_cards(s: StateModel)
    requires
        s.wf(),
        s.next_action_ok(),
    ensures
        all_cards(s.tick_model().0.players).to_multiset() == all_cards(s.players).to_multiset(),
        s.tick_model().0.card_defs == s.card_defs,
        s.tick_model().0.wf(),
{
    if s.actions.len() == 0 {
        lemma_run_frames_conserves(s);
    } else {
        let pa = s.actions.last();
        let s0 = StateModel { actions: s.actions.drop_last(), ..s };
        match pa.action {
            PlayerAction::PlayLand(cid) => {
                lemma_play_land_conserves(s0, pa.player, cid);
            },
            PlayerAction::PassPriority => {
                lemma_run_frames_conserves(s0.pass_priority());
            },
        }
    }
}

/// Two sequences of cards that hold the same cards, one of which has distinct
/// identifiers, both have distinct identifiers.
proof fn lemma_same_cards_ids_distinct(a: Seq<Card>, b: Seq<Card>)
    requires
        a.to_multiset() == b.to_multiset(),
        ids_distinct(a),
    ensures
        ids_distinct(b),
{
    assert(a.no_duplicates());
    a.lemma_multiset_has_no_duplicates();
    assert forall|x: Card| b.to_multiset().contains(x) implies b.to_multiset().count(x) == 1 by {}
    b.lemma_multiset_has_no_duplicates_conv();
    assert forall|i: int, j: int| 0 <= i < b.len() && 0 <= j < b.len() && i != j implies b[i].id
        != b[j].id by {
        assert(b.contains(b[i]));
        assert(b.contains(b[j]));
        assert(b.to_multiset().count(b[i]) > 0);
        assert(b.to_multiset().count(b[j]) > 0);
        assert(a.contains(b[i]));
        assert(a.contains(b[j]));
        assert(b[i] != b[j]);
    }
}

/// Card identifiers stay distinct from tick to tick.
pub proof fn tick_keeps_ids_distinct(s: StateModel)
    requires
        s.wf(),
        s.next_action_ok(),
        ids_distinct(all_cards(s.players)),
    ensures
        ids_distinct(all_cards(s.tick_model().0.players)),
{
    tick_conserves_cards(s);
    lemma_same_cards_ids_distinct(all_cards(s.players), all_cards(s.tick_model().0.players));
}

proof fn lemma_initial_prefix(configs: Seq<PlayerConfig>, m: int)
    requires
        0 <= m <= configs.len(),
        cards_before(configs, configs.len() as int) <= u32::MAX,
    ensures
        all_cards(initial_players(configs).take(m)).len() == cards_before(configs, m),
        forall|k: int|
            0 <= k < cards_before(configs, m) ==> #[trigger] all_cards(
                initial_players(configs).take(m),
            )[k].id.0 == k,
    decreases m,
{
    lemma_cards_before_monotonic(configs, m, configs.len() as int);
    if m > 0 {
        lemma_initial_prefix(configs, m - 1);
        let ps = initial_players(configs).take(m);
        assert(ps.drop_last() =~= initial_players(configs).take(m - 1));
        let before = cards_before(configs, m - 1);
        let p = initial_player(configs[m - 1], before);
        assert(ps.last() == p);
        let lib = reify(configs[m - 1].library@, before);
        let hand = reify(configs[m - 1].hand@, before + configs[m - 1].library@.len());
        assert(zone_cards(p) =~= lib + hand);
        let prefix = all_cards(initial_players(configs).take(m - 1));
        assert forall|k: int| 0 <= k < cards_before(configs, m) implies #[trigger] all_cards(ps)[k].id.0
            == k by {
            if k < before {
                assert(all_cards(ps)[k] == prefix[k]);
            } else if k < before + lib.len() {
                assert(all_cards(ps)[k] == lib[k - before]);
            } else {
                assert(all_cards(ps)[k] == hand[k - before - lib.len()]);
            }
        }
    } else {
        assert(initial_players(configs).take(0) =~= Seq::<PlayerModel>::empty());
    }
}

/// At the start of the game the cards, taken player after player, library
/// before hand, carry the identifiers 0, 1, 2, ... in order; so no two cards
/// share an identifier.
pub proof fn initial_card_ids(configs: Seq<PlayerConfig>)
    requires
        cards_before(configs, configs.len() as int) <= u32::MAX,
    ensures
        all_cards(initial_players(configs)).len() == cards_before(configs, configs.len() as int),
        forall|k: int|
            0 <= k < all_cards(initial_players(configs)).len() ==> #[trigger] all_cards(
                initial_players(configs),
            )[k].id.0 == k,
        ids_distinct(all_cards(initial_players(configs))),
{
    lemma_initial_prefix(configs, configs.len() as int);
    assert(initial_players(configs).take(configs.len() as int) =~= initial_players(configs));
    let cards = all_cards(initial_players(configs));
    assert forall|i: int, j: int| 0 <= i < cards.len() && 0 <= j < cards.len() && i != j implies cards[i].id
        != cards[j].id by {
        assert(cards[i].id.0 == i);
        assert(cards[j].id.0 == j);
    }
}

/// The state after `k` passes of priority.
pub open spec fn passes(s: StateModel, k: nat) -> StateModel
    decreases k,
{
    if k == 0 {
        s
    } else {
        passes(s, (k - 1) as nat).pass_priority()
    }
}

/// How many passes end a round of priority among `n` players: every player
/// passes once, and a lone player passes twice.
pub open spec fn passes_to_end_priority(n: nat) -> nat {
    if n == 1 {
        2
    } else {
        n
    }
}

pub(crate) proof fn lemma_passes_round(s: StateModel, a: usize, k: nat)
    requires
        s.wf(),
        a < s.players.len(),
        s.top_priority() == Some(Priority { active: a, last_actor: None }),
        1 <= k < passes_to_end_priority(s.players.len()),
    ensures
        passes(s, k) == (StateModel {
            state_stack: s.state_stack.update(
                s.state_stack.len() - 1,
                StackFrame::Priority(
                    Priority {
                        active: ((a + k) % (s.players.len() as int)) as usize,
                        last_actor: Some(a),
                    },
                ),
            ),
            ..s
        }),
    decreases k,
{
    let n = s.players.len() as int;
    lemma_mod_pos_bound(a + k, n);
    if k == 1 {
        assert(passes(s, 0) == s);
        assert(passes(s, 1) == s.pass_priority());
        if n == 1 {
            assert((a + 1) % n == 0) by {
                lemma_small_mod(0, 1);
                lemma_add_mod_noop(a as int, 1, 1);
            }
        }
    } else {
        lemma_passes_round(s, a, (k - 1) as nat);
        let prev = passes(s, (k - 1) as nat);
        lemma_add_mod_noop(a + k - 1, 1, n);
        lemma_small_mod(1, n as nat);
        if a + k < n {
            lemma_small_mod((a + k) as nat, n as nat);
        } else {
            assert((a + k) % n == a + k - n) by (nonlinear_arith)
                requires
                    n <= a + k < 2 * n,
            ;
        }
        assert(prev.top_priority()->0.last_actor == Some(a));
        assert(prev.state_stack.update(prev.state_stack.len() - 1, StackFrame::Priority(
            Priority { active: ((a + k) % n) as usize, last_actor: Some(a) },
        )) =~= s.state_stack.update(s.state_stack.len() - 1, StackFrame::Priority(
            Priority { active: ((a + k) % n) as usize, last_actor: Some(a) },
        )));
    }
}

/// Priority goes round the table: when the player holding a fresh priority
/// and then each next player in turn pass, every pass hands priority on to
/// the next player, until it has come back round to the first, and then the
/// priority frame goes, with nothing else changed.
pub proof fn priority_goes_round(s: StateModel, a: usize)
    requires
        s.wf(),
        a < s.players.len(),
        s.top_priority() == Some(Priority { active: a, last_actor: None }),
    ensures
        forall|k: nat|
            1 <= k < passes_to_end_priority(s.players.len()) ==> #[trigger] passes(s, k).top_priority()
                == Some(
                Priority {
                    active: ((a + k) % (s.players.len() as int)) as usize,
                    last_actor: Some(a),
                },
            ),
        passes(s, passes_to_end_priority(s.players.len())) == s.pop_frame(),
{
    let n = s.players.len() as int;
    let last = passes_to_end_priority(s.players.len());
    assert forall|k: nat| 1 <= k < last implies #[trigger] passes(s, k).top_priority() == Some(
        Priority { active: ((a + k) % n) as usize, last_actor: Some(a) },
    ) by {
        lemma_passes_round(s, a, k);
    }
    let prev = passes(s, (last - 1) as nat);
    if n == 1 {
        lemma_passes_round(s, a, 1);
        lemma_small_mod(0, 1);
        lemma_add_mod_noop(a as int, 1, 1);
        lemma_add_mod_noop(0, 1, 1);
    } else {
        lemma_passes_round(s, a, (n - 1) as nat);
        lemma_add_mod_noop(a + n - 1, 1, n);
        lemma_small_mod(1, n as nat);
        lemma_small_mod(a as nat, n as nat);
        assert((a + n) % n == a) by (nonlinear_arith)
            requires
                0 <= a < n,
        ;
    }
    assert(prev.state_stack.drop_last() =~= s.state_stack.drop_last());
}

/// With nothing left on the state stack and no action pending, a tick passes
/// the turn to the next player in order, whose turn starts at its first
/// phase.
pub proof fn turn_passes_in_order(s: StateModel)
    requires
        s.wf(),
        s.actions.len() == 0,
        s.state_stack.len() == 0,
    ensures
        s.tick_model().1 == TickEvent::BeginTurn(
            ((s.current_player + 1) % (s.players.len() as int)) as usize,
        ),
        s.tick_model().0.current_player == (s.current_player + 1) % (s.players.len() as int),
        s.tick_model().0.state_stack == seq![StackFrame::Phase(SequenceFrame::<Phase>::spec_begin())],
{
    lemma_mod_pos_bound(s.current_player + 1, s.players.len() as int);
    assert(s.state_stack.push(StackFrame::Phase(SequenceFrame::<Phase>::spec_begin())) =~= seq![
        StackFrame::Phase(SequenceFrame::<Phase>::spec_begin()),
    ]);
}

/// The first tick of a new game, whose last player is current, starts the
/// first player's turn.
pub proof fn first_tick_starts_first_turn(s: StateModel)
    requires
        s.wf(),
        s.actions.len() == 0,
        s.state_stack.len() == 0,
        s.current_player == s.players.len() - 1,
    ensures
        s.tick_model().1 == TickEvent::BeginTurn(0),
        s.tick_model().0.current_player == 0,
{
    turn_passes_in_order(s);
    vstd::arithmetic::div_mod::lemma_mod_self_0(s.players.len() as int);
}

/// Pending actions are performed first in, first out: an action input while
/// others are pending waits behind them all, and one input while nothing is
/// pending is what the next tick performs.
pub proof fn input_is_first_in_first_out(s: StateModel, pa: PendingAction)
    ensures
        ({
            let s1 = StateModel { actions: seq![pa] + s.actions, ..s };
            &&& s.actions.len() > 0 ==> s1.actions.last() == s.actions.last() && s1.actions.drop_last()
                == seq![pa] + s.actions.drop_last()
            &&& s.actions.len() == 0 ==> s1.tick_model() == match pa.action {
                PlayerAction::PlayLand(cid) => (
                    s.play_land(pa.player, cid),
                    TickEvent::PlayCard(pa.player, cid),
                ),
                PlayerAction::PassPriority => run_frames(s.pass_priority()),
            }
        }),
{
    let s1 = StateModel { actions: seq![pa] + s.actions, ..s };
    if s.actions.len() > 0 {
        assert(s1.actions.drop_last() =~= seq![pa] + s.actions.drop_last());
    } else {
        assert(s1.actions.drop_last() =~= s.actions);
        assert(StateModel { actions: s1.actions.drop_last(), ..s1 } == s);
    }
}

/// A builder records every card it makes, and only those: if its lookup
/// holds exactly the identifiers below `next_id`, then making the next card
/// gives it a fresh identifier, records the card's definition under it,
/// leaves every earlier record as it is, and again holds exactly the
/// identifiers below the new `next_id`.
pub proof fn builder_records_every_card(lookup: Map<u32, CardDefId>, next_id: u32, did: CardDefId)
    requires
        records_ids_below(lookup, next_id),
        next_id < u32::MAX,
    ensures
        !lookup.contains_key(next_id),
        lookup.insert(next_id, did)[next_id] == did,
        forall|k: u32| #[trigger] lookup.contains_key(k) ==> lookup.insert(next_id, did)[k] == lookup[k],
        records_ids_below(lookup.insert(next_id, did), (next_id + 1) as u32),
{
    let m = lookup.insert(next_id, did);
    assert(m.dom() =~= lookup.dom().insert(next_id));
}

/// Evaluating a frame of a step sequence leaves the stack below it as it is
/// and puts the frame that comes after it in the sequence directly on top of
/// that stack; only a step's evaluation may push more frames, and those lie
/// above it, to be dealt with before the sequence moves on. At the end of the
/// last step nothing is put back.
pub proof fn sequence_frame_moves_on<T: Sequence>(f: SequenceFrame<T>, s: StateModel)
    ensures
        ({
            let base = s.state_stack;
            let after = f.spec_eval(s).0.state_stack;
            &&& base.is_prefix_of(after)
            &&& match f.spec_after() {
                Some(a) => after.len() > base.len() && after[base.len() as int] == T::spec_frame(a),
                None => after.len() == base.len(),
            }
            &&& !(f.step is Eval) ==> after.len() == base.len() + (if f.spec_after() is Some {
                1int
            } else {
                0int
            })
        }),
{
    let base = s.state_stack;
    match f.step {
        SequenceStep::Begin => {
            assert(base.is_prefix_of(f.spec_eval(s).0.state_stack));
        },
        SequenceStep::Eval => {
            let pushed = s.push_frame(
                T::spec_frame(SequenceFrame { seq: f.seq, step: SequenceStep::End }),
            );
            f.seq.lemma_eval_only_pushes(pushed);
            assert(base.is_prefix_of(pushed.state_stack));
            let after = f.spec_eval(s).0.state_stack;
            assert(after[base.len() as int] == pushed.state_stack[base.len() as int]);
        },
        SequenceStep::End => {
            assert(base.is_prefix_of(f.spec_eval(s).0.state_stack));
        },
    }
}

/// The frames of the steps in `order`, each step's begin, evaluation and end
/// in turn.
pub open spec fn steps_of<T>(order: Seq<T>) -> Seq<SequenceFrame<T>>
    decreases order.len(),
{
    if order.len() == 0 {
        Seq::empty()
    } else {
        seq![
            SequenceFrame { seq: order[0], step: SequenceStep::Begin },
            SequenceFrame { seq: order[0], step: SequenceStep::Eval },
            SequenceFrame { seq: order[0], step: SequenceStep::End },
        ] + steps_of(order.drop_first())
    }
}

/// The frames a sequence goes through from `f` on, following what comes
/// after each frame, at most `fuel` of them.
pub open spec fn walk<T: Sequence>(f: Option<SequenceFrame<T>>, fuel: nat) -> Seq<SequenceFrame<T>>
    decreases fuel,
{
    match f {
        None => Seq::empty(),
        Some(frame) => if fuel == 0 {
            Seq::empty()
        } else {
            seq![frame] + walk(frame.spec_after(), (fuel - 1) as nat)
        },
    }
}

/// The phases of a turn are walked in order, each once: beginning,
/// pre-combat main, combat, post-combat main, end; then the walk is over.
pub proof fn phases_walk_in_order()
    ensures
        walk(Some(SequenceFrame::<Phase>::spec_begin()), 16) == steps_of(
            seq![Phase::Begin, Phase::PreCombat, Phase::Combat, Phase::PostCombat, Phase::End],
        ),
{
    reveal_with_fuel(walk, 17);
    reveal_with_fuel(steps_of, 6);
    let order = seq![Phase::Begin, Phase::PreCombat, Phase::Combat, Phase::PostCombat, Phase::End];
    assert(order.drop_first() =~= seq![Phase::PreCombat, Phase::Combat, Phase::PostCombat, Phase::End]);
    assert(order.drop_first().drop_first() =~= seq![Phase::Combat, Phase::PostCombat, Phase::End]);
    assert(order.drop_first().drop_first().drop_first() =~= seq![Phase::PostCombat, Phase::End]);
    assert(order.drop_first().drop_first().drop_first().drop_first() =~= seq![Phase::End]);
    assert(order.drop_first().drop_first().drop_first().drop_first().drop_first() =~= Seq::<Phase>::empty());
    assert(walk(Some(SequenceFrame::<Phase>::spec_begin()), 16) =~= steps_of(order));
}

/// The beginning steps are walked in order, each once: untap, upkeep, draw;
/// then the walk is over.
pub proof fn begin_steps_walk_in_order()
    ensures
        walk(Some(SequenceFrame::<BeginStep>::spec_begin()), 10) == steps_of(seq![BeginStep::Untap, BeginStep::Upkeep, BeginStep::Draw]),
{
    reveal_with_fuel(walk, 11);
    reveal_with_fuel(steps_of, 4);
    let order = seq![BeginStep::Untap, BeginStep::Upkeep, BeginStep::Draw];
    assert(order.drop_first() =~= seq![BeginStep::Upkeep, BeginStep::Draw]);
    assert(order.drop_first().drop_first() =~= seq![BeginStep::Draw]);
    assert(order.drop_first().drop_first().drop_first() =~= Seq::<BeginStep>::empty());
    assert(walk(Some(SequenceFrame::<BeginStep>::spec_begin()), 10) =~= steps_of(order));
}

/// The untap events are walked in order, each once: phasing, day and
/// night, selecting what to untap, untapping; then the walk is over.
pub proof fn untap_events_walk_in_order()
    ensures
        walk(Some(SequenceFrame::<UntapEvent>::spec_begin()), 13) == steps_of(seq![UntapEvent::Phasing, UntapEvent::DayNight, UntapEvent::SelectUntap, UntapEvent::Untap]),
{
    reveal_with_fuel(walk, 14);
    reveal_with_fuel(steps_of, 5);
    let order = seq![UntapEvent::Phasing, UntapEvent::DayNight, UntapEvent::SelectUntap, UntapEvent::Untap];
    assert(order.drop_first() =~= seq![UntapEvent::DayNight, UntapEvent::SelectUntap, UntapEvent::Untap]);
    assert(order.drop_first().drop_first() =~= seq![UntapEvent::SelectUntap, UntapEvent::Untap]);
    assert(order.drop_first().drop_first().drop_first() =~= seq![UntapEvent::Untap]);
    assert(order.drop_first().drop_first().drop_first().drop_first() =~= Seq::<UntapEvent>::empty());
    assert(walk(Some(SequenceFrame::<UntapEvent>::spec_begin()), 13) =~= steps_of(order));
}

/// The combat steps are walked in order, each once: beginning of combat,
/// declare attackers, declare blockers, combat damage, end of combat; then
/// the walk is over.
pub proof fn combat_steps_walk_in_order()
    ensures
        walk(Some(SequenceFrame::<CombatStep>::spec_begin()), 16) == steps_of(seq![CombatStep::Begin, CombatStep::DeclareAttackers, CombatStep::DeclareBlockers, CombatStep::CombatDamage, CombatStep::End]),
{
    reveal_with_fuel(walk, 17);
    reveal_with_fuel(steps_of, 6);
    let order = seq![CombatStep::Begin, CombatStep::DeclareAttackers, CombatStep::DeclareBlockers, CombatStep::CombatDamage, CombatStep::End];
    assert(order.drop_first() =~= seq![CombatStep::DeclareAttackers, CombatStep::DeclareBlockers, CombatStep::CombatDamage, CombatStep::End]);
    assert(order.drop_first().drop_first() =~= seq![CombatStep::DeclareBlockers, CombatStep::CombatDamage, CombatStep::End]);
    assert(order.drop_first().drop_first().drop_first() =~= seq![CombatStep::CombatDamage, CombatStep::End]);
    assert(order.drop_first().drop_first().drop_first().drop_first() =~= seq![CombatStep::End]);
    assert(order.drop_first().drop_first().drop_first().drop_first().drop_first() =~= Seq::<CombatStep>::empty());
    assert(walk(Some(SequenceFrame::<CombatStep>::spec_begin()), 16) =~= steps_of(order));
}

/// The end steps are walked in order, each once: end, cleanup; then the walk
/// is over.
pub proof fn end_steps_walk_in_order()
    ensures
        walk(Some(SequenceFrame::<EndStep>::spec_begin()), 7) == steps_of(seq![EndStep::End, EndStep::Cleanup]),
{
    reveal_with_fuel(walk, 8);
    reveal_with_fuel(steps_of, 3);
    let order = seq![EndStep::End, EndStep::Cleanup];
    assert(order.drop_first() =~= seq![EndStep::Cleanup]);
    assert(order.drop_first().drop_first() =~= Seq::<EndStep>::empty());
    assert(walk(Some(SequenceFrame::<EndStep>::spec_begin()), 7) =~= steps_of(order));
}

/// The state after its top frame is popped and evaluated.
pub open spec fn eval_top(s: StateModel) -> StateModel {
    eval_frame(s.state_stack.last(), s.pop_frame()).0
}

/// The state after its top frame is popped and evaluated `k` times over.
pub open spec fn eval_top_times(s: StateModel, k: nat) -> StateModel
    decreases k,
{
    if k == 0 {
        s
    } else {
        eval_top(eval_top_times(s, (k - 1) as nat))
    }
}

pub(crate) proof fn lemma_walk_steps<T: Sequence>(f: SequenceFrame<T>, fuel: nat, i: int)
    requires
        0 <= i,
        i + 1 < walk(Some(f), fuel).len(),
    ensures
        walk(Some(f), fuel)[i].spec_after() == Some(walk(Some(f), fuel)[i + 1]),
    decreases fuel,
{
    let rest = walk(f.spec_after(), (fuel - 1) as nat);
    assert(walk(Some(f), fuel) == seq![f] + rest);
    let g = f.spec_after()->0;
    if i > 0 {
        lemma_walk_steps(g, (fuel - 1) as nat, i - 1);
    }
}

pub(crate) proof fn lemma_walk_ends<T: Sequence>(f: SequenceFrame<T>, fuel: nat)
    requires
        walk(Some(f), fuel).len() < fuel,
    ensures
        walk(Some(f), fuel).len() >= 1,
        walk(Some(f), fuel).last().spec_after() is None,
    decreases fuel,
{
    let rest = walk(f.spec_after(), (fuel - 1) as nat);
    assert(walk(Some(f), fuel) == seq![f] + rest);
    if f.spec_after() is Some {
        lemma_walk_ends(f.spec_after()->0, (fuel - 1) as nat);
    }
}

proof fn lemma_leaf_step<T: Sequence>(f: SequenceFrame<T>, t: StateModel)
    requires
        forall|x: T, u: StateModel| #[trigger] x.spec_eval(u).0.state_stack == u.state_stack,
    ensures
        f.spec_eval(t).0.state_stack == match f.spec_after() {
            Some(a) => t.state_stack.push(T::spec_frame(a)),
            None => t.state_stack,
        },
{
    sequence_frame_moves_on(f, t);
    let after = f.spec_eval(t).0.state_stack;
    if f.step is Eval {
        let pushed = t.push_frame(T::spec_frame(SequenceFrame { seq: f.seq, step: SequenceStep::End }));
        assert(f.seq.spec_eval(pushed).0.state_stack == pushed.state_stack);
    }
    match f.spec_after() {
        Some(a) => {
            assert(after =~= t.state_stack.push(T::spec_frame(a)));
        },
        None => {
            assert(after =~= t.state_stack);
        },
    }
}

proof fn lemma_leaf_walk_prefix<T: Sequence>(s: StateModel, fuel: nat, i: nat)
    requires
        forall|f: SequenceFrame<T>, t: StateModel| #[trigger] eval_frame(T::spec_frame(f), t) == f.spec_eval(t),
        forall|x: T, u: StateModel| #[trigger] x.spec_eval(u).0.state_stack == u.state_stack,
        s.state_stack.len() > 0,
        s.state_stack.last() == T::spec_frame(SequenceFrame::<T>::spec_begin()),
        i < walk(Some(SequenceFrame::<T>::spec_begin()), fuel).len(),
    ensures
        eval_top_times(s, i).state_stack == s.state_stack.drop_last().push(
            T::spec_frame(walk(Some(SequenceFrame::<T>::spec_begin()), fuel)[i as int]),
        ),
    decreases i,
{
    let w = walk(Some(SequenceFrame::<T>::spec_begin()), fuel);
    let base = s.state_stack.drop_last();
    if i == 0 {
        assert(w[0] == SequenceFrame::<T>::spec_begin());
        assert(s.state_stack =~= base.push(s.state_stack.last()));
    } else {
        lemma_leaf_walk_prefix::<T>(s, fuel, (i - 1) as nat);
        lemma_walk_steps(SequenceFrame::<T>::spec_begin(), fuel, i - 1);
        let t = eval_top_times(s, (i - 1) as nat);
        assert(t.pop_frame().state_stack =~= base);
        lemma_leaf_step(w[i - 1], t.pop_frame());
    }
}

/// A step sequence whose steps push nothing, such as the untap events, the
/// combat steps and the end steps, is walked frame by frame: put its first
/// frame on a stack and pop and evaluate the top frame again and again; the
/// frames that come to the top are those of the walk of the sequence, one
/// after the other, and once the walk is over the stack is back to what lay
/// beneath.
pub proof fn leaf_sequence_walk<T: Sequence>(s: StateModel, fuel: nat)
    requires
        forall|f: SequenceFrame<T>, t: StateModel| #[trigger] eval_frame(T::spec_frame(f), t) == f.spec_eval(t),
        forall|x: T, u: StateModel| #[trigger] x.spec_eval(u).0.state_stack == u.state_stack,
        s.state_stack.len() > 0,
        s.state_stack.last() == T::spec_frame(SequenceFrame::<T>::spec_begin()),
        walk(Some(SequenceFrame::<T>::spec_begin()), fuel).len() < fuel,
    ensures
        forall|i: nat|
            i < walk(Some(SequenceFrame::<T>::spec_begin()), fuel).len() ==> #[trigger] eval_top_times(
                s,
                i,
            ).state_stack == s.state_stack.drop_last().push(
                T::spec_frame(walk(Some(SequenceFrame::<T>::spec_begin()), fuel)[i as int]),
            ),
        eval_top_times(s, walk(Some(SequenceFrame::<T>::spec_begin()), fuel).len()).state_stack
            == s.state_stack.drop_last(),
{
    let w = walk(Some(SequenceFrame::<T>::spec_begin()), fuel);
    assert forall|i: nat| i < w.len() implies #[trigger] eval_top_times(s, i).state_stack
        == s.state_stack.drop_last().push(T::spec_frame(w[i as int])) by {
        lemma_leaf_walk_prefix::<T>(s, fuel, i);
    }
    lemma_walk_ends(SequenceFrame::<T>::spec_begin(), fuel);
    let n = (w.len() - 1) as nat;
    lemma_leaf_walk_prefix::<T>(s, fuel, n);
    let t = eval_top_times(s, n);
    assert(t.pop_frame().state_stack =~= s.state_stack.drop_last());
    lemma_leaf_step(w[n as int], t.pop_frame());
}

/// The combat steps, put on a stack, are walked frame by frame, in order,
/// each step's begin, evaluation and end; after fifteen evaluations the
/// stack is back to what lay beneath.
pub proof fn combat_steps_walked_frame_by_frame(s: StateModel)
    requires
        s.state_stack.len() > 0,
        s.state_stack.last() == StackFrame::CombatStep(SequenceFrame::<CombatStep>::spec_begin()),
    ensures
        forall|i: nat|
            i < 15 ==> #[trigger] eval_top_times(s, i).state_stack == s.state_stack.drop_last().push(
                StackFrame::CombatStep(
                    steps_of(
                        seq![
                            CombatStep::Begin,
                            CombatStep::DeclareAttackers,
                            CombatStep::DeclareBlockers,
                            CombatStep::CombatDamage,
                            CombatStep::End,
                        ],
                    )[i as int],
                ),
            ),
        eval_top_times(s, 15).state_stack == s.state_stack.drop_last(),
{
    combat_steps_walk_in_order();
    reveal_with_fuel(steps_of, 6);
    leaf_sequence_walk::<CombatStep>(s, 16);
}

/// The untap events, put on a stack, are walked frame by frame, in order;
/// after twelve evaluations the stack is back to what lay beneath.
pub proof fn untap_events_walked_frame_by_frame(s: StateModel)
    requires
        s.state_stack.len() > 0,
        s.state_stack.last() == StackFrame::UntapEvent(SequenceFrame::<UntapEvent>::spec_begin()),
    ensures
        forall|i: nat|
            i < 12 ==> #[trigger] eval_top_times(s, i).state_stack == s.state_stack.drop_last().push(
                StackFrame::UntapEvent(steps_of(seq![UntapEvent::Phasing, UntapEvent::DayNight, UntapEvent::SelectUntap, UntapEvent::Untap])[i as int]),
            ),
        eval_top_times(s, 12).state_stack == s.state_stack.drop_last(),
{
    untap_events_walk_in_order();
    reveal_with_fuel(steps_of, 5);
    leaf_sequence_walk::<UntapEvent>(s, 13);
}

/// The end steps, put on a stack, are walked frame by frame, in order; after
/// six evaluations the stack is back to what lay beneath.
pub proof fn end_steps_walked_frame_by_frame(s: StateModel)
    requires
        s.state_stack.len() > 0,
        s.state_stack.last() == StackFrame::EndStep(SequenceFrame::<EndStep>::spec_begin()),
    ensures
        forall|i: nat|
            i < 6 ==> #[trigger] eval_top_times(s, i).state_stack == s.state_stack.drop_last().push(
                StackFrame::EndStep(steps_of(seq![EndStep::End, EndStep::Cleanup])[i as int]),
            ),
        eval_top_times(s, 6).state_stack == s.state_stack.drop_last(),
{
    end_steps_walk_in_order();
    reveal_with_fuel(steps_of, 3);
    leaf_sequence_walk::<EndStep>(s, 7);
}

/// The identifiers of `cards`, in order.
pub open spec fn ids_of(cards: Seq<Card>) -> Seq<CardId> {
    cards.map_values(|c: Card| c.id)
}

/// Two sequences holding the same cards hold the same identifiers.
proof fn lemma_same_cards_same_ids(a: Seq<Card>, b: Seq<Card>)
    requires
        a.to_multiset() == b.to_multiset(),
    ensures
        ids_of(a).to_multiset() == ids_of(b).to_multiset(),
    decreases a.len(),
{
    if a.len() == 0 {
        assert(b.to_multiset().len() == 0);
        assert(b.len() == 0);
        assert(ids_of(a) =~= ids_of(b));
    } else {
        let x = a.last();
        assert(a =~= a.drop_last().push(x));
        assert(a.to_multiset().count(x) > 0);
        assert(b.to_multiset().count(x) > 0);
        assert(b.contains(x));
        let j = choose|j: int| 0 <= j < b.len() && b[j] == x;
        assert(b.remove(j).to_multiset() == b.to_multiset().remove(x));
        assert(a.drop_last().to_multiset() =~= b.remove(j).to_multiset());
        lemma_same_cards_same_ids(a.drop_last(), b.remove(j));
        assert(ids_of(a) =~= ids_of(a.drop_last()).push(x.id));
        assert(ids_of(b).remove(j) =~= ids_of(b.remove(j)));
        assert(ids_of(b)[j] == x.id);
        assert(ids_of(b).remove(j).to_multiset() == ids_of(b).to_multiset().remove(x.id));
        assert(ids_of(b).to_multiset().count(x.id) > 0) by {
            assert(ids_of(b).contains(x.id));
        }
        assert(ids_of(a).to_multiset() =~= ids_of(b).to_multiset());
    }
}

/// A tick keeps the identifiers of all players' cards, counted with
/// multiplicity.
pub proof fn tick_conserves_ids(s: StateModel)
    requires
        s.wf(),
        s.next_action_ok(),
    ensures
        ids_of(all_cards(s.tick_model().0.players)).to_multiset() == ids_of(
            all_cards(s.players),
        ).to_multiset(),
{
    tick_conserves_cards(s);
    lemma_same_cards_same_ids(all_cards(s.tick_model().0.players), all_cards(s.players));
}

/// When everybody has passed (the player holding priority passes, and the
/// next player in turn is the one who acted last) the priority frame is
/// dropped and the tick goes on from the frame beneath it, just as a tick
/// with nothing pending on the stack without that frame.
pub proof fn all_passed_drops_priority(s: StateModel, p: PlayerId)
    requires
        s.actions == seq![PendingAction { player: p, action: PlayerAction::PassPriority }],
        s.top_priority() == Some(
            Priority {
                active: p,
                last_actor: Some(((p + 1) % (s.players.len() as int)) as usize),
            },
        ),
    ensures
        s.tick_model() == (StateModel { actions: Seq::empty(), ..s }).pop_frame().tick_model(),
{
    let s0 = StateModel { actions: s.actions.drop_last(), ..s };
    assert(s.actions.drop_last() =~= Seq::<PendingAction>::empty());
    assert(s0.pass_priority() == (StateModel { actions: Seq::empty(), ..s }).pop_frame());
}

} // verus!
