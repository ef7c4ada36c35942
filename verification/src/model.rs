//! The mathematical model of the game state, and what one tick does to it.

use crate::card::{is_land, Card, CardDef, CardDefId, CardId};
use crate::sequence::{
    phase_body, BeginStep, CombatStep, EndStep, Phase, Sequence, SequenceFrame, SequenceStep,
    UntapEvent,
};
use crate::state::{
    PendingAction, PlayerAction, PlayerConfig, PlayerId, Priority, StackFrame, TickEvent,
};
use vstd::prelude::*;

verus! {

/// A player's zones, each a sequence of cards.
pub struct PlayerModel {
    /// Listed from bottom to top.
    pub library: Seq<Card>,
    pub hand: Seq<Card>,
    pub battlefield: Seq<Card>,
    pub graveyard: Seq<Card>,
    pub command: Seq<Card>,
}

impl PlayerModel {
    pub open spec fn empty() -> PlayerModel {
        PlayerModel {
            library: Seq::empty(),
            hand: Seq::empty(),
            battlefield: Seq::empty(),
            graveyard: Seq::empty(),
            command: Seq::empty(),
        }
    }
}

/// The game state as values.
pub struct StateModel {
    pub card_defs: Seq<CardDef>,
    pub players: Seq<PlayerModel>,
    pub current_player: usize,
    pub current_phase: Phase,
    pub game_stack: Seq<()>,
    pub state_stack: Seq<StackFrame>,
    pub actions: Seq<PendingAction>,
}

impl StateModel {
    /// There is at least one player (and no more than a machine word can
    /// count), and the current player is one of them.
    pub open spec fn wf(self) -> bool {
        &&& 0 < self.players.len() <= usize::MAX
        &&& self.current_player < self.players.len()
    }

    pub open spec fn push_frame(self, frame: StackFrame) -> StateModel {
        StateModel { state_stack: self.state_stack.push(frame), ..self }
    }

    /// A priority frame in which the current player holds priority and nobody
    /// has acted yet.
    pub open spec fn fresh_priority(self) -> StackFrame {
        StackFrame::Priority(Priority { active: self.current_player, last_actor: None })
    }

    /// The current player draws: the top card of their library moves to their
    /// hand and they get priority. With an empty library nothing moves and the
    /// player loses the game.
    pub open spec fn draw(self) -> (StateModel, Option<TickEvent>) {
        let cp = self.current_player;
        let p = self.players[cp as int];
        if p.library.len() == 0 {
            (self, Some(TickEvent::LoseGame(cp)))
        } else {
            let card = p.library.last();
            let p2 = PlayerModel { library: p.library.drop_last(), hand: p.hand.push(card), ..p };
            let s2 = StateModel { players: self.players.update(cp as int, p2), ..self };
            (s2.push_frame(self.fresh_priority()), Some(TickEvent::Draw(card.id)))
        }
    }
}

/// What evaluating `frame`, just popped off the state stack of `s`, does.
pub open spec fn eval_frame(frame: StackFrame, s: StateModel) -> (StateModel, Option<TickEvent>) {
    match frame {
        StackFrame::Phase(f) => f.spec_eval(s),
        StackFrame::BeginStep(f) => f.spec_eval(s),
        StackFrame::UntapEvent(f) => f.spec_eval(s),
        StackFrame::CombatStep(f) => f.spec_eval(s),
        StackFrame::EndStep(f) => f.spec_eval(s),
        StackFrame::MainPhase(_) => (s.push_frame(s.fresh_priority()), None),
        StackFrame::Priority(p) => (s.push_frame(frame), Some(TickEvent::Priority(p.active))),
    }
}

/// How much evaluation a frame can still cause without reporting an event:
/// each step of a sequence costs what its evaluation may push, plus three for
/// its begin, evaluation and end.
pub open spec fn step_weight(step: SequenceStep, child: nat) -> nat {
    match step {
        SequenceStep::Begin => child + 3,
        SequenceStep::Eval => child + 2,
        SequenceStep::End => 1,
    }
}

/// The number of phases after `p` in a turn.
pub open spec fn phase_rank(p: Phase) -> nat {
    match p {
        Phase::Begin => 4,
        Phase::PreCombat => 3,
        Phase::Combat => 2,
        Phase::PostCombat => 1,
        Phase::End => 0,
    }
}

pub open spec fn begin_step_rank(b: BeginStep) -> nat {
    match b {
        BeginStep::Untap => 2,
        BeginStep::Upkeep => 1,
        BeginStep::Draw => 0,
    }
}

pub open spec fn untap_rank(u: UntapEvent) -> nat {
    match u {
        UntapEvent::Phasing => 3,
        UntapEvent::DayNight => 2,
        UntapEvent::SelectUntap => 1,
        UntapEvent::Untap => 0,
    }
}

pub open spec fn combat_rank(c: CombatStep) -> nat {
    match c {
        CombatStep::Begin => 4,
        CombatStep::DeclareAttackers => 3,
        CombatStep::DeclareBlockers => 2,
        CombatStep::CombatDamage => 1,
        CombatStep::End => 0,
    }
}

pub open spec fn end_rank(e: EndStep) -> nat {
    match e {
        EndStep::End => 1,
        EndStep::Cleanup => 0,
    }
}

pub open spec fn frame_weight(frame: StackFrame) -> nat {
    match frame {
        StackFrame::Phase(f) => phase_rank(f.seq) * 48 + step_weight(f.step, 45),
        StackFrame::BeginStep(f) => begin_step_rank(f.seq) * 15 + step_weight(f.step, 12),
        StackFrame::UntapEvent(f) => untap_rank(f.seq) * 3 + step_weight(f.step, 0),
        StackFrame::CombatStep(f) => combat_rank(f.seq) * 3 + step_weight(f.step, 0),
        StackFrame::EndStep(f) => end_rank(f.seq) * 3 + step_weight(f.step, 0),
        StackFrame::MainPhase(_) => 2,
        StackFrame::Priority(_) => 1,
    }
}

pub open spec fn stack_weight(stack: Seq<StackFrame>) -> nat
    decreases stack.len(),
{
    if stack.len() == 0 {
        0
    } else {
        stack_weight(stack.drop_last()) + frame_weight(stack.last())
    }
}

pub proof fn lemma_stack_weight_push(stack: Seq<StackFrame>, frame: StackFrame)
    ensures
        stack_weight(stack.push(frame)) == stack_weight(stack) + frame_weight(frame),
{
    assert(stack.push(frame).drop_last() =~= stack);
}

/// Evaluating a frame only pushes frames, and when it reports no event, what
/// it pushes weighs less than the frame itself.
pub proof fn lemma_eval_frame_weight(frame: StackFrame, s: StateModel)
    ensures
        eval_frame(frame, s).1 is None ==> stack_weight(eval_frame(frame, s).0.state_stack)
            < stack_weight(s.state_stack) + frame_weight(frame),
{
    let st = s.state_stack;
    let r = eval_frame(frame, s);
    if r.1 is None {
        match frame {
            StackFrame::Phase(f) => {
                let end = StackFrame::Phase(SequenceFrame { seq: f.seq, step: SequenceStep::End });
                lemma_stack_weight_push(st, end);
                lemma_stack_weight_push(st.push(end), phase_body(f.seq));
            },
            StackFrame::BeginStep(f) => {
                let end = StackFrame::BeginStep(
                    SequenceFrame { seq: f.seq, step: SequenceStep::End },
                );
                lemma_stack_weight_push(st, end);
                lemma_stack_weight_push(
                    st.push(end),
                    StackFrame::UntapEvent(SequenceFrame::<UntapEvent>::spec_begin()),
                );
                lemma_stack_weight_push(st.push(end), s.fresh_priority());
            },
            StackFrame::UntapEvent(f) => {
                lemma_stack_weight_push(st, StackFrame::UntapEvent(SequenceFrame { seq: f.seq, step: SequenceStep::Eval }));
                lemma_stack_weight_push(st, StackFrame::UntapEvent(SequenceFrame { seq: f.seq, step: SequenceStep::End }));
                if let Some(n) = f.seq.spec_next() {
                    lemma_stack_weight_push(st, StackFrame::UntapEvent(SequenceFrame { seq: n, step: SequenceStep::Begin }));
                }
            },
            StackFrame::CombatStep(f) => {
                lemma_stack_weight_push(st, StackFrame::CombatStep(SequenceFrame { seq: f.seq, step: SequenceStep::Eval }));
                if let Some(n) = f.seq.spec_next() {
                    lemma_stack_weight_push(st, StackFrame::CombatStep(SequenceFrame { seq: n, step: SequenceStep::Begin }));
                }
            },
            StackFrame::EndStep(f) => {
                lemma_stack_weight_push(st, StackFrame::EndStep(SequenceFrame { seq: f.seq, step: SequenceStep::Eval }));
                if let Some(n) = f.seq.spec_next() {
                    lemma_stack_weight_push(st, StackFrame::EndStep(SequenceFrame { seq: n, step: SequenceStep::Begin }));
                }
            },
            StackFrame::MainPhase(_) => {
                lemma_stack_weight_push(st, s.fresh_priority());
            },
            StackFrame::Priority(_) => {},
        }
    }
}

impl StateModel {
    /// The state with its top frame popped off the state stack.
    pub open spec fn pop_frame(self) -> StateModel {
        StateModel { state_stack: self.state_stack.drop_last(), ..self }
    }

    /// With the state stack empty, the turn passes to the next player, whose
    /// turn begins with its first phase.
    pub open spec fn start_turn(self) -> (StateModel, TickEvent) {
        let next = ((self.current_player + 1) % (self.players.len() as int)) as usize;
        (
            StateModel { current_player: next, ..self }.push_frame(
                StackFrame::Phase(SequenceFrame::<Phase>::spec_begin()),
            ),
            TickEvent::BeginTurn(next),
        )
    }
}

/// Pops and evaluates frames until one reports an event; when the stack runs
/// empty, the next turn starts.
pub open spec fn run_frames(s: StateModel) -> (StateModel, TickEvent)
    decreases stack_weight(s.state_stack),
    via run_frames_decreases
{
    if s.state_stack.len() == 0 {
        s.start_turn()
    } else {
        let r = eval_frame(s.state_stack.last(), s.pop_frame());
        match r.1 {
            Some(e) => (r.0, e),
            None => run_frames(r.0),
        }
    }
}

#[via_fn]
proof fn run_frames_decreases(s: StateModel) {
    if s.state_stack.len() != 0 {
        lemma_eval_frame_weight(s.state_stack.last(), s.pop_frame());
    }
}

/// Evaluating `frame`, just popped off the state stack of `s`, does not fail:
/// a draw needs the current player to exist.
pub open spec fn frame_ok(frame: StackFrame, s: StateModel) -> bool {
    match frame {
        StackFrame::Phase(f) => f.spec_eval_ok(s),
        StackFrame::BeginStep(f) => f.spec_eval_ok(s),
        StackFrame::UntapEvent(f) => f.spec_eval_ok(s),
        StackFrame::CombatStep(f) => f.spec_eval_ok(s),
        StackFrame::EndStep(f) => f.spec_eval_ok(s),
        StackFrame::MainPhase(_) => true,
        StackFrame::Priority(_) => true,
    }
}

/// Running frames until an event does not fail: every frame evaluated can be,
/// and if the stack runs empty there is a player to hand the turn to (and the
/// current player's number can be counted up).
pub open spec fn run_frames_ok(s: StateModel) -> bool
    decreases stack_weight(s.state_stack),
    via run_frames_ok_decreases
{
    if s.state_stack.len() == 0 {
        0 < s.players.len() && s.current_player < usize::MAX
    } else {
        let r = eval_frame(s.state_stack.last(), s.pop_frame());
        &&& frame_ok(s.state_stack.last(), s.pop_frame())
        &&& (r.1 is None ==> run_frames_ok(r.0))
    }
}

#[via_fn]
proof fn run_frames_ok_decreases(s: StateModel) {
    if s.state_stack.len() != 0 {
        lemma_eval_frame_weight(s.state_stack.last(), s.pop_frame());
    }
}

/// Evaluating a frame keeps the players' number and the current player, so a
/// well-formed state stays well formed; and in a well-formed state every frame
/// can be evaluated.
pub proof fn lemma_eval_frame_wf(frame: StackFrame, s: StateModel)
    requires
        s.wf(),
    ensures
        frame_ok(frame, s),
        eval_frame(frame, s).0.wf(),
        eval_frame(frame, s).0.players.len() == s.players.len(),
        eval_frame(frame, s).0.current_player == s.current_player,
{
}

/// In a well-formed state, running frames does not fail.
pub proof fn lemma_run_frames_ok(s: StateModel)
    requires
        s.wf(),
    ensures
        run_frames_ok(s),
    decreases stack_weight(s.state_stack),
{
    if s.state_stack.len() != 0 {
        let f = s.state_stack.last();
        lemma_eval_frame_weight(f, s.pop_frame());
        lemma_eval_frame_wf(f, s.pop_frame());
        let r = eval_frame(f, s.pop_frame());
        if r.1 is None {
            lemma_run_frames_ok(r.0);
        }
    }
}

/// `i` is the position of the first card in `hand` with identifier `cid`.
pub open spec fn is_first_card_index(hand: Seq<Card>, cid: CardId, i: int) -> bool {
    &&& 0 <= i < hand.len()
    &&& hand[i].id == cid
    &&& forall|j: int| 0 <= j < i ==> hand[j].id != cid
}

pub open spec fn holds_card(hand: Seq<Card>, cid: CardId) -> bool {
    exists|i: int| 0 <= i < hand.len() && hand[i].id == cid
}

/// The position of the first card in `hand` with identifier `cid`.
pub open spec fn card_index(hand: Seq<Card>, cid: CardId) -> int {
    choose|i: int| is_first_card_index(hand, cid, i)
}

pub proof fn lemma_card_index(hand: Seq<Card>, cid: CardId)
    requires
        holds_card(hand, cid),
    ensures
        is_first_card_index(hand, cid, card_index(hand, cid)),
    decreases hand.len(),
{
    if hand[0].id == cid {
        assert(is_first_card_index(hand, cid, 0));
    } else {
        let rest = hand.drop_first();
        let i = choose|i: int| 0 <= i < hand.len() && hand[i].id == cid;
        assert(rest[i - 1].id == cid);
        lemma_card_index(rest, cid);
        let k = card_index(rest, cid);
        assert forall|j: int| 0 <= j < k + 1 implies hand[j].id != cid by {
            if j > 0 {
                assert(hand[j] == rest[j - 1]);
            }
        }
        assert(is_first_card_index(hand, cid, k + 1));
    }
}

pub proof fn lemma_card_index_unique(hand: Seq<Card>, cid: CardId, i: int)
    requires
        is_first_card_index(hand, cid, i),
    ensures
        card_index(hand, cid) == i,
{
    let k = card_index(hand, cid);
    assert(is_first_card_index(hand, cid, k));
    if k < i {
        assert(hand[k].id != cid);
    } else if i < k {
        assert(hand[i].id != cid);
    }
}

impl StateModel {
    /// The priority frame on top of the state stack, if that is what is there.
    pub open spec fn top_priority(self) -> Option<Priority> {
        if self.state_stack.len() > 0 {
            match self.state_stack.last() {
                StackFrame::Priority(p) => Some(p),
                _ => None,
            }
        } else {
            None
        }
    }

    /// `pid` holds priority.
    pub open spec fn has_priority(self, pid: PlayerId) -> bool {
        self.top_priority() is Some && self.top_priority()->0.active == pid
    }

    /// Whether `pa` may be performed: the player exists and, for a land, holds
    /// a card with that identifier whose definition exists and is a land, it is
    /// their own turn and a main phase, they hold priority, and the in-game
    /// stack is empty; for passing, they hold priority.
    pub open spec fn can_perform(self, pa: PendingAction) -> bool {
        let pid = pa.player;
        &&& pid < self.players.len()
        &&& match pa.action {
            PlayerAction::PlayLand(cid) => {
                let hand = self.players[pid as int].hand;
                let def = hand[card_index(hand, cid)].def;
                &&& holds_card(hand, cid)
                &&& def.0 < self.card_defs.len()
                &&& is_land(self.card_defs[def.0 as int])
                &&& self.current_player == pid
                &&& self.current_phase.spec_is_main()
                &&& self.has_priority(pid)
                &&& self.game_stack.len() == 0
            },
            PlayerAction::PassPriority => self.has_priority(pid),
        }
    }

    /// The next pending action, if there is one, may be performed.
    pub open spec fn next_action_ok(self) -> bool {
        self.actions.len() == 0 || self.can_perform(self.actions.last())
    }

    /// Player `pid` moves the first card with identifier `cid` from their hand
    /// onto the battlefield.
    pub open spec fn play_land(self, pid: PlayerId, cid: CardId) -> StateModel {
        let p = self.players[pid as int];
        let i = card_index(p.hand, cid);
        let p2 = PlayerModel { hand: p.hand.remove(i), battlefield: p.battlefield.push(p.hand[i]), ..p };
        StateModel { players: self.players.update(pid as int, p2), ..self }
    }

    /// The player holding priority passes it. Once it has come back round to
    /// the player who acted last, everybody has passed and the priority frame
    /// goes; otherwise the next player gets priority, and the one who passed
    /// first is remembered as the last actor.
    pub open spec fn pass_priority(self) -> StateModel {
        let p = self.top_priority()->0;
        let next = ((p.active + 1) % (self.players.len() as int)) as usize;
        if p.last_actor == Some(next) {
            self.pop_frame()
        } else {
            let last = match p.last_actor {
                Some(a) => a,
                None => p.active,
            };
            let p2 = Priority { active: next, last_actor: Some(last) };
            StateModel {
                state_stack: self.state_stack.update(
                    self.state_stack.len() - 1,
                    StackFrame::Priority(p2),
                ),
                ..self
            }
        }
    }

    /// A tick does not fail: the next pending action, if any, may be
    /// performed, and the frames that follow can be run.
    pub open spec fn tick_ok(self) -> bool {
        if self.actions.len() == 0 {
            run_frames_ok(self)
        } else {
            let pa = self.actions.last();
            let s0 = StateModel { actions: self.actions.drop_last(), ..self };
            &&& s0.can_perform(pa)
            &&& (pa.action is PassPriority ==> run_frames_ok(s0.pass_priority()))
        }
    }

    /// One tick: the next pending action is performed (a land played is
    /// reported at once); then frames are evaluated until one reports an event.
    pub open spec fn tick_model(self) -> (StateModel, TickEvent) {
        if self.actions.len() == 0 {
            run_frames(self)
        } else {
            let pa = self.actions.last();
            let s0 = StateModel { actions: self.actions.drop_last(), ..self };
            match pa.action {
                PlayerAction::PlayLand(cid) => (
                    s0.play_land(pa.player, cid),
                    TickEvent::PlayCard(pa.player, cid),
                ),
                PlayerAction::PassPriority => run_frames(s0.pass_priority()),
            }
        }
    }
}

/// Cards made from the definitions `dids`, in order, with consecutive
/// identifiers starting at `first_id`.
pub open spec fn reify(dids: Seq<CardDefId>, first_id: nat) -> Seq<Card> {
    Seq::new(dids.len(), |k: int| Card { id: CardId((first_id + k) as u32), def: dids[k] })
}

/// How many cards the players before player `i` bring to the game.
pub open spec fn cards_before(configs: Seq<PlayerConfig>, i: int) -> nat
    decreases i,
{
    if i <= 0 {
        0
    } else {
        cards_before(configs, i - 1) + configs[i - 1].library@.len() + configs[i - 1].hand@.len()
    }
}

pub proof fn lemma_cards_before_monotonic(configs: Seq<PlayerConfig>, i: int, j: int)
    requires
        i <= j,
    ensures
        cards_before(configs, i) <= cards_before(configs, j),
    decreases j - i,
{
    if i < j {
        lemma_cards_before_monotonic(configs, i, j - 1);
    }
}

/// A player at the start of the game: their library and then their hand are
/// made into cards with consecutive identifiers from `first_id`; the other
/// zones are empty.
pub open spec fn initial_player(config: PlayerConfig, first_id: nat) -> PlayerModel {
    PlayerModel {
        library: reify(config.library@, first_id),
        hand: reify(config.hand@, first_id + config.library@.len()),
        ..PlayerModel::empty()
    }
}

/// The players at the start of the game, their cards numbered in the order
/// of the players.
pub open spec fn initial_players(configs: Seq<PlayerConfig>) -> Seq<PlayerModel> {
    Seq::new(configs.len(), |i: int| initial_player(configs[i], cards_before(configs, i)))
}

/// A well-formed state whose next action, if any, may be performed can tick.
pub proof fn lemma_tick_ok(s: StateModel)
    requires
        s.wf(),
        s.next_action_ok(),
    ensures
        s.tick_ok(),
{
    if s.actions.len() == 0 {
        lemma_run_frames_ok(s);
    } else {
        let s0 = StateModel { actions: s.actions.drop_last(), ..s };
        if s.actions.last().action is PassPriority {
            assert(s0.pass_priority().wf());
            lemma_run_frames_ok(s0.pass_priority());
        }
    }
}

} // verus!
