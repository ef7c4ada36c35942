//! What every state reached by play satisfies: the state stack has the shape
//! the turn structure gives it, and every priority frame names players that
//! exist. Ticks keep it, and on it a full round of passes ends priority.

use crate::model::{eval_frame, lemma_eval_frame_weight, lemma_eval_frame_wf, run_frames, stack_weight, StateModel};
use crate::sequence::{BeginStep, Phase};
use crate::laws::{lemma_passes_round, passes, priority_goes_round};
use crate::model::lemma_run_frames_ok;
use crate::state::{PendingAction, PlayerAction, PlayerId, Priority, StackFrame, TickEvent};
use vstd::arithmetic::div_mod::{lemma_mod_pos_bound, lemma_small_mod};
use vstd::prelude::*;

verus! {

/// The active player and the last actor of `p` are players among `n`.
pub open spec fn valid_priority(p: Priority, n: nat) -> bool {
    &&& p.active < n
    &&& match p.last_actor {
        Some(a) => a < n,
        None => true,
    }
}

/// What may lie on the end of phase `p`: a beginning step, a main phase or
/// its priority frame, a combat step, or an end step.
pub open spec fn phase_content_ok(p: Phase, f: StackFrame, n: nat) -> bool {
    match p {
        Phase::Begin => f is BeginStep,
        Phase::Combat => f is CombatStep,
        Phase::End => f is EndStep,
        _ => match f {
            StackFrame::MainPhase(_) => true,
            StackFrame::Priority(pr) => valid_priority(pr, n),
            _ => false,
        },
    }
}

/// What may lie on the end of beginning step `b`: an untap event, or the
/// priority frame of the upkeep or draw step.
pub open spec fn step_content_ok(b: BeginStep, f: StackFrame, n: nat) -> bool {
    match b {
        BeginStep::Untap => f is UntapEvent,
        _ => match f {
            StackFrame::Priority(pr) => valid_priority(pr, n),
            _ => false,
        },
    }
}

/// The state stack has the shape the turn structure gives it, for `n`
/// players: nothing, or a phase; above the end of a phase, one frame of what
/// the phase consists of; above the end of a beginning step, one frame of
/// what that step consists of.
pub open spec fn stack_shape_ok(st: Seq<StackFrame>, n: nat) -> bool {
    &&& st.len() <= 3
    &&& st.len() >= 1 ==> st[0] is Phase
    &&& st.len() >= 2 ==> match st[0] {
        StackFrame::Phase(pf) => pf.step is End && phase_content_ok(pf.seq, st[1], n),
        _ => false,
    }
    &&& st.len() == 3 ==> match st[1] {
        StackFrame::BeginStep(bf) => bf.step is End && step_content_ok(bf.seq, st[2], n),
        _ => false,
    }
}

/// The players named by `e`, if any, are among `n`.
pub open spec fn names_players(e: TickEvent, n: nat) -> bool {
    match e {
        TickEvent::Priority(p) => p < n,
        TickEvent::BeginTurn(p) => p < n,
        TickEvent::EndTurn(p) => p < n,
        TickEvent::PlayCard(p, _) => p < n,
        TickEvent::LoseGame(p) => p < n,
        _ => true,
    }
}

/// Once a phase has been entered (its end frame lies at the bottom of the
/// stack) it is the current phase.
pub open spec fn phase_tracked(st: Seq<StackFrame>, current: Phase) -> bool {
    st.len() >= 1 ==> match st[0] {
        StackFrame::Phase(pf) => pf.step is End ==> current == pf.seq,
        _ => true,
    }
}

/// A priority frame in which nobody has acted yet belongs to the current
/// player.
pub open spec fn fresh_priority_current(st: Seq<StackFrame>, current: PlayerId) -> bool {
    forall|i: int|
        0 <= i < st.len() ==> match #[trigger] st[i] {
            StackFrame::Priority(p) => p.last_actor is None ==> p.active == current,
            _ => true,
        }
}

impl StateModel {
    /// The state is well formed and its state stack has the shape the turn
    /// structure gives it, every priority frame naming existing players; the
    /// phase being played is the current phase, and a priority frame nobody
    /// has acted in yet belongs to the current player.
    pub open spec fn is_consistent(self) -> bool {
        &&& self.wf()
        &&& stack_shape_ok(self.state_stack, self.players.len())
        &&& phase_tracked(self.state_stack, self.current_phase)
        &&& fresh_priority_current(self.state_stack, self.current_player)
    }
}

/// Evaluating the top frame of a consistent state keeps it consistent, and
/// the players it names exist.
proof fn lemma_eval_top_consistent(s: StateModel)
    requires
        s.is_consistent(),
        s.state_stack.len() > 0,
    ensures
        eval_frame(s.state_stack.last(), s.pop_frame()).0.is_consistent(),
        eval_frame(s.state_stack.last(), s.pop_frame()).1 matches Some(e) ==> names_players(
            e,
            s.players.len(),
        ),
{
    let st = s.state_stack;
    let f = st.last();
    let p = s.pop_frame();
    lemma_eval_frame_wf(f, p);
    let r = eval_frame(f, p);
    assert(p.state_stack =~= st.drop_last());
}

/// Running frames from a consistent state ends in a consistent state, with an
/// event that names existing players.
proof fn lemma_run_frames_consistent(s: StateModel)
    requires
        s.is_consistent(),
    ensures
        run_frames(s).0.is_consistent(),
        names_players(run_frames(s).1, s.players.len()),
        run_frames(s).0.players.len() == s.players.len(),
    decreases stack_weight(s.state_stack),
{
    if s.state_stack.len() == 0 {
        vstd::arithmetic::div_mod::lemma_mod_pos_bound(s.current_player + 1, s.players.len() as int);
    } else {
        let f = s.state_stack.last();
        lemma_eval_frame_weight(f, s.pop_frame());
        lemma_eval_frame_wf(f, s.pop_frame());
        lemma_eval_top_consistent(s);
        let r = eval_frame(f, s.pop_frame());
        if r.1 is None {
            lemma_run_frames_consistent(r.0);
        }
    }
}

/// Passing priority, by the player who holds it, keeps a consistent state
/// consistent.
proof fn lemma_pass_priority_consistent(s: StateModel)
    requires
        s.is_consistent(),
        s.top_priority() is Some,
    ensures
        s.pass_priority().is_consistent(),
{
    let n = s.players.len() as int;
    let p = s.top_priority()->0;
    vstd::arithmetic::div_mod::lemma_mod_pos_bound(p.active + 1, n);
    assert(s.state_stack.len() >= 2);
    assert(s.pass_priority().state_stack.len() == s.state_stack.len() || s.pass_priority().state_stack
        =~= s.state_stack.drop_last());
}

/// A tick keeps a consistent state consistent, and the players its event
/// names exist: every priority frame, and every priority event, names a
/// player of the game.
pub proof fn tick_keeps_consistent(s: StateModel)
    requires
        s.is_consistent(),
        s.tick_ok(),
    ensures
        s.tick_model().0.is_consistent(),
        names_players(s.tick_model().1, s.players.len()),
        s.tick_model().0.players.len() == s.players.len(),
{
    if s.actions.len() == 0 {
        lemma_run_frames_consistent(s);
    } else {
        let pa = s.actions.last();
        let s0 = StateModel { actions: s.actions.drop_last(), ..s };
        match pa.action {
            PlayerAction::PlayLand(cid) => {},
            PlayerAction::PassPriority => {
                lemma_pass_priority_consistent(s0);
                lemma_run_frames_consistent(s0.pass_priority());
            },
        }
    }
}

/// The state with player `player` passing priority, behind whatever is
/// already pending.
pub open spec fn with_pass(s: StateModel, player: PlayerId) -> StateModel {
    StateModel {
        actions: seq![PendingAction { player, action: PlayerAction::PassPriority }] + s.actions,
        ..s
    }
}

/// A round of priority played out tick by tick: the `k`-th time, player
/// `(c + k - 1) % n` passes and the game ticks. The state and the event of
/// the last tick.
pub open spec fn round(s: StateModel, c: int, k: nat) -> (StateModel, TickEvent)
    decreases k,
{
    if k == 0 {
        (s, TickEvent::Priority(c as usize))
    } else {
        with_pass(
            round(s, c, (k - 1) as nat).0,
            ((c + k - 1) % (s.players.len() as int)) as usize,
        ).tick_model()
    }
}

proof fn lemma_round_before_end(s: StateModel, c: usize, k: nat)
    requires
        s.is_consistent(),
        s.players.len() >= 2,
        s.actions.len() == 0,
        s.top_priority() == Some(Priority { active: c, last_actor: None }),
        k < s.players.len(),
    ensures
        round(s, c as int, k).0 == passes(s, k),
        k >= 1 ==> round(s, c as int, k).1 == TickEvent::Priority(
            ((c + k) % (s.players.len() as int)) as usize,
        ),
        with_pass(round(s, c as int, k).0, ((c + k) % (s.players.len() as int)) as usize).tick_ok(),
    decreases k,
{
    let n = s.players.len() as int;
    let holder = ((c + k) % n) as usize;
    lemma_mod_pos_bound(c + k, n);
    if k >= 1 {
        lemma_round_before_end(s, c, (k - 1) as nat);
        lemma_passes_round(s, c, k);
        let prev = passes(s, (k - 1) as nat);
        let q = with_pass(prev, ((c + k - 1) % n) as usize);
        assert(q.actions.drop_last() =~= prev.actions);
        assert(StateModel { actions: q.actions.drop_last(), ..q } == prev);
        let cur = passes(s, k);
        assert(cur.pop_frame().push_frame(cur.state_stack.last()) == cur) by {
            assert(cur.state_stack.drop_last().push(cur.state_stack.last()) =~= cur.state_stack);
        }
    } else {
        lemma_small_mod(c as nat, n as nat);
        assert(passes(s, 0) == s);
    }
    let now = round(s, c as int, k).0;
    if k >= 1 {
        lemma_passes_round(s, c, k);
    }
    assert(now.wf());
    let q = with_pass(now, holder);
    assert(q.actions.drop_last() =~= now.actions);
    assert(StateModel { actions: q.actions.drop_last(), ..q } == now);
    assert(now.pass_priority().wf());
    lemma_run_frames_ok(now.pass_priority());
}

/// A round of priority over ticks: in a consistent state where player `c`
/// has just got priority and nothing is pending, let each player in turn,
/// starting with `c`, pass and the game tick. Every pass is allowed; the
/// first `n - 1` ticks give priority to the next player in turn order; and
/// after the `n`-th, priority has ended: no priority frame is left on the
/// state stack, and the state is still consistent.
pub proof fn priority_round_over_ticks(s: StateModel, c: usize)
    requires
        s.is_consistent(),
        s.players.len() >= 2,
        s.actions.len() == 0,
        s.top_priority() == Some(Priority { active: c, last_actor: None }),
    ensures
        forall|k: nat|
            1 <= k <= s.players.len() ==> #[trigger] with_pass(
                round(s, c as int, (k - 1) as nat).0,
                ((c + k - 1) % (s.players.len() as int)) as usize,
            ).tick_ok(),
        forall|k: nat|
            1 <= k < s.players.len() ==> #[trigger] round(s, c as int, k).1 == TickEvent::Priority(
                ((c + k) % (s.players.len() as int)) as usize,
            ),
        forall|i: int|
            0 <= i < round(s, c as int, s.players.len() as nat).0.state_stack.len() ==> !(#[trigger] round(
                s,
                c as int,
                s.players.len() as nat,
            ).0.state_stack[i] is Priority),
        round(s, c as int, s.players.len() as nat).0.is_consistent(),
{
    let n = s.players.len() as int;
    assert forall|k: nat| 1 <= k <= n implies #[trigger] with_pass(
        round(s, c as int, (k - 1) as nat).0,
        ((c + k - 1) % n) as usize,
    ).tick_ok() by {
        lemma_round_before_end(s, c, (k - 1) as nat);
    }
    assert forall|k: nat| 1 <= k < n implies #[trigger] round(s, c as int, k).1 == TickEvent::Priority(
        ((c + k) % n) as usize,
    ) by {
        lemma_round_before_end(s, c, k);
    }
    let last = (n - 1) as nat;
    lemma_round_before_end(s, c, last);
    priority_goes_round(s, c);
    assert(passes(s, n as nat) == passes(s, last).pass_priority());
    let prev = passes(s, last);
    let q = with_pass(prev, ((c + n - 1) % n) as usize);
    assert(q.actions.drop_last() =~= prev.actions);
    assert(StateModel { actions: q.actions.drop_last(), ..q } == prev);
    let t = s.pop_frame();
    assert(t.state_stack =~= s.state_stack.drop_last());
    assert(t.is_consistent());
    lemma_run_frames_consistent(t);
}

/// Inputting an action leaves the state stack and the players as they are,
/// so a consistent state stays consistent.
pub proof fn input_keeps_consistent(s: StateModel, pa: PendingAction)
    ensures
        (StateModel { actions: seq![pa] + s.actions, ..s }).is_consistent() == s.is_consistent(),
{
}

} // verus!
