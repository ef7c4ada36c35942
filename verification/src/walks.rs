//! Walking a step sequence on the state stack when its steps push frames of
//! their own: once what a step pushed has been evaluated away, the next frame
//! of the sequence is on top, so the sequence is walked in order, each step
//! once, and then the stack is back to what lay beneath.

use crate::laws::{
    eval_top, eval_top_times, lemma_walk_ends, lemma_walk_steps, phases_walk_in_order,
    begin_steps_walk_in_order, sequence_frame_moves_on, steps_of, walk,
};
use crate::model::{eval_frame, StateModel};
use crate::sequence::{BeginStep, Phase, Sequence, SequenceFrame};
use crate::state::StackFrame;
use vstd::prelude::*;

verus! {

/// Evaluating any frame leaves the stack below it as it is.
proof fn lemma_eval_frame_prefix(frame: StackFrame, s: StateModel)
    ensures
        s.state_stack.is_prefix_of(eval_frame(frame, s).0.state_stack),
{
    match frame {
        StackFrame::Phase(f) => sequence_frame_moves_on(f, s),
        StackFrame::BeginStep(f) => sequence_frame_moves_on(f, s),
        StackFrame::UntapEvent(f) => sequence_frame_moves_on(f, s),
        StackFrame::CombatStep(f) => sequence_frame_moves_on(f, s),
        StackFrame::EndStep(f) => sequence_frame_moves_on(f, s),
        StackFrame::MainPhase(_) => {
            assert(s.state_stack.is_prefix_of(s.state_stack.push(s.fresh_priority())));
        },
        StackFrame::Priority(_) => {
            assert(s.state_stack.is_prefix_of(s.state_stack.push(frame)));
        },
    }
}

/// Evaluating the top frame of a stack higher than `q`, which `q` begins,
/// leaves a stack that `q` still begins.
proof fn lemma_eval_top_keeps_prefix(t: StateModel, q: Seq<StackFrame>)
    requires
        q.is_prefix_of(t.state_stack),
        t.state_stack.len() > q.len(),
    ensures
        q.is_prefix_of(eval_top(t).state_stack),
{
    lemma_eval_frame_prefix(t.state_stack.last(), t.pop_frame());
    assert(q.is_prefix_of(t.pop_frame().state_stack));
}

/// While the stack stays higher than `q`, evaluating top frames leaves `q`
/// at its bottom.
proof fn lemma_settled_prefix(s: StateModel, q: Seq<StackFrame>, a: nat, j: nat)
    requires
        q.is_prefix_of(eval_top_times(s, a).state_stack),
        a <= j,
        forall|k: nat| a <= k < j ==> #[trigger] eval_top_times(s, k).state_stack.len() > q.len(),
    ensures
        q.is_prefix_of(eval_top_times(s, j).state_stack),
    decreases j - a,
{
    if j > a {
        lemma_settled_prefix(s, q, a, (j - 1) as nat);
        lemma_eval_top_keeps_prefix(eval_top_times(s, (j - 1) as nat), q);
    }
}

/// The stack once the frame `g` of a sequence, on top of `stack`, has been
/// evaluated and whatever its step pushed has been evaluated away: the next
/// frame of the sequence on what lay beneath, or just what lay beneath after
/// the last step.
pub open spec fn resumed<T: Sequence>(stack: Seq<StackFrame>, g: SequenceFrame<T>) -> Seq<StackFrame> {
    match g.spec_after() {
        Some(next) => stack.drop_last().push(T::spec_frame(next)),
        None => stack.drop_last(),
    }
}

/// A frame of a sequence, once on top, is evaluated as the sequence frame
/// says.
pub open spec fn frames_evaluate<T: Sequence>() -> bool {
    forall|g: SequenceFrame<T>, t: StateModel| #[trigger] eval_frame(T::spec_frame(g), t) == g.spec_eval(t)
}

/// Popping and evaluating top frames from time `a` on, the stack is higher
/// than `height` until time `b`, when it has come down to `height`.
#[verifier::opaque]
pub open spec fn settles(s: StateModel, a: nat, b: nat, height: int) -> bool {
    &&& a < b
    &&& eval_top_times(s, b).state_stack.len() == height
    &&& forall|k: nat| a < k < b ==> #[trigger] eval_top_times(s, k).state_stack.len() > height
}

/// The height the stack comes back down to at the `j`-th moment of a walk
/// started on a stack of height `start` with `moments` moments: the starting
/// height, and below it at the last moment.
pub open spec fn walk_height(start: nat, moments: nat, j: int) -> int {
    if j + 1 < moments - 1 {
        start as int
    } else {
        start - 1
    }
}

/// Frame `g` of a sequence is on top at time `a`; from then on top frames are
/// popped and evaluated. The first time `b` after `a` at which the stack is
/// no higher than the stack `g` resumes to, it is that stack: the next frame
/// of the sequence lies on what lay beneath `g`, or, after the last step, the
/// stack is back to what lay beneath.
pub proof fn sequence_step_resumes<T: Sequence>(s: StateModel, g: SequenceFrame<T>, a: nat, b: nat)
    requires
        frames_evaluate::<T>(),
        eval_top_times(s, a).state_stack.len() > 0,
        eval_top_times(s, a).state_stack.last() == T::spec_frame(g),
        settles(s, a, b, resumed(eval_top_times(s, a).state_stack, g).len() as int),
    ensures
        eval_top_times(s, b).state_stack == resumed(eval_top_times(s, a).state_stack, g),
{
    reveal(settles);
    let t = eval_top_times(s, a);
    let q = resumed(t.state_stack, g);
    let base = t.state_stack.drop_last();
    assert(t.pop_frame().state_stack == base);
    sequence_frame_moves_on(g, t.pop_frame());
    let first = eval_top_times(s, a + 1);
    assert(first == eval_top(t));
    assert(first.state_stack == g.spec_eval(t.pop_frame()).0.state_stack);
    assert(q.is_prefix_of(first.state_stack)) by {
        match g.spec_after() {
            Some(next) => {
                assert forall|i: int| 0 <= i < q.len() implies q[i] == first.state_stack[i] by {
                    if i < base.len() {
                        assert(base.is_prefix_of(first.state_stack));
                        assert(base[i] == first.state_stack.subrange(0, base.len() as int)[i]);
                    }
                }
                assert(q =~= first.state_stack.subrange(0, q.len() as int));
            },
            None => {},
        }
    }
    assert forall|k: nat| a + 1 <= k < b implies #[trigger] eval_top_times(s, k).state_stack.len()
        > q.len() by {
        if k == a + 1 {
        }
    }
    lemma_settled_prefix(s, q, a + 1, b);
    let last = eval_top_times(s, b).state_stack;
    assert(last =~= q) by {
        assert(q =~= last.subrange(0, q.len() as int));
    }
}

proof fn lemma_walk_at<T: Sequence>(s: StateModel, fuel: nat, times: Seq<nat>, i: nat)
    requires
        frames_evaluate::<T>(),
        s.state_stack.len() > 0,
        s.state_stack.last() == T::spec_frame(SequenceFrame::<T>::spec_begin()),
        walk(Some(SequenceFrame::<T>::spec_begin()), fuel).len() < fuel,
        times.len() == walk(Some(SequenceFrame::<T>::spec_begin()), fuel).len() + 1,
        times[0] == 0,
        forall|j: int|
            0 <= j < times.len() - 1 ==> #[trigger] settles(
                s,
                times[j],
                times[j + 1],
                walk_height(s.state_stack.len(), times.len(), j),
            ),
        i < times.len() - 1,
    ensures
        eval_top_times(s, times[i as int]).state_stack == s.state_stack.drop_last().push(
            T::spec_frame(walk(Some(SequenceFrame::<T>::spec_begin()), fuel)[i as int]),
        ),
    decreases i,
{
    let w = walk(Some(SequenceFrame::<T>::spec_begin()), fuel);
    let base = s.state_stack.drop_last();
    if i == 0 {
        assert(w[0] == SequenceFrame::<T>::spec_begin());
        assert(eval_top_times(s, 0) == s);
        assert(s.state_stack =~= base.push(s.state_stack.last()));
    } else {
        let p = (i - 1) as nat;
        lemma_walk_at::<T>(s, fuel, times, p);
        lemma_walk_steps(SequenceFrame::<T>::spec_begin(), fuel, p as int);
        let before = eval_top_times(s, times[p as int]).state_stack;
        assert(before.drop_last() =~= base);
        assert(settles(s, times[p as int], times[p as int + 1], walk_height(s.state_stack.len(), times.len(), p as int)));
        sequence_step_resumes::<T>(s, w[p as int], times[p as int], times[i as int]);
    }
}

/// A step sequence is walked in order, each step once, even when its steps
/// push frames of their own. Put its first frame on a stack and pop and
/// evaluate top frames again and again. Let `times[i]` be the moments at
/// which the stack comes back down to its starting height, the last one the
/// moment it drops below it. That is, what each step pushed has been
/// evaluated away in between, and the stack stays higher meanwhile. Then at
/// `times[i]` the frame on top is the `i`-th frame of the walk of the
/// sequence, on what lay beneath, and at the last moment the stack is what
/// lay beneath.
pub proof fn sequence_walk<T: Sequence>(s: StateModel, fuel: nat, times: Seq<nat>)
    requires
        frames_evaluate::<T>(),
        s.state_stack.len() > 0,
        s.state_stack.last() == T::spec_frame(SequenceFrame::<T>::spec_begin()),
        walk(Some(SequenceFrame::<T>::spec_begin()), fuel).len() < fuel,
        times.len() == walk(Some(SequenceFrame::<T>::spec_begin()), fuel).len() + 1,
        times[0] == 0,
        forall|j: int|
            0 <= j < times.len() - 1 ==> #[trigger] settles(
                s,
                times[j],
                times[j + 1],
                walk_height(s.state_stack.len(), times.len(), j),
            ),
    ensures
        forall|i: int|
            0 <= i < times.len() - 1 ==> #[trigger] eval_top_times(s, times[i]).state_stack
                == s.state_stack.drop_last().push(
                T::spec_frame(walk(Some(SequenceFrame::<T>::spec_begin()), fuel)[i]),
            ),
        eval_top_times(s, times.last()).state_stack == s.state_stack.drop_last(),
{
    let w = walk(Some(SequenceFrame::<T>::spec_begin()), fuel);
    assert forall|i: int| 0 <= i < times.len() - 1 implies #[trigger] eval_top_times(s, times[i]).state_stack
        == s.state_stack.drop_last().push(T::spec_frame(w[i])) by {
        lemma_walk_at::<T>(s, fuel, times, i as nat);
    }
    lemma_walk_ends(SequenceFrame::<T>::spec_begin(), fuel);
    let p = (w.len() - 1) as nat;
    lemma_walk_at::<T>(s, fuel, times, p);
    let before = eval_top_times(s, times[p as int]).state_stack;
    assert(before.drop_last() =~= s.state_stack.drop_last());
    assert(settles(s, times[p as int], times[p as int + 1], walk_height(s.state_stack.len(), times.len(), p as int)));
    sequence_step_resumes::<T>(s, w[p as int], times[p as int], times.last());
}

/// The phases of a turn are walked in order, each once, frame by frame:
/// put the first phase on a stack and pop and evaluate top frames; at the
/// moments the stack comes back down to its starting height (what each phase
/// pushed having been evaluated away) the phases' begin, evaluation and end
/// come to the top in turn, and at the last moment the stack is back to what
/// lay beneath.
pub proof fn phases_walked_in_order(s: StateModel, times: Seq<nat>)
    requires
        s.state_stack.len() > 0,
        s.state_stack.last() == StackFrame::Phase(SequenceFrame::<Phase>::spec_begin()),
        times.len() == 16,
        times[0] == 0,
        forall|j: int|
            0 <= j < 15 ==> #[trigger] settles(
                s,
                times[j],
                times[j + 1],
                walk_height(s.state_stack.len(), 16, j),
            ),
    ensures
        forall|i: int|
            0 <= i < 15 ==> #[trigger] eval_top_times(s, times[i]).state_stack
                == s.state_stack.drop_last().push(StackFrame::Phase(steps_of(seq![Phase::Begin, Phase::PreCombat, Phase::Combat, Phase::PostCombat, Phase::End])[i])),
        eval_top_times(s, times[15]).state_stack == s.state_stack.drop_last(),
{
    phases_walk_in_order();
    reveal_with_fuel(steps_of, 6);
    assert(frames_evaluate::<Phase>());
    sequence_walk::<Phase>(s, 16, times);
}

/// The beginning steps are walked in order, each once, frame by frame, in the
/// same way: untap, upkeep and draw, each step's begin, evaluation and end,
/// and then the stack is back to what lay beneath.
pub proof fn begin_steps_walked_in_order(s: StateModel, times: Seq<nat>)
    requires
        s.state_stack.len() > 0,
        s.state_stack.last() == StackFrame::BeginStep(SequenceFrame::<BeginStep>::spec_begin()),
        times.len() == 10,
        times[0] == 0,
        forall|j: int|
            0 <= j < 9 ==> #[trigger] settles(
                s,
                times[j],
                times[j + 1],
                walk_height(s.state_stack.len(), 10, j),
            ),
    ensures
        forall|i: int|
            0 <= i < 9 ==> #[trigger] eval_top_times(s, times[i]).state_stack
                == s.state_stack.drop_last().push(StackFrame::BeginStep(steps_of(seq![BeginStep::Untap, BeginStep::Upkeep, BeginStep::Draw])[i])),
        eval_top_times(s, times[9]).state_stack == s.state_stack.drop_last(),
{
    begin_steps_walk_in_order();
    reveal_with_fuel(steps_of, 4);
    assert(frames_evaluate::<BeginStep>());
    sequence_walk::<BeginStep>(s, 10, times);
}

} // verus!
