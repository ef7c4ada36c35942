//! Fixed sequences of steps (the phases of a turn, the steps of a phase) and
//! the stack frame that walks through one of them.

use crate::model::{PlayerModel, StateModel};
use crate::state::{player_views, MainPhase, Priority, StackFrame, State, TickEvent};
use vstd::prelude::*;

verus! {

/// A fixed, finite sequence of steps. Walking it emits an optional event when
/// a step begins, evaluates the step, emits an optional event when it ends,
/// and moves on to the next step.
pub trait Sequence: Sized + Copy {
    spec fn spec_first() -> Self;

    /// The first step of the sequence.
    fn first() -> (s: Self)
        ensures
            s == Self::spec_first(),
    ;

    spec fn spec_next(self) -> Option<Self>;

    /// The step after this one, if any.
    fn next(&self) -> (n: Option<Self>)
        ensures
            n == self.spec_next(),
    ;

    spec fn spec_eval(self, s: StateModel) -> (StateModel, Option<TickEvent>);

    /// Evaluating this step against `s` does not fail.
    spec fn spec_eval_ok(self, s: StateModel) -> bool;

    /// Evaluating a step leaves the state stack below it as it is: it can
    /// only push frames.
    proof fn lemma_eval_only_pushes(self, s: StateModel)
        ensures
            s.state_stack.is_prefix_of(self.spec_eval(s).0.state_stack),
    ;

    /// Evaluates this step against the game state.
    fn eval(&self, state: &mut State) -> (event: Option<TickEvent>)
        requires
            self.spec_eval_ok(old(state)@),
        ensures
            (final(state)@, event) == self.spec_eval(old(state)@),
    ;

    spec fn spec_begin_event(self) -> Option<TickEvent>;

    /// The event reported when this step begins.
    fn begin_event(&self) -> (event: Option<TickEvent>)
        ensures
            event == self.spec_begin_event(),
    ;

    spec fn spec_end_event(self) -> Option<TickEvent>;

    /// The event reported when this step ends.
    fn end_event(&self) -> (event: Option<TickEvent>)
        ensures
            event == self.spec_end_event(),
    ;

    spec fn spec_frame(frame: SequenceFrame<Self>) -> StackFrame;

    /// The state-stack frame that holds `frame`.
    fn frame(frame: SequenceFrame<Self>) -> (f: StackFrame)
        ensures
            f == Self::spec_frame(frame),
    ;
}

#[derive(Debug, Clone, Copy, PartialEq, Eq, Structural)]
pub enum SequenceStep {
    Begin,
    Eval,
    End,
}

#[derive(Debug, Clone, Copy)]
pub struct SequenceFrame<T> {
    pub seq: T,
    pub step: SequenceStep,
}

impl<T: Sequence> SequenceFrame<T> {
    pub open spec fn spec_begin() -> Self {
        SequenceFrame { seq: T::spec_first(), step: SequenceStep::Begin }
    }

    /// The frame at the beginning of the first step of the sequence.
    pub fn begin() -> (f: Self)
        ensures
            f == Self::spec_begin(),
    {
        SequenceFrame { seq: T::first(), step: SequenceStep::Begin }
    }

    /// What evaluating this frame does: a step begins (reporting its begin
    /// event), is evaluated, and ends (reporting its end event), with the frame
    /// for what comes next pushed back on the state stack each time.
    pub open spec fn spec_eval(self, s: StateModel) -> (StateModel, Option<TickEvent>) {
        match self.step {
            SequenceStep::Begin => (
                s.push_frame(T::spec_frame(SequenceFrame { seq: self.seq, step: SequenceStep::Eval })),
                self.seq.spec_begin_event(),
            ),
            SequenceStep::Eval => self.seq.spec_eval(
                s.push_frame(T::spec_frame(SequenceFrame { seq: self.seq, step: SequenceStep::End })),
            ),
            SequenceStep::End => (
                match self.seq.spec_next() {
                    Some(next) => s.push_frame(
                        T::spec_frame(SequenceFrame { seq: next, step: SequenceStep::Begin }),
                    ),
                    None => s,
                },
                self.seq.spec_end_event(),
            ),
        }
    }

    /// Evaluating this frame against `s` does not fail: that is only in
    /// question when the step itself is evaluated.
    pub open spec fn spec_eval_ok(self, s: StateModel) -> bool {
        self.step is Eval ==> self.seq.spec_eval_ok(
            s.push_frame(T::spec_frame(SequenceFrame { seq: self.seq, step: SequenceStep::End })),
        )
    }

    /// The frame that comes after this one in its sequence: a step's begin
    /// is followed by its evaluation, its evaluation by its end, and its end
    /// by the beginning of the next step, if there is one.
    pub open spec fn spec_after(self) -> Option<SequenceFrame<T>> {
        match self.step {
            SequenceStep::Begin => Some(SequenceFrame { seq: self.seq, step: SequenceStep::Eval }),
            SequenceStep::Eval => Some(SequenceFrame { seq: self.seq, step: SequenceStep::End }),
            SequenceStep::End => match self.seq.spec_next() {
                Some(next) => Some(SequenceFrame { seq: next, step: SequenceStep::Begin }),
                None => None,
            },
        }
    }

    pub fn eval(&self, state: &mut State) -> (event: Option<TickEvent>)
        requires
            self.spec_eval_ok(old(state)@),
        ensures
            (final(state)@, event) == self.spec_eval(old(state)@),
    {
        match self.step {
            SequenceStep::Begin => {
                state.push(T::frame(SequenceFrame { seq: self.seq, step: SequenceStep::Eval }));
                self.seq.begin_event()
            },
            SequenceStep::Eval => {
                state.push(T::frame(SequenceFrame { seq: self.seq, step: SequenceStep::End }));
                self.seq.eval(state)
            },
            SequenceStep::End => {
                if let Some(next) = self.seq.next() {
                    state.push(T::frame(SequenceFrame { seq: next, step: SequenceStep::Begin }));
                }
                self.seq.end_event()
            },
        }
    }
}

#[derive(Debug, Clone, Copy, PartialEq, Eq, Structural)]
pub enum Phase {
    Begin,
    PreCombat,
    Combat,
    PostCombat,
    End,
}

impl Phase {
    pub open spec fn spec_is_main(self) -> bool {
        self is PreCombat || self is PostCombat
    }

    /// Whether this is one of the two main phases.
    pub fn is_main(self) -> (b: bool)
        ensures
            b == self.spec_is_main(),
    {
        matches!(self, Phase::PreCombat | Phase::PostCombat)
    }
}

impl Sequence for Phase {
    open spec fn spec_first() -> Self {
        Phase::Begin
    }

    fn first() -> (s: Self) {
        Phase::Begin
    }

    open spec fn spec_next(self) -> Option<Phase> {
        match self {
            Phase::Begin => Some(Phase::PreCombat),
            Phase::PreCombat => Some(Phase::Combat),
            Phase::Combat => Some(Phase::PostCombat),
            Phase::PostCombat => Some(Phase::End),
            Phase::End => None,
        }
    }

    fn next(&self) -> (n: Option<Phase>) {
        match self {
            Phase::Begin => Some(Phase::PreCombat),
            Phase::PreCombat => Some(Phase::Combat),
            Phase::Combat => Some(Phase::PostCombat),
            Phase::PostCombat => Some(Phase::End),
            Phase::End => None,
        }
    }

    open spec fn spec_begin_event(self) -> Option<TickEvent> {
        Some(TickEvent::BeginPhase(self))
    }

    fn begin_event(&self) -> (event: Option<TickEvent>) {
        Some(TickEvent::BeginPhase(*self))
    }

    open spec fn spec_end_event(self) -> Option<TickEvent> {
        Some(TickEvent::EndPhase(self))
    }

    fn end_event(&self) -> (event: Option<TickEvent>) {
        Some(TickEvent::EndPhase(*self))
    }

    open spec fn spec_frame(frame: SequenceFrame<Self>) -> StackFrame {
        StackFrame::Phase(frame)
    }

    fn frame(frame: SequenceFrame<Self>) -> (f: StackFrame) {
        StackFrame::Phase(frame)
    }

    /// Entering a phase makes it the current phase and pushes what the phase
    /// consists of: the beginning steps, a main phase, the combat steps, or
    /// the end steps.
    open spec fn spec_eval(self, s: StateModel) -> (StateModel, Option<TickEvent>) {
        let s1 = StateModel { current_phase: self, ..s };
        (s1.push_frame(phase_body(self)), None)
    }

    open spec fn spec_eval_ok(self, s: StateModel) -> bool {
        true
    }

    proof fn lemma_eval_only_pushes(self, s: StateModel) {
        assert(s.state_stack.is_prefix_of(s.state_stack.push(phase_body(self))));
    }

    fn eval(&self, state: &mut State) -> (event: Option<TickEvent>) {
        state.current_phase = *self;
        match self {
            Phase::Begin => state.push_sequence::<BeginStep>(),
            Phase::PreCombat => state.push(StackFrame::MainPhase(MainPhase)),
            Phase::Combat => state.push_sequence::<CombatStep>(),
            Phase::PostCombat => state.push(StackFrame::MainPhase(MainPhase)),
            Phase::End => state.push_sequence::<EndStep>(),
        }
        None
    }
}

/// The frame that a phase pushes when it is evaluated.
pub open spec fn phase_body(p: Phase) -> StackFrame {
    match p {
        Phase::Begin => StackFrame::BeginStep(SequenceFrame::<BeginStep>::spec_begin()),
        Phase::PreCombat => StackFrame::MainPhase(MainPhase),
        Phase::Combat => StackFrame::CombatStep(SequenceFrame::<CombatStep>::spec_begin()),
        Phase::PostCombat => StackFrame::MainPhase(MainPhase),
        Phase::End => StackFrame::EndStep(SequenceFrame::<EndStep>::spec_begin()),
    }
}

#[derive(Debug, Clone, Copy, PartialEq, Eq, Structural)]
pub enum BeginStep {
    Untap,
    Upkeep,
    Draw,
}

impl Sequence for BeginStep {
    open spec fn spec_first() -> Self {
        BeginStep::Untap
    }

    fn first() -> (s: Self) {
        BeginStep::Untap
    }

    open spec fn spec_next(self) -> Option<BeginStep> {
        match self {
            BeginStep::Untap => Some(BeginStep::Upkeep),
            BeginStep::Upkeep => Some(BeginStep::Draw),
            BeginStep::Draw => None,
        }
    }

    fn next(&self) -> (n: Option<BeginStep>) {
        match self {
            BeginStep::Untap => Some(BeginStep::Upkeep),
            BeginStep::Upkeep => Some(BeginStep::Draw),
            BeginStep::Draw => None,
        }
    }

    open spec fn spec_begin_event(self) -> Option<TickEvent> {
        Some(TickEvent::BeginBeginStep(self))
    }

    fn begin_event(&self) -> (event: Option<TickEvent>) {
        Some(TickEvent::BeginBeginStep(*self))
    }

    open spec fn spec_end_event(self) -> Option<TickEvent> {
        Some(TickEvent::EndBeginStep(self))
    }

    fn end_event(&self) -> (event: Option<TickEvent>) {
        Some(TickEvent::EndBeginStep(*self))
    }

    open spec fn spec_frame(frame: SequenceFrame<Self>) -> StackFrame {
        StackFrame::BeginStep(frame)
    }

    fn frame(frame: SequenceFrame<Self>) -> (f: StackFrame) {
        StackFrame::BeginStep(frame)
    }

    /// The untap step runs the untap events; upkeep gives the current player
    /// priority; the draw step moves the top card of the current player's
    /// library to their hand, or, when the library is empty, reports that the
    /// player loses the game.
    open spec fn spec_eval(self, s: StateModel) -> (StateModel, Option<TickEvent>) {
        match self {
            BeginStep::Untap => (
                s.push_frame(StackFrame::UntapEvent(SequenceFrame::<UntapEvent>::spec_begin())),
                None,
            ),
            BeginStep::Upkeep => (s.push_frame(s.fresh_priority()), None),
            BeginStep::Draw => s.draw(),
        }
    }

    open spec fn spec_eval_ok(self, s: StateModel) -> bool {
        self is Draw ==> s.current_player < s.players.len()
    }

    proof fn lemma_eval_only_pushes(self, s: StateModel) {
        let fresh = s.fresh_priority();
        assert(s.state_stack.is_prefix_of(s.state_stack.push(fresh)));
        assert(s.state_stack.is_prefix_of(
            s.state_stack.push(StackFrame::UntapEvent(SequenceFrame::<UntapEvent>::spec_begin())),
        ));
        assert(s.state_stack.is_prefix_of(s.state_stack));
    }

    fn eval(&self, state: &mut State) -> (event: Option<TickEvent>) {
        match self {
            BeginStep::Untap => {
                state.push_sequence::<UntapEvent>();
                None
            },
            BeginStep::Upkeep => {
                let active = state.current_player;
                state.push(StackFrame::Priority(Priority { active, last_actor: None }));
                None
            },
            BeginStep::Draw => {
                let cp = state.current_player;
                let ghost players = state.players@;
                let drawn = state.players[cp].library.pop();
                match drawn {
                    None => {
                        assert(player_views(state.players@) =~= player_views(players));
                        Some(TickEvent::LoseGame(cp))
                    },
                    Some(draw) => {
                        let id = draw.id();
                        state.players[cp].hand.push(draw);
                        proof {
                            let pm = players[cp as int]@;
                            let post = PlayerModel {
                                library: pm.library.drop_last(),
                                hand: pm.hand.push(pm.library.last()),
                                ..pm
                            };
                            assert(player_views(state.players@) =~= player_views(players).update(cp as int, post));
                        }
                        state.push(StackFrame::Priority(Priority { active: cp, last_actor: None }));
                        Some(TickEvent::Draw(id))
                    },
                }
            },
        }
    }
}

#[derive(Debug, Clone, Copy, PartialEq, Eq, Structural)]
pub enum UntapEvent {
    Phasing,
    DayNight,
    SelectUntap,
    Untap,
}

impl Sequence for UntapEvent {
    open spec fn spec_first() -> Self {
        UntapEvent::Phasing
    }

    fn first() -> (s: Self) {
        UntapEvent::Phasing
    }

    open spec fn spec_next(self) -> Option<UntapEvent> {
        match self {
            UntapEvent::Phasing => Some(UntapEvent::DayNight),
            UntapEvent::DayNight => Some(UntapEvent::SelectUntap),
            UntapEvent::SelectUntap => Some(UntapEvent::Untap),
            UntapEvent::Untap => None,
        }
    }

    fn next(&self) -> (n: Option<UntapEvent>) {
        match self {
            UntapEvent::Phasing => Some(UntapEvent::DayNight),
            UntapEvent::DayNight => Some(UntapEvent::SelectUntap),
            UntapEvent::SelectUntap => Some(UntapEvent::Untap),
            UntapEvent::Untap => None,
        }
    }

    open spec fn spec_begin_event(self) -> Option<TickEvent> {
        None
    }

    fn begin_event(&self) -> (event: Option<TickEvent>) {
        None
    }

    open spec fn spec_end_event(self) -> Option<TickEvent> {
        None
    }

    fn end_event(&self) -> (event: Option<TickEvent>) {
        None
    }

    open spec fn spec_frame(frame: SequenceFrame<Self>) -> StackFrame {
        StackFrame::UntapEvent(frame)
    }

    fn frame(frame: SequenceFrame<Self>) -> (f: StackFrame) {
        StackFrame::UntapEvent(frame)
    }

    /// Phasing and day/night pass silently; selecting what to untap and the
    /// untap itself are reported.
    open spec fn spec_eval(self, s: StateModel) -> (StateModel, Option<TickEvent>) {
        match self {
            UntapEvent::Phasing => (s, None),
            UntapEvent::DayNight => (s, None),
            UntapEvent::SelectUntap => (s, Some(TickEvent::SelectUntap)),
            UntapEvent::Untap => (s, Some(TickEvent::Untap)),
        }
    }

    open spec fn spec_eval_ok(self, s: StateModel) -> bool {
        true
    }

    proof fn lemma_eval_only_pushes(self, s: StateModel) {
        assert(s.state_stack.is_prefix_of(s.state_stack));
    }

    fn eval(&self, _state: &mut State) -> (event: Option<TickEvent>) {
        match self {
            UntapEvent::Phasing => None,
            UntapEvent::DayNight => None,
            UntapEvent::SelectUntap => Some(TickEvent::SelectUntap),
            UntapEvent::Untap => Some(TickEvent::Untap),
        }
    }
}

#[derive(Debug, Clone, Copy, PartialEq, Eq, Structural)]
pub enum CombatStep {
    Begin,
    DeclareAttackers,
    DeclareBlockers,
    CombatDamage,
    End,
}

impl Sequence for CombatStep {
    open spec fn spec_first() -> Self {
        CombatStep::Begin
    }

    fn first() -> (s: Self) {
        CombatStep::Begin
    }

    open spec fn spec_next(self) -> Option<CombatStep> {
        match self {
            CombatStep::Begin => Some(CombatStep::DeclareAttackers),
            CombatStep::DeclareAttackers => Some(CombatStep::DeclareBlockers),
            CombatStep::DeclareBlockers => Some(CombatStep::CombatDamage),
            CombatStep::CombatDamage => Some(CombatStep::End),
            CombatStep::End => None,
        }
    }

    fn next(&self) -> (n: Option<CombatStep>) {
        match self {
            CombatStep::Begin => Some(CombatStep::DeclareAttackers),
            CombatStep::DeclareAttackers => Some(CombatStep::DeclareBlockers),
            CombatStep::DeclareBlockers => Some(CombatStep::CombatDamage),
            CombatStep::CombatDamage => Some(CombatStep::End),
            CombatStep::End => None,
        }
    }

    open spec fn spec_begin_event(self) -> Option<TickEvent> {
        None
    }

    fn begin_event(&self) -> (event: Option<TickEvent>) {
        None
    }

    open spec fn spec_end_event(self) -> Option<TickEvent> {
        None
    }

    fn end_event(&self) -> (event: Option<TickEvent>) {
        None
    }

    open spec fn spec_frame(frame: SequenceFrame<Self>) -> StackFrame {
        StackFrame::CombatStep(frame)
    }

    fn frame(frame: SequenceFrame<Self>) -> (f: StackFrame) {
        StackFrame::CombatStep(frame)
    }

    /// Each combat step is reported.
    open spec fn spec_eval(self, s: StateModel) -> (StateModel, Option<TickEvent>) {
        (s, Some(TickEvent::CombatStep(self)))
    }

    open spec fn spec_eval_ok(self, s: StateModel) -> bool {
        true
    }

    proof fn lemma_eval_only_pushes(self, s: StateModel) {
        assert(s.state_stack.is_prefix_of(s.state_stack));
    }

    fn eval(&self, _state: &mut State) -> (event: Option<TickEvent>) {
        Some(TickEvent::CombatStep(*self))
    }
}

#[derive(Debug, Clone, Copy, PartialEq, Eq, Structural)]
pub enum EndStep {
    End,
    Cleanup,
}

impl Sequence for EndStep {
    open spec fn spec_first() -> Self {
        EndStep::End
    }

    fn first() -> (s: Self) {
        EndStep::End
    }

    open spec fn spec_next(self) -> Option<EndStep> {
        match self {
            EndStep::End => Some(EndStep::Cleanup),
            EndStep::Cleanup => None,
        }
    }

    fn next(&self) -> (n: Option<EndStep>) {
        match self {
            EndStep::End => Some(EndStep::Cleanup),
            EndStep::Cleanup => None,
        }
    }

    open spec fn spec_begin_event(self) -> Option<TickEvent> {
        None
    }

    fn begin_event(&self) -> (event: Option<TickEvent>) {
        None
    }

    open spec fn spec_end_event(self) -> Option<TickEvent> {
        None
    }

    fn end_event(&self) -> (event: Option<TickEvent>) {
        None
    }

    open spec fn spec_frame(frame: SequenceFrame<Self>) -> StackFrame {
        StackFrame::EndStep(frame)
    }

    fn frame(frame: SequenceFrame<Self>) -> (f: StackFrame) {
        StackFrame::EndStep(frame)
    }

    /// Each end step is reported.
    open spec fn spec_eval(self, s: StateModel) -> (StateModel, Option<TickEvent>) {
        (s, Some(TickEvent::EndStep(self)))
    }

    open spec fn spec_eval_ok(self, s: StateModel) -> bool {
        true
    }

    proof fn lemma_eval_only_pushes(self, s: StateModel) {
        assert(s.state_stack.is_prefix_of(s.state_stack));
    }

    fn eval(&self, _state: &mut State) -> (event: Option<TickEvent>) {
        Some(TickEvent::EndStep(*self))
    }
}

} // verus!
