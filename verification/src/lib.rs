//! A rules engine for a trading card game: card definitions, the players'
//! zones, and the turn structure driven one tick at a time.

pub mod card;
pub mod game;
pub mod reachable;
pub mod rules;
pub mod laws;
pub mod cards;
pub mod model;
pub mod sequence;
pub mod state;
pub mod walks;

pub use sequence::{
    BeginStep, CombatStep, EndStep, Phase, Sequence, SequenceFrame, SequenceStep, UntapEvent,
};
pub use state::{
    MainPhase, PendingAction, PermanentId, Player, PlayerAction, PlayerConfig, PlayerId, Priority,
    StackFrame, State, TickEvent,
};
