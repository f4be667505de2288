//! Monte-Carlo estimation of the time to failure of a repairable system
//! described by a fault tree: gates over independently failing and repaired
//! basic events, driven by a time-ordered event schedule.

mod law;
pub mod element;
pub mod ids;
pub mod laws;
pub mod schedule;
pub mod tree;
pub mod trial;

pub use element::{BasicEvent, Children, Element, ElementKind, GateAnd, GateOr, GateVote, LawError, Status};
pub use ids::IDGenerator;
pub use law::Law;
pub use schedule::{EventKind, EventTime, Schedule, ScheduleError};
pub use tree::{FtError, FT};
pub use trial::{finish_trial, process_next, schedule_failure, schedule_repair, Step, TrialError};
