//! A registry of named countdown timers.
//!
//! Each timer has a name, a configured duration, and an optional running
//! state (the instant it was last started).  The registry keeps timers in
//! insertion order and is the single place where timers are created,
//! restarted, edited, deleted, and looked up.  Timer definitions persist
//! across restarts as a JSON array; the running state is transient and never
//! persisted.  Input triggers are routed to timers through identifiers
//! derived from the timer names.

pub mod binding;
pub mod codec;
pub mod present;
pub mod registry;
pub mod text;
pub mod timer;

pub use registry::Registry;
pub use registry::TimerRecord;
pub use timer::Dur;
pub use timer::Timer;
