//! Generic task registry: lifecycle of tasks whose content the business
//! layer defines (terminal-state protection, a limit on running tasks,
//! cancellation and garbage collection of finished tasks).

pub mod registry;
pub mod snapshot;
pub mod traits;

pub use registry::{RegisterError, TaskRegistry};
pub use snapshot::Snapshot;
pub use traits::{InflightWork, TaskEntry, TaskStatus};
