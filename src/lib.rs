//! A backend-agnostic harness for cryptographic microbenchmarks: size sweeps
//! with an adaptive repetition policy, execution-target selection and the
//! measurement protocol, as verified decision logic. The timed calls into a
//! backend are made by the driver that steps the protocol.

pub mod error;
pub mod operation;
pub mod run;
pub mod sweep;
pub mod target;

pub use error::HarnessError;
pub use operation::{Operation, fits_domain};
pub use sweep::{PlanEntry, SweepSpec, pow2_sizes, add_jitter};
pub use target::{Selector, SelectorModel, Target};
pub use run::{Action, Event, MeasurementRecord, Outcome, SweepRun};
