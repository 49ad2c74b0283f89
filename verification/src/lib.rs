//! Pub/sub hub (`EventBus`), pipeline stage decisions and the scenario logic
//! behind the `pubsub` command line, with their contracts proved by Verus.
//!
//! ## Patterns
//! - **Fan-out**: one Tokio broadcast channel per topic, many subscribers each.
//! - **Backpressure**: bounded channels between pipeline stages; each stage's
//!   next step is decided by the [`pipeline::Stage`] state machine.
//! - **Fan-in**: a merge stage forwards several inputs into one output.
//! - **Cooperative shutdown**: cancellation stops a waiting stage cleanly.

pub mod art;
pub mod bus;
mod channel;
pub mod error;
pub mod pipeline;
pub mod scenarios;
pub mod text;

pub use bus::{EventBus, InvalidCapacity};
pub use error::{PipelineError, PublishError};
pub use scenarios::{run_fanout_report, square_token, ScenarioError};
