//! A single-node task orchestration engine: plans are trees of shell
//! commands composed in parallel or in series; materializing a plan gives
//! tasks with stable identifiers; a scheduler drives each task from
//! `Pending` to `Success` or `Failure`, and every command's output is kept
//! line by line for any number of readers.
//!
//! The library holds the engine's state and every decision the engine
//! makes. Spawning processes, waiting and serving requests are left to the
//! program around it, which reports what happened and carries out what the
//! library answers.

pub mod client;
pub mod error;
pub mod ident;
pub mod lines;
pub mod plans;
pub mod process;
pub mod server;
pub mod tasks;

pub use error::{Error, ExitStatus};
pub use lines::LineReader;
pub use plans::{CreatePlan, Plan, PlanSpec};
pub use process::{Output, OutputStream, Process, Pull};
pub use server::run::Runner;
pub use server::{Server, ServerError, ServerTask};
pub use tasks::{CreateTask, Task, TaskPlan, TaskSpec, TaskState, TaskStatus};
