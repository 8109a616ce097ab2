//! A run-book executor engine: stages of build, deploy and container actions,
//! resolved by name against resource listings and run stage after stage.

pub mod dispatch;
pub mod name_index;
pub mod runbook;
pub mod runner;

pub use dispatch::{aggregate_responses, check_response, first_failure, InvocationError, InvocationFailure};
pub use name_index::{names_to_ids, NameIndex, NameNotFound, ResourceEntry};
pub use runbook::{Action, CredsFile, MonitorFile, Namespace, Stage};
pub use runner::{Command, Phase, RunError, StageRunner};
