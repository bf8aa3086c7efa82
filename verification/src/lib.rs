//! Evaluation of FOMOD mod installer configurations: conditions, plugin
//! types, the selection wizard and the resulting install plan.
use vstd::prelude::*;

pub mod assoc;
pub mod condition;
pub mod config;
pub mod info;
pub mod installer;
pub mod paths;
pub mod sorting;
pub mod text;
pub mod version;

pub use condition::{EvalContext, Evaluate, FileState};
pub use config::ModuleConfig;
pub use info::FomodInfo;
pub use installer::analysis::{FileConflict, FileConflictSource, FlagImpact};
pub use installer::plan::{FileOperation, InstallPlan};
pub use installer::selection::SelectionError;
pub use installer::status::{CompletionStatus, ValidationHint};
pub use installer::Installer;

verus! {
}
