//! The public facade for declaring a constitution and checking it.

pub use crate::model::{
    Boundary, Constitution, CrateBoundary, DependencyKind, ModuleBoundary, Rule, Severity,
};
pub use crate::reaction::check;
pub use crate::report::{BoundaryKind, Outcome, Report, Violation, ViolationId};
pub use crate::workspace::{CrateSources, SourceFile, Workspace};
