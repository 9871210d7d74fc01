//! Modou — reactive governance for Rust workspaces.
//!
//! A [`Constitution`] declared in Rust is the single source of truth. [`check`]
//! runs its boundaries against an observed Cargo workspace and returns an
//! [`Outcome`], whose exit code is `0` when clean (warn-only or fully baselined),
//! `1` for an enforced violation, and `2` for a constitution or scan error.
//!
//! Two reaction kinds, each with its own observation source:
//! - [`CrateBoundary`] over `cargo metadata`: deny external dependencies (with an
//!   optional allowlist), forbid a dependency on named crates, restrict to a
//!   closed allowlist, or restrict the dependencies on other workspace members;
//!   each over the normal, dev or build dependency table ([`DependencyKind`]).
//! - [`ModuleBoundary`] over the crate's own source: forbid one module from
//!   importing another, restrict a module's imports to an allowlist, or forbid a
//!   module from being imported by another; observed from the `use` declarations
//!   of the files reachable from the crate root through `mod` declarations.
//!
//! Each boundary carries a [`Severity`], and violations can be gated against a
//! [`Baseline`]. A check also reports its [`Coverage`] of the workspace. The
//! library decides; observing the workspace, reading and writing files and
//! printing are left to the caller.

#![allow(unused_imports)]

mod baseline;
mod imports;
mod json;
mod metadata;
mod model;
mod order;
mod paths;
mod projection;
mod reaction;
mod report;
mod runner;
mod sites;
mod strip;
mod text;
mod workspace;

pub mod prelude;

pub use baseline::{Baseline, apply_baseline};
pub use imports::imported_module_paths;
pub use json::Json;
pub use metadata::{external_normal_dependencies, find_package, normal_dependencies};
pub use model::{
    Boundary, Constitution, CrateBoundary, CrateBoundaryBuilder, CrateBoundaryDraft, CrateTarget,
    DependencyKind,
    DenyExternalDraft, ModuleBoundary, ModuleBoundaryBuilder, ModuleBoundaryDraft, ModuleRule,
    ModuleTargetDraft, Rule, Severity,
};
pub use projection::{
    boundary_json, constitution_json, constitution_text, report_json, severity_label,
};
pub use reaction::{check, coverage, file_module_path, source_manifests};
pub use report::{BoundaryKind, Coverage, Outcome, Report, Violation, ViolationId};
pub use runner::{
    Line, Request, Step, Stream, baseline_to_write, baseline_written, gate, listing,
    next_step, no_manifest_found, parse_args, report, report_violations, respond, usage,
};
pub use workspace::{CrateSources, SourceFile, Workspace};
