//! Build dispatch: which concrete action each declared build strategy maps
//! to. Only `CMake` packages ever reach the native build backend; the other
//! strategies stay local or run the carried script.

use vstd::prelude::*;
use crate::package::{BuildType, BuildTypeView, Package, PackageView};

verus! {

/// The single concrete step a build of one package performs.
#[derive(Debug)]
pub enum BuildAction {
    /// Hand the package to the native build backend, which answers with an
    /// integer status (zero for success).
    InvokeBackend { package_name: String },
    /// Copy the package's headers from its fetched source into the cache's
    /// include path; no external process is involved.
    CopyHeaders { package_name: String },
    /// Run the given script as a scoped subprocess.
    RunScript { script: String },
}

/// Mathematical value of a [`BuildAction`].
pub enum BuildActionView {
    InvokeBackend { package_name: Seq<char> },
    CopyHeaders { package_name: Seq<char> },
    RunScript { script: Seq<char> },
}

impl View for BuildAction {
    type V = BuildActionView;

    open spec fn view(&self) -> BuildActionView {
        match self {
            BuildAction::InvokeBackend { package_name } => BuildActionView::InvokeBackend {
                package_name: package_name@,
            },
            BuildAction::CopyHeaders { package_name } => BuildActionView::CopyHeaders {
                package_name: package_name@,
            },
            BuildAction::RunScript { script } => BuildActionView::RunScript { script: script@ },
        }
    }
}

/// The action that a descriptor's declared build type calls for.
pub open spec fn build_action_of(p: PackageView) -> BuildActionView {
    match p.build_type {
        BuildTypeView::CMake => BuildActionView::InvokeBackend { package_name: p.name },
        BuildTypeView::HeaderOnly => BuildActionView::CopyHeaders { package_name: p.name },
        BuildTypeView::Custom(script) => BuildActionView::RunScript { script: script },
    }
}

/// Dispatches one package to its build strategy.
pub fn plan_build(package: &Package) -> (a: BuildAction)
    ensures
        a@ == build_action_of(package@),
{
    match &package.build_type {
        BuildType::CMake => BuildAction::InvokeBackend { package_name: package.name.clone() },
        BuildType::HeaderOnly => BuildAction::CopyHeaders { package_name: package.name.clone() },
        BuildType::Custom(script) => BuildAction::RunScript { script: script.clone() },
    }
}

/// A header-only package build never invokes the build backend capability.
pub proof fn lemma_header_only_never_backend(p: PackageView)
    requires
        p.build_type is HeaderOnly,
    ensures
        !(build_action_of(p) is InvokeBackend),
{
}

/// A custom package build runs the subprocess with exactly the script content
/// carried by its descriptor.
pub proof fn lemma_custom_runs_carried_script(p: PackageView, script: Seq<char>)
    requires
        p.build_type == BuildTypeView::Custom(script),
    ensures
        build_action_of(p) == (BuildActionView::RunScript { script }),
{
}

} // verus!
