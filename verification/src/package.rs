//! Package descriptors, build strategies, and the error taxonomy.

use vstd::prelude::*;

verus! {

/// The strategy used to turn a package's source into an installed artifact.
#[derive(Debug)]
pub enum BuildType {
    /// Delegate to the native build backend.
    CMake,
    /// Purely local: copy headers into the cache's include path.
    HeaderOnly,
    /// Run the carried build script as a scoped subprocess.
    Custom(String),
}

/// Mathematical value of a [`BuildType`].
pub enum BuildTypeView {
    CMake,
    HeaderOnly,
    Custom(Seq<char>),
}

impl View for BuildType {
    type V = BuildTypeView;

    open spec fn view(&self) -> BuildTypeView {
        match self {
            BuildType::CMake => BuildTypeView::CMake,
            BuildType::HeaderOnly => BuildTypeView::HeaderOnly,
            BuildType::Custom(s) => BuildTypeView::Custom(s@),
        }
    }
}

impl DeepView for BuildType {
    type V = BuildTypeView;

    open spec fn deep_view(&self) -> BuildTypeView {
        self.view()
    }
}

impl Clone for BuildType {
    fn clone(&self) -> (res: Self)
        ensures
            res@ == self@,
    {
        match self {
            BuildType::CMake => BuildType::CMake,
            BuildType::HeaderOnly => BuildType::HeaderOnly,
            BuildType::Custom(s) => BuildType::Custom(s.clone()),
        }
    }
}

/// An immutable record identifying a package and its declared dependencies,
/// source location, and build type. `name` is the unique key; `version` is
/// informational and plays no part in resolution.
#[derive(Debug)]
pub struct Package {
    pub name: String,
    pub version: String,
    pub dependencies: Vec<String>,
    pub source_url: String,
    pub build_type: BuildType,
}

/// Mathematical value of a [`Package`].
pub struct PackageView {
    pub name: Seq<char>,
    pub version: Seq<char>,
    pub dependencies: Seq<Seq<char>>,
    pub source_url: Seq<char>,
    pub build_type: BuildTypeView,
}

impl View for Package {
    type V = PackageView;

    open spec fn view(&self) -> PackageView {
        PackageView {
            name: self.name@,
            version: self.version@,
            dependencies: self.dependencies.deep_view(),
            source_url: self.source_url@,
            build_type: self.build_type@,
        }
    }
}

impl DeepView for Package {
    type V = PackageView;

    open spec fn deep_view(&self) -> PackageView {
        self.view()
    }
}

impl Clone for Package {
    fn clone(&self) -> (res: Self)
        ensures
            res@ == self@,
    {
        let res = Package {
            name: self.name.clone(),
            version: self.version.clone(),
            dependencies: clone_names(&self.dependencies),
            source_url: self.source_url.clone(),
            build_type: self.build_type.clone(),
        };
        proof {
            assert(res@.dependencies =~= self@.dependencies);
        }
        res
    }
}

/// Clones a list of names, preserving its mathematical value.
fn clone_names(names: &Vec<String>) -> (res: Vec<String>)
    ensures
        res.deep_view() == names.deep_view(),
{
    let mut res: Vec<String> = Vec::new();
    let mut i: usize = 0;
    while i < names.len()
        invariant
            i <= names.len(),
            res@ =~= names@.take(i as int),
        decreases names.len() - i,
    {
        res.push(names[i].clone());
        i = i + 1;
    }
    proof {
        assert(res@ =~= names@);
    }
    res
}

/// What can go wrong across the pipeline. Transport and filesystem failures
/// originate outside the core and arrive here carrying their message.
#[derive(Debug)]
pub enum PackageError {
    /// Transient transport failure while talking to the registry or a source host.
    Network(String),
    /// Filesystem failure during a local build step.
    Io(String),
    /// A build step failed for the named package.
    BuildFailed(String),
    /// A registry lookup failed during dependency traversal.
    DependencyResolution,
}

/// Mathematical value of a [`PackageError`].
pub enum PackageErrorView {
    Network(Seq<char>),
    Io(Seq<char>),
    BuildFailed(Seq<char>),
    DependencyResolution,
}

impl View for PackageError {
    type V = PackageErrorView;

    open spec fn view(&self) -> PackageErrorView {
        match self {
            PackageError::Network(s) => PackageErrorView::Network(s@),
            PackageError::Io(s) => PackageErrorView::Io(s@),
            PackageError::BuildFailed(s) => PackageErrorView::BuildFailed(s@),
            PackageError::DependencyResolution => PackageErrorView::DependencyResolution,
        }
    }
}

impl DeepView for PackageError {
    type V = PackageErrorView;

    open spec fn deep_view(&self) -> PackageErrorView {
        self.view()
    }
}

impl Clone for PackageError {
    fn clone(&self) -> (res: Self)
        ensures
            res@ == self@,
    {
        match self {
            PackageError::Network(s) => PackageError::Network(s.clone()),
            PackageError::Io(s) => PackageError::Io(s.clone()),
            PackageError::BuildFailed(s) => PackageError::BuildFailed(s.clone()),
            PackageError::DependencyResolution => PackageError::DependencyResolution,
        }
    }
}

impl PackageError {
    /// A short human-readable description of the error.
    pub fn describe(&self) -> String {
        match self {
            PackageError::Network(s) => String::from_str("network error: ").concat(s.as_str()),
            PackageError::Io(s) => String::from_str("io error: ").concat(s.as_str()),
            PackageError::BuildFailed(s) => String::from_str("build failed for package: ").concat(
                s.as_str(),
            ),
            PackageError::DependencyResolution => String::from_str(
                "dependency resolution failed",
            ),
        }
    }
}

} // verus!
