//! A package manager core for native libraries: dependency resolution over a
//! registry of package descriptors, cache-aware fetch planning, and build
//! dispatch by declared build strategy.

pub mod dispatch;
pub mod fetch;
pub mod manager;
pub mod package;
pub mod registry;
pub mod resolver;

pub use dispatch::{BuildAction, plan_build};
pub use fetch::{Cache, CacheEntry, DownloadOutcome, FetchDecision, artifact_digest};
pub use manager::PackageManager;
pub use package::{BuildType, Package, PackageError};
pub use registry::Registry;
pub use resolver::{Resolver, resolve};
