use cpppm::{
    artifact_digest, plan_build, resolve, BuildAction, BuildType, Cache, DownloadOutcome,
    FetchDecision, Package, PackageError, PackageManager, Registry, Resolver,
};

fn pkg(name: &str, deps: &[&str], build_type: BuildType) -> Package {
    Package {
        name: name.to_string(),
        version: "1.0.0".to_string(),
        dependencies: deps.iter().map(|d| d.to_string()).collect(),
        source_url: format!("https://example.invalid/{}", name),
        build_type,
    }
}

fn registry_of(packages: Vec<Package>) -> Registry {
    let mut registry = Registry::new();
    for p in packages {
        assert!(registry.add(p));
    }
    registry
}

fn names_of(packages: &[Package]) -> Vec<String> {
    packages.iter().map(|p| p.name.clone()).collect()
}

fn count_name(packages: &[Package], name: &str) -> usize {
    packages.iter().filter(|p| p.name == name).count()
}

#[test]
fn resolve_transitive_set() {
    // root R depends on [A, B]; A depends on [C]; B and C have none
    let registry = registry_of(vec![
        pkg("R", &["A", "B"], BuildType::CMake),
        pkg("A", &["C"], BuildType::CMake),
        pkg("B", &[], BuildType::HeaderOnly),
        pkg("C", &[], BuildType::HeaderOnly),
    ]);
    let out = resolve(&registry, &"R".to_string()).unwrap();
    assert_eq!(out.len(), 4);
    for name in ["R", "A", "B", "C"] {
        assert_eq!(count_name(&out, name), 1);
    }
}

#[test]
fn resolve_diamond_dedup() {
    // A and B share the dependency C: C comes out exactly once
    let registry = registry_of(vec![
        pkg("R", &["A", "B"], BuildType::CMake),
        pkg("A", &["C"], BuildType::CMake),
        pkg("B", &["C"], BuildType::CMake),
        pkg("C", &[], BuildType::HeaderOnly),
    ]);
    let out = resolve(&registry, &"R".to_string()).unwrap();
    assert_eq!(out.len(), 4);
    assert_eq!(count_name(&out, "C"), 1);
}

#[test]
fn resolve_cycle_terminates() {
    let registry = registry_of(vec![
        pkg("A", &["B"], BuildType::CMake),
        pkg("B", &["A"], BuildType::CMake),
    ]);
    let out = resolve(&registry, &"A".to_string()).unwrap();
    assert_eq!(out.len(), 2);
    assert_eq!(count_name(&out, "A"), 1);
    assert_eq!(count_name(&out, "B"), 1);
}

#[test]
fn resolve_self_cycle_terminates() {
    let registry = registry_of(vec![pkg("A", &["A"], BuildType::CMake)]);
    let out = resolve(&registry, &"A".to_string()).unwrap();
    assert_eq!(names_of(&out), vec!["A".to_string()]);
}

#[test]
fn resolve_single_package() {
    let registry = registry_of(vec![pkg("solo", &[], BuildType::HeaderOnly)]);
    let out = resolve(&registry, &"solo".to_string()).unwrap();
    assert_eq!(out.len(), 1);
    assert_eq!(out[0].name, "solo");
    assert_eq!(out[0].version, "1.0.0");
}

#[test]
fn resolve_missing_dependency_fails() {
    let registry = registry_of(vec![pkg("R", &["ghost"], BuildType::CMake)]);
    let r = resolve(&registry, &"R".to_string());
    assert!(matches!(r, Err(PackageError::DependencyResolution)));
}

#[test]
fn resolve_missing_root_fails() {
    let registry = Registry::new();
    let r = resolve(&registry, &"R".to_string());
    assert!(matches!(r, Err(PackageError::DependencyResolution)));
}

#[test]
fn registry_add_rejects_duplicate_name() {
    let mut registry = Registry::new();
    assert!(registry.add(pkg("A", &[], BuildType::CMake)));
    assert!(!registry.add(pkg("A", &[], BuildType::HeaderOnly)));
}

#[test]
fn registry_lookup_finds_descriptor() {
    let registry = registry_of(vec![pkg("A", &["B"], BuildType::CMake)]);
    let found = registry.lookup(&"A".to_string()).unwrap();
    assert_eq!(found.dependencies, vec!["B".to_string()]);
    assert!(registry.lookup(&"B".to_string()).is_none());
}

#[test]
fn resolver_steps_visit_each_name_once() {
    let mut resolver = Resolver::new("R".to_string());
    let name = resolver.pop_pending().unwrap();
    assert_eq!(name, "R");
    assert!(!resolver.is_visited(&name));
    resolver.record(pkg("R", &["A", "A"], BuildType::CMake));
    assert!(resolver.is_visited(&"R".to_string()));
    let first = resolver.pop_pending().unwrap();
    assert_eq!(first, "A");
    resolver.record(pkg("A", &[], BuildType::CMake));
    // the second queued "A" is skipped by the visited guard
    let second = resolver.pop_pending().unwrap();
    assert!(resolver.is_visited(&second));
    assert!(resolver.pop_pending().is_none());
    let out = resolver.into_packages();
    assert_eq!(names_of(&out), vec!["R".to_string(), "A".to_string()]);
}

#[test]
fn plan_build_cmake_invokes_backend() {
    let a = plan_build(&pkg("R", &[], BuildType::CMake));
    match a {
        BuildAction::InvokeBackend { package_name } => assert_eq!(package_name, "R"),
        _ => panic!("CMake must go to the backend"),
    }
}

#[test]
fn plan_build_header_only_never_invokes_backend() {
    let a = plan_build(&pkg("H", &[], BuildType::HeaderOnly));
    assert!(!matches!(a, BuildAction::InvokeBackend { .. }));
    match a {
        BuildAction::CopyHeaders { package_name } => assert_eq!(package_name, "H"),
        _ => panic!("header-only builds copy headers"),
    }
}

#[test]
fn plan_build_custom_runs_carried_script() {
    let a = plan_build(&pkg("C", &[], BuildType::Custom("make -j2 install".to_string())));
    match a {
        BuildAction::RunScript { script } => assert_eq!(script, "make -j2 install"),
        _ => panic!("custom builds run the carried script"),
    }
}

#[test]
fn artifact_digest_of_empty_is_zero() {
    assert_eq!(artifact_digest(&Vec::new()), 0);
}

#[test]
fn artifact_digest_exact_value() {
    // 0*31 + 1 = 1, then 1*31 + 2 = 33
    assert_eq!(artifact_digest(&vec![1u8, 2u8]), 33);
    assert_eq!(artifact_digest(&vec![0u8]), 0);
    assert_eq!(artifact_digest(&vec![7u8]), 7);
}

#[test]
fn cache_validation_is_keyed_by_name_version_digest() {
    let mut cache = Cache::new();
    cache.store("A".to_string(), "1.0.0".to_string(), 33);
    assert!(cache.contains_valid(&"A".to_string(), &"1.0.0".to_string(), 33));
    assert!(!cache.contains_valid(&"A".to_string(), &"1.0.0".to_string(), 34));
    assert!(!cache.contains_valid(&"A".to_string(), &"2.0.0".to_string(), 33));
    assert!(!cache.contains_valid(&"B".to_string(), &"1.0.0".to_string(), 33));
}

#[test]
fn manager_new_holds_locations() {
    let pm = PackageManager::new("/tmp/cache".to_string(), "https://registry.invalid".to_string());
    assert_eq!(pm.cache_dir().as_str(), "/tmp/cache");
    assert_eq!(pm.registry_url().as_str(), "https://registry.invalid");
    assert!(!pm.is_installed(&"anything".to_string()));
}

#[test]
fn download_packages_collects_in_order() {
    let mut pm = PackageManager::new("c".to_string(), "r".to_string());
    let a = pkg("A", &[], BuildType::CMake);
    let b = pkg("B", &[], BuildType::HeaderOnly);
    let out = pm
        .download_packages(&vec![
            DownloadOutcome::Downloaded(a, 7),
            DownloadOutcome::CacheHit(b),
        ])
        .unwrap();
    assert_eq!(names_of(&out), vec!["A".to_string(), "B".to_string()]);
    // the fresh download was remembered in the cache
    let d = pm.plan_fetch(&pkg("A", &[], BuildType::CMake), 7);
    assert!(matches!(d, FetchDecision::UseCache));
}

#[test]
fn download_failure_leaves_state_unchanged() {
    let mut pm = PackageManager::new("c".to_string(), "r".to_string());
    let a = pkg("A", &[], BuildType::CMake);
    let r = pm.download_packages(&vec![
        DownloadOutcome::Downloaded(a, 7),
        DownloadOutcome::Failed(PackageError::Network("timeout".to_string())),
    ]);
    match r {
        Err(PackageError::Network(msg)) => assert_eq!(msg, "timeout"),
        _ => panic!("the first failure must come back"),
    }
    // no partial commit: neither the cache nor the installed registry moved
    let d = pm.plan_fetch(&pkg("A", &[], BuildType::CMake), 7);
    assert!(matches!(d, FetchDecision::Download { .. }));
    assert!(!pm.is_installed(&"A".to_string()));
}

#[test]
fn download_failure_reports_first_error() {
    let mut pm = PackageManager::new("c".to_string(), "r".to_string());
    let r = pm.download_packages(&vec![
        DownloadOutcome::Failed(PackageError::Network("first".to_string())),
        DownloadOutcome::Failed(PackageError::Io("second".to_string())),
    ]);
    match r {
        Err(PackageError::Network(msg)) => assert_eq!(msg, "first"),
        _ => panic!("aggregation is fail-fast on the first error"),
    }
}

#[test]
fn plan_fetch_misses_send_to_source_url() {
    let pm = PackageManager::new("c".to_string(), "r".to_string());
    let d = pm.plan_fetch(&pkg("A", &[], BuildType::CMake), 1);
    match d {
        FetchDecision::Download { source_url } => {
            assert_eq!(source_url, "https://example.invalid/A");
        },
        FetchDecision::UseCache => panic!("an empty cache cannot satisfy a fetch"),
    }
}

#[test]
fn cmake_backend_failure_yields_build_failed() {
    // backend answered a nonzero status for R: BuildFailed("R"), nothing installed
    let mut pm = PackageManager::new("c".to_string(), "r".to_string());
    let r = pkg("R", &[], BuildType::CMake);
    let outcome = pm.complete_build(&r, 2);
    match outcome {
        Err(PackageError::BuildFailed(name)) => assert_eq!(name, "R"),
        _ => panic!("a nonzero backend status fails the build"),
    }
    assert!(!pm.is_installed(&"R".to_string()));
    assert!(pm.installed_lookup(&"R".to_string()).is_none());
}

#[test]
fn successful_build_is_committed() {
    let mut pm = PackageManager::new("c".to_string(), "r".to_string());
    let r = pkg("R", &[], BuildType::HeaderOnly);
    pm.complete_build(&r, 0).unwrap();
    assert!(pm.is_installed(&"R".to_string()));
    let recorded = pm.installed_lookup(&"R".to_string()).unwrap();
    assert_eq!(recorded.version, "1.0.0");
}

#[test]
fn reinstall_replaces_recorded_descriptor() {
    let mut pm = PackageManager::new("c".to_string(), "r".to_string());
    pm.complete_build(&pkg("R", &[], BuildType::CMake), 0).unwrap();
    let mut newer = pkg("R", &[], BuildType::CMake);
    newer.version = "2.0.0".to_string();
    pm.complete_build(&newer, 0).unwrap();
    assert!(pm.is_installed(&"R".to_string()));
    let recorded = pm.installed_lookup(&"R".to_string()).unwrap();
    assert_eq!(recorded.version, "2.0.0");
}

#[test]
fn build_all_commits_every_package() {
    let mut pm = PackageManager::new("c".to_string(), "r".to_string());
    let batch = vec![pkg("A", &[], BuildType::CMake), pkg("B", &[], BuildType::HeaderOnly)];
    pm.build_all(&batch, &vec![0, 0]).unwrap();
    assert!(pm.is_installed(&"A".to_string()));
    assert!(pm.is_installed(&"B".to_string()));
}

#[test]
fn build_all_aborts_at_first_failure() {
    let mut pm = PackageManager::new("c".to_string(), "r".to_string());
    let batch = vec![
        pkg("A", &[], BuildType::CMake),
        pkg("B", &[], BuildType::CMake),
        pkg("C", &[], BuildType::CMake),
    ];
    let r = pm.build_all(&batch, &vec![0, 3, 0]);
    match r {
        Err(PackageError::BuildFailed(name)) => assert_eq!(name, "B"),
        _ => panic!("the failing package is named"),
    }
    // already committed packages stay; the rest never built
    assert!(pm.is_installed(&"A".to_string()));
    assert!(!pm.is_installed(&"B".to_string()));
    assert!(!pm.is_installed(&"C".to_string()));
}

#[test]
fn reinstall_with_valid_cache_skips_download() {
    // first install: a fresh download, then a successful build
    let mut pm = PackageManager::new("c".to_string(), "r".to_string());
    let r = pkg("R", &[], BuildType::CMake);
    let bytes = vec![1u8, 2u8];
    let digest = artifact_digest(&bytes);
    let fetched = pm
        .download_packages(&vec![DownloadOutcome::Downloaded(r.clone(), digest)])
        .unwrap();
    pm.complete_build(&fetched[0], 0).unwrap();
    assert!(pm.is_installed(&"R".to_string()));
    // re-run with the unchanged version: cache validation succeeds, so the
    // planner never sends the fetcher to the network
    let decision = pm.plan_fetch(&r, digest);
    assert!(matches!(decision, FetchDecision::UseCache));
    let refetched = pm
        .download_packages(&vec![DownloadOutcome::CacheHit(r.clone())])
        .unwrap();
    pm.complete_build(&refetched[0], 0).unwrap();
    assert!(pm.is_installed(&"R".to_string()));
}

#[test]
fn error_descriptions() {
    assert_eq!(
        PackageError::Network("down".to_string()).describe(),
        "network error: down"
    );
    assert_eq!(PackageError::Io("denied".to_string()).describe(), "io error: denied");
    assert_eq!(
        PackageError::BuildFailed("R".to_string()).describe(),
        "build failed for package: R"
    );
    assert_eq!(
        PackageError::DependencyResolution.describe(),
        "dependency resolution failed"
    );
}
