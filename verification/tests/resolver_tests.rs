use watchlock::cache::{CacheEntry, PackageCacheStore};
use watchlock::lockfile::{LockfileSnapshot, PackageSnapshotEntry};
use watchlock::registry::{
    DepKind, RegistryData, RegistryDependency, RegistryPackage, RegistryVersionInfo,
};
use watchlock::resolver::{resolve, resolve_cached_only, ResolveError, ResolveMode};
use watchlock::semver::{PackageIdentity, Version, VersionReq};

fn ver(a: u64, b: u64, c: u64) -> Version {
    Version::new(a, b, c)
}

fn pid(n: &str, v: Version) -> PackageIdentity {
    PackageIdentity::new(n.to_string(), v)
}

fn rdep(n: &str, req: VersionReq, kind: DepKind) -> RegistryDependency {
    RegistryDependency { name: n.to_string(), req, kind }
}

fn rver(
    v: Version,
    integrity: &str,
    tarball: &str,
    os: Vec<&str>,
    deps: Vec<RegistryDependency>,
) -> RegistryVersionInfo {
    RegistryVersionInfo {
        version: v,
        integrity: integrity.to_string(),
        tarball_hash: tarball.to_string(),
        os: os.into_iter().map(|s| s.to_string()).collect(),
        dependencies: deps,
    }
}

fn rpkg(n: &str, versions: Vec<RegistryVersionInfo>) -> RegistryPackage {
    RegistryPackage { name: n.to_string(), versions }
}

fn entry(id: PackageIdentity, integrity: &str, deps: Vec<(&str, PackageIdentity)>) -> PackageSnapshotEntry {
    PackageSnapshotEntry {
        id,
        integrity: integrity.to_string(),
        dependencies: deps.into_iter().map(|(n, i)| (n.to_string(), i)).collect(),
    }
}

fn good_cache_entry(id: PackageIdentity, integrity: &str) -> CacheEntry {
    CacheEntry {
        extracted_path: format!("store/{}", integrity),
        id,
        integrity: integrity.to_string(),
        content_hash: integrity.to_string(),
    }
}

fn lookup<'a>(snap: &'a LockfileSnapshot, key: &str) -> Option<&'a PackageIdentity> {
    snap.specifiers
        .iter()
        .find(|(k, _)| k == key)
        .map(|(_, v)| v)
}

/// Resolving a bare bin specifier against the registry produces a
/// lockfile recording the pinned identity, and writing it out yields a
/// non-empty canonical document.
#[test]
fn deno_run_bin_lockfile() {
    let registry = RegistryData {
        packages: vec![rpkg(
            "@denotest/bin",
            vec![rver(ver(1, 0, 0), "sha512-bin100", "sha512-bin100", vec![], vec![])],
        )],
    };
    let cache = PackageCacheStore::new_empty();
    let specs = vec!["npm:@denotest/bin".to_string()];
    let out = resolve(
        &specs,
        LockfileSnapshot::new_empty(),
        ResolveMode::Default,
        &cache,
        &registry,
        &"linux".to_string(),
    )
    .expect("resolution succeeds");
    let mapped = lookup(&out.snapshot, "@denotest/bin").expect("specifier mapped");
    assert_eq!(mapped.to_text(), "@denotest/bin@1.0.0");
    // The lockfile is created: its canonical text records the package.
    let text = out.snapshot.to_text();
    assert!(text.contains("\"@denotest/bin@1.0.0\""));
    assert!(text.contains("\"version\": \"2\""));
    // The bin package itself had to be downloaded.
    assert_eq!(out.new_cache_entries.len(), 1);
    assert_eq!(out.new_cache_entries[0].id.to_text(), "@denotest/bin@1.0.0");
}

/// An os-restricted optional dependency installs only on its own
/// platform; the others are recorded and skipped. The second run uses
/// the lockfile and leaves it untouched.
#[test]
fn binary_package_with_optional_dependencies() {
    let registry = RegistryData {
        packages: vec![
            rpkg(
                "@denotest/binary-package",
                vec![rver(
                    ver(1, 0, 0),
                    "sha512-bp",
                    "sha512-bp",
                    vec![],
                    vec![
                        rdep(
                            "@denotest/binary-package-linux",
                            VersionReq::Exact(ver(1, 0, 0)),
                            DepKind::Optional,
                        ),
                        rdep(
                            "@denotest/binary-package-mac",
                            VersionReq::Exact(ver(1, 0, 0)),
                            DepKind::Optional,
                        ),
                        rdep(
                            "@denotest/binary-package-windows",
                            VersionReq::Exact(ver(1, 0, 0)),
                            DepKind::Optional,
                        ),
                    ],
                )],
            ),
            rpkg(
                "@denotest/binary-package-linux",
                vec![rver(ver(1, 0, 0), "sha512-lin", "sha512-lin", vec!["linux"], vec![])],
            ),
            rpkg(
                "@denotest/binary-package-mac",
                vec![rver(ver(1, 0, 0), "sha512-mac", "sha512-mac", vec!["macos"], vec![])],
            ),
            rpkg(
                "@denotest/binary-package-windows",
                vec![rver(ver(1, 0, 0), "sha512-win", "sha512-win", vec!["windows"], vec![])],
            ),
        ],
    };
    let specs = vec!["npm:@denotest/binary-package".to_string()];
    let os = "linux".to_string();
    let mut snapshot = LockfileSnapshot::new_empty();
    let mut cache = PackageCacheStore::new_empty();
    for i in 0..2 {
        if i == 1 {
            // the lockfile exists after the first run
            assert!(!snapshot.packages.is_empty());
        }
        let before = snapshot.to_text();
        let out = resolve(
            &specs,
            snapshot,
            ResolveMode::Default,
            &cache,
            &registry,
            &os,
        )
        .expect("resolution succeeds");
        for e in out.new_cache_entries {
            cache.put(e);
        }
        snapshot = out.snapshot;
        let text = snapshot.to_text();
        assert!(text.contains("@denotest/binary-package-linux@1.0.0"));
        assert!(!text.contains("@denotest/binary-package-mac@1.0.0"));
        assert!(!text.contains("@denotest/binary-package-windows@1.0.0"));
        if i == 1 {
            // second run: byte-identical lockfile
            assert_eq!(before, text);
        }
    }
}

/// A lockfile that maps a specifier but omits the mapped package from
/// its entries is corrupt: resolution refuses it, names the missing
/// identity, and the failure exits with code 10.
#[test]
fn corrupt_lockfile_names_missing_identity() {
    let snap = LockfileSnapshot {
        specifiers: vec![("cowsay".to_string(), pid("cowsay", ver(1, 5, 0)))],
        packages: vec![],
    };
    let registry = RegistryData { packages: vec![] };
    let cache = PackageCacheStore::new_empty();
    let specs = vec!["npm:cowsay".to_string()];
    let err = resolve(
        &specs,
        snap,
        ResolveMode::Default,
        &cache,
        &registry,
        &"linux".to_string(),
    )
    .expect_err("corrupt lockfile must be refused");
    match &err {
        ResolveError::CorruptLockfile { id_text } => {
            assert_eq!(id_text, "cowsay@1.5.0");
        }
        other => panic!("wrong error: {:?}", other),
    }
    assert!(err.message().contains("cowsay@1.5.0"));
    assert_eq!(err.exit_code(), 10);
}

/// Re-resolving a specifier that is already fully recorded, pinned and
/// cached leaves the lockfile contents completely unchanged on disk.
#[test]
fn lock_write_leaves_satisfied_lockfile_unchanged() {
    let cowsay = pid("cowsay", ver(1, 5, 0));
    let snap = LockfileSnapshot {
        specifiers: vec![("cowsay@1.5.0".to_string(), cowsay.clone())],
        packages: vec![entry(cowsay.clone(), "sha512-cowsay", vec![])],
    };
    let cache = PackageCacheStore {
        entries: vec![good_cache_entry(cowsay.clone(), "sha512-cowsay")],
    };
    // stale but internally consistent extra content
    let registry = RegistryData {
        packages: vec![rpkg(
            "cowsay",
            vec![rver(ver(1, 5, 0), "sha512-other", "sha512-other", vec![], vec![])],
        )],
    };
    let before = snap.to_text();
    let out = resolve(
        &vec!["npm:cowsay@1.5.0".to_string()],
        snap,
        ResolveMode::Default,
        &cache,
        &registry,
        &"linux".to_string(),
    )
    .expect("already-satisfied resolution succeeds");
    assert_eq!(out.snapshot.to_text(), before);
    assert!(out.new_cache_entries.is_empty());
}

/// Cached-only mode fails on a cache miss, naming the exact missing
/// identity, without any registry in sight.
#[test]
fn cached_only_names_missing_package() {
    let chalk = pid("chalk", ver(5, 0, 1));
    let snap = LockfileSnapshot {
        specifiers: vec![("chalk".to_string(), chalk.clone())],
        packages: vec![entry(chalk.clone(), "sha512-chalk", vec![])],
    };
    let cache = PackageCacheStore::new_empty();
    let err = resolve_cached_only(&vec!["npm:chalk".to_string()], &snap, &cache)
        .expect_err("cached-only with empty cache must fail");
    match &err {
        ResolveError::NotFoundInCache { text } => assert_eq!(text, "chalk@5.0.1"),
        other => panic!("wrong error: {:?}", other),
    }
    assert_eq!(
        err.message(),
        "An npm specifier not found in cache: \"chalk@5.0.1\", --cached-only is specified."
    );
    assert_eq!(err.exit_code(), 1);
    // an unmapped specifier is named by its requested text
    let err2 = resolve_cached_only(
        &vec!["npm:left-pad".to_string()],
        &snap,
        &cache,
    )
    .expect_err("unknown specifier must fail under cached-only");
    match &err2 {
        ResolveError::NotFoundInCache { text } => assert_eq!(text, "npm:left-pad"),
        other => panic!("wrong error: {:?}", other),
    }
}

/// A cache entry whose recomputed content hash disagrees with its
/// recorded integrity is never served: the lookup reports a miss.
#[test]
fn tampered_cache_entry_is_miss() {
    let bin = pid("@denotest/bin", ver(1, 0, 0));
    let cache = PackageCacheStore {
        entries: vec![CacheEntry {
            id: bin.clone(),
            extracted_path: "store/bin".to_string(),
            integrity: "sha512-good".to_string(),
            content_hash: "sha512-tampered".to_string(),
        }],
    };
    assert!(cache.get(&bin, &"sha512-good".to_string()).is_none());
    assert!(!cache.has_hit(&bin, &"sha512-good".to_string()));
}

/// A registry that serves content whose hash disagrees with the
/// advertised integrity is an integrity failure: fatal, naming the
/// package, exit code 10.
#[test]
fn integrity_mismatch_is_fatal() {
    let registry = RegistryData {
        packages: vec![rpkg(
            "@denotest/bin",
            vec![rver(ver(1, 0, 0), "sha512-advertised", "sha512-served", vec![], vec![])],
        )],
    };
    let cache = PackageCacheStore::new_empty();
    let err = resolve(
        &vec!["npm:@denotest/bin@1.0.0".to_string()],
        LockfileSnapshot::new_empty(),
        ResolveMode::Default,
        &cache,
        &registry,
        &"linux".to_string(),
    )
    .expect_err("integrity mismatch must be fatal");
    match &err {
        ResolveError::IntegrityMismatch { id_text } => assert_eq!(id_text, "@denotest/bin@1.0.0"),
        other => panic!("wrong error: {:?}", other),
    }
    assert_eq!(
        err.message(),
        "Integrity check failed for npm package: \"@denotest/bin@1.0.0\""
    );
    assert_eq!(err.exit_code(), 10);
}

/// Transitive dependencies are pinned into the lockfile and the graph
/// stays consistent: every referenced identity has an entry.
#[test]
fn transitive_dependencies_are_pinned() {
    let registry = RegistryData {
        packages: vec![
            rpkg(
                "chalk",
                vec![rver(
                    ver(5, 0, 1),
                    "sha512-chalk",
                    "sha512-chalk",
                    vec![],
                    vec![rdep("ansi-styles", VersionReq::Caret(ver(6, 0, 0)), DepKind::Regular)],
                )],
            ),
            rpkg(
                "ansi-styles",
                vec![
                    rver(ver(6, 0, 0), "sha512-as600", "sha512-as600", vec![], vec![]),
                    rver(ver(6, 2, 1), "sha512-as621", "sha512-as621", vec![], vec![]),
                ],
            ),
        ],
    };
    let cache = PackageCacheStore::new_empty();
    let out = resolve(
        &vec!["npm:chalk@5.0.1".to_string()],
        LockfileSnapshot::new_empty(),
        ResolveMode::Default,
        &cache,
        &registry,
        &"linux".to_string(),
    )
    .expect("resolution succeeds");
    let text = out.snapshot.to_text();
    // highest satisfying version of the caret range is picked
    assert!(text.contains("\"ansi-styles\": \"ansi-styles@6.2.1\""));
    assert!(text.contains("\"chalk@5.0.1\""));
    assert!(out.snapshot.validate().is_ok());
}

/// An unsatisfiable requirement is reported with the offending
/// specifier text.
#[test]
fn unknown_package_is_named() {
    let registry = RegistryData { packages: vec![] };
    let cache = PackageCacheStore::new_empty();
    let err = resolve(
        &vec!["npm:mkdirp@0.5.125".to_string()],
        LockfileSnapshot::new_empty(),
        ResolveMode::Default,
        &cache,
        &registry,
        &"linux".to_string(),
    )
    .expect_err("unknown package must fail");
    match &err {
        ResolveError::NotFoundInRegistry { text } => assert_eq!(text, "npm:mkdirp@0.5.125"),
        other => panic!("wrong error: {:?}", other),
    }
}

/// The canonical serializer renders the exact documented layout.
#[test]
fn lockfile_serialization_exact() {
    let empty = LockfileSnapshot::new_empty();
    assert_eq!(
        empty.to_text(),
        "{\n  \"version\": \"2\",\n  \"remote\": {},\n  \"npm\": {\n    \"specifiers\": {},\n    \"packages\": {}\n  }\n}\n"
    );
    let cowsay = pid("cowsay", ver(1, 5, 0));
    let one = LockfileSnapshot {
        specifiers: vec![("cowsay".to_string(), cowsay.clone())],
        packages: vec![entry(cowsay, "sha512-x", vec![])],
    };
    assert_eq!(
        one.to_text(),
        "{\n  \"version\": \"2\",\n  \"remote\": {},\n  \"npm\": {\n    \"specifiers\": {\n      \"cowsay\": \"cowsay@1.5.0\"\n    },\n    \"packages\": {\n      \"cowsay@1.5.0\": {\n        \"integrity\": \"sha512-x\",\n        \"dependencies\": {}\n      }\n    }\n  }\n}\n"
    );
}

/// Specifier parsing: scheme stripped, scoped names kept whole, the
/// requirement read from behind the last separator.
#[test]
fn specifier_parsing() {
    let sp = watchlock::specifier::parse_specifier(&"npm:cowsay@1.5.0".to_string()).unwrap();
    assert_eq!(sp.name, "cowsay");
    assert_eq!(sp.req, VersionReq::Exact(ver(1, 5, 0)));
    let sp2 = watchlock::specifier::parse_specifier(&"@denotest/bin".to_string()).unwrap();
    assert_eq!(sp2.name, "@denotest/bin");
    assert_eq!(sp2.req, VersionReq::Any);
    let sp3 = watchlock::specifier::parse_specifier(&"npm:chalk@^5.0.1".to_string()).unwrap();
    assert_eq!(sp3.name, "chalk");
    assert_eq!(sp3.req, VersionReq::Caret(ver(5, 0, 1)));
    assert!(watchlock::specifier::parse_specifier(&"chalk@".to_string()).is_none());
}

/// Two dependents requiring different peer bindings for the same
/// grandchild version get separate copy instances: the lockfile
/// records both `@denotest/peer-dep-test-grandchild@1.0.0` and its
/// `1.0.0_1` copy, each dependent's subtree points at its own
/// instance, and running again over the written lockfile (and a full
/// reload) reproduces the same graph.
#[test]
fn peer_deps_with_copied_folders_and_lockfile() {
    let peer_dep = |req| rdep("@denotest/peer-dep-test-peer", req, DepKind::Peer);
    let registry = RegistryData {
        packages: vec![
            rpkg(
                "@denotest/peer-dep-test-1",
                vec![rver(
                    ver(1, 0, 0),
                    "sha512-p1",
                    "sha512-p1",
                    vec![],
                    vec![
                        rdep(
                            "@denotest/peer-dep-test-grandchild",
                            VersionReq::Exact(ver(1, 0, 0)),
                            DepKind::Regular,
                        ),
                        rdep(
                            "@denotest/peer-dep-test-peer",
                            VersionReq::Exact(ver(1, 0, 0)),
                            DepKind::Regular,
                        ),
                    ],
                )],
            ),
            rpkg(
                "@denotest/peer-dep-test-2",
                vec![rver(
                    ver(1, 0, 0),
                    "sha512-p2",
                    "sha512-p2",
                    vec![],
                    vec![
                        rdep(
                            "@denotest/peer-dep-test-grandchild",
                            VersionReq::Exact(ver(1, 0, 0)),
                            DepKind::Regular,
                        ),
                        rdep(
                            "@denotest/peer-dep-test-peer",
                            VersionReq::Exact(ver(2, 0, 0)),
                            DepKind::Regular,
                        ),
                    ],
                )],
            ),
            rpkg(
                "@denotest/peer-dep-test-grandchild",
                vec![rver(
                    ver(1, 0, 0),
                    "sha512-gc",
                    "sha512-gc",
                    vec![],
                    vec![peer_dep(VersionReq::Any)],
                )],
            ),
            rpkg(
                "@denotest/peer-dep-test-peer",
                vec![
                    rver(ver(1, 0, 0), "sha512-peer1", "sha512-peer1", vec![], vec![]),
                    rver(ver(2, 0, 0), "sha512-peer2", "sha512-peer2", vec![], vec![]),
                ],
            ),
        ],
    };
    let specs = vec![
        "npm:@denotest/peer-dep-test-1".to_string(),
        "npm:@denotest/peer-dep-test-2".to_string(),
    ];
    let os = "linux".to_string();
    let cache = PackageCacheStore::new_empty();
    let out = resolve(
        &specs,
        LockfileSnapshot::new_empty(),
        ResolveMode::Default,
        &cache,
        &registry,
        &os,
    )
    .expect("resolution succeeds");
    let snapshot = watchlock::resolver::apply_peer_instances(&out.snapshot, &registry);
    let text = snapshot.to_text();
    // the copy folder exists beside the primary instance
    assert!(text.contains("\"@denotest/peer-dep-test-grandchild@1.0.0\""));
    assert!(text.contains("\"@denotest/peer-dep-test-grandchild@1.0.0_1\""));
    // each dependent's subtree points at its own instance
    let p1 = snapshot
        .packages
        .iter()
        .find(|e| e.id.to_text() == "@denotest/peer-dep-test-1@1.0.0")
        .unwrap();
    let p2 = snapshot
        .packages
        .iter()
        .find(|e| e.id.to_text() == "@denotest/peer-dep-test-2@1.0.0")
        .unwrap();
    let gc_of = |e: &PackageSnapshotEntry| {
        e.dependencies
            .iter()
            .find(|(n, _)| n == "@denotest/peer-dep-test-grandchild")
            .map(|(_, t)| t.to_text())
            .unwrap()
    };
    let gc1 = gc_of(p1);
    let gc2 = gc_of(p2);
    assert_ne!(gc1, gc2);
    // and each instance binds the peer its dependent provides
    let inst = |idt: &str| {
        snapshot
            .packages
            .iter()
            .find(|e| e.id.to_text() == idt)
            .unwrap()
    };
    let peer_of = |e: &PackageSnapshotEntry| {
        e.dependencies
            .iter()
            .find(|(n, _)| n == "@denotest/peer-dep-test-peer")
            .map(|(_, t)| t.to_text())
            .unwrap()
    };
    let bound: Vec<String> = vec![peer_of(inst(&gc1)), peer_of(inst(&gc2))];
    assert!(bound.contains(&"@denotest/peer-dep-test-peer@1.0.0".to_string()));
    assert!(bound.contains(&"@denotest/peer-dep-test-peer@2.0.0".to_string()));
    assert!(snapshot.validate().is_ok());

    // run again over the written lockfile: the graph is unchanged
    let mut cache2 = PackageCacheStore::new_empty();
    for e in out.new_cache_entries {
        cache2.put(e);
    }
    cache2.put(good_cache_entry(
        PackageIdentity {
            name: "@denotest/peer-dep-test-grandchild".to_string(),
            version: ver(1, 0, 0),
            copy_index: 1,
        },
        "sha512-gc",
    ));
    let again = resolve(
        &specs,
        snapshot.clone(),
        ResolveMode::Default,
        &cache2,
        &registry,
        &os,
    )
    .expect("second run succeeds");
    let again_snapshot = watchlock::resolver::apply_peer_instances(&again.snapshot, &registry);
    assert_eq!(again_snapshot.to_text(), text);

    // a full reload reproduces the same instances
    let reloaded = resolve(
        &specs,
        snapshot.clone(),
        ResolveMode::Reload,
        &cache2,
        &registry,
        &os,
    )
    .expect("reload succeeds");
    let reloaded_snapshot =
        watchlock::resolver::apply_peer_instances(&reloaded.snapshot, &registry);
    let rt = reloaded_snapshot.to_text();
    assert!(rt.contains("\"@denotest/peer-dep-test-grandchild@1.0.0\""));
    assert!(rt.contains("\"@denotest/peer-dep-test-grandchild@1.0.0_1\""));
}
