use veryl_core::lockfile::{
    assign_name, best_release, Dependency, NamedRequirement, gen_uuid, register_lock, register_release, select_release, Lock, LockDependency, Lockfile, LockfileError, Release,
    Version,
};

fn v(major: u64, minor: u64, patch: u64) -> Version {
    Version { major, minor, patch }
}

fn lock(name: &str, url: &str, version: Version, revision: &str) -> Lock {
    Lock {
        name: name.to_string(),
        uuid: gen_uuid(&url.to_string(), &revision.to_string()),
        version,
        url: url.to_string(),
        revision: revision.to_string(),
        dependencies: vec![],
        used: false,
    }
}

fn summary(locks: &[Lock]) -> Vec<(String, Version)> {
    locks.iter().map(|l| (l.url.clone(), l.version)).collect()
}

#[test]
fn uuid_of_url_and_revision() {
    let url = "https://github.com/veryl-lang/sample".to_string();
    assert_eq!(gen_uuid(&url, &String::new()), 67176116338191086148593353317059585737u128);
    assert_eq!(gen_uuid(&url, &"0123abc".to_string()), 195796921332532692601937672355635120433u128);
}

#[test]
fn table_is_grouped_and_sorted() {
    let lf = Lockfile::new(vec![
        lock("b", "https://b.example/b", v(1, 0, 0), "r1"),
        lock("a", "https://a.example/a", v(0, 2, 0), "r2"),
        lock("b2", "https://b.example/b", v(2, 1, 0), "r3"),
        lock("a2", "https://a.example/a", v(0, 10, 0), "r4"),
    ]);
    assert_eq!(
        summary(&lf.lock_table),
        vec![
            ("https://a.example/a".to_string(), v(0, 10, 0)),
            ("https://a.example/a".to_string(), v(0, 2, 0)),
            ("https://b.example/b".to_string(), v(2, 1, 0)),
            ("https://b.example/b".to_string(), v(1, 0, 0)),
        ]
    );
}

#[test]
fn projects_are_written_in_ascending_order_and_read_back() {
    let mut lf = Lockfile::new(vec![
        lock("b", "https://b.example/b", v(1, 0, 0), "r1"),
        lock("a", "https://a.example/a", v(0, 2, 0), "r2"),
        lock("a2", "https://a.example/a", v(0, 10, 0), "r4"),
    ]);
    lf.sort_projects();
    assert_eq!(
        summary(lf.projects()),
        vec![
            ("https://a.example/a".to_string(), v(0, 2, 0)),
            ("https://a.example/a".to_string(), v(0, 10, 0)),
            ("https://b.example/b".to_string(), v(1, 0, 0)),
        ]
    );
    let copy: Vec<Lock> = lf.projects().iter().map(|l| l.duplicate()).collect();
    let back = Lockfile::new(copy);
    assert_eq!(summary(&back.lock_table), summary(&lf.lock_table));
    let names: Vec<&str> = back.lock_table.iter().map(|l| l.name.as_str()).collect();
    assert_eq!(names, vec!["a2", "a", "b"]);
}

#[test]
fn latest_matching_release_is_selected() {
    let url = "https://example.com/foo".to_string();
    let releases = vec![
        Release { version: v(1, 2, 0), revision: "aaa".to_string() },
        Release { version: v(2, 0, 0), revision: "bbb".to_string() },
        Release { version: v(1, 3, 0), revision: "ccc".to_string() },
        Release { version: v(1, 0, 5), revision: "ddd".to_string() },
    ];
    let r = select_release(&url, &releases, &"^1".to_string()).unwrap();
    assert_eq!(r.version, v(1, 3, 0));
    assert_eq!(r.revision, "ccc");
    let r = select_release(&url, &releases, &">=1.0, <1.3".to_string()).unwrap();
    assert_eq!(r.revision, "aaa");
    match select_release(&url, &releases, &"^3".to_string()) {
        Err(LockfileError::VersionNotFound { url: u, version }) => {
            assert_eq!(u, url);
            assert_eq!(version, "^3");
        }
        other => panic!("unexpected {other:?}"),
    }
    assert!(select_release(&url, &vec![], &"^1".to_string()).is_err());
}

#[test]
fn name_collision_at_depth_gets_suffix() {
    let mut names: Vec<String> = Vec::new();
    assert_eq!(assign_name(&mut names, "utils".to_string(), true).unwrap(), "utils");
    assert_eq!(assign_name(&mut names, "utils".to_string(), false).unwrap(), "utils_0");
    assert_eq!(assign_name(&mut names, "utils".to_string(), false).unwrap(), "utils_1");
    match assign_name(&mut names, "utils".to_string(), true) {
        Err(LockfileError::NameConflict(n)) => assert_eq!(n, "utils"),
        other => panic!("unexpected {other:?}"),
    }
    assert_eq!(names, vec!["utils", "utils_0", "utils_1"]);

    let a = lock("utils", "https://a.example/utils", v(1, 0, 0), "r1");
    let b = lock("utils_0", "https://b.example/utils", v(1, 0, 0), "r2");
    assert_ne!(a.uuid, b.uuid);
    let lf = Lockfile::new(vec![a, b]);
    let names: Vec<&str> = lf.lock_table.iter().map(|l| l.name.as_str()).collect();
    assert_eq!(names, vec!["utils", "utils_0"]);
}

#[test]
fn duplicate_uuid_is_registered_once() {
    let mut locks: Vec<Lock> = Vec::new();
    let mut uuids: Vec<u128> = Vec::new();
    assert!(register_lock(&mut locks, &mut uuids, lock("a", "https://a.example/a", v(1, 0, 0), "r1")));
    assert!(register_lock(&mut locks, &mut uuids, lock("b", "https://b.example/b", v(1, 0, 0), "r1")));
    assert!(!register_lock(&mut locks, &mut uuids, lock("a", "https://a.example/a", v(1, 0, 0), "r1")));
    assert_eq!(locks.len(), 2);
    assert_eq!(uuids.len(), 2);
}

#[test]
fn pinned_version_is_reused_and_marked() {
    let url = "https://example.com/foo".to_string();
    let mut lf = Lockfile::new(vec![
        lock("foo", &url, v(1, 2, 0), "r12"),
        lock("foo", &url, v(2, 0, 0), "r20"),
    ]);
    let r = lf.resolve_version(&url, &"^1".to_string()).unwrap();
    assert_eq!(r.version, v(1, 2, 0));
    assert_eq!(r.revision, "r12");
    assert!(lf.lock_table.iter().any(|l| l.version == v(1, 2, 0) && l.used));
    assert!(!lf.lock_table.iter().any(|l| l.version == v(2, 0, 0) && l.used));
    assert!(lf.resolve_version(&url, &"^3".to_string()).is_none());
    assert!(lf.resolve_version(&"https://other.example/x".to_string(), &"^1".to_string()).is_none());
}

#[test]
fn force_update_takes_latest() {
    let url = "https://example.com/foo".to_string();
    let mut lf = Lockfile::new(vec![lock("foo", &url, v(1, 2, 0), "r12")]);
    lf.set_force_update(true);
    assert!(lf.resolve_version(&url, &"^1".to_string()).is_none());
    let upstream = vec![
        Release { version: v(1, 2, 0), revision: "r12".to_string() },
        Release { version: v(1, 3, 0), revision: "r13".to_string() },
    ];
    let release = select_release(&url, &upstream, &"^1".to_string()).unwrap();
    assert_eq!(release.version, v(1, 3, 0));
    let new_lock = lock("foo", &url, release.version, &release.revision);
    assert!(lf.update(vec![new_lock]));
    assert_eq!(lf.lock_table.len(), 1);
    assert_eq!(lf.lock_table[0].version, v(1, 3, 0));
}

#[test]
fn update_without_change_is_not_modified() {
    let url = "https://example.com/foo".to_string();
    let mut lf = Lockfile::new(vec![lock("foo", &url, v(1, 2, 0), "r12")]);
    assert!(!lf.update(vec![lock("foo", &url, v(1, 2, 0), "r12")]));
}

#[test]
fn unused_lock_is_removed_by_update() {
    let mut lf = Lockfile::new(vec![
        lock("foo", "https://example.com/foo", v(1, 2, 0), "r12"),
        lock("bar", "https://example.com/bar", v(0, 1, 0), "r01"),
    ]);
    let foo = lf.resolve_version(&"https://example.com/foo".to_string(), &"^1".to_string()).unwrap();
    let kept = lock("foo", "https://example.com/foo", foo.version, &foo.revision);
    assert!(lf.update(vec![kept]));
    assert_eq!(lf.lock_table.len(), 1);
    assert_eq!(lf.lock_table[0].name, "foo");
}

#[test]
fn lock_duplicate_keeps_dependencies() {
    let mut l = lock("foo", "https://example.com/foo", v(1, 2, 0), "r12");
    l.dependencies.push(LockDependency {
        name: "bar".to_string(),
        version: v(0, 1, 0),
        url: "https://example.com/bar".to_string(),
        revision: "r01".to_string(),
    });
    let d = l.duplicate();
    assert_eq!(d.dependencies.len(), 1);
    assert_eq!(d.dependencies[0].name, "bar");
    assert_eq!(d.uuid, l.uuid);
}

#[test]
fn best_release_from_admitted_flags() {
    let releases = vec![
        Release { version: v(1, 2, 0), revision: "a".to_string() },
        Release { version: v(1, 3, 0), revision: "b".to_string() },
        Release { version: v(1, 3, 0), revision: "c".to_string() },
        Release { version: v(2, 0, 0), revision: "d".to_string() },
    ];
    assert_eq!(best_release(&releases, &vec![true, true, true, false]), Some(1));
    assert_eq!(best_release(&releases, &vec![true, false, true, true]), Some(3));
    assert_eq!(best_release(&releases, &vec![true, false, false, false]), Some(0));
    assert_eq!(best_release(&releases, &vec![false, false, false, false]), None);
}

#[test]
fn transitive_dependencies_named_alike_are_both_locked() {
    let mut locks: Vec<Lock> = Vec::new();
    let mut names: Vec<String> = Vec::new();
    let mut uuids: Vec<u128> = Vec::new();
    let utils = "utils".to_string();
    let a = "https://a.example/utils".to_string();
    let b = "https://b.example/utils".to_string();
    let rel = |r: &str| Release { version: v(1, 0, 0), revision: r.to_string() };
    assert!(register_release(&mut locks, &mut names, &mut uuids, &a, rel("ra"), None, &utils, vec![], false).unwrap());
    assert!(register_release(&mut locks, &mut names, &mut uuids, &b, rel("rb"), None, &utils, vec![], false).unwrap());
    assert_eq!(locks[0].name, "utils");
    assert_eq!(locks[1].name, "utils_0");
    assert_ne!(locks[0].uuid, locks[1].uuid);
    assert_eq!(locks[1].uuid, gen_uuid(&b, &"rb".to_string()));
    assert!(locks[1].used);

    // The same release met again through a cycle is not locked twice.
    assert!(!register_release(&mut locks, &mut names, &mut uuids, &a, rel("ra"), None, &utils, vec![], false).unwrap());
    assert_eq!(locks.len(), 2);

    // At the root a clash is an error; an alias avoids it.
    match register_release(&mut locks, &mut names, &mut uuids, &b, rel("rc"), None, &utils, vec![], true) {
        Err(LockfileError::NameConflict(n)) => assert_eq!(n, "utils"),
        other => panic!("unexpected {other:?}"),
    }
    assert!(register_release(&mut locks, &mut names, &mut uuids, &b, rel("rc"), Some("u2".to_string()), &utils, vec![], true).unwrap());
    assert_eq!(locks[2].name, "u2");
}

#[test]
fn dependency_requirements_in_order() {
    let d = Dependency::Version("^1".to_string());
    let r = d.requirements();
    assert_eq!(r.len(), 1);
    assert_eq!(r[0].req, "^1");
    assert!(r[0].alias.is_none());
    let d = Dependency::Multi(vec![
        NamedRequirement { name: "a".to_string(), version: "^1".to_string() },
        NamedRequirement { name: "b".to_string(), version: "^2".to_string() },
    ]);
    let r = d.requirements();
    assert_eq!(r.len(), 2);
    assert_eq!(r[1].req, "^2");
    assert_eq!(r[1].alias.as_deref(), Some("b"));
    let d = Dependency::Single(NamedRequirement { name: "c".to_string(), version: "0.3".to_string() });
    assert_eq!(d.requirements()[0].alias.as_deref(), Some("c"));
}
