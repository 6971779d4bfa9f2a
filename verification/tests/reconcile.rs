use pkg::cmd::Commands;
use pkg::db::{InstalledPkg, Pkg, PkgType, Version};
use pkg::input::{AttributeValue, Bridge, PkgDeclaration};
use pkg::reconcile::{filter_pkgs_by_statuses, reconcile, Job, JobKind};

fn decl(name: &str) -> PkgDeclaration {
    PkgDeclaration {
        name: name.to_string(),
        input: format!("src-{}", name),
        attributes: vec![("k".to_string(), AttributeValue::Boolean(false))],
    }
}

fn pkg(name: &str) -> Pkg {
    Pkg {
        name: name.to_string(),
        version: Version {
            first_cell: "1".to_string(),
            second_cell: "2".to_string(),
            third_cell: "3".to_string(),
        },
        path: format!("/store/{}", name),
        pkg_type: PkgType::SingleExecutable,
    }
}

fn record(name: &str, bridge: &str) -> InstalledPkg {
    InstalledPkg { pkg: pkg(name), bridge: bridge.to_string() }
}

fn stand_in(name: &str) -> PkgDeclaration {
    PkgDeclaration {
        name: name.to_string(),
        input: format!("/store/{}", name),
        attributes: vec![],
    }
}

fn bridges() -> Vec<Bridge> {
    vec![
        Bridge { name: "demo".to_string(), pkgs: vec![decl("a"), decl("b"), decl("c")] },
        Bridge { name: "other".to_string(), pkgs: vec![decl("x"), decl("y")] },
    ]
}

fn store() -> Vec<InstalledPkg> {
    vec![
        record("old", "demo"),
        record("b", "demo"),
        record("y", "other"),
        record("gone", "other"),
        record("c", "demo"),
        record("stale", "demo"),
    ]
}

fn job(bridge: &str, declaration: PkgDeclaration, kind: JobKind, prior: Option<Pkg>) -> Job {
    Job { bridge: bridge.to_string(), declaration, kind, prior }
}

#[test]
fn packages_are_sorted_by_status() {
    let (update, install, remove) = filter_pkgs_by_statuses(&store(), &bridges()[0].pkgs, "demo");
    assert_eq!(update, vec![decl("b"), decl("c")]);
    assert_eq!(install, vec![decl("a")]);
    assert_eq!(remove, vec![stand_in("old"), stand_in("stale")]);
}

#[test]
fn package_without_record_is_installed_only() {
    let (update, install, remove) = filter_pkgs_by_statuses(&store(), &bridges()[1].pkgs, "other");
    assert!(install.contains(&decl("x")));
    assert!(!update.contains(&decl("x")));
    assert!(remove.iter().all(|d| d.name != "x"));
}

#[test]
fn record_of_an_undeclared_package_is_removed_by_its_owner_only() {
    let (_, _, remove) = filter_pkgs_by_statuses(&store(), &bridges()[1].pkgs, "other");
    assert_eq!(remove, vec![stand_in("gone")]);
    let (_, _, remove) = filter_pkgs_by_statuses(&store(), &bridges()[1].pkgs, "nobody");
    assert_eq!(remove, vec![]);
}

#[test]
fn empty_store_installs_everything() {
    let (update, install, remove) = filter_pkgs_by_statuses(&vec![], &bridges()[0].pkgs, "demo");
    assert_eq!(update, vec![]);
    assert_eq!(install, vec![decl("a"), decl("b"), decl("c")]);
    assert_eq!(remove, vec![]);
}

#[test]
fn build_installs_then_removes() {
    let jobs = reconcile(&bridges(), &store(), &Commands::Build { update: false });
    assert_eq!(
        jobs,
        vec![
            job("demo", decl("a"), JobKind::Install, None),
            job("demo", stand_in("old"), JobKind::Remove, Some(pkg("old"))),
            job("demo", stand_in("stale"), JobKind::Remove, Some(pkg("stale"))),
            job("other", decl("x"), JobKind::Install, None),
            job("other", stand_in("gone"), JobKind::Remove, Some(pkg("gone"))),
        ]
    );
}

#[test]
fn build_with_update_updates_first() {
    let jobs = reconcile(&bridges(), &store(), &Commands::Build { update: true });
    let kinds: Vec<(String, JobKind)> =
        jobs.iter().map(|j| (j.declaration.name.clone(), j.kind)).collect();
    assert_eq!(
        kinds,
        vec![
            ("b".to_string(), JobKind::Update),
            ("c".to_string(), JobKind::Update),
            ("a".to_string(), JobKind::Install),
            ("old".to_string(), JobKind::Remove),
            ("stale".to_string(), JobKind::Remove),
            ("y".to_string(), JobKind::Update),
            ("x".to_string(), JobKind::Install),
            ("gone".to_string(), JobKind::Remove),
        ]
    );
    assert_eq!(jobs[0].prior, Some(pkg("b")));
    assert_eq!(jobs[0].bridge, "demo");
    assert_eq!(jobs[5].bridge, "other");
}

#[test]
fn rebuild_reinstalls_first() {
    let jobs = reconcile(&bridges(), &store(), &Commands::Rebuild);
    let kinds: Vec<(String, JobKind)> =
        jobs.iter().map(|j| (j.declaration.name.clone(), j.kind)).collect();
    assert_eq!(
        kinds,
        vec![
            ("b".to_string(), JobKind::Reinstall),
            ("c".to_string(), JobKind::Reinstall),
            ("a".to_string(), JobKind::Install),
            ("old".to_string(), JobKind::Remove),
            ("stale".to_string(), JobKind::Remove),
            ("y".to_string(), JobKind::Reinstall),
            ("x".to_string(), JobKind::Install),
            ("gone".to_string(), JobKind::Remove),
        ]
    );
}

#[test]
fn update_takes_all_or_the_named_ones() {
    let jobs = reconcile(&bridges(), &store(), &Commands::Update { packages: None });
    let names: Vec<String> = jobs.iter().map(|j| j.declaration.name.clone()).collect();
    assert_eq!(names, vec!["b", "c", "y"]);
    assert!(jobs.iter().all(|j| j.kind == JobKind::Update));

    let subset = Some(vec!["y".to_string(), "a".to_string(), "c".to_string()]);
    let jobs = reconcile(&bridges(), &store(), &Commands::Update { packages: subset });
    let names: Vec<String> = jobs.iter().map(|j| j.declaration.name.clone()).collect();
    assert_eq!(names, vec!["c", "y"]);

    let jobs = reconcile(&bridges(), &store(), &Commands::Update { packages: Some(vec![]) });
    assert_eq!(jobs, vec![]);
}

#[test]
fn other_commands_have_no_jobs() {
    for command in [
        Commands::Info { package: None },
        Commands::Link,
        Commands::Clean,
        Commands::Docs,
    ] {
        assert_eq!(reconcile(&bridges(), &store(), &command), vec![]);
    }
}
