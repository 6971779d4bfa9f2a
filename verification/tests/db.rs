use pkg::db::{Db, DbError, InstalledPkg, Pkg, PkgRow, PkgType, RowError, Version};

fn pkg(name: &str) -> Pkg {
    Pkg {
        name: name.into(),
        version: Version {
            first_cell: "1".into(),
            second_cell: "2".into(),
            third_cell: "3".into(),
        },
        path: "some/path".into(),
        pkg_type: PkgType::SingleExecutable,
    }
}

fn names(all: &[&str]) -> Vec<String> {
    all.iter().map(|s| s.to_string()).collect()
}

#[test]
fn init_and_install() {
    let mut db = Db::new();
    let pkgs = vec![Pkg {
        name: "pkg1".into(),
        version: Version {
            first_cell: "1".into(),
            second_cell: "2".into(),
            third_cell: "3".into(),
        },
        path: "some/path".into(),
        pkg_type: PkgType::SingleExecutable,
    }];

    assert!(db.install_bridge_pkgs(&pkgs, &"bridge".to_string()).is_ok());

    // Get the installed packages
    let pkgs_names: Vec<String> = pkgs.iter().map(|p| p.name.clone()).collect();
    let installed = db.which_pkgs_are_installed(&pkgs_names);

    assert_eq!(
        installed.iter().collect::<Vec<_>>(),
        pkgs.iter().map(|p| &p.name).collect::<Vec<_>>()
    );

    assert_eq!(installed.len(), pkgs.len());
}

#[test]
fn remove_pkgs() {
    let mut db = Db::new();

    let pkgs = vec![
        Pkg {
            name: "pkg1".into(),
            version: Version {
                first_cell: "1".into(),
                second_cell: "2".into(),
                third_cell: "3".into(),
            },
            path: "some/path".into(),
            pkg_type: PkgType::SingleExecutable,
        },
        Pkg {
            name: "pkg2".into(),
            version: Version {
                first_cell: "1".into(),
                second_cell: "2".into(),
                third_cell: "3".into(),
            },
            path: "some/path".into(),
            pkg_type: PkgType::SingleExecutable,
        },
    ];

    assert!(db.install_bridge_pkgs(&pkgs, &"bridge".to_string()).is_ok());
    let installed = db.get_pkgs();

    assert_eq!(
        installed.iter().map(|p| &p.name).collect::<Vec<_>>(),
        pkgs.iter().map(|p| &p.name).collect::<Vec<_>>()
    );

    db.remove_pkgs(&vec!["pkg2".to_string()]);
    let installed = db.get_pkgs();
    assert_eq!(installed.len(), 1);
    assert_eq!(installed[0].name, "pkg1");

    db.remove_pkgs(&pkgs.iter().map(|p| p.name.clone()).collect::<Vec<_>>());
    let installed = db.get_pkgs();
    assert_eq!(installed.len(), 0);
}

#[test]
fn written_record_is_read_back() {
    let mut db = Db::new();
    assert_eq!(db.install_bridge_pkgs(&vec![pkg("a"), pkg("b")], "one"), Ok(()));
    assert_eq!(db.install_bridge_pkgs(&vec![pkg("p")], "two"), Ok(()));
    assert_eq!(db.get_pkgs_by_name(&names(&["p"])), vec![pkg("p")]);
    assert_eq!(db.get_pkg_bridge_by_name("p"), Some("two".to_string()));
    assert_eq!(db.get_pkgs_by_name(&names(&["a"])), vec![pkg("a")]);
    assert_eq!(db.get_pkgs_by_name(&names(&["b", "zz", "a"])), vec![pkg("a"), pkg("b")]);
    assert_eq!(db.get_pkgs_by_name(&names(&[])), vec![]);
    assert_eq!(db.get_pkg_bridge_by_name("zz"), None);
}

#[test]
fn taken_name_is_refused_and_earlier_writes_stay() {
    let mut db = Db::new();
    assert_eq!(db.install_bridge_pkgs(&vec![pkg("a")], "one"), Ok(()));
    assert_eq!(
        db.install_bridge_pkgs(&vec![pkg("b"), pkg("a"), pkg("c")], "two"),
        Err(DbError::NameTaken("a".to_string()))
    );
    assert_eq!(db.names(), names(&["a", "b"]));
    assert_eq!(db.get_pkg_bridge_by_name("a"), Some("one".to_string()));
    assert_eq!(
        db.install_bridge_pkgs(&vec![pkg("x"), pkg("x")], "two"),
        Err(DbError::NameTaken("x".to_string()))
    );
    assert_eq!(db.names(), names(&["a", "b", "x"]));
}

#[test]
fn records_by_bridge_and_bridges() {
    let mut db = Db::new();
    db.install_bridge_pkgs(&vec![pkg("a")], "one").unwrap();
    db.install_bridge_pkgs(&vec![pkg("b")], "two").unwrap();
    db.install_bridge_pkgs(&vec![pkg("c")], "one").unwrap();
    assert_eq!(db.get_pkgs_by_bridge("one"), vec![pkg("a"), pkg("c")]);
    assert_eq!(db.get_pkgs_by_bridge("two"), vec![pkg("b")]);
    assert_eq!(db.get_pkgs_by_bridge("three"), vec![]);
    assert_eq!(db.get_bridges(), names(&["one", "two"]));
    assert_eq!(Db::new().get_bridges(), names(&[]));
}

#[test]
fn installed_and_not_installed_names() {
    let mut db = Db::new();
    db.install_bridge_pkgs(&vec![pkg("a"), pkg("c")], "one").unwrap();
    let asked = names(&["c", "b", "a", "d"]);
    assert_eq!(db.which_pkgs_are_installed(&asked), names(&["c", "a"]));
    assert_eq!(db.which_pkgs_are_not_installed(&asked), names(&["b", "d"]));
}

#[test]
fn store_is_loaded_from_rows() {
    let rows = vec![pkg("a").to_row("one"), pkg("b").to_row("two")];
    let db = Db::from_rows(&rows).unwrap();
    assert_eq!(
        db.records,
        vec![
            InstalledPkg { pkg: pkg("a"), bridge: "one".to_string() },
            InstalledPkg { pkg: pkg("b"), bridge: "two".to_string() },
        ]
    );
    assert_eq!(Db::from_rows(&vec![]), Ok(Db::new()));

    let twice = vec![pkg("a").to_row("one"), pkg("b").to_row("two"), pkg("a").to_row("two")];
    assert_eq!(Db::from_rows(&twice), Err(DbError::NameTaken("a".to_string())));

    let bad = PkgRow { version: "1.2.3.4".to_string(), ..pkg("a").to_row("one") };
    assert_eq!(
        Db::from_rows(&vec![bad]),
        Err(DbError::InvalidRow(RowError::WrongVersionFormat))
    );
}
