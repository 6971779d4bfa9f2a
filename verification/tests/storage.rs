use pkg::api::inject_plugins;
use pkg::bridge::Operation;
use pkg::db::{InstalledPkg, Pkg, PkgRow, PkgType, RowError, Version};
use pkg::fs::{Fs, FsError, Link, LoadPath};
use pkg::input::{AttributeValue, PkgDeclaration};
use pkg::text::{decimal_i64, decimal_u128, replace};

fn version(a: &str, b: &str, c: &str) -> Version {
    Version { first_cell: a.to_string(), second_cell: b.to_string(), third_cell: c.to_string() }
}

fn single(name: &str, path: &str) -> Pkg {
    Pkg {
        name: name.to_string(),
        version: version("1", "2", "3"),
        path: path.to_string(),
        pkg_type: PkgType::SingleExecutable,
    }
}

fn directory(name: &str, path: &str, entry: &str) -> Pkg {
    Pkg {
        name: name.to_string(),
        version: version("0", "9", "rc1"),
        path: path.to_string(),
        pkg_type: PkgType::Directory(entry.to_string()),
    }
}

#[test]
fn record_survives_its_row() {
    for pkg in [single("pkg1", "some/path"), directory("tool", "/s/tool", "/s/tool/bin/t")] {
        let row = pkg.to_row("bridge");
        assert_eq!(row.bridge, "bridge");
        assert_eq!(row.name, pkg.name);
        assert_eq!(Pkg::from_row(&row), Ok(pkg));
    }
}

#[test]
fn rows_are_written_as_six_columns_of_text() {
    assert_eq!(
        directory("tool", "/s/tool", "/s/tool/bin/t").to_row("demo"),
        PkgRow {
            name: "tool".to_string(),
            version: "0.9.rc1".to_string(),
            path: "/s/tool".to_string(),
            pkg_type: "Directory".to_string(),
            entry_point: "/s/tool/bin/t".to_string(),
            bridge: "demo".to_string(),
        }
    );
}

#[test]
fn malformed_rows_are_refused() {
    let mut row = single("pkg1", "some/path").to_row("bridge");
    row.version = "1.2".to_string();
    assert_eq!(Pkg::from_row(&row), Err(RowError::WrongVersionFormat));
    assert_eq!(InstalledPkg::from_row(&row), Err(RowError::WrongVersionFormat));
    row.version = "1.2.3".to_string();
    row.pkg_type = "Folder".to_string();
    assert_eq!(Pkg::from_row(&row), Err(RowError::UnknownPkgType));
    row.version = "1".to_string();
    assert_eq!(Pkg::from_row(&row), Err(RowError::WrongVersionFormat));
}

#[test]
fn version_with_a_dot_in_a_cell_does_not_survive() {
    let mut pkg = single("pkg1", "some/path");
    pkg.version.second_cell = "2.5".to_string();
    assert_eq!(Pkg::from_row(&pkg.to_row("bridge")), Err(RowError::WrongVersionFormat));
}

#[test]
fn undeclared_record_stands_in_with_its_path() {
    assert_eq!(
        directory("tool", "/s/tool", "/s/tool/bin/t").to_pkg_declaration_with_empty_attributes(),
        PkgDeclaration { name: "tool".to_string(), input: "/s/tool".to_string(), attributes: vec![] }
    );
}

#[test]
fn packages_are_kept_under_their_bridge() {
    let fs = Fs::new("/opt/store".to_string(), "/opt/bin".to_string());
    assert_eq!(fs.target(Some("demo"), "hello"), "/opt/store/demo/hello");
    assert_eq!(fs.target(None, "hello"), "/opt/store/hello");
    let fs = Fs::new("/opt/store/".to_string(), "/opt/bin".to_string());
    assert_eq!(fs.target(Some("demo"), "hello"), "/opt/store/demo/hello");
}

#[test]
fn moving_a_directory_moves_its_entry_point() {
    let fs = Fs::new("/opt/store".to_string(), "/opt/bin".to_string());
    let mut pkg = directory("tool", "/w/9/out", "/w/9/out/bin/tool");
    let from = fs.store_or_overwrite(&mut pkg, Some("demo"));
    assert_eq!(from, "/w/9/out");
    assert_eq!(pkg, directory("tool", "/opt/store/demo/tool", "/opt/store/demo/tool/bin/tool"));

    let mut pkg = single("hello", "/w/3/hello");
    let from = fs.store_or_overwrite(&mut pkg, Some("demo"));
    assert_eq!(from, "/w/3/hello");
    assert_eq!(pkg, single("hello", "/opt/store/demo/hello"));
}

#[test]
fn entry_point_outside_the_package_stays() {
    let fs = Fs::new("/opt/store".to_string(), "/opt/bin".to_string());
    let mut pkg = directory("tool", "/w/9/out", "/usr/bin/tool");
    fs.store_or_overwrite(&mut pkg, None);
    assert_eq!(pkg, directory("tool", "/opt/store/tool", "/usr/bin/tool"));
}

#[test]
fn replace_agrees_with_std() {
    let cases = [
        ("/w/9/out/bin/tool", "/w/9/out", "/opt"),
        ("aaaa", "aa", "b"),
        ("aaa", "aa", "b"),
        ("abc", "", "-"),
        ("", "", "-"),
        ("", "a", "-"),
        ("abc", "abcd", "x"),
        ("abcabc", "bc", ""),
        ("h\u{e9}llo w\u{f6}rld", "\u{f6}", "oe"),
        ("xyz", "z", "zz"),
    ];
    for (s, from, to) in cases {
        assert_eq!(replace(s, from, to), s.replace(from, to));
    }
    assert_eq!(replace("aaa", "aa", "b"), "ba");
    assert_eq!(replace("abc", "", "-"), "-a-b-c-");
}

#[test]
fn links_point_at_what_runs() {
    let fs = Fs::new("/opt/store".to_string(), "/opt/bin".to_string());
    let pkgs = vec![
        single("hello", "/opt/store/demo/hello"),
        directory("tool", "/opt/store/demo/tool", "/opt/store/demo/tool/bin/t"),
    ];
    assert_eq!(
        fs.link(&pkgs),
        vec![
            Link { link: "/opt/bin/hello".to_string(), to: "/opt/store/demo/hello".to_string() },
            Link { link: "/opt/bin/tool".to_string(), to: "/opt/store/demo/tool/bin/t".to_string() },
        ]
    );
    assert_eq!(fs.link(&vec![]), vec![]);
    assert_eq!(
        fs.remove_pkgs(&pkgs),
        vec!["/opt/store/demo/hello".to_string(), "/opt/store/demo/tool".to_string()]
    );
}

#[test]
fn load_path_must_not_be_a_file() {
    assert_eq!(Fs::prepare(LoadPath::Missing), Ok(true));
    assert_eq!(Fs::prepare(LoadPath::Directory), Ok(false));
    assert_eq!(Fs::prepare(LoadPath::File), Err(FsError::LoadPathIsFile));
}

#[test]
fn integers_in_decimal() {
    for n in [0i64, 7, 10, -1, 42, -9000, i64::MAX, i64::MIN, 1000000007] {
        assert_eq!(decimal_i64(n), n.to_string());
    }
    for n in [0u128, 9, 10, 99, 100, u64::MAX as u128, u128::MAX] {
        assert_eq!(decimal_u128(n), n.to_string());
    }
    assert_eq!(decimal_i64(i64::MIN), "-9223372036854775808");
}

#[test]
fn attribute_values_as_text() {
    assert_eq!(AttributeValue::String("a b".to_string()).text(), "a b");
    assert_eq!(AttributeValue::Integer(-12).text(), "-12");
    assert_eq!(AttributeValue::Float("2.50".to_string()).text(), "2.50");
    assert_eq!(AttributeValue::Boolean(true).text(), "true");
    assert_eq!(AttributeValue::Boolean(false).text(), "false");
}

#[test]
fn built_in_functions_for_plugins() {
    assert_eq!(
        inject_plugins(),
        vec![
            ("default_remove_function".to_string(), Operation::Remove),
            ("default_update_function".to_string(), Operation::Update),
        ]
    );
}
