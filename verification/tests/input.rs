use pkg::config::{expand_home, Config, ConfigError};
use pkg::input::{is_input_file, AttributeValue, Bridge, Input, InputError, PkgDeclaration};

fn decl(name: &str, input: &str, attributes: Vec<(String, AttributeValue)>) -> PkgDeclaration {
    PkgDeclaration { name: name.to_string(), input: input.to_string(), attributes }
}

fn sources(all: &[&str]) -> Vec<String> {
    all.iter().map(|s| s.to_string()).collect()
}

#[test]
fn declarations_are_read_bridge_by_bridge() {
    let first = "demo {\n    hello \"src\" flavour=\"plain\" jobs=4 strip=#true ratio=0.5\n    world \"src2\"\n}\nother {\n    x \"git://x\"\n}\n";
    let second = "demo {\n    more \"src3\" jobs=-1\n}\n";
    let input = Input::load("/etc/pkg".to_string(), &sources(&[first, second])).unwrap();
    let hello = decl(
        "hello",
        "src",
        vec![
            ("flavour".to_string(), AttributeValue::String("plain".to_string())),
            ("jobs".to_string(), AttributeValue::Integer(4)),
            ("strip".to_string(), AttributeValue::Boolean(true)),
            ("ratio".to_string(), AttributeValue::Float("0.5".to_string())),
        ],
    );
    let world = decl("world", "src2", vec![]);
    let x = decl("x", "git://x", vec![]);
    let more = decl("more", "src3", vec![("jobs".to_string(), AttributeValue::Integer(-1))]);
    assert_eq!(input.path, "/etc/pkg");
    assert_eq!(
        input.bridges,
        vec![
            Bridge {
                name: "demo".to_string(),
                pkgs: vec![hello.clone(), world.clone(), more.clone()],
            },
            Bridge { name: "other".to_string(), pkgs: vec![x.clone()] },
        ]
    );
    assert_eq!(input.pkgs, vec![hello, world, x, more]);
    assert_eq!(input.bridge_names(), sources(&["demo", "other"]));
}

#[test]
fn nothing_declared() {
    let input = Input::load("p".to_string(), &sources(&[])).unwrap();
    assert_eq!(input.bridges, vec![]);
    assert_eq!(input.pkgs, vec![]);
    let input = Input::load("p".to_string(), &sources(&["", "demo {\n}\n"])).unwrap();
    assert_eq!(input.bridges, vec![Bridge { name: "demo".to_string(), pkgs: vec![] }]);
}

#[test]
fn later_attribute_of_the_same_key_wins() {
    let input = Input::load("p".to_string(), &sources(&["b {\n  p \"s\" k=1 j=2 k=3\n}\n"])).unwrap();
    assert_eq!(
        input.pkgs[0].attributes,
        vec![
            ("k".to_string(), AttributeValue::Integer(3)),
            ("j".to_string(), AttributeValue::Integer(2)),
        ]
    );
}

#[test]
fn package_name_twice_is_refused() {
    let text = "a {\n  p \"s\"\n}\nb {\n  q \"s\"\n  p \"t\"\n}\n";
    assert_eq!(
        Input::load("p".to_string(), &sources(&[text])),
        Err(InputError::DuplicatePkgDeclaration("p".to_string()))
    );
}

#[test]
fn malformed_declarations_are_refused() {
    assert_eq!(
        Input::load("p".to_string(), &sources(&["demo\n"])),
        Err(InputError::MissingField)
    );
    assert_eq!(
        Input::load("p".to_string(), &sources(&["demo {\n  hello\n}\n"])),
        Err(InputError::MissingField)
    );
    assert_eq!(
        Input::load("p".to_string(), &sources(&["demo {\n  hello 1\n}\n"])),
        Err(InputError::InvalidAttribute)
    );
    assert_eq!(
        Input::load("p".to_string(), &sources(&["demo {\n  hello \"s\" \"loose\"\n}\n"])),
        Err(InputError::MissingField)
    );
    assert_eq!(
        Input::load("p".to_string(), &sources(&["demo {\n  hello \"s\" k=#null\n}\n"])),
        Err(InputError::UnSupportedAttributeType("#null".to_string()))
    );
}

#[test]
fn text_that_is_no_document_is_refused() {
    let r = Input::load("p".to_string(), &sources(&["demo {\n  a \"s\"\n}\n", "demo {"]));
    assert!(matches!(r, Err(InputError::KdlError(_))));
}

#[test]
fn large_integer_keeps_its_low_bits() {
    let input =
        Input::load("p".to_string(), &sources(&["b {\n  p \"s\" k=18446744073709551617\n}\n"]))
            .unwrap();
    assert_eq!(input.pkgs[0].attributes, vec![("k".to_string(), AttributeValue::Integer(1))]);
}

#[test]
fn input_files_end_in_kdl() {
    assert!(is_input_file("a.kdl"));
    assert!(is_input_file("pkgs.KDL"));
    assert!(is_input_file("my.pkgs.Kdl"));
    assert!(!is_input_file(".kdl"));
    assert!(!is_input_file(".hidden.kdl"));
    assert!(!is_input_file("kdl"));
    assert!(!is_input_file("a.kdl.bak"));
    assert!(!is_input_file("akdl"));
    assert!(!is_input_file(""));
    for name in ["a.kdl", "pkgs.KDL", ".kdl", ".hidden.kdl", "kdl", "a.kdl.bak", "x.y.kDl", "a."] {
        let path = std::path::Path::new(name);
        let by_std = path
            .extension()
            .and_then(|e| e.to_str())
            .map(|e| e.eq_ignore_ascii_case("kdl"))
            .unwrap_or(false)
            && !name.starts_with('.');
        assert_eq!(is_input_file(name), by_std);
    }
}

const CONFIG: &str = "config {\n    inputs {\n        path \"~/pkgs\"\n        bridges-set \"/etc/pkg/bridges\"\n    }\n    output {\n        target-dir \"/opt/pkg/store\"\n        load-path \"~/.local/bin\"\n    }\n    db {\n        path \"/var/lib/pkg/db.sqlite\"\n    }\n}\n";

#[test]
fn configuration_is_read() {
    let config = Config::load("/c/.config.kdl".to_string(), CONFIG, Some("/home/u")).unwrap();
    assert_eq!(
        config,
        Config {
            path: "/c/.config.kdl".to_string(),
            source_dir: "/home/u/pkgs".to_string(),
            bridges_set: "/etc/pkg/bridges".to_string(),
            target_dir: "/opt/pkg/store".to_string(),
            db_path: "/var/lib/pkg/db.sqlite".to_string(),
            load_path: "/home/u/.local/bin".to_string(),
        }
    );
    let config = Config::load("c".to_string(), CONFIG, None).unwrap();
    assert_eq!(config.source_dir, "~/pkgs");
}

#[test]
fn home_is_expanded() {
    assert_eq!(expand_home("~/a/b", Some("/home/u")), "/home/u/a/b");
    assert_eq!(expand_home("~/a/b", Some("/home/u/")), "/home/u/a/b");
    assert_eq!(expand_home("~/", Some("/home/u")), "/home/u/");
    assert_eq!(expand_home("~a", Some("/home/u")), "~a");
    assert_eq!(expand_home("~", Some("/home/u")), "~");
    assert_eq!(expand_home("/x/~/y", Some("/home/u")), "/x/~/y");
    assert_eq!(expand_home("~/a", None), "~/a");
    assert_eq!(expand_home("", Some("/home/u")), "");
}

#[test]
fn incomplete_configuration_is_refused() {
    let load = |text: &str| Config::load("c".to_string(), text, Some("/h"));
    assert_eq!(load(""), Err(ConfigError::MissingValue("config".to_string())));
    assert_eq!(load("config\n"), Err(ConfigError::MissingValue("config node is empty".to_string())));
    assert_eq!(load("config {\n}\n"), Err(ConfigError::MissingValue("inputs".to_string())));
    assert_eq!(
        load("config {\n inputs {\n }\n db {\n }\n}\n"),
        Err(ConfigError::MissingValue("output".to_string()))
    );
    assert_eq!(
        load("config {\n inputs {\n }\n output\n db {\n }\n}\n"),
        Err(ConfigError::MissingValue("output".to_string()))
    );
    assert_eq!(
        load("config {\n inputs {\n path \"a\"\n }\n output {\n }\n db {\n }\n}\n"),
        Err(ConfigError::MissingValue("bridges-set".to_string()))
    );
    assert_eq!(
        load("config {\n inputs {\n path\n }\n output {\n }\n db {\n }\n}\n"),
        Err(ConfigError::MissingValue("path".to_string()))
    );
    assert_eq!(
        load("config {\n inputs {\n path 7\n }\n output {\n }\n db {\n }\n}\n"),
        Err(ConfigError::InvalidPath("path".to_string()))
    );
    assert!(matches!(load("config {"), Err(ConfigError::KdlError(_))));
}
