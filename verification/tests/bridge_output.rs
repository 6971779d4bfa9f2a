use pkg::bridge::{
    check_paths, interpret, parse_bridge_output, parse_text, resolve, BridgeApiError, BridgeOutcome,
    BridgeOutput, Operation, ProcessOutput,
};
use pkg::db::{PkgType, Version};

fn version(a: &str, b: &str, c: &str) -> Version {
    Version { first_cell: a.to_string(), second_cell: b.to_string(), third_cell: c.to_string() }
}

fn exited(code: i32, stdout: &str, stderr: &str) -> ProcessOutput {
    ProcessOutput {
        code: Some(code),
        stdout: stdout.as_bytes().to_vec(),
        stderr: stderr.as_bytes().to_vec(),
    }
}

#[test]
fn operation_words() {
    assert_eq!(Operation::Install.display(), "install");
    assert_eq!(Operation::Update.display(), "update");
    assert_eq!(Operation::Remove.display(), "remove");
}

#[test]
fn version_of_three_cells_is_read() {
    assert_eq!(Version::parse("1.2.3"), Some(version("1", "2", "3")));
    assert_eq!(Version::parse("1.2.3").unwrap().text(), "1.2.3");
}

#[test]
fn version_of_two_or_four_cells_is_refused() {
    assert_eq!(Version::parse("1.2"), None);
    assert_eq!(Version::parse("1.2.3.4"), None);
    assert_eq!(Version::parse(""), None);
    let out = parse_text("/p,1.2\n", "/w");
    assert_eq!(out, Err(BridgeApiError::BridgeWrongVersionFormat("1.2".to_string())));
    let out = parse_text("/p,1.2.3.4\n", "/w");
    assert_eq!(out, Err(BridgeApiError::BridgeWrongVersionFormat("1.2.3.4".to_string())));
}

#[test]
fn version_cells_may_be_empty_or_words() {
    assert_eq!(Version::parse(".."), Some(version("", "", "")));
    assert_eq!(Version::parse("v1.beta.x"), Some(version("v1", "beta", "x")));
}

#[test]
fn single_executable_line() {
    let out = parse_text("/tmp/x/hello,1.0.0\n", "/work");
    assert_eq!(
        out,
        Ok(BridgeOutput {
            version: version("1", "0", "0"),
            pkg_path: "/tmp/x/hello".to_string(),
            pkg_type: PkgType::SingleExecutable,
        })
    );
}

#[test]
fn directory_line_with_relative_paths() {
    let out = parse_text("  out/pkg,2.10.7,out/pkg/bin/run \r\nmore,lines\n", "/work/b/p/1");
    assert_eq!(
        out,
        Ok(BridgeOutput {
            version: version("2", "10", "7"),
            pkg_path: "/work/b/p/1/out/pkg".to_string(),
            pkg_type: PkgType::Directory("/work/b/p/1/out/pkg/bin/run".to_string()),
        })
    );
}

#[test]
fn only_the_first_line_counts() {
    let out = parse_text("\n/p,1.2.3\n", "/w");
    assert_eq!(out, Err(BridgeApiError::BridgeWrongOutput("\n/p,1.2.3\n".to_string())));
}

#[test]
fn empty_output_is_refused() {
    let out = parse_text("", "/w");
    assert_eq!(
        out,
        Err(BridgeApiError::IoError("Wrong bridge output, no thing is returned".to_string()))
    );
}

#[test]
fn one_field_or_four_fields_are_refused() {
    assert_eq!(
        parse_text("/p\n", "/w"),
        Err(BridgeApiError::BridgeWrongOutput("/p\n".to_string()))
    );
    assert_eq!(
        parse_text("/p,1.2.3,/e,extra", "/w"),
        Err(BridgeApiError::BridgeWrongOutput("/p,1.2.3,/e,extra".to_string()))
    );
}

#[test]
fn empty_third_field_is_a_directory() {
    let out = parse_text("/p,1.2.3,", "/w").unwrap();
    assert_eq!(out.pkg_type, PkgType::Directory("/w/".to_string()));
}

#[test]
fn resolve_joins_relative_paths() {
    assert_eq!(resolve("/a/b", "c"), "/a/b/c");
    assert_eq!(resolve("/a/b/", "c"), "/a/b/c");
    assert_eq!(resolve("/a/b", "/c"), "/c");
    assert_eq!(resolve("", "c"), "c");
    assert_eq!(resolve("/", "c"), "/c");
    assert_eq!(resolve("/a", ""), "/a/");
}

#[test]
fn resolve_agrees_with_std_paths() {
    let cases = [("/a/b", "c"), ("/a/b/", "c/d"), ("/a/b", "/c"), ("", "c"), ("/", "c"), ("/a", "")];
    for (cwd, path) in cases {
        let joined = std::path::Path::new(cwd).join(path);
        assert_eq!(resolve(cwd, path), joined.to_str().unwrap());
    }
}

#[test]
fn failed_process_reports_its_stderr() {
    let out = parse_bridge_output(&exited(1, "/p,1.2.3\n", "disk full"), "/w");
    assert_eq!(out, Err(BridgeApiError::BridgeError("disk full".to_string())));
}

#[test]
fn stdout_must_be_utf8() {
    let output = ProcessOutput { code: Some(0), stdout: vec![0xff, 0xfe], stderr: vec![] };
    assert_eq!(
        parse_bridge_output(&output, "/w"),
        Err(BridgeApiError::IoError("failed to parse bridge output".to_string()))
    );
}

#[test]
fn stderr_that_is_not_utf8_gets_a_fixed_message() {
    let output = ProcessOutput { code: Some(2), stdout: vec![], stderr: vec![0xc3, 0x28] };
    assert_eq!(
        interpret(Operation::Install, &output, "/w"),
        BridgeOutcome::Failure(BridgeApiError::BridgeError(
            "failed to parse bridge output".to_string()
        ))
    );
}

#[test]
fn utf8_output_is_decoded() {
    let out = parse_bridge_output(&exited(0, "/opt/caf\u{e9},1.0.\u{3b2}\n", ""), "/w").unwrap();
    assert_eq!(out.pkg_path, "/opt/caf\u{e9}");
    assert_eq!(out.version, version("1", "0", "\u{3b2}"));
}

#[test]
fn unicode_whitespace_is_trimmed() {
    let out = parse_text("\u{a0}\u{3000}/p,1.2.3\u{2028}\t\n", "/w").unwrap();
    assert_eq!(out.pkg_path, "/p");
    assert_eq!(out.version, version("1", "2", "3"));
}

#[test]
fn missing_paths_are_refused() {
    let single = parse_text("/p,1.2.3", "/w").unwrap();
    assert_eq!(
        check_paths(single.clone(), false, true),
        Err(BridgeApiError::BridgeNotValid("/p".to_string()))
    );
    assert_eq!(check_paths(single.clone(), true, false), Ok(single));
    let dir = parse_text("/p,1.2.3,/p/e", "/w").unwrap();
    assert_eq!(
        check_paths(dir.clone(), true, false),
        Err(BridgeApiError::BridgeNotValidEntryPoint("/p/e".to_string()))
    );
    assert_eq!(
        check_paths(dir.clone(), false, false),
        Err(BridgeApiError::BridgeNotValid("/p".to_string()))
    );
    assert_eq!(check_paths(dir.clone(), true, true), Ok(dir));
}

#[test]
fn exit_zero_on_remove_is_success() {
    assert_eq!(interpret(Operation::Remove, &exited(0, "", ""), "/w"), BridgeOutcome::Removed);
    assert_eq!(
        interpret(Operation::Remove, &exited(0, "anything", "__IMPL_DEFAULT"), "/w"),
        BridgeOutcome::Removed
    );
}

#[test]
fn sentinel_asks_for_default() {
    for op in [Operation::Install, Operation::Update, Operation::Remove] {
        assert_eq!(
            interpret(op, &exited(1, "", "__IMPL_DEFAULT"), "/w"),
            BridgeOutcome::DefaultRequested
        );
        assert_eq!(
            interpret(op, &exited(1, "", "  __IMPL_DEFAULT\n"), "/w"),
            BridgeOutcome::DefaultRequested
        );
    }
}

#[test]
fn sentinel_needs_exit_code_one() {
    assert_eq!(
        interpret(Operation::Remove, &exited(2, "", "__IMPL_DEFAULT"), "/w"),
        BridgeOutcome::Failure(BridgeApiError::BridgeError("__IMPL_DEFAULT".to_string()))
    );
    let killed = ProcessOutput { code: None, stdout: vec![], stderr: b"__IMPL_DEFAULT".to_vec() };
    assert_eq!(
        interpret(Operation::Remove, &killed, "/w"),
        BridgeOutcome::Failure(BridgeApiError::BridgeError("__IMPL_DEFAULT".to_string()))
    );
    assert_eq!(
        interpret(Operation::Remove, &exited(1, "", "__IMPL_DEFAULT please"), "/w"),
        BridgeOutcome::Failure(BridgeApiError::BridgeError("__IMPL_DEFAULT please".to_string()))
    );
}

#[test]
fn error_messages_have_their_heading() {
    assert_eq!(
        BridgeApiError::BridgeNotFound("demo".to_string()).message(),
        "Bridge not found: demo"
    );
    assert_eq!(
        BridgeApiError::BridgeWrongVersionFormat("1.2".to_string()).message(),
        "Bridge returned a wrong version format: 1.2"
    );
    assert_eq!(BridgeApiError::IoError("boom".to_string()).message(), "boom");
}
