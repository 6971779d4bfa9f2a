use pkg::bridge::{
    frame, is_executable, log_file, Bridge, BridgeApi, BridgeApiError, BridgeCandidate, BridgeSet,
    Operation, ProcessOutput,
};
use pkg::db::{Pkg, PkgType, Version};
use pkg::input::{AttributeValue, PkgDeclaration};
use pkg::invoke::{Action, Event, Invocation, OperationResult, Phase};

fn api() -> BridgeApi {
    BridgeApi {
        bridges: vec![Bridge {
            name: "demo".to_string(),
            entry_point: "/bridges/demo/run".to_string(),
        }],
    }
}

fn hello() -> PkgDeclaration {
    PkgDeclaration {
        name: "hello".to_string(),
        input: "src".to_string(),
        attributes: vec![
            ("flavour".to_string(), AttributeValue::String("plain".to_string())),
            ("jobs".to_string(), AttributeValue::Integer(-4)),
            ("ratio".to_string(), AttributeValue::Float("0.5".to_string())),
            ("strip".to_string(), AttributeValue::Boolean(true)),
        ],
    }
}

fn exited(code: i32, stdout: &str, stderr: &str) -> Event {
    Event::Exited {
        output: ProcessOutput {
            code: Some(code),
            stdout: stdout.as_bytes().to_vec(),
            stderr: stderr.as_bytes().to_vec(),
        },
        cwd: "/var/tmp/pkg/demo/hello/17".to_string(),
    }
}

fn pair(a: &str, b: &str) -> (String, String) {
    (a.to_string(), b.to_string())
}

fn names(all: &[&str]) -> Vec<String> {
    all.iter().map(|s| s.to_string()).collect()
}

/// Drives a call up to the point where its output has been logged.
fn run_until_logged(call: Invocation, event: Event) -> (Invocation, Action) {
    let (call, action) = call.step(Event::WorkdirEntered);
    assert!(matches!(action, Action::SetEnv { .. }));
    let (call, action) = call.step(Event::EnvSet);
    assert!(matches!(action, Action::Spawn { .. }));
    let (call, action) = call.step(event);
    assert!(matches!(action, Action::ClearEnv { .. }));
    let (call, action) = call.step(Event::EnvCleared);
    assert!(matches!(action, Action::AppendLog { .. }));
    call.step(Event::Logged)
}

#[test]
fn unknown_bridge_is_refused() {
    let r = api().install("other", &hello());
    assert_eq!(r.err(), Some(BridgeApiError::BridgeNotFound("other".to_string())));
}

#[test]
fn install_goes_through_every_step_in_order() {
    let (call, action) = api().install("demo", &hello()).unwrap();
    assert_eq!(action, Action::EnterWorkdir { base: "/var/tmp/pkg/demo/hello".to_string() });
    assert_eq!(call.phase, Phase::WorkdirSetup);

    let (call, action) = call.step(Event::WorkdirEntered);
    assert_eq!(
        action,
        Action::SetEnv {
            vars: vec![
                pair("pkg_log_file", "/var/log/pkg/demo.log"),
                pair("flavour", "plain"),
                pair("jobs", "-4"),
                pair("ratio", "0.5"),
                pair("strip", "true"),
            ]
        }
    );

    let (call, action) = call.step(Event::EnvSet);
    assert_eq!(
        action,
        Action::Spawn {
            program: "/bridges/demo/run".to_string(),
            args: names(&["install", "src"]),
        }
    );

    let (call, action) = call.step(exited(0, "out/hello,1.0.0\n", "building\n"));
    assert_eq!(
        action,
        Action::ClearEnv { names: names(&["pkg_log_file", "flavour", "jobs", "ratio", "strip"]) }
    );

    let (call, action) = call.step(Event::EnvCleared);
    assert_eq!(
        action,
        Action::AppendLog {
            path: "/var/log/pkg/demo.log".to_string(),
            frame: b"\n|PKG=hello|:::::::\n|STDOUT|::::::::\nout/hello,1.0.0\n\n\n|STDERR|::::::::\nbuilding\n\n"
                .to_vec(),
        }
    );

    let (call, action) = call.step(Event::Logged);
    assert_eq!(
        action,
        Action::CheckPaths {
            pkg_path: "/var/tmp/pkg/demo/hello/17/out/hello".to_string(),
            entry_point: None,
        }
    );

    let (call, action) = call.step(Event::PathsChecked { pkg_path: true, entry_point: false });
    assert_eq!(
        action,
        Action::Finish(Ok(OperationResult::Installed(Pkg {
            name: "hello".to_string(),
            version: Version {
                first_cell: "1".to_string(),
                second_cell: "0".to_string(),
                third_cell: "0".to_string(),
            },
            path: "/var/tmp/pkg/demo/hello/17/out/hello".to_string(),
            pkg_type: PkgType::SingleExecutable,
        })))
    );
    assert!(call.is_done());
}

#[test]
fn log_frame_and_log_file_are_exact() {
    assert_eq!(log_file("/var/log/pkg", "demo"), "/var/log/pkg/demo.log");
    assert_eq!(
        frame("p", &b"out".to_vec(), &b"err".to_vec()),
        b"\n|PKG=p|:::::::\n|STDOUT|::::::::\nout\n\n|STDERR|::::::::\nerr\n".to_vec()
    );
    assert_eq!(
        frame("p", &vec![0xff], &vec![]),
        b"\n|PKG=p|:::::::\n|STDOUT|::::::::\n\xff\n\n|STDERR|::::::::\n\n".to_vec()
    );
}

#[test]
fn working_directory_is_named_by_the_token() {
    assert_eq!(
        BridgeApi::setup_working_directory("/var/tmp/pkg", "demo", "hello", 1761689000123456789),
        "/var/tmp/pkg/demo/hello/1761689000123456789"
    );
    assert_eq!(BridgeApi::setup_working_directory("/w/", "b", "p", 0), "/w/b/p/0");
    assert_eq!(
        BridgeApi::setup_working_directory("/w", "b", "p", u128::MAX),
        "/w/b/p/340282366920938463463374607431768211455"
    );
}

#[test]
fn update_and_remove_are_told_where_the_package_is() {
    for op in [Operation::Update, Operation::Remove] {
        let (call, _) = api()
            .run_operation("demo", &hello(), op, Some("/store/demo/hello".to_string()))
            .unwrap();
        let (_, action) = call.step(Event::WorkdirEntered);
        match action {
            Action::SetEnv { vars } => {
                assert_eq!(vars[0], pair("pkg_path", "/store/demo/hello"));
                assert_eq!(vars[1], pair("pkg_log_file", "/var/log/pkg/demo.log"));
                assert_eq!(vars.len(), 6);
            }
            other => panic!("unexpected action {:?}", other),
        }
    }
}

#[test]
fn every_variable_that_is_set_is_unset() {
    let vars = BridgeApi::pass_opts_to_env(
        &hello().attributes,
        Some(&"/store/demo/hello".to_string()),
        "/var/log/pkg/demo.log",
    );
    let unset = BridgeApi::clear_env(&vars);
    let mut env: std::collections::HashMap<String, String> = std::collections::HashMap::new();
    env.insert("PATH".to_string(), "/bin".to_string());
    env.insert("jobs".to_string(), "stale".to_string());
    for (name, value) in &vars {
        env.insert(name.clone(), value.clone());
    }
    assert_eq!(env.get("jobs"), Some(&"-4".to_string()));
    for name in &unset {
        env.remove(name);
    }
    for (key, _) in &hello().attributes {
        assert!(!env.contains_key(key));
    }
    assert!(!env.contains_key("pkg_path"));
    assert!(!env.contains_key("pkg_log_file"));
    assert_eq!(env.get("PATH"), Some(&"/bin".to_string()));
    assert_eq!(env.len(), 1);
}

#[test]
fn variables_are_unset_after_a_failure_too() {
    let (call, _) = api().install("demo", &hello()).unwrap();
    let (call, _) = call.step(Event::WorkdirEntered);
    let (call, _) = call.step(Event::EnvSet);
    let (call, action) = call.step(Event::SpawnFailed("no such file".to_string()));
    assert_eq!(
        action,
        Action::ClearEnv { names: names(&["pkg_log_file", "flavour", "jobs", "ratio", "strip"]) }
    );
    let (call, action) = call.step(Event::EnvCleared);
    assert_eq!(
        action,
        Action::Finish(Err(BridgeApiError::BridgeFailedAtRuntime("no such file".to_string())))
    );
    assert!(call.is_done());
}

#[test]
fn parse_failure_comes_after_teardown_and_log() {
    let (call, _) = api().install("demo", &hello()).unwrap();
    let (call, action) = run_until_logged(call, exited(0, "out/hello,1.0\n", ""));
    assert_eq!(
        action,
        Action::Finish(Err(BridgeApiError::BridgeWrongVersionFormat("1.0".to_string())))
    );
    assert!(call.is_done());
}

#[test]
fn plugin_failure_is_reported_with_its_stderr() {
    let (call, _) = api().install("demo", &hello()).unwrap();
    let (_, action) = run_until_logged(call, exited(1, "", "disk full"));
    assert_eq!(action, Action::Finish(Err(BridgeApiError::BridgeError("disk full".to_string()))));
}

#[test]
fn missing_path_fails_the_call() {
    let (call, _) = api().install("demo", &hello()).unwrap();
    let (call, action) = run_until_logged(call, exited(0, "/tmp/x/hello,1.0.0,/tmp/x/hello/bin\n", ""));
    assert_eq!(
        action,
        Action::CheckPaths {
            pkg_path: "/tmp/x/hello".to_string(),
            entry_point: Some("/tmp/x/hello/bin".to_string()),
        }
    );
    let (_, action) = call.step(Event::PathsChecked { pkg_path: true, entry_point: false });
    assert_eq!(
        action,
        Action::Finish(Err(BridgeApiError::BridgeNotValidEntryPoint(
            "/tmp/x/hello/bin".to_string()
        )))
    );
}

#[test]
fn sentinel_on_remove_deletes_the_package_path() {
    for existed in [true, false] {
        let (call, _) = api().remove("demo", &hello(), Some("/store/demo/hello".to_string())).unwrap();
        let (call, action) = run_until_logged(call, exited(1, "", "__IMPL_DEFAULT"));
        assert_eq!(action, Action::RemovePath { path: "/store/demo/hello".to_string() });
        let (call, action) = call.step(Event::PathRemoved { existed });
        assert_eq!(action, Action::Finish(Ok(OperationResult::Removed(existed))));
        assert!(call.is_done());
    }
}

#[test]
fn sentinel_on_remove_without_a_record_removes_nothing() {
    let (call, _) = api().remove("demo", &hello(), None).unwrap();
    let (_, action) = run_until_logged(call, exited(1, "", "__IMPL_DEFAULT\n"));
    assert_eq!(action, Action::Finish(Ok(OperationResult::Removed(false))));
}

#[test]
fn failing_default_remove_fails_the_call() {
    let (call, _) = api().remove("demo", &hello(), Some("/store/demo/hello".to_string())).unwrap();
    let (call, _) = run_until_logged(call, exited(1, "", "__IMPL_DEFAULT"));
    let (_, action) = call.step(Event::RemoveFailed("permission denied".to_string()));
    assert_eq!(action, Action::Finish(Err(BridgeApiError::IoError("permission denied".to_string()))));
}

#[test]
fn sentinel_on_update_removes_and_installs() {
    let (call, _) = api().update("demo", &hello(), Some("/store/demo/hello".to_string())).unwrap();
    let (call, action) = run_until_logged(call, exited(1, "", "__IMPL_DEFAULT"));
    assert_eq!(action, Action::RemovePath { path: "/store/demo/hello".to_string() });
    let (call, action) = call.step(Event::PathRemoved { existed: true });
    assert_eq!(action, Action::EnterWorkdir { base: "/var/tmp/pkg/demo/hello".to_string() });
    assert_eq!(call.operation, Operation::Install);
    assert_eq!(call.requested, Operation::Update);

    let (call, action) = call.step(Event::WorkdirEntered);
    match &action {
        Action::SetEnv { vars } => assert_eq!(vars[0], pair("pkg_log_file", "/var/log/pkg/demo.log")),
        other => panic!("unexpected action {:?}", other),
    }
    let (call, action) = call.step(Event::EnvSet);
    assert_eq!(
        action,
        Action::Spawn {
            program: "/bridges/demo/run".to_string(),
            args: names(&["install", "src"]),
        }
    );
    let (call, _) = call.step(exited(0, "/tmp/x/hello,2.0.0\n", ""));
    let (call, _) = call.step(Event::EnvCleared);
    let (call, _) = call.step(Event::Logged);
    let (_, action) = call.step(Event::PathsChecked { pkg_path: true, entry_point: true });
    match action {
        Action::Finish(Ok(OperationResult::Updated(pkg))) => {
            assert_eq!(pkg.name, "hello");
            assert_eq!(pkg.version.text(), "2.0.0");
            assert_eq!(pkg.path, "/tmp/x/hello");
        }
        other => panic!("unexpected action {:?}", other),
    }
}

#[test]
fn sentinel_on_install_is_a_failure() {
    let (call, _) = api().install("demo", &hello()).unwrap();
    let (_, action) = run_until_logged(call, exited(1, "", "__IMPL_DEFAULT"));
    assert_eq!(
        action,
        Action::Finish(Err(BridgeApiError::BridgeError("__IMPL_DEFAULT".to_string())))
    );
}

#[test]
fn remove_with_exit_zero_has_removed() {
    let (call, _) = api().remove("demo", &hello(), Some("/store/demo/hello".to_string())).unwrap();
    let (_, action) = run_until_logged(call, exited(0, "", ""));
    assert_eq!(action, Action::Finish(Ok(OperationResult::Removed(true))));
}

#[test]
fn working_directory_failure_ends_the_call_before_anything_is_set() {
    let (call, _) = api().install("demo", &hello()).unwrap();
    let (call, action) = call.step(Event::WorkdirFailed("read-only file system".to_string()));
    assert_eq!(
        action,
        Action::Finish(Err(BridgeApiError::IoError("read-only file system".to_string())))
    );
    assert!(call.is_done());
}

#[test]
fn event_out_of_turn_never_skips_the_teardown() {
    let (call, _) = api().install("demo", &hello()).unwrap();
    let (call, _) = call.step(Event::WorkdirEntered);
    let (call, action) = call.step(Event::Logged);
    assert!(matches!(action, Action::ClearEnv { .. }));
    let (call, action) = call.step(Event::Logged);
    assert!(matches!(action, Action::ClearEnv { .. }));
    let (_, action) = call.step(Event::EnvCleared);
    assert_eq!(
        action,
        Action::Finish(Err(BridgeApiError::BridgeFailedAtRuntime("unexpected event".to_string())))
    );
}

#[test]
fn registry_loads_needed_bridges_only() {
    let candidates = vec![
        BridgeCandidate { name: "zeta".to_string(), entry_point: "/b/zeta/run".to_string(), mode: 0o644 },
        BridgeCandidate { name: "demo".to_string(), entry_point: "/b/demo/run".to_string(), mode: 0o755 },
        BridgeCandidate { name: "cargo".to_string(), entry_point: "/b/cargo/run".to_string(), mode: 0o100 },
    ];
    let api = BridgeApi::new("/b", BridgeSet::Directory(candidates), &names(&["cargo", "demo"])).unwrap();
    assert_eq!(
        api.bridges,
        vec![
            Bridge { name: "demo".to_string(), entry_point: "/b/demo/run".to_string() },
            Bridge { name: "cargo".to_string(), entry_point: "/b/cargo/run".to_string() },
        ]
    );
    assert_eq!(api.entry_point("cargo"), Some("/b/cargo/run".to_string()));
    assert_eq!(api.entry_point("zeta"), None);
}

#[test]
fn registry_refuses_a_needed_bridge_that_cannot_run() {
    let candidates = vec![
        BridgeCandidate { name: "demo".to_string(), entry_point: "/b/demo/run".to_string(), mode: 0o644 },
        BridgeCandidate { name: "cargo".to_string(), entry_point: "/b/cargo/run".to_string(), mode: 0o600 },
    ];
    assert_eq!(
        BridgeApi::new("/b", BridgeSet::Directory(candidates), &names(&["cargo", "demo"])),
        Err(BridgeApiError::BridgeEntryPointNotExecutable("/b/demo/run".to_string()))
    );
}

#[test]
fn registry_names_the_first_missing_bridge() {
    let candidates = vec![BridgeCandidate {
        name: "demo".to_string(),
        entry_point: "/b/demo/run".to_string(),
        mode: 0o001,
    }];
    assert_eq!(
        BridgeApi::new("/b", BridgeSet::Directory(candidates), &names(&["demo", "nix", "apt"])),
        Err(BridgeApiError::BridgeNotFound("nix".to_string()))
    );
    assert_eq!(
        BridgeApi::new("/b", BridgeSet::Directory(vec![]), &names(&[])).map(|a| a.bridges.len()),
        Ok(0)
    );
}

#[test]
fn registry_needs_a_directory() {
    assert_eq!(
        BridgeApi::new("/b", BridgeSet::Missing, &names(&["demo"])),
        Err(BridgeApiError::BridgeSetNotFound("/b".to_string()))
    );
    assert_eq!(
        BridgeApi::new("/b", BridgeSet::NotADirectory, &names(&["demo"])),
        Err(BridgeApiError::BridgeSetPathAreNotADirectory("/b".to_string()))
    );
}

#[test]
fn execute_bits() {
    assert!(is_executable(0o100));
    assert!(is_executable(0o010));
    assert!(is_executable(0o001));
    assert!(is_executable(0o100755));
    assert!(!is_executable(0o100644));
    assert!(!is_executable(0));
    assert!(BridgeApi::is_needed(&names(&["a", "b"]), "b"));
    assert!(!BridgeApi::is_needed(&names(&["a", "b"]), "c"));
}
