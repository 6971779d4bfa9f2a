use pkg::bridge::{Bridge as Plugin, BridgeApi, BridgeApiError, Operation, ProcessOutput};
use pkg::cmd::Commands;
use pkg::db::{InstalledPkg, Pkg, PkgRow, PkgType, Version};
use pkg::fs::Fs;
use pkg::input::{Bridge, PkgDeclaration};
use pkg::invoke::{Action, Event, OperationResult};
use pkg::orchestrate::{JobAction, JobEvent, JobReport, JobRun, Run, RunAction, Stage, Summary};
use pkg::reconcile::{reconcile, Job, JobKind};

fn decl(name: &str, input: &str) -> PkgDeclaration {
    PkgDeclaration { name: name.to_string(), input: input.to_string(), attributes: vec![] }
}

fn version(a: &str, b: &str, c: &str) -> Version {
    Version { first_cell: a.to_string(), second_cell: b.to_string(), third_cell: c.to_string() }
}

fn fs() -> Fs {
    Fs::new("/opt/pkg/store".to_string(), "/opt/pkg/bin".to_string())
}

fn built(name: &str, path: &str) -> Pkg {
    Pkg {
        name: name.to_string(),
        version: version("1", "0", "0"),
        path: path.to_string(),
        pkg_type: PkgType::SingleExecutable,
    }
}

/// Plays the bridge for one call: the plugin prints `stdout`, writes
/// `stderr` and exits with `code`; every path exists.
fn call_bridge(
    api: &BridgeApi,
    bridge: &str,
    declaration: &PkgDeclaration,
    operation: Operation,
    prior_path: Option<String>,
    code: i32,
    stdout: &str,
    stderr: &str,
) -> Result<OperationResult, BridgeApiError> {
    let (mut call, mut action) = api.run_operation(bridge, declaration, operation, prior_path)?;
    loop {
        let event = match action {
            Action::EnterWorkdir { .. } => Event::WorkdirEntered,
            Action::SetEnv { .. } => Event::EnvSet,
            Action::Spawn { .. } => Event::Exited {
                output: ProcessOutput {
                    code: Some(code),
                    stdout: stdout.as_bytes().to_vec(),
                    stderr: stderr.as_bytes().to_vec(),
                },
                cwd: "/var/tmp/pkg/w".to_string(),
            },
            Action::ClearEnv { .. } => Event::EnvCleared,
            Action::AppendLog { .. } => Event::Logged,
            Action::CheckPaths { .. } => Event::PathsChecked { pkg_path: true, entry_point: true },
            Action::RemovePath { .. } => Event::PathRemoved { existed: true },
            Action::Finish(result) => return result,
        };
        let next = call.step(event);
        call = next.0;
        action = next.1;
    }
}

#[test]
fn hello_is_installed_and_recorded() {
    let groups = vec![Bridge { name: "demo".to_string(), pkgs: vec![decl("hello", "src")] }];
    let jobs = reconcile(&groups, &vec![], &Commands::Build { update: false });
    assert_eq!(
        jobs,
        vec![Job {
            bridge: "demo".to_string(),
            declaration: decl("hello", "src"),
            kind: JobKind::Install,
            prior: None,
        }]
    );
    let api = BridgeApi {
        bridges: vec![Plugin { name: "demo".to_string(), entry_point: "/b/demo/run".to_string() }],
    };

    let (run, action) = Run::start(jobs, fs());
    assert_eq!(
        action,
        RunAction::Job(JobAction::Invoke { operation: Operation::Install, prior_path: None })
    );
    let result = call_bridge(
        &api,
        "demo",
        &decl("hello", "src"),
        Operation::Install,
        None,
        0,
        "/tmp/x/hello,1.0.0\n",
        "",
    );
    let (run, action) = run.step(JobEvent::Invoked(result));
    assert_eq!(
        action,
        RunAction::Job(JobAction::Place {
            from: "/tmp/x/hello".to_string(),
            to: "/opt/pkg/store/demo/hello".to_string(),
        })
    );
    let (run, action) = run.step(JobEvent::Done);
    let stored = Pkg {
        name: "hello".to_string(),
        version: version("1", "0", "0"),
        path: "/opt/pkg/store/demo/hello".to_string(),
        pkg_type: PkgType::SingleExecutable,
    };
    let record = InstalledPkg { pkg: stored.clone(), bridge: "demo".to_string() };
    assert_eq!(
        action,
        RunAction::Job(JobAction::WriteRecord { record: record.clone(), replace: false })
    );
    assert_eq!(
        record.to_row(),
        PkgRow {
            name: "hello".to_string(),
            version: "1.0.0".to_string(),
            path: "/opt/pkg/store/demo/hello".to_string(),
            pkg_type: "SingleExecutable".to_string(),
            entry_point: "/opt/pkg/store/demo/hello".to_string(),
            bridge: "demo".to_string(),
        }
    );
    assert_eq!(InstalledPkg::from_row(&record.to_row()), Ok(record));

    let (run, action) = run.step(JobEvent::Done);
    assert_eq!(action, RunAction::Job(JobAction::Report(JobReport::Added(stored))));
    let (run, action) = run.step(JobEvent::Done);
    assert_eq!(action, RunAction::Relink);
    let (run, action) = run.step(JobEvent::Done);
    assert_eq!(
        action,
        RunAction::Finish(Summary { added: 1, removed: 0, failed: 0, link_error: None })
    );
    assert!(run.is_finished());
}

#[test]
fn failed_plugin_fails_its_job_only() {
    let groups = vec![Bridge {
        name: "demo".to_string(),
        pkgs: vec![decl("hello", "src"), decl("world", "src2")],
    }];
    let jobs = reconcile(&groups, &vec![], &Commands::Build { update: false });
    assert_eq!(jobs.len(), 2);
    let api = BridgeApi {
        bridges: vec![Plugin { name: "demo".to_string(), entry_point: "/b/demo/run".to_string() }],
    };
    let mut actions: Vec<RunAction> = Vec::new();

    let (run, action) = Run::start(jobs, fs());
    actions.push(action);
    let failed =
        call_bridge(&api, "demo", &decl("hello", "src"), Operation::Install, None, 1, "", "disk full");
    assert_eq!(failed, Err(BridgeApiError::BridgeError("disk full".to_string())));
    let (run, action) = run.step(JobEvent::Invoked(failed));
    assert_eq!(
        action,
        RunAction::Job(JobAction::Report(JobReport::Failed {
            stage: Stage::BridgeOperation,
            message: "Bridge returned an error: disk full".to_string(),
        }))
    );
    actions.push(action);

    let (run, action) = run.step(JobEvent::Done);
    assert_eq!(
        action,
        RunAction::Job(JobAction::Invoke { operation: Operation::Install, prior_path: None })
    );
    actions.push(action);
    let ok = call_bridge(
        &api,
        "demo",
        &decl("world", "src2"),
        Operation::Install,
        None,
        0,
        "w,0.1.0",
        "",
    );
    let (run, action) = run.step(JobEvent::Invoked(ok));
    actions.push(action);
    let (run, action) = run.step(JobEvent::Done);
    actions.push(action);
    let (run, action) = run.step(JobEvent::Done);
    actions.push(action);
    let (run, action) = run.step(JobEvent::Done);
    assert_eq!(action, RunAction::Relink);
    let (_, action) = run.step(JobEvent::Done);
    assert_eq!(
        action,
        RunAction::Finish(Summary { added: 1, removed: 0, failed: 1, link_error: None })
    );

    let writes: Vec<&RunAction> = actions
        .iter()
        .filter(|a| matches!(a, RunAction::Job(JobAction::WriteRecord { .. })))
        .collect();
    assert_eq!(writes.len(), 1);
    match writes[0] {
        RunAction::Job(JobAction::WriteRecord { record, .. }) => {
            assert_eq!(record.pkg.name, "world");
            assert_eq!(record.pkg.path, "/opt/pkg/store/demo/world");
        }
        _ => unreachable!(),
    }
}

#[test]
fn run_without_jobs_only_links() {
    let (run, action) = Run::start(vec![], fs());
    assert_eq!(action, RunAction::Relink);
    let (run, action) = run.step(JobEvent::Failed("load path is a file".to_string()));
    assert_eq!(
        action,
        RunAction::Finish(Summary {
            added: 0,
            removed: 0,
            failed: 0,
            link_error: Some("load path is a file".to_string()),
        })
    );
    let (_, again) = run.step(JobEvent::Done);
    assert_eq!(again, action);
}

fn job(kind: JobKind, prior: Option<Pkg>) -> Job {
    Job { bridge: "demo".to_string(), declaration: decl("hello", "src"), kind, prior }
}

#[test]
fn update_replaces_the_record() {
    let prior = built("hello", "/opt/pkg/store/demo/hello");
    let (run, action) = JobRun::start(job(JobKind::Update, Some(prior)), &fs());
    assert_eq!(
        action,
        JobAction::Invoke {
            operation: Operation::Update,
            prior_path: Some("/opt/pkg/store/demo/hello".to_string()),
        }
    );
    let fresh = Pkg {
        name: "hello".to_string(),
        version: version("2", "0", "0"),
        path: "/var/tmp/pkg/demo/hello/9/out".to_string(),
        pkg_type: PkgType::Directory("/var/tmp/pkg/demo/hello/9/out/bin/hello".to_string()),
    };
    let (run, action) = run.step(JobEvent::Invoked(Ok(OperationResult::Updated(fresh))));
    assert_eq!(
        action,
        JobAction::Place {
            from: "/var/tmp/pkg/demo/hello/9/out".to_string(),
            to: "/opt/pkg/store/demo/hello".to_string(),
        }
    );
    let (run, action) = run.step(JobEvent::Done);
    let moved = Pkg {
        name: "hello".to_string(),
        version: version("2", "0", "0"),
        path: "/opt/pkg/store/demo/hello".to_string(),
        pkg_type: PkgType::Directory("/opt/pkg/store/demo/hello/bin/hello".to_string()),
    };
    assert_eq!(
        action,
        JobAction::WriteRecord {
            record: InstalledPkg { pkg: moved.clone(), bridge: "demo".to_string() },
            replace: true,
        }
    );
    let (run, action) = run.step(JobEvent::Done);
    assert_eq!(action, JobAction::Report(JobReport::Added(moved)));
    assert!(run.is_finished());
}

#[test]
fn remove_deletes_copy_then_record() {
    let prior = built("hello", "/opt/pkg/store/demo/hello");
    let (run, action) = JobRun::start(job(JobKind::Remove, Some(prior)), &fs());
    assert_eq!(
        action,
        JobAction::Invoke {
            operation: Operation::Remove,
            prior_path: Some("/opt/pkg/store/demo/hello".to_string()),
        }
    );
    let (run, action) = run.step(JobEvent::Invoked(Ok(OperationResult::Removed(true))));
    assert_eq!(action, JobAction::RemoveManaged { path: "/opt/pkg/store/demo/hello".to_string() });
    let (run, action) = run.step(JobEvent::Done);
    assert_eq!(action, JobAction::DeleteRecord { name: "hello".to_string() });
    let (_, action) = run.step(JobEvent::Done);
    assert_eq!(action, JobAction::Report(JobReport::Removed("hello".to_string())));
}

#[test]
fn remove_that_removed_nothing_is_a_failure() {
    let prior = built("hello", "/opt/pkg/store/demo/hello");
    let (run, _) = JobRun::start(job(JobKind::Remove, Some(prior)), &fs());
    let (_, action) = run.step(JobEvent::Invoked(Ok(OperationResult::Removed(false))));
    assert_eq!(
        action,
        JobAction::Report(JobReport::Failed {
            stage: Stage::BridgeOperation,
            message: "the remove operation returned false".to_string(),
        })
    );
}

#[test]
fn reinstall_installs_removes_moves_and_records() {
    let prior = built("hello", "/opt/pkg/store/demo/hello");
    let (run, action) = JobRun::start(job(JobKind::Reinstall, Some(prior)), &fs());
    assert_eq!(action, JobAction::Invoke { operation: Operation::Install, prior_path: None });
    let fresh = built("hello", "/var/tmp/pkg/demo/hello/3/hello");
    let (run, action) = run.step(JobEvent::Invoked(Ok(OperationResult::Installed(fresh))));
    assert_eq!(
        action,
        JobAction::Invoke {
            operation: Operation::Remove,
            prior_path: Some("/opt/pkg/store/demo/hello".to_string()),
        }
    );
    let (run, action) = run.step(JobEvent::Invoked(Ok(OperationResult::Removed(false))));
    assert_eq!(
        action,
        JobAction::Place {
            from: "/var/tmp/pkg/demo/hello/3/hello".to_string(),
            to: "/opt/pkg/store/demo/hello".to_string(),
        }
    );
    let (run, action) = run.step(JobEvent::Done);
    assert_eq!(action, JobAction::DeleteRecord { name: "hello".to_string() });
    let (run, action) = run.step(JobEvent::Failed("database is locked".to_string()));
    let moved = built("hello", "/opt/pkg/store/demo/hello");
    assert_eq!(
        action,
        JobAction::WriteRecord {
            record: InstalledPkg { pkg: moved.clone(), bridge: "demo".to_string() },
            replace: false,
        }
    );
    let (_, action) = run.step(JobEvent::Done);
    assert_eq!(action, JobAction::Report(JobReport::Added(moved)));
}

#[test]
fn failures_after_the_bridge_name_their_stage() {
    let fresh = built("hello", "/w/hello");
    let (run, _) = JobRun::start(job(JobKind::Install, None), &fs());
    let (run, _) = run.step(JobEvent::Invoked(Ok(OperationResult::Installed(fresh.clone()))));
    let (_, action) = run.step(JobEvent::Failed("cross-device link".to_string()));
    assert_eq!(
        action,
        JobAction::Report(JobReport::Failed {
            stage: Stage::StorePkg,
            message: "cross-device link".to_string(),
        })
    );

    let (run, _) = JobRun::start(job(JobKind::Install, None), &fs());
    let (run, _) = run.step(JobEvent::Invoked(Ok(OperationResult::Installed(fresh))));
    let (run, _) = run.step(JobEvent::Done);
    let (_, action) = run.step(JobEvent::Failed("UNIQUE constraint failed".to_string()));
    assert_eq!(
        action,
        JobAction::Report(JobReport::Failed {
            stage: Stage::WritePkgInDb,
            message: "UNIQUE constraint failed".to_string(),
        })
    );

    let prior = built("hello", "/opt/pkg/store/demo/hello");
    let (run, _) = JobRun::start(job(JobKind::Remove, Some(prior.clone())), &fs());
    let (run, _) = run.step(JobEvent::Invoked(Ok(OperationResult::Removed(true))));
    let (_, action) = run.step(JobEvent::Failed("busy".to_string()));
    assert_eq!(
        action,
        JobAction::Report(JobReport::Failed { stage: Stage::RemovePkg, message: "busy".to_string() })
    );

    let (run, _) = JobRun::start(job(JobKind::Remove, Some(prior)), &fs());
    let (run, _) = run.step(JobEvent::Invoked(Ok(OperationResult::Removed(true))));
    let (run, _) = run.step(JobEvent::Done);
    let (_, action) = run.step(JobEvent::Failed("locked".to_string()));
    assert_eq!(
        action,
        JobAction::Report(JobReport::Failed {
            stage: Stage::RemovePkgFromDb,
            message: "locked".to_string(),
        })
    );
    assert_eq!(Stage::RemovePkgFromDb.text(), "at remove pkg from db");
    assert_eq!(Stage::BridgeOperation.text(), "at bridge operation");
    assert_eq!(Stage::StorePkg.text(), "at store the pkg");
    assert_eq!(Stage::RemovePkg.text(), "at remove the pkg");
    assert_eq!(Stage::WritePkgInDb.text(), "at write pkg in db");
}

#[test]
fn result_of_the_wrong_kind_fails_the_job() {
    let (run, _) = JobRun::start(job(JobKind::Install, None), &fs());
    let (_, action) = run.step(JobEvent::Invoked(Ok(OperationResult::Removed(true))));
    assert_eq!(
        action,
        JobAction::Report(JobReport::Failed {
            stage: Stage::BridgeOperation,
            message: "unexpected event".to_string(),
        })
    );
}
