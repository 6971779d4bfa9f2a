//! One call of a bridge, step by step.
//!
//! A call alternates between work that only the caller can do (make a
//! directory, set variables, run a process) and decisions. The decisions
//! are made here: an `Invocation` is told what happened and says what to do
//! next, until it says that the call is finished and what came of it.
use crate::bridge::{
    asks_default, check_paths, checked_output, env_after_set, env_after_unset, env_names, env_plan,
    frame, interpret, lemma_env_after_unset, lemma_env_isolation, log_file, log_file_path,
    log_frame, outcome_of, pairs, pkg_log_file_name, pkg_path_name, read_stream, resolve,
    stream_text, work_base, Bridge, BridgeApi, BridgeApiError, BridgeApiErrorView, BridgeOutcome,
    BridgeOutcomeView, BridgeOutput, BridgeOutputView, BridgeView, Operation, ProcessOutput,
    ProcessOutputView,
};
use crate::db::{Pkg, PkgType, PkgTypeView, PkgView};
use crate::input::{PkgDeclaration, PkgDeclarationView};
use crate::model::{option_view, position, result_view, texts};
use crate::text::copy_text;
use crate::{DEFAULT_LOG_DIR, DEFAULT_WORKING_DIR};
use vstd::prelude::*;
use vstd::string::*;

verus! {

/// What an operation came to.
#[derive(Debug, Clone, PartialEq, Eq)]
pub enum OperationResult {
    Installed(Pkg),
    Updated(Pkg),
    /// A remove went through; the flag says whether anything was removed.
    Removed(bool),
}

pub enum OperationResultView {
    Installed(PkgView),
    Updated(PkgView),
    Removed(bool),
}

impl View for OperationResult {
    type V = OperationResultView;

    open spec fn view(&self) -> OperationResultView {
        match self {
            OperationResult::Installed(pkg) => OperationResultView::Installed(pkg@),
            OperationResult::Updated(pkg) => OperationResultView::Updated(pkg@),
            OperationResult::Removed(removed) => OperationResultView::Removed(*removed),
        }
    }
}

/// How a bridge process ended, or why it never ran.
#[derive(Debug, Clone, PartialEq, Eq)]
pub enum Exit {
    /// The process ran. With it comes the directory against which relative
    /// paths in its output are resolved.
    Ran(ProcessOutput, String),
    /// The process could not be started.
    NotRun(String),
}

pub enum ExitView {
    Ran(ProcessOutputView, Seq<char>),
    NotRun(Seq<char>),
}

impl View for Exit {
    type V = ExitView;

    open spec fn view(&self) -> ExitView {
        match self {
            Exit::Ran(output, cwd) => ExitView::Ran(output@, cwd@),
            Exit::NotRun(message) => ExitView::NotRun(message@),
        }
    }
}

/// Where a call stands: what the caller was last asked to do.
#[derive(Debug, Clone, PartialEq, Eq)]
pub enum Phase {
    WorkdirSetup,
    EnvSetup,
    Spawn,
    EnvTeardown(Exit),
    LogWrite(ProcessOutput, String),
    PathCheck(BridgeOutput),
    DefaultRemove,
    Done,
}

pub enum PhaseView {
    WorkdirSetup,
    EnvSetup,
    Spawn,
    EnvTeardown(ExitView),
    LogWrite(ProcessOutputView, Seq<char>),
    PathCheck(BridgeOutputView),
    DefaultRemove,
    Done,
}

impl View for Phase {
    type V = PhaseView;

    open spec fn view(&self) -> PhaseView {
        match self {
            Phase::WorkdirSetup => PhaseView::WorkdirSetup,
            Phase::EnvSetup => PhaseView::EnvSetup,
            Phase::Spawn => PhaseView::Spawn,
            Phase::EnvTeardown(exit) => PhaseView::EnvTeardown(exit@),
            Phase::LogWrite(output, cwd) => PhaseView::LogWrite(output@, cwd@),
            Phase::PathCheck(output) => PhaseView::PathCheck(output@),
            Phase::DefaultRemove => PhaseView::DefaultRemove,
            Phase::Done => PhaseView::Done,
        }
    }
}

impl PhaseView {
    /// Variables of this call may be in the environment: they were asked
    /// to be set, and the caller has not yet said that they are unset.
    pub open spec fn env_may_be_set(self) -> bool {
        self is EnvSetup || self is Spawn || self is EnvTeardown
    }
}

/// What the caller has to do next.
#[derive(Debug, PartialEq, Eq)]
pub enum Action {
    /// Make a directory below `base` that did not exist before, named by a
    /// token of the caller's choice, and make it the current directory.
    EnterWorkdir { base: String },
    /// Set these variables, in this order.
    SetEnv { vars: Vec<(String, String)> },
    /// Run `program` with `args`, wait for it and take all its output.
    Spawn { program: String, args: Vec<String> },
    /// Unset these variables.
    ClearEnv { names: Vec<String> },
    /// Append `frame` to the file at `path`. A failure is of no account.
    AppendLog { path: String, frame: Vec<u8> },
    /// Find out whether these paths exist.
    CheckPaths { pkg_path: String, entry_point: Option<String> },
    /// Delete what is at `path`, with all below it if it is a directory,
    /// and say whether anything was there.
    RemovePath { path: String },
    /// Nothing: the call is over, and this came of it.
    Finish(Result<OperationResult, BridgeApiError>),
}

pub enum ActionView {
    EnterWorkdir { base: Seq<char> },
    SetEnv { vars: Seq<(Seq<char>, Seq<char>)> },
    Spawn { program: Seq<char>, args: Seq<Seq<char>> },
    ClearEnv { names: Seq<Seq<char>> },
    AppendLog { path: Seq<char>, frame: Seq<u8> },
    CheckPaths { pkg_path: Seq<char>, entry_point: Option<Seq<char>> },
    RemovePath { path: Seq<char> },
    Finish(Result<OperationResultView, BridgeApiErrorView>),
}

impl View for Action {
    type V = ActionView;

    open spec fn view(&self) -> ActionView {
        match self {
            Action::EnterWorkdir { base } => ActionView::EnterWorkdir { base: base@ },
            Action::SetEnv { vars } => ActionView::SetEnv { vars: pairs(vars@) },
            Action::Spawn { program, args } => ActionView::Spawn {
                program: program@,
                args: texts(args@),
            },
            Action::ClearEnv { names } => ActionView::ClearEnv { names: texts(names@) },
            Action::AppendLog { path, frame } => ActionView::AppendLog {
                path: path@,
                frame: frame@,
            },
            Action::CheckPaths { pkg_path, entry_point } => ActionView::CheckPaths {
                pkg_path: pkg_path@,
                entry_point: option_view(*entry_point),
            },
            Action::RemovePath { path } => ActionView::RemovePath { path: path@ },
            Action::Finish(result) => ActionView::Finish(result_view(*result)),
        }
    }
}

/// What happened when the caller did what it was asked to do.
#[derive(Debug, Clone, PartialEq, Eq)]
pub enum Event {
    WorkdirEntered,
    WorkdirFailed(String),
    EnvSet,
    /// The process ended. `cwd` is the current directory at that time.
    Exited { output: ProcessOutput, cwd: String },
    SpawnFailed(String),
    EnvCleared,
    /// The log was written, or could not be.
    Logged,
    PathsChecked { pkg_path: bool, entry_point: bool },
    PathRemoved { existed: bool },
    RemoveFailed(String),
}

pub enum EventView {
    WorkdirEntered,
    WorkdirFailed(Seq<char>),
    EnvSet,
    Exited { output: ProcessOutputView, cwd: Seq<char> },
    SpawnFailed(Seq<char>),
    EnvCleared,
    Logged,
    PathsChecked { pkg_path: bool, entry_point: bool },
    PathRemoved { existed: bool },
    RemoveFailed(Seq<char>),
}

impl View for Event {
    type V = EventView;

    open spec fn view(&self) -> EventView {
        match self {
            Event::WorkdirEntered => EventView::WorkdirEntered,
            Event::WorkdirFailed(message) => EventView::WorkdirFailed(message@),
            Event::EnvSet => EventView::EnvSet,
            Event::Exited { output, cwd } => EventView::Exited { output: output@, cwd: cwd@ },
            Event::SpawnFailed(message) => EventView::SpawnFailed(message@),
            Event::EnvCleared => EventView::EnvCleared,
            Event::Logged => EventView::Logged,
            Event::PathsChecked { pkg_path, entry_point } => EventView::PathsChecked {
                pkg_path: *pkg_path,
                entry_point: *entry_point,
            },
            Event::PathRemoved { existed } => EventView::PathRemoved { existed: *existed },
            Event::RemoveFailed(message) => EventView::RemoveFailed(message@),
        }
    }
}

/// One call of a bridge for one package. `requested` is the operation that
/// was asked for. `operation` is the one that the bridge is run with now:
/// it differs from `requested` only while an update that the bridge left to
/// the built-in behaviour is carried on as an install.
#[derive(Debug, Clone, PartialEq, Eq)]
pub struct Invocation {
    pub bridge: Bridge,
    pub declaration: PkgDeclaration,
    pub requested: Operation,
    pub operation: Operation,
    pub prior_path: Option<String>,
    pub phase: Phase,
}

pub struct InvocationView {
    pub bridge: BridgeView,
    pub declaration: PkgDeclarationView,
    pub requested: Operation,
    pub operation: Operation,
    pub prior_path: Option<Seq<char>>,
    pub phase: PhaseView,
}

impl View for Invocation {
    type V = InvocationView;

    open spec fn view(&self) -> InvocationView {
        InvocationView {
            bridge: self.bridge@,
            declaration: self.declaration@,
            requested: self.requested,
            operation: self.operation,
            prior_path: option_view(self.prior_path),
            phase: self.phase@,
        }
    }
}

/// The message of the failure for an event that does not answer the last
/// action.
pub open spec fn unexpected_event() -> Seq<char> {
    "unexpected event"@
}

impl InvocationView {
    /// This call, in another phase.
    pub open spec fn at(self, phase: PhaseView) -> InvocationView {
        InvocationView { phase: phase, ..self }
    }

    /// The path that is handed to the bridge as `pkg_path`: where the
    /// package is installed now, for an update or a remove.
    pub open spec fn pkg_path(self) -> Option<Seq<char>> {
        if self.operation == Operation::Install {
            None
        } else {
            self.prior_path
        }
    }

    /// The file in which the output of this call is kept.
    pub open spec fn log_file(self) -> Seq<char> {
        log_file_path(DEFAULT_LOG_DIR@, self.bridge.name)
    }

    /// The variables that are set for this call.
    pub open spec fn vars(self) -> Seq<(Seq<char>, Seq<char>)> {
        env_plan(self.declaration.attributes, self.pkg_path(), self.log_file())
    }

    /// The first action of a call: to enter a working directory of its own.
    pub open spec fn enter(self) -> ActionView {
        ActionView::EnterWorkdir {
            base: work_base(DEFAULT_WORKING_DIR@, self.bridge.name, self.declaration.name),
        }
    }

    /// The end of the call.
    pub open spec fn finish(self, result: Result<OperationResultView, BridgeApiErrorView>) -> (
        InvocationView,
        ActionView,
    ) {
        (self.at(PhaseView::Done), ActionView::Finish(result))
    }

    /// The call starts over as an install, with the same declaration.
    pub open spec fn restart(self) -> (InvocationView, ActionView) {
        let again = InvocationView {
            operation: Operation::Install,
            phase: PhaseView::WorkdirSetup,
            ..self
        };
        (again, again.enter())
    }

    /// The record that an install or update has produced.
    pub open spec fn produced(self, output: BridgeOutputView) -> OperationResultView {
        let pkg = PkgView {
            name: self.declaration.name,
            version: output.version,
            path: output.pkg_path,
            pkg_type: output.pkg_type,
        };
        if self.requested == Operation::Install {
            OperationResultView::Installed(pkg)
        } else {
            OperationResultView::Updated(pkg)
        }
    }

    /// What follows once the process has ended, its variables are unset
    /// and its output is logged.
    ///
    /// Output of a successful install or update has its paths checked. A
    /// successful remove has removed something. A bridge that asks for the
    /// built-in behaviour gets it for an update or a remove: what is at the
    /// package's path is deleted; where no path is known there is nothing
    /// to delete. An install has no built-in behaviour, so to ask for it is
    /// to fail. Every other failure ends the call.
    pub open spec fn after_exit(self, output: ProcessOutputView, cwd: Seq<char>) -> (
        InvocationView,
        ActionView,
    ) {
        match outcome_of(self.operation, output.code, output.stdout, output.stderr, cwd) {
            BridgeOutcomeView::Success(parsed) => (
                self.at(PhaseView::PathCheck(parsed)),
                ActionView::CheckPaths {
                    pkg_path: parsed.pkg_path,
                    entry_point: match parsed.pkg_type {
                        PkgTypeView::Directory(entry_point) => Some(entry_point),
                        PkgTypeView::SingleExecutable => None,
                    },
                },
            ),
            BridgeOutcomeView::Removed => self.finish(Ok(OperationResultView::Removed(true))),
            BridgeOutcomeView::DefaultRequested => if self.operation == Operation::Install {
                self.finish(Err(BridgeApiErrorView::BridgeError(stream_text(output.stderr))))
            } else {
                match self.prior_path {
                    Some(path) => (
                        self.at(PhaseView::DefaultRemove),
                        ActionView::RemovePath { path: path },
                    ),
                    None => self.after_default_remove(false),
                }
            },
            BridgeOutcomeView::Failure(error) => self.finish(Err(error)),
        }
    }

    /// What follows the built-in remove: a remove is over, and has removed
    /// something if and only if something was there; an update goes on as
    /// an install.
    pub open spec fn after_default_remove(self, existed: bool) -> (InvocationView, ActionView) {
        if self.requested == Operation::Remove {
            self.finish(Ok(OperationResultView::Removed(existed)))
        } else {
            self.restart()
        }
    }

    /// The phase after `event`, and what the caller has to do next.
    ///
    /// The order is fixed: working directory, variables, process, unset
    /// the variables, log, then read what the process left. Once the
    /// variables were asked to be set, nothing ends the call before the
    /// caller has said that they are unset: where the process cannot be
    /// started, or an event does not answer the last action, the variables
    /// are unset first and the call fails then.
    pub open spec fn next(self, event: EventView) -> (InvocationView, ActionView) {
        match self.phase {
            PhaseView::WorkdirSetup => match event {
                EventView::WorkdirEntered => (
                    self.at(PhaseView::EnvSetup),
                    ActionView::SetEnv { vars: self.vars() },
                ),
                EventView::WorkdirFailed(message) => self.finish(
                    Err(BridgeApiErrorView::IoError(message)),
                ),
                _ => self.finish(Err(BridgeApiErrorView::BridgeFailedAtRuntime(unexpected_event()))),
            },
            PhaseView::EnvSetup => match event {
                EventView::EnvSet => (
                    self.at(PhaseView::Spawn),
                    ActionView::Spawn {
                        program: self.bridge.entry_point,
                        args: seq![self.operation.word(), self.declaration.input],
                    },
                ),
                _ => (
                    self.at(PhaseView::EnvTeardown(ExitView::NotRun(unexpected_event()))),
                    ActionView::ClearEnv { names: env_names(self.vars()) },
                ),
            },
            PhaseView::Spawn => (
                self.at(
                    PhaseView::EnvTeardown(
                        match event {
                            EventView::Exited { output, cwd } => ExitView::Ran(output, cwd),
                            EventView::SpawnFailed(message) => ExitView::NotRun(message),
                            _ => ExitView::NotRun(unexpected_event()),
                        },
                    ),
                ),
                ActionView::ClearEnv { names: env_names(self.vars()) },
            ),
            PhaseView::EnvTeardown(exit) => match event {
                EventView::EnvCleared => match exit {
                    ExitView::Ran(output, cwd) => (
                        self.at(PhaseView::LogWrite(output, cwd)),
                        ActionView::AppendLog {
                            path: self.log_file(),
                            frame: log_frame(self.declaration.name, output.stdout, output.stderr),
                        },
                    ),
                    ExitView::NotRun(message) => self.finish(
                        Err(BridgeApiErrorView::BridgeFailedAtRuntime(message)),
                    ),
                },
                _ => (self, ActionView::ClearEnv { names: env_names(self.vars()) }),
            },
            PhaseView::LogWrite(output, cwd) => match event {
                EventView::Logged => self.after_exit(output, cwd),
                _ => self.finish(Err(BridgeApiErrorView::BridgeFailedAtRuntime(unexpected_event()))),
            },
            PhaseView::PathCheck(parsed) => match event {
                EventView::PathsChecked { pkg_path, entry_point } => self.finish(
                    match checked_output(parsed, pkg_path, entry_point) {
                        Ok(output) => Ok(self.produced(output)),
                        Err(error) => Err(error),
                    },
                ),
                _ => self.finish(Err(BridgeApiErrorView::BridgeFailedAtRuntime(unexpected_event()))),
            },
            PhaseView::DefaultRemove => match event {
                EventView::PathRemoved { existed } => self.after_default_remove(existed),
                EventView::RemoveFailed(message) => self.finish(
                    Err(BridgeApiErrorView::IoError(message)),
                ),
                _ => self.finish(Err(BridgeApiErrorView::BridgeFailedAtRuntime(unexpected_event()))),
            },
            PhaseView::Done => self.finish(
                Err(BridgeApiErrorView::BridgeFailedAtRuntime(unexpected_event())),
            ),
        }
    }
}

impl Invocation {
    /// The variables that are set for this call.
    pub fn vars(&self) -> (vars: Vec<(String, String)>)
        ensures
            pairs(vars@) == self@.vars(),
    {
        let log = log_file(DEFAULT_LOG_DIR, self.bridge.name.as_str());
        match self.operation {
            Operation::Install => BridgeApi::pass_opts_to_env(
                &self.declaration.attributes,
                None,
                log.as_str(),
            ),
            _ => BridgeApi::pass_opts_to_env(
                &self.declaration.attributes,
                self.prior_path.as_ref(),
                log.as_str(),
            ),
        }
    }

    /// The first action of a call: to enter a working directory of its own.
    pub fn enter(&self) -> (action: Action)
        ensures
            action@ == self@.enter(),
    {
        let under_bridge = resolve(DEFAULT_WORKING_DIR, self.bridge.name.as_str());
        Action::EnterWorkdir { base: resolve(under_bridge.as_str(), self.declaration.name.as_str()) }
    }

    /// Whether the call is over.
    pub fn is_done(&self) -> (b: bool)
        ensures
            b == (self@.phase is Done),
    {
        match &self.phase {
            Phase::Done => true,
            _ => false,
        }
    }

    /// Ends the call with `result`.
    fn finish(self, result: Result<OperationResult, BridgeApiError>) -> (r: (Invocation, Action))
        ensures
            (r.0@, r.1@) == self@.finish(result_view(result)),
    {
        let Invocation { bridge, declaration, requested, operation, prior_path, phase: _ } = self;
        (
            Invocation { bridge, declaration, requested, operation, prior_path, phase: Phase::Done },
            Action::Finish(result),
        )
    }

    /// Ends the call because of an event that does not answer the last
    /// action.
    fn unexpected(self) -> (r: (Invocation, Action))
        ensures
            (r.0@, r.1@) == self@.finish(
                Err(BridgeApiErrorView::BridgeFailedAtRuntime(unexpected_event())),
            ),
    {
        self.finish(Err(BridgeApiError::BridgeFailedAtRuntime("unexpected event".to_string())))
    }

    /// This call, in another phase.
    fn to_phase(self, phase: Phase) -> (r: Invocation)
        ensures
            r@ == self@.at(phase@),
    {
        let Invocation { bridge, declaration, requested, operation, prior_path, phase: _ } = self;
        Invocation { bridge, declaration, requested, operation, prior_path, phase }
    }

    /// Asks for the variables to be unset, and keeps how the process ended.
    fn clear(self, exit: Exit) -> (r: (Invocation, Action))
        ensures
            r.0@ == self@.at(PhaseView::EnvTeardown(exit@)),
            r.1@ == (ActionView::ClearEnv { names: env_names(self@.vars()) }),
    {
        let vars = self.vars();
        let names = BridgeApi::clear_env(&vars);
        (self.to_phase(Phase::EnvTeardown(exit)), Action::ClearEnv { names })
    }

    /// Starts the call over as an install.
    fn restart(self) -> (r: (Invocation, Action))
        ensures
            (r.0@, r.1@) == self@.restart(),
    {
        let Invocation { bridge, declaration, requested, operation: _, prior_path, phase: _ } =
            self;
        let again = Invocation {
            bridge,
            declaration,
            requested,
            operation: Operation::Install,
            prior_path,
            phase: Phase::WorkdirSetup,
        };
        let action = again.enter();
        (again, action)
    }

    /// What follows the built-in remove.
    fn after_default_remove(self, existed: bool) -> (r: (Invocation, Action))
        ensures
            (r.0@, r.1@) == self@.after_default_remove(existed),
    {
        match self.requested {
            Operation::Remove => self.finish(Ok(OperationResult::Removed(existed))),
            _ => self.restart(),
        }
    }

    /// What follows once the process has ended, its variables are unset and
    /// its output is logged.
    fn after_exit(self, output: ProcessOutput, cwd: String) -> (r: (Invocation, Action))
        ensures
            (r.0@, r.1@) == self@.after_exit(output@, cwd@),
    {
        match interpret(self.operation, &output, cwd.as_str()) {
            BridgeOutcome::Success(parsed) => {
                let pkg_path = copy_text(&parsed.pkg_path);
                let entry_point = match &parsed.pkg_type {
                    PkgType::Directory(entry_point) => Some(copy_text(entry_point)),
                    PkgType::SingleExecutable => None,
                };
                (
                    self.to_phase(Phase::PathCheck(parsed)),
                    Action::CheckPaths { pkg_path, entry_point },
                )
            },
            BridgeOutcome::Removed => self.finish(Ok(OperationResult::Removed(true))),
            BridgeOutcome::DefaultRequested => match self.operation {
                Operation::Install => self.finish(
                    Err(BridgeApiError::BridgeError(read_stream(&output.stderr))),
                ),
                _ => {
                    let path = match &self.prior_path {
                        Some(path) => Some(copy_text(path)),
                        None => None,
                    };
                    match path {
                        Some(path) => (
                            self.to_phase(Phase::DefaultRemove),
                            Action::RemovePath { path },
                        ),
                        None => self.after_default_remove(false),
                    }
                },
            },
            BridgeOutcome::Failure(error) => self.finish(Err(error)),
        }
    }

    /// The record that an install or update has produced.
    fn produced(&self, output: BridgeOutput) -> (r: OperationResult)
        ensures
            r@ == self@.produced(output@),
    {
        let pkg = Pkg {
            name: copy_text(&self.declaration.name),
            version: output.version,
            path: output.pkg_path,
            pkg_type: output.pkg_type,
        };
        match self.requested {
            Operation::Install => OperationResult::Installed(pkg),
            _ => OperationResult::Updated(pkg),
        }
    }

    /// Takes what happened and says what to do next.
    pub fn step(self, event: Event) -> (r: (Invocation, Action))
        ensures
            (r.0@, r.1@) == self@.next(event@),
    {
        let Invocation { bridge, declaration, requested, operation, prior_path, phase } = self;
        let ghost before = phase@;
        let here = Invocation {
            bridge,
            declaration,
            requested,
            operation,
            prior_path,
            phase: Phase::Done,
        };
        assert(here@.at(before) == self@);
        assert(forall|p: PhaseView| #[trigger] here@.at(p) == self@.at(p));
        match phase {
            Phase::WorkdirSetup => match event {
                Event::WorkdirEntered => {
                    let vars = here.vars();
                    (here.to_phase(Phase::EnvSetup), Action::SetEnv { vars })
                },
                Event::WorkdirFailed(message) => here.finish(Err(BridgeApiError::IoError(message))),
                _ => here.unexpected(),
            },
            Phase::EnvSetup => match event {
                Event::EnvSet => {
                    let mut args: Vec<String> = Vec::new();
                    args.push(here.operation.display());
                    args.push(copy_text(&here.declaration.input));
                    let program = copy_text(&here.bridge.entry_point);
                    assert(texts(args@) == seq![here@.operation.word(), here@.declaration.input]);
                    (here.to_phase(Phase::Spawn), Action::Spawn { program, args })
                },
                _ => here.clear(Exit::NotRun("unexpected event".to_string())),
            },
            Phase::Spawn => match event {
                Event::Exited { output, cwd } => here.clear(Exit::Ran(output, cwd)),
                Event::SpawnFailed(message) => here.clear(Exit::NotRun(message)),
                _ => here.clear(Exit::NotRun("unexpected event".to_string())),
            },
            Phase::EnvTeardown(exit) => match event {
                Event::EnvCleared => match exit {
                    Exit::Ran(output, cwd) => {
                        let path = log_file(DEFAULT_LOG_DIR, here.bridge.name.as_str());
                        let bytes = frame(
                            here.declaration.name.as_str(),
                            &output.stdout,
                            &output.stderr,
                        );
                        (
                            here.to_phase(Phase::LogWrite(output, cwd)),
                            Action::AppendLog { path, frame: bytes },
                        )
                    },
                    Exit::NotRun(message) => here.finish(
                        Err(BridgeApiError::BridgeFailedAtRuntime(message)),
                    ),
                },
                _ => here.clear(exit),
            },
            Phase::LogWrite(output, cwd) => match event {
                Event::Logged => here.after_exit(output, cwd),
                _ => here.unexpected(),
            },
            Phase::PathCheck(parsed) => match event {
                Event::PathsChecked { pkg_path, entry_point } => {
                    let result = match check_paths(parsed, pkg_path, entry_point) {
                        Ok(output) => Ok(here.produced(output)),
                        Err(error) => Err(error),
                    };
                    here.finish(result)
                },
                _ => here.unexpected(),
            },
            Phase::DefaultRemove => match event {
                Event::PathRemoved { existed } => here.after_default_remove(existed),
                Event::RemoveFailed(message) => here.finish(Err(BridgeApiError::IoError(message))),
                _ => here.unexpected(),
            },
            Phase::Done => here.unexpected(),
        }
    }
}

impl BridgeApi {
    /// Begins a call of the bridge named `bridge_name` for `pkg`. The
    /// result is the call and its first action. `prior_path` is where the
    /// package is installed now, if it is.
    pub fn run_operation(
        &self,
        bridge_name: &str,
        pkg: &PkgDeclaration,
        operation: Operation,
        prior_path: Option<String>,
    ) -> (r: Result<(Invocation, Action), BridgeApiError>)
        ensures
            r is Ok == crate::bridge::bridge_names(self@).contains(bridge_name@),
            r matches Err(error) ==> error@ == BridgeApiErrorView::BridgeNotFound(bridge_name@),
            r matches Ok(begun) ==> {
                &&& begun.0@ == (InvocationView {
                    bridge: self@[position(crate::bridge::bridge_names(self@), bridge_name@)],
                    declaration: pkg@,
                    requested: operation,
                    operation: operation,
                    prior_path: option_view(prior_path),
                    phase: PhaseView::WorkdirSetup,
                })
                &&& begun.1@ == begun.0@.enter()
            },
    {
        let entry_point = match self.entry_point(bridge_name) {
            None => { return Err(BridgeApiError::BridgeNotFound(bridge_name.to_owned())); },
            Some(entry_point) => entry_point,
        };
        proof {
            crate::model::lemma_position_bounds(
                crate::bridge::bridge_names(self@),
                bridge_name@,
            );
        }
        let call = Invocation {
            bridge: Bridge { name: bridge_name.to_owned(), entry_point },
            declaration: pkg.duplicate(),
            requested: operation,
            operation,
            prior_path,
            phase: Phase::WorkdirSetup,
        };
        let action = call.enter();
        Ok((call, action))
    }

    /// Begins an install of `pkg`.
    pub fn install(&self, bridge_name: &str, pkg: &PkgDeclaration) -> (r: Result<
        (Invocation, Action),
        BridgeApiError,
    >)
        ensures
            r is Ok == crate::bridge::bridge_names(self@).contains(bridge_name@),
            r matches Err(error) ==> error@ == BridgeApiErrorView::BridgeNotFound(bridge_name@),
            r matches Ok(begun) ==> {
                &&& begun.0@ == (InvocationView {
                    bridge: self@[position(crate::bridge::bridge_names(self@), bridge_name@)],
                    declaration: pkg@,
                    requested: Operation::Install,
                    operation: Operation::Install,
                    prior_path: None,
                    phase: PhaseView::WorkdirSetup,
                })
                &&& begun.1@ == begun.0@.enter()
            },
    {
        self.run_operation(bridge_name, pkg, Operation::Install, None)
    }

    /// Begins an update of `pkg`, which is installed at `prior_path` now.
    pub fn update(&self, bridge_name: &str, pkg: &PkgDeclaration, prior_path: Option<String>) -> (r:
        Result<(Invocation, Action), BridgeApiError>)
        ensures
            r is Ok == crate::bridge::bridge_names(self@).contains(bridge_name@),
            r matches Err(error) ==> error@ == BridgeApiErrorView::BridgeNotFound(bridge_name@),
            r matches Ok(begun) ==> {
                &&& begun.0@ == (InvocationView {
                    bridge: self@[position(crate::bridge::bridge_names(self@), bridge_name@)],
                    declaration: pkg@,
                    requested: Operation::Update,
                    operation: Operation::Update,
                    prior_path: option_view(prior_path),
                    phase: PhaseView::WorkdirSetup,
                })
                &&& begun.1@ == begun.0@.enter()
            },
    {
        self.run_operation(bridge_name, pkg, Operation::Update, prior_path)
    }

    /// Begins a remove of `pkg`, which is installed at `prior_path` now.
    pub fn remove(&self, bridge_name: &str, pkg: &PkgDeclaration, prior_path: Option<String>) -> (r:
        Result<(Invocation, Action), BridgeApiError>)
        ensures
            r is Ok == crate::bridge::bridge_names(self@).contains(bridge_name@),
            r matches Err(error) ==> error@ == BridgeApiErrorView::BridgeNotFound(bridge_name@),
            r matches Ok(begun) ==> {
                &&& begun.0@ == (InvocationView {
                    bridge: self@[position(crate::bridge::bridge_names(self@), bridge_name@)],
                    declaration: pkg@,
                    requested: Operation::Remove,
                    operation: Operation::Remove,
                    prior_path: option_view(prior_path),
                    phase: PhaseView::WorkdirSetup,
                })
                &&& begun.1@ == begun.0@.enter()
            },
    {
        self.run_operation(bridge_name, pkg, Operation::Remove, prior_path)
    }
}

/// A call never ends while its variables may be set: it ends either from a
/// phase in which they are not set, or on the word that they are unset.
/// They come into the environment only by the action that sets them, and
/// the call leaves the phases in which they may be set only when the caller
/// says that they are unset. So between setting them and the end of the
/// call, whatever came of it, stands their removal.
pub proof fn lemma_teardown_on_every_path(call: InvocationView, event: EventView)
    ensures
        call.next(event).1 is Finish ==> !call.phase.env_may_be_set() || (call.phase is EnvTeardown
            && event is EnvCleared),
        call.next(event).1 is Finish ==> !call.next(event).0.phase.env_may_be_set(),
        call.next(event).1 is SetEnv ==> call.next(event).0.phase is EnvSetup,
        call.next(event).0.phase.env_may_be_set() && !call.phase.env_may_be_set()
            ==> call.next(event).1 == (ActionView::SetEnv { vars: call.vars() }),
        call.phase.env_may_be_set() && !call.next(event).0.phase.env_may_be_set()
            ==> call.phase is EnvTeardown && event is EnvCleared,
        call.phase.env_may_be_set() && !(call.phase is EnvTeardown && event is EnvCleared)
            && !(call.phase is EnvSetup && event is EnvSet) ==> call.next(event).1 == (
            ActionView::ClearEnv { names: env_names(call.vars()) }
        ),
{
}

/// Once the process has run, its variables are unset, then all it wrote is
/// appended to the bridge's log, and only then is its output read: this
/// order holds whatever the process has returned.
pub proof fn lemma_log_after_exit(call: InvocationView, output: ProcessOutputView, cwd: Seq<char>)
    requires
        call.phase is Spawn,
    ensures
        ({
            let exited = call.next(EventView::Exited { output: output, cwd: cwd });
            let cleared = exited.0.next(EventView::EnvCleared);
            let logged = cleared.0.next(EventView::Logged);
            &&& exited.1 == (ActionView::ClearEnv { names: env_names(call.vars()) })
            &&& cleared.1 == (ActionView::AppendLog {
                path: call.log_file(),
                frame: log_frame(call.declaration.name, output.stdout, output.stderr),
            })
            &&& logged == call.after_exit(output, cwd)
        }),
{
    let exited = call.next(EventView::Exited { output: output, cwd: cwd });
    let cleared = exited.0.next(EventView::EnvCleared);
    assert(exited.0 == call.at(PhaseView::EnvTeardown(ExitView::Ran(output, cwd))));
    assert(cleared.0 == call.at(PhaseView::LogWrite(output, cwd)));
}

/// A call ends with a package only on the word that the package's path
/// exists, and for a directory its entry point too; and the package is then
/// what the bridge printed, under the name of the declaration.
pub proof fn lemma_success_needs_paths(call: InvocationView, event: EventView)
    requires
        call.next(event).1 matches ActionView::Finish(Ok(result)) && !(result is Removed),
    ensures
        call.phase matches PhaseView::PathCheck(parsed) && event matches EventView::PathsChecked {
            pkg_path,
            entry_point,
        } && pkg_path && (parsed.pkg_type is Directory ==> entry_point) && call.next(event).1
            == ActionView::Finish(Ok(call.produced(parsed))),
{
}

/// A remove that the bridge leaves to the built-in behaviour, by exit code
/// 1 and the sentinel on stderr, has the package's path deleted, and has
/// removed something if and only if something was at that path.
pub proof fn lemma_default_remove(
    call: InvocationView,
    output: ProcessOutputView,
    cwd: Seq<char>,
    existed: bool,
)
    requires
        call.requested == Operation::Remove,
        call.operation == Operation::Remove,
        call.prior_path is Some,
        asks_default(output.code, output.stderr),
    ensures
        call.after_exit(output, cwd).1 == (ActionView::RemovePath { path: call.prior_path->0 }),
        call.after_exit(output, cwd).0.next(EventView::PathRemoved { existed: existed }).1
            == ActionView::Finish(Ok(OperationResultView::Removed(existed))),
{
}

/// An update that the bridge leaves to the built-in behaviour has the
/// package's path deleted and is then carried on as an install with the
/// same declaration, whose result counts as the update's.
pub proof fn lemma_default_update(
    call: InvocationView,
    output: ProcessOutputView,
    cwd: Seq<char>,
    existed: bool,
)
    requires
        call.requested == Operation::Update,
        call.operation == Operation::Update,
        call.prior_path is Some,
        asks_default(output.code, output.stderr),
    ensures
        call.after_exit(output, cwd).1 == (ActionView::RemovePath { path: call.prior_path->0 }),
        ({
            let again = call.after_exit(output, cwd).0.next(
                EventView::PathRemoved { existed: existed },
            );
            &&& again.0.operation == Operation::Install
            &&& again.0.requested == Operation::Update
            &&& again.0.declaration == call.declaration
            &&& again.0.bridge == call.bridge
            &&& again.0.phase is WorkdirSetup
            &&& again.1 == call.enter()
        }),
{
}

/// The environment once the caller has done what `action` asks for: to set
/// variables and to unset them changes it, nothing else does.
pub open spec fn performed(
    env: Map<Seq<char>, Seq<char>>,
    action: ActionView,
) -> Map<Seq<char>, Seq<char>> {
    match action {
        ActionView::SetEnv { vars } => env_after_set(env, vars),
        ActionView::ClearEnv { names } => env_after_unset(env, names),
        _ => env,
    }
}

impl InvocationView {
    /// The names of the variables that a call may set: `pkg_path`,
    /// `pkg_log_file` and the key of each attribute.
    pub open spec fn names(self) -> Seq<Seq<char>> {
        env_names(env_plan(self.declaration.attributes, Some(Seq::empty()), self.log_file()))
    }

    /// But for the variables that the call may set, `env` is as `before`.
    pub open spec fn left_alone(
        self,
        env: Map<Seq<char>, Seq<char>>,
        before: Map<Seq<char>, Seq<char>>,
    ) -> bool {
        forall|k: Seq<char>|
            !self.names().contains(k) ==> (#[trigger] env.contains_key(k) == before.contains_key(k))
                && (before.contains_key(k) ==> env[k] == before[k])
    }

    /// Nothing of the call is left in `env`: no variable of an attribute,
    /// no `pkg_log_file`, and `pkg_path` either not at all or as it was in
    /// `before`.
    pub open spec fn cleared(
        self,
        env: Map<Seq<char>, Seq<char>>,
        before: Map<Seq<char>, Seq<char>>,
    ) -> bool {
        &&& forall|i: int|
            0 <= i < self.declaration.attributes.len() ==> !env.contains_key(
                #[trigger] self.declaration.attributes[i].0,
            )
        &&& !env.contains_key(pkg_log_file_name())
        &&& !env.contains_key(pkg_path_name()) || (before.contains_key(pkg_path_name())
            && env[pkg_path_name()] == before[pkg_path_name()])
    }

    /// `env` is as the call found it, or nothing of the call is left in
    /// it.
    pub open spec fn at_rest(
        self,
        env: Map<Seq<char>, Seq<char>>,
        before: Map<Seq<char>, Seq<char>>,
    ) -> bool {
        env == before || self.cleared(env, before)
    }

    /// What holds of the environment while a call goes on, where `before`
    /// is the environment that the call began in and the caller does what
    /// it is asked to do: variables that the call does not name are as they
    /// were; and but for the time between the setting of the call's
    /// variables and their unsetting, the environment is at rest.
    pub open spec fn holds(
        self,
        env: Map<Seq<char>, Seq<char>>,
        before: Map<Seq<char>, Seq<char>>,
    ) -> bool {
        &&& self.left_alone(env, before)
        &&& if self.phase is EnvSetup || self.phase is Spawn {
            exists|rest: Map<Seq<char>, Seq<char>>|
                #![trigger env_after_set(rest, self.vars())]
                self.at_rest(rest, before) && self.left_alone(rest, before) && env
                    == env_after_set(rest, self.vars())
        } else {
            self.at_rest(env, before)
        }
    }
}

/// Every variable of a plan is among the names that the call may set.
pub proof fn lemma_vars_are_named(call: InvocationView, k: Seq<char>)
    requires
        env_names(call.vars()).contains(k),
    ensures
        call.names().contains(k),
{
    let vars = call.vars();
    let all = env_plan(call.declaration.attributes, Some(Seq::empty()), call.log_file());
    let i = choose|i: int| 0 <= i < env_names(vars).len() && env_names(vars)[i] == k;
    let shift: int = if call.pkg_path() is Some {
        0
    } else {
        1
    };
    assert(env_names(all)[i + shift] == all[i + shift].0);
    assert(env_names(vars)[i] == vars[i].0);
    assert(all[i + shift].0 == vars[i].0);
}

/// A call that begins in an environment finds what holds of it.
pub proof fn lemma_env_holds_at_start(call: InvocationView, before: Map<Seq<char>, Seq<char>>)
    requires
        call.phase is WorkdirSetup,
    ensures
        call.holds(before, before),
{
}

/// What holds of the environment is kept by every step, whatever happens,
/// as long as the caller does what it is asked to do.
pub proof fn lemma_env_holds_on(
    call: InvocationView,
    event: EventView,
    env: Map<Seq<char>, Seq<char>>,
    before: Map<Seq<char>, Seq<char>>,
)
    requires
        call.holds(env, before),
    ensures
        call.next(event).0.holds(performed(env, call.next(event).1), before),
{
    let (after, action) = call.next(event);
    let env2 = performed(env, action);
    assert(after.names() == call.names());
    assert(after.declaration == call.declaration);
    assert(forall|e: Map<Seq<char>, Seq<char>>|
        #[trigger] after.left_alone(e, before) == call.left_alone(e, before));
    assert(forall|e: Map<Seq<char>, Seq<char>>|
        #[trigger] after.at_rest(e, before) == call.at_rest(e, before));
    if call.phase is EnvSetup || call.phase is Spawn {
        let rest = choose|rest: Map<Seq<char>, Seq<char>>|
            #![trigger env_after_set(rest, call.vars())]
            call.at_rest(rest, before) && call.left_alone(rest, before) && env == env_after_set(
                rest,
                call.vars(),
            );
        if action is ClearEnv {
            lemma_unset_clears(call, rest, before);
            assert(after.phase is EnvTeardown);
            assert(after.holds(env2, before));
        } else {
            assert(after.phase is Spawn);
            assert(after.vars() == call.vars());
            assert(env2 == env_after_set(rest, after.vars()));
            assert(after.holds(env2, before));
        }
    } else if call.phase is EnvTeardown {
        if action is ClearEnv {
            lemma_unset_keeps_rest(call, env, before);
            assert(after.phase is EnvTeardown);
        } else {
            assert(env2 == env);
        }
        assert(after.holds(env2, before));
    } else if call.phase is WorkdirSetup {
        if action is SetEnv {
            assert(after.phase is EnvSetup);
            assert(after.vars() == call.vars());
            assert(env2 == env_after_set(env, after.vars()));
            assert forall|k: Seq<char>| !call.names().contains(k) implies (
            #[trigger] env2.contains_key(k) == before.contains_key(k)) && (before.contains_key(k)
                ==> env2[k] == before[k]) by {
                if env_names(call.vars()).contains(k) {
                    lemma_vars_are_named(call, k);
                }
                crate::bridge::lemma_env_after_set(env, call.vars(), k);
            }
            assert(after.holds(env2, before));
        } else {
            assert(env2 == env);
            assert(after.holds(env2, before));
        }
    } else {
        assert(env2 == env);
        assert(!(after.phase is EnvSetup || after.phase is Spawn));
        assert(after.holds(env2, before));
    }
}

/// When a call ends, the environment is as the call found it, or nothing
/// of the call is left in it: no variable of an attribute remains set,
/// whatever came of the call. Variables that the call does not name are as
/// they were.
pub proof fn lemma_env_isolated_at_end(
    call: InvocationView,
    event: EventView,
    env: Map<Seq<char>, Seq<char>>,
    before: Map<Seq<char>, Seq<char>>,
)
    requires
        call.holds(env, before),
        call.next(event).1 is Finish,
    ensures
        performed(env, call.next(event).1) == env,
        call.at_rest(env, before),
        call.left_alone(env, before),
{
}

/// Unsetting the variables of a call, after they were set in an
/// environment at rest, leaves nothing of the call.
pub proof fn lemma_unset_clears(
    call: InvocationView,
    rest: Map<Seq<char>, Seq<char>>,
    before: Map<Seq<char>, Seq<char>>,
)
    requires
        call.at_rest(rest, before),
        call.left_alone(rest, before),
    ensures
        call.cleared(
            env_after_unset(env_after_set(rest, call.vars()), env_names(call.vars())),
            before,
        ),
        call.left_alone(
            env_after_unset(env_after_set(rest, call.vars()), env_names(call.vars())),
            before,
        ),
{
    let vars = call.vars();
    let names = env_names(vars);
    let during = env_after_set(rest, vars);
    let after = env_after_unset(during, names);
    lemma_env_isolation(rest, call.declaration.attributes, call.pkg_path(), call.log_file());
    assert forall|k: Seq<char>| !call.names().contains(k) implies (#[trigger] after.contains_key(k)
        == before.contains_key(k)) && (before.contains_key(k) ==> after[k] == before[k]) by {
        if names.contains(k) {
            lemma_vars_are_named(call, k);
        }
        assert(after.contains_key(k) == rest.contains_key(k));
    }
    if !names.contains(pkg_path_name()) {
        assert(after.contains_key(pkg_path_name()) == rest.contains_key(pkg_path_name()));
    } else {
        lemma_env_after_unset(during, names, pkg_path_name());
    }
}

/// Unsetting the variables of a call once more changes nothing of what
/// holds of an environment at rest.
pub proof fn lemma_unset_keeps_rest(
    call: InvocationView,
    env: Map<Seq<char>, Seq<char>>,
    before: Map<Seq<char>, Seq<char>>,
)
    requires
        call.at_rest(env, before),
        call.left_alone(env, before),
    ensures
        call.at_rest(env_after_unset(env, env_names(call.vars())), before),
        call.left_alone(env_after_unset(env, env_names(call.vars())), before),
{
    let names = env_names(call.vars());
    let after = env_after_unset(env, names);
    assert forall|k: Seq<char>|
        (#[trigger] after.contains_key(k) <==> env.contains_key(k) && !names.contains(k)) && (
        after.contains_key(k) ==> after[k] == env[k]) by {
        lemma_env_after_unset(env, names, k);
    }
    if env == before && !call.cleared(env, before) {
        // Some variable of the call was in the environment from the start:
        // unsetting takes it out, or it is none that this call sets.
        if after != before {
            assert(call.cleared(after, before)) by {
                lemma_unset_takes_all(call, env, before);
            }
        }
    }
    assert forall|k: Seq<char>| !call.names().contains(k) implies (#[trigger] after.contains_key(k)
        == before.contains_key(k)) && (before.contains_key(k) ==> after[k] == before[k]) by {
        if names.contains(k) {
            lemma_vars_are_named(call, k);
        }
    }
}

/// Unsetting the variables of a call takes every variable of an attribute
/// and `pkg_log_file` out of the environment.
pub proof fn lemma_unset_takes_all(
    call: InvocationView,
    env: Map<Seq<char>, Seq<char>>,
    before: Map<Seq<char>, Seq<char>>,
)
    requires
        env == before,
    ensures
        call.cleared(env_after_unset(env, env_names(call.vars())), before),
{
    let vars = call.vars();
    let names = env_names(vars);
    let after = env_after_unset(env, names);
    let offset: int = if call.pkg_path() is Some {
        1
    } else {
        0
    };
    assert(vars[offset].0 == pkg_log_file_name());
    assert(names[offset] == pkg_log_file_name());
    lemma_env_after_unset(env, names, pkg_log_file_name());
    lemma_env_after_unset(env, names, pkg_path_name());
    assert forall|i: int| 0 <= i < call.declaration.attributes.len() implies !after.contains_key(
        #[trigger] call.declaration.attributes[i].0,
    ) by {
        assert(vars[offset + 1 + i].0 == call.declaration.attributes[i].0);
        assert(names[offset + 1 + i] == call.declaration.attributes[i].0);
        lemma_env_after_unset(env, names, call.declaration.attributes[i].0);
    }
}

} // verus!
