//! Carrying out jobs: one package at a time, one step at a time.
//!
//! A job is a bridge call, then work in managed storage, then a change of
//! the record store. A failure at any step ends the job and no other: what
//! was done before the failure stays done, and the run goes on with the
//! next job. When all jobs are over, the links on the load path are made
//! anew, once.
use crate::bridge::{BridgeApiError, BridgeApiErrorView, Operation};
use crate::db::{InstalledPkg, InstalledPkgView, Pkg, PkgView};
use crate::fs::{Fs, FsView};
use crate::invoke::{OperationResult, OperationResultView};
use crate::model::{option_view, result_view};
use crate::reconcile::{job_views, Job, JobKind, JobView};
use crate::text::copy_text;
use vstd::prelude::*;

verus! {

/// The step at which a job failed.
#[derive(Debug, Clone, Copy, PartialEq, Eq, Structural)]
pub enum Stage {
    BridgeOperation,
    StorePkg,
    RemovePkg,
    WritePkgInDb,
    RemovePkgFromDb,
}

impl Stage {
    /// The words that say where a job failed.
    pub open spec fn words(self) -> Seq<char> {
        match self {
            Stage::BridgeOperation => "at bridge operation"@,
            Stage::StorePkg => "at store the pkg"@,
            Stage::RemovePkg => "at remove the pkg"@,
            Stage::WritePkgInDb => "at write pkg in db"@,
            Stage::RemovePkgFromDb => "at remove pkg from db"@,
        }
    }

    /// The words that say where a job failed.
    pub fn text(&self) -> (s: String)
        ensures
            s@ == self.words(),
    {
        match self {
            Stage::BridgeOperation => "at bridge operation".to_string(),
            Stage::StorePkg => "at store the pkg".to_string(),
            Stage::RemovePkg => "at remove the pkg".to_string(),
            Stage::WritePkgInDb => "at write pkg in db".to_string(),
            Stage::RemovePkgFromDb => "at remove pkg from db".to_string(),
        }
    }
}

/// What came of a job.
#[derive(Debug, Clone, PartialEq, Eq)]
pub enum JobReport {
    /// The package is installed, and this is its record.
    Added(Pkg),
    /// The package of this name is removed.
    Removed(String),
    /// The job failed at `stage`.
    Failed { stage: Stage, message: String },
}

pub enum JobReportView {
    Added(PkgView),
    Removed(Seq<char>),
    Failed { stage: Stage, message: Seq<char> },
}

impl View for JobReport {
    type V = JobReportView;

    open spec fn view(&self) -> JobReportView {
        match self {
            JobReport::Added(pkg) => JobReportView::Added(pkg@),
            JobReport::Removed(name) => JobReportView::Removed(name@),
            JobReport::Failed { stage, message } => JobReportView::Failed {
                stage: *stage,
                message: message@,
            },
        }
    }
}

/// What the caller has to do next for a job.
#[derive(Debug, PartialEq, Eq)]
pub enum JobAction {
    /// Call the job's bridge for the job's package.
    Invoke { operation: Operation, prior_path: Option<String> },
    /// Move what is at `from` to `to`, replacing what is there.
    Place { from: String, to: String },
    /// Write the record to the store, in place of the one of the same name
    /// where `replace` is set.
    WriteRecord { record: InstalledPkg, replace: bool },
    /// Delete the record of this name from the store.
    DeleteRecord { name: String },
    /// Delete what is at `path` in managed storage, if anything is.
    RemoveManaged { path: String },
    /// Nothing: the job is over, and this came of it.
    Report(JobReport),
}

pub enum JobActionView {
    Invoke { operation: Operation, prior_path: Option<Seq<char>> },
    Place { from: Seq<char>, to: Seq<char> },
    WriteRecord { record: InstalledPkgView, replace: bool },
    DeleteRecord { name: Seq<char> },
    RemoveManaged { path: Seq<char> },
    Report(JobReportView),
}

impl View for JobAction {
    type V = JobActionView;

    open spec fn view(&self) -> JobActionView {
        match self {
            JobAction::Invoke { operation, prior_path } => JobActionView::Invoke {
                operation: *operation,
                prior_path: option_view(*prior_path),
            },
            JobAction::Place { from, to } => JobActionView::Place { from: from@, to: to@ },
            JobAction::WriteRecord { record, replace } => JobActionView::WriteRecord {
                record: record@,
                replace: *replace,
            },
            JobAction::DeleteRecord { name } => JobActionView::DeleteRecord { name: name@ },
            JobAction::RemoveManaged { path } => JobActionView::RemoveManaged { path: path@ },
            JobAction::Report(report) => JobActionView::Report(report@),
        }
    }
}

impl JobActionView {
    /// The action changes the record store.
    pub open spec fn changes_store(self) -> bool {
        self is WriteRecord || self is DeleteRecord
    }
}

/// What happened when the caller did what it was asked to do for a job.
#[derive(Debug, PartialEq, Eq)]
pub enum JobEvent {
    /// The bridge call is over, and this came of it.
    Invoked(Result<OperationResult, BridgeApiError>),
    /// The work is done.
    Done,
    /// The work failed.
    Failed(String),
}

pub enum JobEventView {
    Invoked(Result<OperationResultView, BridgeApiErrorView>),
    Done,
    Failed(Seq<char>),
}

impl View for JobEvent {
    type V = JobEventView;

    open spec fn view(&self) -> JobEventView {
        match self {
            JobEvent::Invoked(result) => JobEventView::Invoked(result_view(*result)),
            JobEvent::Done => JobEventView::Done,
            JobEvent::Failed(message) => JobEventView::Failed(message@),
        }
    }
}

/// Where a job stands: what the caller was last asked to do. A phase that
/// carries a record carries the one that is written in the end.
#[derive(Debug, Clone, PartialEq, Eq)]
pub enum JobPhase {
    /// The bridge is called for what the job asks.
    Invoking,
    /// The bridge has built the package anew and is called to remove the
    /// old copy.
    InvokingRemove(Pkg),
    /// The package is moved into managed storage.
    Placing(Pkg),
    /// The record of the old copy is deleted.
    DeletingOld(Pkg),
    /// The record is written.
    Writing(Pkg),
    /// The managed copy is deleted.
    RemovingManaged,
    /// The record is deleted.
    Deleting,
    Finished,
}

pub enum JobPhaseView {
    Invoking,
    InvokingRemove(PkgView),
    Placing(PkgView),
    DeletingOld(PkgView),
    Writing(PkgView),
    RemovingManaged,
    Deleting,
    Finished,
}

impl View for JobPhase {
    type V = JobPhaseView;

    open spec fn view(&self) -> JobPhaseView {
        match self {
            JobPhase::Invoking => JobPhaseView::Invoking,
            JobPhase::InvokingRemove(pkg) => JobPhaseView::InvokingRemove(pkg@),
            JobPhase::Placing(pkg) => JobPhaseView::Placing(pkg@),
            JobPhase::DeletingOld(pkg) => JobPhaseView::DeletingOld(pkg@),
            JobPhase::Writing(pkg) => JobPhaseView::Writing(pkg@),
            JobPhase::RemovingManaged => JobPhaseView::RemovingManaged,
            JobPhase::Deleting => JobPhaseView::Deleting,
            JobPhase::Finished => JobPhaseView::Finished,
        }
    }
}

/// A job that is being carried out.
#[derive(Debug, Clone, PartialEq, Eq)]
pub struct JobRun {
    pub job: Job,
    pub fs: Fs,
    pub phase: JobPhase,
}

pub struct JobRunView {
    pub job: JobView,
    pub fs: FsView,
    pub phase: JobPhaseView,
}

impl View for JobRun {
    type V = JobRunView;

    open spec fn view(&self) -> JobRunView {
        JobRunView { job: self.job@, fs: self.fs@, phase: self.phase@ }
    }
}

/// The message of the failure for a remove that removed nothing.
pub open spec fn nothing_removed() -> Seq<char> {
    "the remove operation returned false"@
}

/// The message of the failure for an event that does not answer the last
/// action.
pub open spec fn unexpected() -> Seq<char> {
    "unexpected event"@
}

impl JobRunView {
    /// This job, in another phase.
    pub open spec fn at(self, phase: JobPhaseView) -> JobRunView {
        JobRunView { phase: phase, ..self }
    }

    /// The path of the record that the store holds for the package.
    pub open spec fn prior_path(self) -> Option<Seq<char>> {
        match self.job.prior {
            Some(pkg) => Some(pkg.path),
            None => None,
        }
    }

    /// The first action of a job: to call the bridge. To install anew is to
    /// install first; an update or a remove is told where the package is.
    pub open spec fn begin(self) -> JobActionView {
        match self.job.kind {
            JobKind::Install => JobActionView::Invoke {
                operation: Operation::Install,
                prior_path: None,
            },
            JobKind::Reinstall => JobActionView::Invoke {
                operation: Operation::Install,
                prior_path: None,
            },
            JobKind::Update => JobActionView::Invoke {
                operation: Operation::Update,
                prior_path: self.prior_path(),
            },
            JobKind::Remove => JobActionView::Invoke {
                operation: Operation::Remove,
                prior_path: self.prior_path(),
            },
        }
    }

    /// The end of the job.
    pub open spec fn report(self, report: JobReportView) -> (JobRunView, JobActionView) {
        (self.at(JobPhaseView::Finished), JobActionView::Report(report))
    }

    /// The end of the job by a failure at `stage`.
    pub open spec fn fail(self, stage: Stage, message: Seq<char>) -> (JobRunView, JobActionView) {
        self.report(JobReportView::Failed { stage: stage, message: message })
    }

    /// The package is built: it is moved to its place in managed storage.
    pub open spec fn place(self, pkg: PkgView) -> (JobRunView, JobActionView) {
        let moved = pkg.moved_to(self.fs.target(Some(self.job.bridge), pkg.name));
        (
            self.at(JobPhaseView::Placing(moved)),
            JobActionView::Place { from: pkg.path, to: moved.path },
        )
    }

    /// The record of `pkg` is written for the job's bridge.
    pub open spec fn write(self, pkg: PkgView) -> (JobRunView, JobActionView) {
        (
            self.at(JobPhaseView::Writing(pkg)),
            JobActionView::WriteRecord {
                record: InstalledPkgView { pkg: pkg, bridge: self.job.bridge },
                replace: self.job.kind == JobKind::Update,
            },
        )
    }

    /// What follows the bridge call that the job began with.
    pub open spec fn after_invoke(self, result: Result<OperationResultView, BridgeApiErrorView>) -> (
        JobRunView,
        JobActionView,
    ) {
        match result {
            Err(error) => self.fail(Stage::BridgeOperation, error.heading() + error.detail()),
            Ok(OperationResultView::Removed(removed)) => if self.job.kind != JobKind::Remove {
                self.fail(Stage::BridgeOperation, unexpected())
            } else if !removed {
                self.fail(Stage::BridgeOperation, nothing_removed())
            } else {
                match self.prior_path() {
                    Some(path) => (
                        self.at(JobPhaseView::RemovingManaged),
                        JobActionView::RemoveManaged { path: path },
                    ),
                    None => (
                        self.at(JobPhaseView::Deleting),
                        JobActionView::DeleteRecord { name: self.job.declaration.name },
                    ),
                }
            },
            Ok(OperationResultView::Installed(pkg)) => match self.job.kind {
                JobKind::Install => self.place(pkg),
                JobKind::Reinstall => (
                    self.at(JobPhaseView::InvokingRemove(pkg)),
                    JobActionView::Invoke {
                        operation: Operation::Remove,
                        prior_path: self.prior_path(),
                    },
                ),
                _ => self.fail(Stage::BridgeOperation, unexpected()),
            },
            Ok(OperationResultView::Updated(pkg)) => if self.job.kind == JobKind::Update {
                self.place(pkg)
            } else {
                self.fail(Stage::BridgeOperation, unexpected())
            },
        }
    }

    /// The phase after `event`, and what the caller has to do next.
    ///
    /// An install or update is: bridge call, move into managed storage,
    /// write the record. A remove is: bridge call, delete the managed copy,
    /// delete the record. To install anew is: bridge call to install, bridge
    /// call to remove the old copy, move into managed storage, delete the
    /// old record, write the new one. A failure ends the job at once; only
    /// the deletion of the old record may fail without ending it.
    pub open spec fn next(self, event: JobEventView) -> (JobRunView, JobActionView) {
        match self.phase {
            JobPhaseView::Invoking => match event {
                JobEventView::Invoked(result) => self.after_invoke(result),
                _ => self.fail(Stage::BridgeOperation, unexpected()),
            },
            JobPhaseView::InvokingRemove(pkg) => match event {
                JobEventView::Invoked(Ok(OperationResultView::Removed(_))) => self.place(pkg),
                JobEventView::Invoked(Err(error)) => self.fail(
                    Stage::BridgeOperation,
                    error.heading() + error.detail(),
                ),
                _ => self.fail(Stage::BridgeOperation, unexpected()),
            },
            JobPhaseView::Placing(pkg) => match event {
                JobEventView::Done => if self.job.kind == JobKind::Reinstall {
                    (
                        self.at(JobPhaseView::DeletingOld(pkg)),
                        JobActionView::DeleteRecord { name: self.job.declaration.name },
                    )
                } else {
                    self.write(pkg)
                },
                JobEventView::Failed(message) => self.fail(Stage::StorePkg, message),
                _ => self.fail(Stage::StorePkg, unexpected()),
            },
            JobPhaseView::DeletingOld(pkg) => self.write(pkg),
            JobPhaseView::Writing(pkg) => match event {
                JobEventView::Done => self.report(JobReportView::Added(pkg)),
                JobEventView::Failed(message) => self.fail(Stage::WritePkgInDb, message),
                _ => self.fail(Stage::WritePkgInDb, unexpected()),
            },
            JobPhaseView::RemovingManaged => match event {
                JobEventView::Done => (
                    self.at(JobPhaseView::Deleting),
                    JobActionView::DeleteRecord { name: self.job.declaration.name },
                ),
                JobEventView::Failed(message) => self.fail(Stage::RemovePkg, message),
                _ => self.fail(Stage::RemovePkg, unexpected()),
            },
            JobPhaseView::Deleting => match event {
                JobEventView::Done => self.report(
                    JobReportView::Removed(self.job.declaration.name),
                ),
                JobEventView::Failed(message) => self.fail(Stage::RemovePkgFromDb, message),
                _ => self.fail(Stage::RemovePkgFromDb, unexpected()),
            },
            JobPhaseView::Finished => self.fail(Stage::BridgeOperation, unexpected()),
        }
    }
}

/// The store is changed only after the bridge call and the work in managed
/// storage have succeeded. A record is written only once the package is
/// moved into managed storage; a record is deleted only once the package
/// is moved, or once the managed copy of a removed package is deleted (or
/// there is no such copy to delete). And the work in managed storage is
/// begun only on the word that the bridge call has succeeded.
pub proof fn lemma_store_changes_last(run: JobRunView, event: JobEventView)
    ensures
        run.next(event).1 is WriteRecord ==> (run.phase is Placing && event is Done)
            || run.phase is DeletingOld,
        run.next(event).0.phase is DeletingOld ==> run.phase is Placing && event is Done,
        run.next(event).1 is DeleteRecord ==> (run.phase is Placing && event is Done) || (
        run.phase is RemovingManaged && event is Done) || (run.phase is Invoking
            && run.job.prior is None && event == JobEventView::Invoked(
            Ok(OperationResultView::Removed(true)),
        )),
        run.next(event).0.phase is Placing ==> (run.phase is Invoking || run.phase is InvokingRemove)
            && (event matches JobEventView::Invoked(result) && result is Ok),
        run.next(event).0.phase is RemovingManaged ==> run.phase is Invoking && event
            == JobEventView::Invoked(Ok(OperationResultView::Removed(true))),
{
}

/// A failure ends the job at once, with a report of the failure and
/// without a change of the store. The one exception is the deletion of the
/// old record when a package is installed anew, whose failure is passed
/// over.
pub proof fn lemma_failure_ends_job(run: JobRunView, event: JobEventView)
    requires
        event is Failed || (event matches JobEventView::Invoked(result) && result is Err),
        !(run.phase is DeletingOld),
    ensures
        run.next(event).1 matches JobActionView::Report(report) && report is Failed,
        run.next(event).0.phase is Finished,
        !run.next(event).1.changes_store(),
{
}

impl JobRun {
    /// Begins `job`. The result is the job and its first action.
    pub fn start(job: Job, fs: &Fs) -> (r: (JobRun, JobAction))
        ensures
            r.0@ == (JobRunView { job: job@, fs: fs@, phase: JobPhaseView::Invoking }),
            r.1@ == r.0@.begin(),
    {
        let run = JobRun {
            job,
            fs: Fs { target_dir: copy_text(&fs.target_dir), load_path: copy_text(&fs.load_path) },
            phase: JobPhase::Invoking,
        };
        let action = run.begin();
        (run, action)
    }

    /// Whether the job is over.
    pub fn is_finished(&self) -> (b: bool)
        ensures
            b == (self@.phase is Finished),
    {
        match &self.phase {
            JobPhase::Finished => true,
            _ => false,
        }
    }

    /// The path of the record that the store holds for the package.
    fn prior_path(&self) -> (path: Option<String>)
        ensures
            option_view(path) == self@.prior_path(),
    {
        match &self.job.prior {
            Some(pkg) => Some(copy_text(&pkg.path)),
            None => None,
        }
    }

    /// The first action of the job.
    fn begin(&self) -> (action: JobAction)
        ensures
            action@ == self@.begin(),
    {
        match self.job.kind {
            JobKind::Install => JobAction::Invoke {
                operation: Operation::Install,
                prior_path: None,
            },
            JobKind::Reinstall => JobAction::Invoke {
                operation: Operation::Install,
                prior_path: None,
            },
            JobKind::Update => JobAction::Invoke {
                operation: Operation::Update,
                prior_path: self.prior_path(),
            },
            JobKind::Remove => JobAction::Invoke {
                operation: Operation::Remove,
                prior_path: self.prior_path(),
            },
        }
    }

    /// This job, in another phase.
    fn to_phase(self, phase: JobPhase) -> (r: JobRun)
        ensures
            r@ == self@.at(phase@),
    {
        let JobRun { job, fs, phase: _ } = self;
        JobRun { job, fs, phase }
    }

    /// Ends the job with `report`.
    fn report(self, report: JobReport) -> (r: (JobRun, JobAction))
        ensures
            (r.0@, r.1@) == self@.report(report@),
    {
        (self.to_phase(JobPhase::Finished), JobAction::Report(report))
    }

    /// Ends the job by a failure at `stage`.
    fn fail(self, stage: Stage, message: String) -> (r: (JobRun, JobAction))
        ensures
            (r.0@, r.1@) == self@.fail(stage, message@),
    {
        self.report(JobReport::Failed { stage, message })
    }

    /// Ends the job because of an event that does not answer the last
    /// action.
    fn fail_unexpected(self, stage: Stage) -> (r: (JobRun, JobAction))
        ensures
            (r.0@, r.1@) == self@.fail(stage, unexpected()),
    {
        self.fail(stage, "unexpected event".to_string())
    }

    /// Asks for the package to be moved to its place in managed storage.
    fn place(self, pkg: Pkg) -> (r: (JobRun, JobAction))
        ensures
            (r.0@, r.1@) == self@.place(pkg@),
    {
        let mut moved = pkg;
        let from = self.fs.store_or_overwrite(&mut moved, Some(self.job.bridge.as_str()));
        let to = copy_text(&moved.path);
        (self.to_phase(JobPhase::Placing(moved)), JobAction::Place { from, to })
    }

    /// Asks for the record of `pkg` to be written.
    fn write(self, pkg: Pkg) -> (r: (JobRun, JobAction))
        ensures
            (r.0@, r.1@) == self@.write(pkg@),
    {
        let record = InstalledPkg { pkg: pkg.duplicate(), bridge: copy_text(&self.job.bridge) };
        let replace = match self.job.kind {
            JobKind::Update => true,
            _ => false,
        };
        (self.to_phase(JobPhase::Writing(pkg)), JobAction::WriteRecord { record, replace })
    }

    /// Asks for the record of the job's package to be deleted.
    fn delete_record(self, phase: JobPhase) -> (r: (JobRun, JobAction))
        ensures
            r.0@ == self@.at(phase@),
            r.1@ == (JobActionView::DeleteRecord { name: self@.job.declaration.name }),
    {
        let name = copy_text(&self.job.declaration.name);
        (self.to_phase(phase), JobAction::DeleteRecord { name })
    }

    /// What follows the bridge call that the job began with.
    fn after_invoke(self, result: Result<OperationResult, BridgeApiError>) -> (r: (
        JobRun,
        JobAction,
    ))
        ensures
            (r.0@, r.1@) == self@.after_invoke(result_view(result)),
    {
        match result {
            Err(error) => {
                let message = error.message();
                self.fail(Stage::BridgeOperation, message)
            },
            Ok(OperationResult::Removed(removed)) => match self.job.kind {
                JobKind::Remove => if !removed {
                    self.fail(
                        Stage::BridgeOperation,
                        "the remove operation returned false".to_string(),
                    )
                } else {
                    match self.prior_path() {
                        Some(path) => (
                            self.to_phase(JobPhase::RemovingManaged),
                            JobAction::RemoveManaged { path },
                        ),
                        None => self.delete_record(JobPhase::Deleting),
                    }
                },
                _ => self.fail_unexpected(Stage::BridgeOperation),
            },
            Ok(OperationResult::Installed(pkg)) => match self.job.kind {
                JobKind::Install => self.place(pkg),
                JobKind::Reinstall => {
                    let prior_path = self.prior_path();
                    (
                        self.to_phase(JobPhase::InvokingRemove(pkg)),
                        JobAction::Invoke { operation: Operation::Remove, prior_path },
                    )
                },
                _ => self.fail_unexpected(Stage::BridgeOperation),
            },
            Ok(OperationResult::Updated(pkg)) => match self.job.kind {
                JobKind::Update => self.place(pkg),
                _ => self.fail_unexpected(Stage::BridgeOperation),
            },
        }
    }

    /// Takes what happened and says what to do next.
    pub fn step(self, event: JobEvent) -> (r: (JobRun, JobAction))
        ensures
            (r.0@, r.1@) == self@.next(event@),
    {
        let JobRun { job, fs, phase } = self;
        let here = JobRun { job, fs, phase: JobPhase::Finished };
        assert(forall|p: JobPhaseView| #[trigger] here@.at(p) == self@.at(p));
        assert(here@.job == self@.job && here@.fs == self@.fs);
        match phase {
            JobPhase::Invoking => match event {
                JobEvent::Invoked(result) => here.after_invoke(result),
                _ => here.fail_unexpected(Stage::BridgeOperation),
            },
            JobPhase::InvokingRemove(pkg) => match event {
                JobEvent::Invoked(Ok(OperationResult::Removed(_))) => here.place(pkg),
                JobEvent::Invoked(Err(error)) => {
                    let message = error.message();
                    here.fail(Stage::BridgeOperation, message)
                },
                _ => here.fail_unexpected(Stage::BridgeOperation),
            },
            JobPhase::Placing(pkg) => match event {
                JobEvent::Done => match here.job.kind {
                    JobKind::Reinstall => here.delete_record(JobPhase::DeletingOld(pkg)),
                    _ => here.write(pkg),
                },
                JobEvent::Failed(message) => here.fail(Stage::StorePkg, message),
                _ => here.fail_unexpected(Stage::StorePkg),
            },
            JobPhase::DeletingOld(pkg) => here.write(pkg),
            JobPhase::Writing(pkg) => match event {
                JobEvent::Done => here.report(JobReport::Added(pkg)),
                JobEvent::Failed(message) => here.fail(Stage::WritePkgInDb, message),
                _ => here.fail_unexpected(Stage::WritePkgInDb),
            },
            JobPhase::RemovingManaged => match event {
                JobEvent::Done => here.delete_record(JobPhase::Deleting),
                JobEvent::Failed(message) => here.fail(Stage::RemovePkg, message),
                _ => here.fail_unexpected(Stage::RemovePkg),
            },
            JobPhase::Deleting => match event {
                JobEvent::Done => {
                    let name = copy_text(&here.job.declaration.name);
                    here.report(JobReport::Removed(name))
                },
                JobEvent::Failed(message) => here.fail(Stage::RemovePkgFromDb, message),
                _ => here.fail_unexpected(Stage::RemovePkgFromDb),
            },
            JobPhase::Finished => here.fail_unexpected(Stage::BridgeOperation),
        }
    }
}

/// The views of a list of reports.
pub open spec fn report_views(reports: Seq<JobReport>) -> Seq<JobReportView> {
    Seq::new(reports.len(), |i: int| reports[i]@)
}

/// The test for a report of a package that was added.
pub open spec fn is_added() -> spec_fn(JobReportView) -> bool {
    |r: JobReportView| r is Added
}

/// The test for a report of a package that was removed.
pub open spec fn is_removed() -> spec_fn(JobReportView) -> bool {
    |r: JobReportView| r is Removed
}

/// The test for a report of a failure.
pub open spec fn is_failed() -> spec_fn(JobReportView) -> bool {
    |r: JobReportView| r is Failed
}

/// What a run came to: how many packages were added, how many were
/// removed, how many jobs failed, and why the links could not be made, if
/// they could not.
#[derive(Debug, Clone, PartialEq, Eq)]
pub struct Summary {
    pub added: usize,
    pub removed: usize,
    pub failed: usize,
    pub link_error: Option<String>,
}

pub struct SummaryView {
    pub added: nat,
    pub removed: nat,
    pub failed: nat,
    pub link_error: Option<Seq<char>>,
}

impl View for Summary {
    type V = SummaryView;

    open spec fn view(&self) -> SummaryView {
        SummaryView {
            added: self.added as nat,
            removed: self.removed as nat,
            failed: self.failed as nat,
            link_error: option_view(self.link_error),
        }
    }
}

/// The summary of a list of reports.
pub open spec fn summary_of(
    reports: Seq<JobReportView>,
    link_error: Option<Seq<char>>,
) -> SummaryView {
    SummaryView {
        added: reports.filter(is_added()).len(),
        removed: reports.filter(is_removed()).len(),
        failed: reports.filter(is_failed()).len(),
        link_error: link_error,
    }
}

/// What the caller has to do next in a run.
#[derive(Debug, PartialEq, Eq)]
pub enum RunAction {
    /// Do this for the job at hand. A report is to be shown.
    Job(JobAction),
    /// Make the links on the load path anew, from the records that the
    /// store holds now.
    Relink,
    /// Nothing: the run is over, and this came of it.
    Finish(Summary),
}

pub enum RunActionView {
    Job(JobActionView),
    Relink,
    Finish(SummaryView),
}

impl View for RunAction {
    type V = RunActionView;

    open spec fn view(&self) -> RunActionView {
        match self {
            RunAction::Job(action) => RunActionView::Job(action@),
            RunAction::Relink => RunActionView::Relink,
            RunAction::Finish(summary) => RunActionView::Finish(summary@),
        }
    }
}

/// Where a run stands.
#[derive(Debug, Clone, PartialEq, Eq)]
pub enum RunPhase {
    /// A job is being carried out, or is over and has just been reported.
    Working(JobRun),
    /// The links are being made.
    Linking,
    Finished(Option<String>),
}

pub enum RunPhaseView {
    Working(JobRunView),
    Linking,
    Finished(Option<Seq<char>>),
}

impl View for RunPhase {
    type V = RunPhaseView;

    open spec fn view(&self) -> RunPhaseView {
        match self {
            RunPhase::Working(job) => RunPhaseView::Working(job@),
            RunPhase::Linking => RunPhaseView::Linking,
            RunPhase::Finished(error) => RunPhaseView::Finished(option_view(*error)),
        }
    }
}

/// A run: its jobs in order, the reports of the jobs that are over, and
/// where it stands. The job at hand is the one whose place in `jobs` is the
/// number of reports.
#[derive(Debug, Clone, PartialEq, Eq)]
pub struct Run {
    pub jobs: Vec<Job>,
    pub fs: Fs,
    pub reports: Vec<JobReport>,
    pub phase: RunPhase,
}

pub struct RunView {
    pub jobs: Seq<JobView>,
    pub fs: FsView,
    pub reports: Seq<JobReportView>,
    pub phase: RunPhaseView,
}

impl View for Run {
    type V = RunView;

    open spec fn view(&self) -> RunView {
        RunView {
            jobs: job_views(self.jobs@),
            fs: self.fs@,
            reports: report_views(self.reports@),
            phase: self.phase@,
        }
    }
}

impl RunView {
    /// The run goes on: with the next job, if one is left, and else with
    /// the links.
    pub open spec fn advance(self) -> (RunView, RunActionView) {
        if self.reports.len() < self.jobs.len() {
            let job = JobRunView {
                job: self.jobs[self.reports.len() as int],
                fs: self.fs,
                phase: JobPhaseView::Invoking,
            };
            (RunView { phase: RunPhaseView::Working(job), ..self }, RunActionView::Job(job.begin()))
        } else {
            (RunView { phase: RunPhaseView::Linking, ..self }, RunActionView::Relink)
        }
    }

    /// The end of the run.
    pub open spec fn finish(self, link_error: Option<Seq<char>>) -> (RunView, RunActionView) {
        (
            RunView { phase: RunPhaseView::Finished(link_error), ..self },
            RunActionView::Finish(summary_of(self.reports, link_error)),
        )
    }

    /// The run after `event`, and what the caller has to do next.
    ///
    /// While a job is being carried out, the event is the job's. When the
    /// job ends, its report is kept and handed out. The event that follows
    /// a report takes the run to the next job, whatever the report said.
    /// After the last job the links are made, once, and the run ends.
    pub open spec fn next(self, event: JobEventView) -> (RunView, RunActionView) {
        match self.phase {
            RunPhaseView::Working(job) => if job.phase is Finished {
                self.advance()
            } else {
                let (after, action) = job.next(event);
                (
                    RunView {
                        phase: RunPhaseView::Working(after),
                        reports: match action {
                            JobActionView::Report(report) => self.reports.push(report),
                            _ => self.reports,
                        },
                        ..self
                    },
                    RunActionView::Job(action),
                )
            },
            RunPhaseView::Linking => match event {
                JobEventView::Done => self.finish(None),
                JobEventView::Failed(message) => self.finish(Some(message)),
                _ => self.finish(Some(unexpected())),
            },
            RunPhaseView::Finished(link_error) => self.finish(link_error),
        }
    }
}

/// A job that has failed does not stop the run: once a job is reported,
/// whatever its report says, the run takes up the next job with that job's
/// first action, and after the last job it makes the links.
pub proof fn lemma_run_goes_on(run: RunView, job: JobRunView, event: JobEventView)
    requires
        run.phase == RunPhaseView::Working(job),
        job.phase is Finished,
    ensures
        run.reports.len() < run.jobs.len() ==> {
            let next = JobRunView {
                job: run.jobs[run.reports.len() as int],
                fs: run.fs,
                phase: JobPhaseView::Invoking,
            };
            &&& run.next(event).0.phase == RunPhaseView::Working(next)
            &&& run.next(event).1 == RunActionView::Job(next.begin())
        },
        run.reports.len() >= run.jobs.len() ==> run.next(event).1 is Relink,
        run.next(event).0.reports == run.reports,
        run.next(event).0.jobs == run.jobs,
{
}

/// The links are made once, after all jobs, and the run ends only after
/// that: the action to make them is what takes the run into the phase of
/// linking, no event keeps it there, and nothing but that phase leads to
/// the end.
pub proof fn lemma_relink_once(run: RunView, event: JobEventView)
    ensures
        run.next(event).1 is Relink <==> run.next(event).0.phase is Linking,
        run.next(event).1 is Relink ==> (run.phase is Working) && run.reports.len()
            >= run.jobs.len(),
        run.phase is Linking ==> run.next(event).1 is Finish,
        run.next(event).1 is Finish ==> run.phase is Linking || run.phase is Finished,
        run.next(event).1 is Finish <==> run.next(event).0.phase is Finished,
{
}

/// Every job that ends adds exactly one report, and nothing else adds or
/// takes one.
pub proof fn lemma_one_report_per_job(run: RunView, event: JobEventView)
    ensures
        run.next(event).1 matches RunActionView::Job(JobActionView::Report(report))
            ==> run.next(event).0.reports == run.reports.push(report),
        !(run.next(event).1 matches RunActionView::Job(JobActionView::Report(_)))
            ==> run.next(event).0.reports == run.reports,
{
}

/// Every report is of exactly one of the three kinds.
pub proof fn lemma_reports_partition(reports: Seq<JobReportView>)
    ensures
        reports.filter(is_added()).len() + reports.filter(is_removed()).len() + reports.filter(
            is_failed(),
        ).len() == reports.len(),
    decreases reports.len(),
{
    reveal(Seq::filter);
    if reports.len() > 0 {
        lemma_reports_partition(reports.drop_last());
    }
}

impl RunView {
    /// What holds of a run at every time: no more reports than jobs; while
    /// a job is carried out, it is the job whose turn it is; and once the
    /// links are made, every job is reported.
    pub open spec fn well(self) -> bool {
        match self.phase {
            RunPhaseView::Working(job) => if job.phase is Finished {
                1 <= self.reports.len() <= self.jobs.len()
            } else {
                &&& self.reports.len() < self.jobs.len()
                &&& job.job == self.jobs[self.reports.len() as int]
                &&& job.fs == self.fs
            },
            RunPhaseView::Linking => self.reports.len() == self.jobs.len(),
            RunPhaseView::Finished(_) => self.reports.len() == self.jobs.len(),
        }
    }
}

/// A job ends exactly when it hands out its report, and stays the same job
/// throughout.
pub proof fn lemma_job_ends_with_report(run: JobRunView, event: JobEventView)
    ensures
        run.next(event).1 is Report <==> run.next(event).0.phase is Finished,
        run.next(event).0.job == run.job,
        run.next(event).0.fs == run.fs,
{
}

/// A run begins well.
pub proof fn lemma_run_begins_well(jobs: Seq<JobView>, fs: FsView)
    ensures
        (RunView {
            jobs: jobs,
            fs: fs,
            reports: Seq::empty(),
            phase: RunPhaseView::Linking,
        }).advance().0.well(),
{
}

/// A run that is well stays well, whatever happens.
pub proof fn lemma_run_stays_well(run: RunView, event: JobEventView)
    requires
        run.well(),
    ensures
        run.next(event).0.well(),
{
    match run.phase {
        RunPhaseView::Working(job) => {
            lemma_job_ends_with_report(job, event);
        },
        _ => {},
    }
}

/// When a run ends, every job has been carried out and reported, whatever
/// failed on the way: the packages added, the packages removed and the
/// jobs failed are together as many as the jobs of the run.
pub proof fn lemma_every_job_is_reported(run: RunView, event: JobEventView)
    requires
        run.well(),
    ensures
        run.next(event).1 matches RunActionView::Finish(summary) ==> summary.added
            + summary.removed + summary.failed == run.jobs.len(),
{
    lemma_reports_partition(run.reports);
}

/// How many of `reports` pass each of the three tests.
pub fn count_reports(reports: &Vec<JobReport>) -> (counts: (usize, usize, usize))
    ensures
        counts.0 == report_views(reports@).filter(is_added()).len(),
        counts.1 == report_views(reports@).filter(is_removed()).len(),
        counts.2 == report_views(reports@).filter(is_failed()).len(),
{
    let ghost all = report_views(reports@);
    let mut added: usize = 0;
    let mut removed: usize = 0;
    let mut failed: usize = 0;
    let mut i: usize = 0;
    proof {
        reveal(Seq::filter);
        assert(all.take(0) =~= Seq::empty());
    }
    while i < reports.len()
        invariant
            i <= reports.len(),
            all == report_views(reports@),
            added == all.take(i as int).filter(is_added()).len(),
            removed == all.take(i as int).filter(is_removed()).len(),
            failed == all.take(i as int).filter(is_failed()).len(),
            added + removed + failed == i,
        decreases reports.len() - i,
    {
        proof {
            assert(all.take(i + 1) == all.take(i as int).push(all[i as int]));
            all.take(i as int).lemma_filter_push(all[i as int], is_added());
            all.take(i as int).lemma_filter_push(all[i as int], is_removed());
            all.take(i as int).lemma_filter_push(all[i as int], is_failed());
        }
        match &reports[i] {
            JobReport::Added(_) => { added += 1; },
            JobReport::Removed(_) => { removed += 1; },
            JobReport::Failed { .. } => { failed += 1; },
        }
        i += 1;
    }
    assert(all.take(i as int) == all);
    (added, removed, failed)
}

impl Run {
    /// Begins a run of `jobs`. The result is the run and its first action.
    pub fn start(jobs: Vec<Job>, fs: Fs) -> (r: (Run, RunAction))
        ensures
            (r.0@, r.1@) == (RunView {
                jobs: job_views(jobs@),
                fs: fs@,
                reports: Seq::empty(),
                phase: RunPhaseView::Linking,
            }).advance(),
    {
        let run = Run { jobs, fs, reports: Vec::new(), phase: RunPhase::Linking };
        assert(run@.reports =~= Seq::empty());
        run.advance()
    }

    /// Whether the run is over.
    pub fn is_finished(&self) -> (b: bool)
        ensures
            b == (self@.phase is Finished),
    {
        match &self.phase {
            RunPhase::Finished(_) => true,
            _ => false,
        }
    }

    /// Goes on with the next job, or with the links.
    fn advance(self) -> (r: (Run, RunAction))
        ensures
            (r.0@, r.1@) == self@.advance(),
    {
        let Run { jobs, fs, reports, phase: _ } = self;
        if reports.len() < jobs.len() {
            let (job, action) = JobRun::start(jobs[reports.len()].duplicate(), &fs);
            (Run { jobs, fs, reports, phase: RunPhase::Working(job) }, RunAction::Job(action))
        } else {
            (Run { jobs, fs, reports, phase: RunPhase::Linking }, RunAction::Relink)
        }
    }

    /// Ends the run.
    fn finish(self, link_error: Option<String>) -> (r: (Run, RunAction))
        ensures
            (r.0@, r.1@) == self@.finish(option_view(link_error)),
    {
        let Run { jobs, fs, reports, phase: _ } = self;
        let (added, removed, failed) = count_reports(&reports);
        let error = match &link_error {
            Some(message) => Some(copy_text(message)),
            None => None,
        };
        (
            Run { jobs, fs, reports, phase: RunPhase::Finished(link_error) },
            RunAction::Finish(Summary { added, removed, failed, link_error: error }),
        )
    }

    /// Takes what happened and says what to do next.
    pub fn step(self, event: JobEvent) -> (r: (Run, RunAction))
        ensures
            (r.0@, r.1@) == self@.next(event@),
    {
        let Run { jobs, fs, reports, phase } = self;
        let ghost before = report_views(reports@);
        match phase {
            RunPhase::Working(job) => {
                if job.is_finished() {
                    let here = Run { jobs, fs, reports, phase: RunPhase::Linking };
                    here.advance()
                } else {
                    let (after, action) = job.step(event);
                    let mut reports = reports;
                    if let JobAction::Report(report) = &action {
                        let kept = match report {
                            JobReport::Added(pkg) => JobReport::Added(pkg.duplicate()),
                            JobReport::Removed(name) => JobReport::Removed(copy_text(name)),
                            JobReport::Failed { stage, message } => JobReport::Failed {
                                stage: *stage,
                                message: copy_text(message),
                            },
                        };
                        reports.push(kept);
                        assert(report_views(reports@) =~= before.push(report@));
                    }
                    (
                        Run { jobs, fs, reports, phase: RunPhase::Working(after) },
                        RunAction::Job(action),
                    )
                }
            },
            RunPhase::Linking => {
                let here = Run { jobs, fs, reports, phase: RunPhase::Linking };
                match event {
                    JobEvent::Done => here.finish(None),
                    JobEvent::Failed(message) => here.finish(Some(message)),
                    _ => here.finish(Some("unexpected event".to_string())),
                }
            },
            RunPhase::Finished(link_error) => {
                let here = Run { jobs, fs, reports, phase: RunPhase::Linking };
                here.finish(link_error)
            },
        }
    }
}

} // verus!
