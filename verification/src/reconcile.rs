//! Reconciliation: what has to be done so that the installed packages
//! become the declared ones.
//!
//! Each bridge is looked at by itself. Its declared packages that have no
//! record are to be installed; those that have one may be updated; records
//! that the bridge owns and no longer declares are to be removed.
use crate::cmd::{Commands, CommandsView};
use crate::db::{record_names, record_views, InstalledPkg, InstalledPkgView, Pkg, PkgView};
use crate::input::{
    declaration_views, group_views, Bridge, BridgeView, PkgDeclaration, PkgDeclarationView,
};
use crate::model::{has_name, lemma_position, lemma_position_bounds, option_view, position, texts};
use crate::text::copy_text;
use vstd::prelude::*;

verus! {

/// The names of a list of declarations.
pub open spec fn declared_names(pkgs: Seq<PkgDeclarationView>) -> Seq<Seq<char>> {
    Seq::new(pkgs.len(), |i: int| pkgs[i].name)
}

/// The test for a declaration whose name is among `names`, or is not.
pub open spec fn named_in(names: Seq<Seq<char>>, present: bool) -> spec_fn(
    PkgDeclarationView,
) -> bool {
    |d: PkgDeclarationView| names.contains(d.name) == present
}

/// The test for a record that `bridge` owns and that is not among the
/// declared names.
pub open spec fn orphan_of(bridge: Seq<char>, declared: Seq<Seq<char>>) -> spec_fn(
    InstalledPkgView,
) -> bool {
    |r: InstalledPkgView| r.bridge == bridge && !declared.contains(r.pkg.name)
}

/// The declared packages that no record shares a name with, in the order
/// of their declaration.
pub open spec fn to_install(
    declared: Seq<PkgDeclarationView>,
    installed: Seq<InstalledPkgView>,
) -> Seq<PkgDeclarationView> {
    declared.filter(named_in(record_names(installed), false))
}

/// The declared packages that a record shares a name with, in the order of
/// their declaration.
pub open spec fn to_update(
    declared: Seq<PkgDeclarationView>,
    installed: Seq<InstalledPkgView>,
) -> Seq<PkgDeclarationView> {
    declared.filter(named_in(record_names(installed), true))
}

/// The records that `bridge` owns and does not declare, in the order of the
/// store.
pub open spec fn to_remove(
    bridge: Seq<char>,
    declared: Seq<PkgDeclarationView>,
    installed: Seq<InstalledPkgView>,
) -> Seq<InstalledPkgView> {
    installed.filter(orphan_of(bridge, declared_names(declared)))
}

/// The declarations that stand for a list of records.
pub open spec fn stand_ins(records: Seq<InstalledPkgView>) -> Seq<PkgDeclarationView> {
    Seq::new(records.len(), |i: int| records[i].pkg.stand_in())
}

/// The names of a list of declarations.
pub fn names_of(pkgs: &Vec<PkgDeclaration>) -> (names: Vec<String>)
    ensures
        texts(names@) == declared_names(declaration_views(pkgs@)),
{
    let mut names: Vec<String> = Vec::new();
    let mut i: usize = 0;
    while i < pkgs.len()
        invariant
            i <= pkgs.len(),
            names@.len() == i,
            forall|k: int| 0 <= k < i ==> names@[k]@ == pkgs@[k].name@,
        decreases pkgs.len() - i,
    {
        names.push(copy_text(&pkgs[i].name));
        i += 1;
    }
    assert(texts(names@) =~= declared_names(declaration_views(pkgs@)));
    names
}

/// The names of a list of records.
pub fn installed_names(installed: &Vec<InstalledPkg>) -> (names: Vec<String>)
    ensures
        texts(names@) == record_names(record_views(installed@)),
{
    let mut names: Vec<String> = Vec::new();
    let mut i: usize = 0;
    while i < installed.len()
        invariant
            i <= installed.len(),
            names@.len() == i,
            forall|k: int| 0 <= k < i ==> names@[k]@ == installed@[k].pkg.name@,
        decreases installed.len() - i,
    {
        names.push(copy_text(&installed[i].pkg.name));
        i += 1;
    }
    assert(texts(names@) =~= record_names(record_views(installed@)));
    names
}

/// The declarations of `pkgs` whose name is among `names`, or those whose
/// name is not, in the order of `pkgs`.
pub fn select(pkgs: &Vec<PkgDeclaration>, names: &Vec<String>, present: bool) -> (kept: Vec<
    PkgDeclaration,
>)
    ensures
        declaration_views(kept@) == declaration_views(pkgs@).filter(
            named_in(texts(names@), present),
        ),
{
    let ghost all = declaration_views(pkgs@);
    let ghost test = named_in(texts(names@), present);
    let mut kept: Vec<PkgDeclaration> = Vec::new();
    let mut i: usize = 0;
    proof {
        reveal(Seq::filter);
        assert(all.take(0).filter(test) =~= Seq::empty());
        assert(declaration_views(kept@) =~= Seq::empty());
    }
    while i < pkgs.len()
        invariant
            i <= pkgs.len(),
            all == declaration_views(pkgs@),
            test == named_in(texts(names@), present),
            declaration_views(kept@) == all.take(i as int).filter(test),
        decreases pkgs.len() - i,
    {
        proof {
            assert(all.take(i + 1) == all.take(i as int).push(all[i as int]));
            all.take(i as int).lemma_filter_push(all[i as int], test);
        }
        if has_name(names, pkgs[i].name.as_str()) == present {
            let ghost before = declaration_views(kept@);
            kept.push(pkgs[i].duplicate());
            assert(declaration_views(kept@) == before.push(all[i as int]));
        }
        i += 1;
    }
    assert(all.take(i as int) == all);
    kept
}

/// The records that the bridge named `bridge_name` owns and that are not
/// among the declared names, in the order of `installed`.
pub fn orphans(installed: &Vec<InstalledPkg>, declared: &Vec<String>, bridge_name: &str) -> (kept:
    Vec<InstalledPkg>)
    ensures
        record_views(kept@) == record_views(installed@).filter(
            orphan_of(bridge_name@, texts(declared@)),
        ),
{
    let ghost all = record_views(installed@);
    let ghost test = orphan_of(bridge_name@, texts(declared@));
    let owner = bridge_name.to_owned();
    let mut kept: Vec<InstalledPkg> = Vec::new();
    let mut i: usize = 0;
    proof {
        reveal(Seq::filter);
        assert(all.take(0).filter(test) =~= Seq::empty());
        assert(record_views(kept@) =~= Seq::empty());
    }
    while i < installed.len()
        invariant
            i <= installed.len(),
            owner@ == bridge_name@,
            all == record_views(installed@),
            test == orphan_of(bridge_name@, texts(declared@)),
            record_views(kept@) == all.take(i as int).filter(test),
        decreases installed.len() - i,
    {
        proof {
            assert(all.take(i + 1) == all.take(i as int).push(all[i as int]));
            all.take(i as int).lemma_filter_push(all[i as int], test);
        }
        if installed[i].bridge == owner && !has_name(declared, installed[i].pkg.name.as_str()) {
            let ghost before = record_views(kept@);
            kept.push(
                InstalledPkg {
                    pkg: installed[i].pkg.duplicate(),
                    bridge: copy_text(&installed[i].bridge),
                },
            );
            assert(record_views(kept@) == before.push(all[i as int]));
        }
        i += 1;
    }
    assert(all.take(i as int) == all);
    kept
}

/// Sorts the packages of one bridge by what is to be done with them. The
/// result holds, in this order: the declared packages that are installed,
/// the declared packages that are not, and a declaration with no attributes
/// for each record that the bridge owns and no longer declares.
pub fn filter_pkgs_by_statuses(
    installed: &Vec<InstalledPkg>,
    pkgs_declarations: &Vec<PkgDeclaration>,
    bridge_name: &str,
) -> (r: (Vec<PkgDeclaration>, Vec<PkgDeclaration>, Vec<PkgDeclaration>))
    ensures
        declaration_views(r.0@) == to_update(
            declaration_views(pkgs_declarations@),
            record_views(installed@),
        ),
        declaration_views(r.1@) == to_install(
            declaration_views(pkgs_declarations@),
            record_views(installed@),
        ),
        declaration_views(r.2@) == stand_ins(
            to_remove(bridge_name@, declaration_views(pkgs_declarations@), record_views(installed@)),
        ),
{
    let names = installed_names(installed);
    let declared = names_of(pkgs_declarations);
    let installed_in_input = select(pkgs_declarations, &names, true);
    let not_installed_in_input = select(pkgs_declarations, &names, false);
    let gone = orphans(installed, &declared, bridge_name);
    let mut installed_not_in_input: Vec<PkgDeclaration> = Vec::new();
    let mut i: usize = 0;
    while i < gone.len()
        invariant
            i <= gone.len(),
            installed_not_in_input@.len() == i,
            forall|k: int|
                0 <= k < i ==> installed_not_in_input@[k]@ == gone@[k]@.pkg.stand_in(),
        decreases gone.len() - i,
    {
        installed_not_in_input.push(gone[i].pkg.to_pkg_declaration_with_empty_attributes());
        i += 1;
    }
    assert(declaration_views(installed_not_in_input@) =~= stand_ins(record_views(gone@)));
    (installed_in_input, not_installed_in_input, installed_not_in_input)
}

/// A declared package without a record is to be installed, and is neither
/// to be updated nor to be removed.
pub proof fn lemma_new_package_is_installed(
    bridge: Seq<char>,
    declared: Seq<PkgDeclarationView>,
    installed: Seq<InstalledPkgView>,
    i: int,
)
    requires
        0 <= i < declared.len(),
        !record_names(installed).contains(declared[i].name),
    ensures
        to_install(declared, installed).contains(declared[i]),
        !to_update(declared, installed).contains(declared[i]),
        !declared_names(stand_ins(to_remove(bridge, declared, installed))).contains(
            declared[i].name,
        ),
        !record_names(to_remove(bridge, declared, installed)).contains(declared[i].name),
{
    let names = record_names(installed);
    declared.lemma_filter_contains(named_in(names, false), i);
    let updates = to_update(declared, installed);
    if updates.contains(declared[i]) {
        let j = choose|j: int| 0 <= j < updates.len() && updates[j] == declared[i];
        declared.lemma_filter_pred(named_in(names, true), j);
    }
    let removes = to_remove(bridge, declared, installed);
    let test = orphan_of(bridge, declared_names(declared));
    if record_names(removes).contains(declared[i].name) {
        let j = choose|j: int|
            0 <= j < record_names(removes).len() && record_names(removes)[j] == declared[i].name;
        assert(removes.contains(removes[j]));
        installed.lemma_filter_contains_rev(test, removes[j]);
        let k = choose|k: int| 0 <= k < installed.len() && installed[k] == removes[j];
        assert(names[k] == declared[i].name);
    }
    if declared_names(stand_ins(removes)).contains(declared[i].name) {
        let j = choose|j: int|
            0 <= j < declared_names(stand_ins(removes)).len() && declared_names(
                stand_ins(removes),
            )[j] == declared[i].name;
        assert(record_names(removes)[j] == declared[i].name);
    }
}

/// A declared package with a record is to be updated and not to be
/// installed.
pub proof fn lemma_installed_package_is_updated(
    declared: Seq<PkgDeclarationView>,
    installed: Seq<InstalledPkgView>,
    i: int,
)
    requires
        0 <= i < declared.len(),
        record_names(installed).contains(declared[i].name),
    ensures
        to_update(declared, installed).contains(declared[i]),
        !to_install(declared, installed).contains(declared[i]),
{
    let names = record_names(installed);
    declared.lemma_filter_contains(named_in(names, true), i);
    let installs = to_install(declared, installed);
    if installs.contains(declared[i]) {
        let j = choose|j: int| 0 <= j < installs.len() && installs[j] == declared[i];
        declared.lemma_filter_pred(named_in(names, false), j);
    }
}

/// A record that a bridge owns, and whose name the bridge does not
/// declare, is to be removed. Nothing else is: what is to be removed is a
/// record of the store, owned by the bridge and not declared by it.
pub proof fn lemma_orphan_is_removed(
    bridge: Seq<char>,
    declared: Seq<PkgDeclarationView>,
    installed: Seq<InstalledPkgView>,
)
    ensures
        forall|k: int|
            0 <= k < installed.len() && (#[trigger] installed[k]).bridge == bridge
                && !declared_names(declared).contains(installed[k].pkg.name) ==> to_remove(
                bridge,
                declared,
                installed,
            ).contains(installed[k]),
        forall|j: int|
            0 <= j < to_remove(bridge, declared, installed).len() ==> {
                let r = #[trigger] to_remove(bridge, declared, installed)[j];
                &&& installed.contains(r)
                &&& r.bridge == bridge
                &&& !declared_names(declared).contains(r.pkg.name)
            },
{
    let test = orphan_of(bridge, declared_names(declared));
    let removes = to_remove(bridge, declared, installed);
    assert forall|k: int|
        0 <= k < installed.len() && (#[trigger] installed[k]).bridge == bridge && !declared_names(
            declared,
        ).contains(installed[k].pkg.name) implies removes.contains(installed[k]) by {
        installed.lemma_filter_contains(test, k);
    }
    assert forall|j: int| 0 <= j < removes.len() implies {
        let r = #[trigger] removes[j];
        &&& installed.contains(r)
        &&& r.bridge == bridge
        &&& !declared_names(declared).contains(r.pkg.name)
    } by {
        installed.lemma_filter_pred(test, j);
        assert(removes.contains(removes[j]));
        installed.lemma_filter_contains_rev(test, removes[j]);
    }
}

/// What is to be done with one package.
#[derive(Debug, Clone, Copy, PartialEq, Eq, Structural)]
pub enum JobKind {
    Install,
    Update,
    Remove,
    /// Install anew what is installed already.
    Reinstall,
}

/// One piece of work: a package, the bridge that is to work on it, what is
/// to be done, and the record that the store holds under the package's
/// name, if it holds one.
#[derive(Debug, Clone, PartialEq, Eq)]
pub struct Job {
    pub bridge: String,
    pub declaration: PkgDeclaration,
    pub kind: JobKind,
    pub prior: Option<Pkg>,
}

pub struct JobView {
    pub bridge: Seq<char>,
    pub declaration: PkgDeclarationView,
    pub kind: JobKind,
    pub prior: Option<PkgView>,
}

impl View for Job {
    type V = JobView;

    open spec fn view(&self) -> JobView {
        JobView {
            bridge: self.bridge@,
            declaration: self.declaration@,
            kind: self.kind,
            prior: option_view(self.prior),
        }
    }
}

impl Job {
    /// A copy of this job.
    pub fn duplicate(&self) -> (job: Job)
        ensures
            job@ == self@,
    {
        Job {
            bridge: copy_text(&self.bridge),
            declaration: self.declaration.duplicate(),
            kind: self.kind,
            prior: match &self.prior {
                Some(pkg) => Some(pkg.duplicate()),
                None => None,
            },
        }
    }
}

/// The first record of the store under `name`, if there is one.
pub open spec fn prior_of(installed: Seq<InstalledPkgView>, name: Seq<char>) -> Option<PkgView> {
    let i = position(record_names(installed), name);
    if 0 <= i < installed.len() {
        Some(installed[i].pkg)
    } else {
        None
    }
}

/// One job of the given kind for each of `pkgs`, in their order.
pub open spec fn jobs_for(
    kind: JobKind,
    bridge: Seq<char>,
    pkgs: Seq<PkgDeclarationView>,
    installed: Seq<InstalledPkgView>,
) -> Seq<JobView> {
    Seq::new(
        pkgs.len(),
        |i: int|
            JobView {
                bridge: bridge,
                declaration: pkgs[i],
                kind: kind,
                prior: prior_of(installed, pkgs[i].name),
            },
    )
}

/// The jobs of one bridge under a command, in the order in which they are
/// to be done.
///
/// To build is to install what is missing and then to remove what is no
/// longer declared; with the update flag, what is installed is updated
/// first. To rebuild is the same, with what is installed being installed
/// anew first. To update is to update what is installed, narrowed to the
/// named packages where names are given. No other command has jobs.
pub open spec fn bridge_jobs(
    bridge: BridgeView,
    installed: Seq<InstalledPkgView>,
    command: CommandsView,
) -> Seq<JobView> {
    let updates = to_update(bridge.pkgs, installed);
    let installs = jobs_for(
        JobKind::Install,
        bridge.name,
        to_install(bridge.pkgs, installed),
        installed,
    );
    let removes = jobs_for(
        JobKind::Remove,
        bridge.name,
        stand_ins(to_remove(bridge.name, bridge.pkgs, installed)),
        installed,
    );
    match command {
        CommandsView::Build { update } => (if update {
            jobs_for(JobKind::Update, bridge.name, updates, installed)
        } else {
            Seq::empty()
        }) + installs + removes,
        CommandsView::Rebuild => jobs_for(JobKind::Reinstall, bridge.name, updates, installed)
            + installs + removes,
        CommandsView::Update { packages } => jobs_for(
            JobKind::Update,
            bridge.name,
            match packages {
                Some(names) => updates.filter(named_in(names, true)),
                None => updates,
            },
            installed,
        ),
        _ => Seq::empty(),
    }
}

/// The jobs of a run: those of each bridge, the bridges taken in the order
/// of their declaration.
pub open spec fn all_jobs(
    bridges: Seq<BridgeView>,
    installed: Seq<InstalledPkgView>,
    command: CommandsView,
) -> Seq<JobView>
    decreases bridges.len(),
{
    if bridges.len() == 0 {
        Seq::empty()
    } else {
        all_jobs(bridges.drop_last(), installed, command) + bridge_jobs(
            bridges.last(),
            installed,
            command,
        )
    }
}

/// A job to install has no record to go by; a job to update, to install
/// anew or to remove has the record of its package.
pub proof fn lemma_job_priors(
    bridge: BridgeView,
    installed: Seq<InstalledPkgView>,
    kind: JobKind,
    i: int,
)
    ensures
        0 <= i < to_install(bridge.pkgs, installed).len() ==> jobs_for(
            kind,
            bridge.name,
            to_install(bridge.pkgs, installed),
            installed,
        )[i].prior is None,
        0 <= i < to_update(bridge.pkgs, installed).len() ==> jobs_for(
            kind,
            bridge.name,
            to_update(bridge.pkgs, installed),
            installed,
        )[i].prior is Some,
        0 <= i < to_remove(bridge.name, bridge.pkgs, installed).len() ==> jobs_for(
            kind,
            bridge.name,
            stand_ins(to_remove(bridge.name, bridge.pkgs, installed)),
            installed,
        )[i].prior is Some,
{
    let names = record_names(installed);
    if 0 <= i < to_install(bridge.pkgs, installed).len() {
        bridge.pkgs.lemma_filter_pred(named_in(names, false), i);
        lemma_position_bounds(names, to_install(bridge.pkgs, installed)[i].name);
    }
    if 0 <= i < to_update(bridge.pkgs, installed).len() {
        bridge.pkgs.lemma_filter_pred(named_in(names, true), i);
        lemma_position_bounds(names, to_update(bridge.pkgs, installed)[i].name);
    }
    let removes = to_remove(bridge.name, bridge.pkgs, installed);
    if 0 <= i < removes.len() {
        let test = orphan_of(bridge.name, declared_names(bridge.pkgs));
        assert(removes.contains(removes[i]));
        installed.lemma_filter_contains_rev(test, removes[i]);
        let k = choose|k: int| 0 <= k < installed.len() && installed[k] == removes[i];
        assert(names[k] == removes[i].pkg.name);
        lemma_position_bounds(names, removes[i].pkg.name);
    }
}

/// The kinds of the jobs of a bridge go by the command: to build without
/// the update flag is to install and to remove only, to update is to
/// update only, and every job is for the bridge itself.
pub proof fn lemma_job_kinds(
    bridge: BridgeView,
    installed: Seq<InstalledPkgView>,
    command: CommandsView,
    i: int,
)
    requires
        0 <= i < bridge_jobs(bridge, installed, command).len(),
    ensures
        bridge_jobs(bridge, installed, command)[i].bridge == bridge.name,
        command == (CommandsView::Build { update: false }) ==> bridge_jobs(
            bridge,
            installed,
            command,
        )[i].kind == JobKind::Install || bridge_jobs(bridge, installed, command)[i].kind
            == JobKind::Remove,
        command is Update ==> bridge_jobs(bridge, installed, command)[i].kind == JobKind::Update,
        command is Build || command is Update ==> bridge_jobs(bridge, installed, command)[i].kind
            != JobKind::Reinstall,
        command is Rebuild ==> bridge_jobs(bridge, installed, command)[i].kind != JobKind::Update,
{
}

/// The views of a list of jobs.
pub open spec fn job_views(jobs: Seq<Job>) -> Seq<JobView> {
    Seq::new(jobs.len(), |i: int| jobs[i]@)
}

/// The first record of `installed` under `name`, if there is one.
pub fn find_prior(installed: &Vec<InstalledPkg>, name: &str) -> (r: Option<Pkg>)
    ensures
        option_view(r) == prior_of(record_views(installed@), name@),
{
    let wanted = name.to_owned();
    let mut i: usize = 0;
    while i < installed.len() && installed[i].pkg.name != wanted
        invariant
            i <= installed.len(),
            wanted@ == name@,
            forall|j: int| 0 <= j < i ==> record_names(record_views(installed@))[j] != name@,
        decreases installed.len() - i,
    {
        i += 1;
    }
    proof {
        lemma_position(record_names(record_views(installed@)), name@, i as int);
    }
    if i < installed.len() {
        Some(installed[i].pkg.duplicate())
    } else {
        None
    }
}

/// Appends one job of the given kind for each of `pkgs` to `jobs`.
pub fn push_jobs(
    jobs: &mut Vec<Job>,
    kind: JobKind,
    bridge_name: &str,
    pkgs: &Vec<PkgDeclaration>,
    installed: &Vec<InstalledPkg>,
)
    ensures
        job_views(final(jobs)@) == job_views(old(jobs)@) + jobs_for(
            kind,
            bridge_name@,
            declaration_views(pkgs@),
            record_views(installed@),
        ),
{
    let ghost before = job_views(jobs@);
    let ghost added = jobs_for(
        kind,
        bridge_name@,
        declaration_views(pkgs@),
        record_views(installed@),
    );
    let mut i: usize = 0;
    assert(job_views(jobs@) =~= before + added.take(0));
    while i < pkgs.len()
        invariant
            i <= pkgs.len(),
            added == jobs_for(
                kind,
                bridge_name@,
                declaration_views(pkgs@),
                record_views(installed@),
            ),
            job_views(jobs@) == before + added.take(i as int),
        decreases pkgs.len() - i,
    {
        let ghost so_far = job_views(jobs@);
        let job = Job {
            bridge: bridge_name.to_owned(),
            declaration: pkgs[i].duplicate(),
            kind,
            prior: find_prior(installed, pkgs[i].name.as_str()),
        };
        assert(job@ == added[i as int]);
        jobs.push(job);
        assert(job_views(jobs@) =~= so_far.push(added[i as int]));
        assert(added.take(i + 1) =~= added.take(i as int).push(added[i as int]));
        i += 1;
    }
    assert(added.take(i as int) == added);
}

/// Appends the jobs of one bridge under `command` to `jobs`.
pub fn push_bridge_jobs(
    jobs: &mut Vec<Job>,
    bridge: &Bridge,
    installed: &Vec<InstalledPkg>,
    command: &Commands,
)
    ensures
        job_views(final(jobs)@) == job_views(old(jobs)@) + bridge_jobs(
            bridge@,
            record_views(installed@),
            command@,
        ),
{
    let ghost before = job_views(jobs@);
    let (updates, installs, removes) = filter_pkgs_by_statuses(
        installed,
        &bridge.pkgs,
        bridge.name.as_str(),
    );
    let name = bridge.name.as_str();
    match command {
        Commands::Build { update } => {
            if *update {
                push_jobs(jobs, JobKind::Update, name, &updates, installed);
            }
            push_jobs(jobs, JobKind::Install, name, &installs, installed);
            push_jobs(jobs, JobKind::Remove, name, &removes, installed);
        },
        Commands::Rebuild => {
            push_jobs(jobs, JobKind::Reinstall, name, &updates, installed);
            push_jobs(jobs, JobKind::Install, name, &installs, installed);
            push_jobs(jobs, JobKind::Remove, name, &removes, installed);
        },
        Commands::Update { packages } => match packages {
            Some(names) => {
                let narrowed = select(&updates, names, true);
                push_jobs(jobs, JobKind::Update, name, &narrowed, installed);
            },
            None => {
                push_jobs(jobs, JobKind::Update, name, &updates, installed);
            },
        },
        _ => {},
    }
    assert(job_views(jobs@) =~= before + bridge_jobs(bridge@, record_views(installed@), command@));
}

/// The jobs of a run, in the order in which they are to be done.
pub fn reconcile(bridges: &Vec<Bridge>, installed: &Vec<InstalledPkg>, command: &Commands) -> (jobs:
    Vec<Job>)
    ensures
        job_views(jobs@) == all_jobs(group_views(bridges@), record_views(installed@), command@),
{
    let ghost all = group_views(bridges@);
    let mut jobs: Vec<Job> = Vec::new();
    let mut i: usize = 0;
    assert(job_views(jobs@) =~= Seq::empty());
    assert(all.take(0) =~= Seq::empty());
    while i < bridges.len()
        invariant
            i <= bridges.len(),
            all == group_views(bridges@),
            job_views(jobs@) == all_jobs(all.take(i as int), record_views(installed@), command@),
        decreases bridges.len() - i,
    {
        proof {
            assert(all.take(i + 1).drop_last() == all.take(i as int));
            assert(all.take(i + 1).last() == bridges@[i as int]@);
        }
        push_bridge_jobs(&mut jobs, &bridges[i], installed, command);
        i += 1;
    }
    assert(all.take(i as int) == all);
    jobs
}

} // verus!
