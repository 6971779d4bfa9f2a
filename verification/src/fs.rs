//! Managed storage: where an installed package is kept and how it is made
//! available on the load path.
//!
//! This module decides on paths. Moving, deleting and linking is the
//! caller's work.
use crate::bridge::{resolve, resolve_path};
use crate::db::{Pkg, PkgType, PkgTypeView, PkgView};
use crate::model::list_view;
use crate::text::{copy_text, replace, replaced};
use vstd::prelude::*;

verus! {

/// What went wrong in managed storage.
#[derive(Debug, Clone, PartialEq, Eq)]
pub enum FsError {
    IoError(String),
    /// A file stands where the load path's directory should be.
    LoadPathIsFile,
}

/// What is at the load path.
#[derive(Debug, Clone, Copy, PartialEq, Eq, Structural)]
pub enum LoadPath {
    Missing,
    File,
    Directory,
}

/// The two directories of managed storage: packages are kept under
/// `target_dir`, and a link to each is put into `load_path`.
#[derive(Debug, Clone, PartialEq, Eq)]
pub struct Fs {
    pub target_dir: String,
    pub load_path: String,
}

pub struct FsView {
    pub target_dir: Seq<char>,
    pub load_path: Seq<char>,
}

impl View for Fs {
    type V = FsView;

    open spec fn view(&self) -> FsView {
        FsView { target_dir: self.target_dir@, load_path: self.load_path@ }
    }
}

/// A link to make: `link` is where it is put, `to` is what it points at.
#[derive(Debug, Clone, PartialEq, Eq)]
pub struct Link {
    pub link: String,
    pub to: String,
}

pub struct LinkView {
    pub link: Seq<char>,
    pub to: Seq<char>,
}

impl View for Link {
    type V = LinkView;

    open spec fn view(&self) -> LinkView {
        LinkView { link: self.link@, to: self.to@ }
    }
}

impl FsView {
    /// Where the package named `pkg_name` of `bridge` is kept: in the
    /// bridge's directory below the target directory.
    pub open spec fn target(self, bridge: Option<Seq<char>>, pkg_name: Seq<char>) -> Seq<char> {
        let dir = resolve_path(
            self.target_dir,
            match bridge {
                Some(name) => name,
                None => Seq::empty(),
            },
        );
        resolve_path(dir, pkg_name)
    }

    /// The link that makes `pkg` available: it bears the package's name and
    /// points at the package itself, or at its entry point where the
    /// package is a directory.
    pub open spec fn link_of(self, pkg: PkgView) -> LinkView {
        LinkView {
            link: resolve_path(self.load_path, pkg.name),
            to: match pkg.pkg_type {
                PkgTypeView::SingleExecutable => pkg.path,
                PkgTypeView::Directory(entry_point) => entry_point,
            },
        }
    }

    /// The links of all of `pkgs`, in their order.
    pub open spec fn links(self, pkgs: Seq<PkgView>) -> Seq<LinkView> {
        Seq::new(pkgs.len(), |i: int| self.link_of(pkgs[i]))
    }
}

impl PkgView {
    /// The record of this package once it is kept at `target`: its path is
    /// `target`, and in the entry point of a directory every occurrence of
    /// the old path has become `target`.
    pub open spec fn moved_to(self, target: Seq<char>) -> PkgView {
        PkgView {
            path: target,
            pkg_type: match self.pkg_type {
                PkgTypeView::SingleExecutable => PkgTypeView::SingleExecutable,
                PkgTypeView::Directory(entry_point) => PkgTypeView::Directory(
                    replaced(entry_point, self.path, target),
                ),
            },
            ..self
        }
    }
}

/// What is to be done with the load path before links are made: a missing
/// directory is to be made, a directory is there already, and a file in its
/// place is an error.
pub open spec fn load_path_ready(state: LoadPath) -> Result<bool, FsError> {
    match state {
        LoadPath::Missing => Ok(true),
        LoadPath::Directory => Ok(false),
        LoadPath::File => Err(FsError::LoadPathIsFile),
    }
}

impl Fs {
    /// Managed storage with these two directories.
    pub fn new(target_dir: String, load_path: String) -> (fs: Fs)
        ensures
            fs@ == (FsView { target_dir: target_dir@, load_path: load_path@ }),
    {
        Fs { target_dir, load_path }
    }

    /// Where the package named `pkg_name` of the bridge is kept.
    pub fn target(&self, bridge_name: Option<&str>, pkg_name: &str) -> (path: String)
        ensures
            path@ == self@.target(
                match bridge_name {
                    Some(name) => Some(name@),
                    None => None,
                },
                pkg_name@,
            ),
    {
        let dir = match bridge_name {
            Some(name) => resolve(self.target_dir.as_str(), name),
            None => {
                proof {
                    reveal_strlit("");
                    assert(""@ =~= Seq::<char>::empty());
                }
                resolve(self.target_dir.as_str(), "")
            },
        };
        resolve(dir.as_str(), pkg_name)
    }

    /// Takes a freshly built package into managed storage. The result is
    /// the path where the package lies now: the caller moves it from there
    /// to the path that `pkg` has afterwards, replacing what is there.
    pub fn store_or_overwrite(&self, pkg: &mut Pkg, bridge_name: Option<&str>) -> (from: String)
        ensures
            from@ == old(pkg)@.path,
            final(pkg)@ == old(pkg)@.moved_to(
                self@.target(
                    match bridge_name {
                        Some(name) => Some(name@),
                        None => None,
                    },
                    old(pkg)@.name,
                ),
            ),
    {
        let target = self.target(bridge_name, pkg.name.as_str());
        let from = copy_text(&pkg.path);
        let moved = match &pkg.pkg_type {
            PkgType::SingleExecutable => PkgType::SingleExecutable,
            PkgType::Directory(entry_point) => PkgType::Directory(
                replace(entry_point.as_str(), from.as_str(), target.as_str()),
            ),
        };
        pkg.pkg_type = moved;
        pkg.path = target;
        from
    }

    /// The paths to delete so that `pkgs` are gone from managed storage:
    /// the path of each.
    pub fn remove_pkgs(&self, pkgs: &Vec<Pkg>) -> (paths: Vec<String>)
        ensures
            paths@.len() == pkgs@.len(),
            forall|i: int| 0 <= i < pkgs@.len() ==> paths@[i]@ == pkgs@[i]@.path,
    {
        let mut paths: Vec<String> = Vec::new();
        let mut i: usize = 0;
        while i < pkgs.len()
            invariant
                i <= pkgs.len(),
                paths@.len() == i,
                forall|k: int| 0 <= k < i ==> paths@[k]@ == pkgs@[k]@.path,
            decreases pkgs.len() - i,
        {
            paths.push(copy_text(&pkgs[i].path));
            i += 1;
        }
        paths
    }

    /// Whether the load path's directory has to be made before links are
    /// put into it, or why no links can be made.
    pub fn prepare(state: LoadPath) -> (r: Result<bool, FsError>)
        ensures
            r == load_path_ready(state),
    {
        match state {
            LoadPath::Missing => Ok(true),
            LoadPath::Directory => Ok(false),
            LoadPath::File => Err(FsError::LoadPathIsFile),
        }
    }

    /// The links that make `pkgs` available on the load path, one for each
    /// package and in their order. The caller replaces what stands at a
    /// link's place.
    pub fn link(&self, pkgs: &Vec<Pkg>) -> (links: Vec<Link>)
        ensures
            list_view(links@) == self@.links(list_view(pkgs@)),
    {
        let mut links: Vec<Link> = Vec::new();
        let mut i: usize = 0;
        while i < pkgs.len()
            invariant
                i <= pkgs.len(),
                links@.len() == i,
                forall|k: int| 0 <= k < i ==> links@[k]@ == self@.link_of(pkgs@[k]@),
            decreases pkgs.len() - i,
        {
            let to = match &pkgs[i].pkg_type {
                PkgType::SingleExecutable => copy_text(&pkgs[i].path),
                PkgType::Directory(entry_point) => copy_text(entry_point),
            };
            links.push(Link { link: resolve(self.load_path.as_str(), pkgs[i].name.as_str()), to });
            i += 1;
        }
        assert(list_view(links@) =~= self@.links(list_view(pkgs@)));
        links
    }
}

} // verus!
