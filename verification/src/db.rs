//! Installed package records and their stored form.
//!
//! A record is kept as a row of six text columns. This module holds the
//! record types, the way from a record to its row and back, and the
//! round-trip law that ties the two directions together.
use crate::input::{PkgDeclaration, PkgDeclarationView};
use crate::model::{
    has_name, lemma_position, lemma_position_bounds, list_view, option_view, position, result_view,
    texts,
};
use crate::text::{
    copy_text, count_char, from_chars, has_char, join, lemma_join_split, lemma_split_join,
    lemma_split_len, lemma_split_pieces, same_text, split, split_in, to_chars,
};
use vstd::prelude::*;
use vstd::string::*;

verus! {

/// The path of the file that starts a package installed as a directory.
pub type EntryPoint = String;

/// How an installed package is laid out on disk.
#[derive(Debug, Clone, PartialEq, Eq)]
pub enum PkgType {
    /// The package path is itself the program.
    SingleExecutable,
    /// The package path is a directory; the program is at the entry point.
    Directory(EntryPoint),
}

pub enum PkgTypeView {
    SingleExecutable,
    Directory(Seq<char>),
}

impl View for PkgType {
    type V = PkgTypeView;

    open spec fn view(&self) -> PkgTypeView {
        match self {
            PkgType::SingleExecutable => PkgTypeView::SingleExecutable,
            PkgType::Directory(entry_point) => PkgTypeView::Directory(entry_point@),
        }
    }
}

/// A version of exactly three cells. The cells are text, so that schemes
/// other than numbers fit.
#[derive(Debug, Clone, PartialEq, Eq)]
pub struct Version {
    pub first_cell: String,
    pub second_cell: String,
    pub third_cell: String,
}

pub struct VersionView {
    pub first_cell: Seq<char>,
    pub second_cell: Seq<char>,
    pub third_cell: Seq<char>,
}

impl View for Version {
    type V = VersionView;

    open spec fn view(&self) -> VersionView {
        VersionView {
            first_cell: self.first_cell@,
            second_cell: self.second_cell@,
            third_cell: self.third_cell@,
        }
    }
}

impl VersionView {
    /// The cells with a dot between neighbours.
    pub open spec fn text(self) -> Seq<char> {
        self.first_cell + seq!['.'] + self.second_cell + seq!['.'] + self.third_cell
    }

    /// No cell holds a dot: the version is one that `parse` can give.
    pub open spec fn wf(self) -> bool {
        &&& !has_char(self.first_cell, '.')
        &&& !has_char(self.second_cell, '.')
        &&& !has_char(self.third_cell, '.')
    }

    /// The version that `s` spells: `s` must fall into exactly three pieces
    /// at its dots.
    pub open spec fn parse(s: Seq<char>) -> Option<VersionView> {
        let cells = split(s, '.');
        if cells.len() == 3 {
            Some(VersionView { first_cell: cells[0], second_cell: cells[1], third_cell: cells[2] })
        } else {
            None
        }
    }
}

/// A parsed version has no dot in any cell and spells the text it came from.
pub proof fn lemma_version_parse_text(s: Seq<char>)
    requires
        VersionView::parse(s) is Some,
    ensures
        VersionView::parse(s)->0.wf(),
        VersionView::parse(s)->0.text() == s,
{
    let cells = split(s, '.');
    lemma_split_pieces(s, '.');
    lemma_join_split(s, '.');
    assert(!has_char(cells[0], '.'));
    assert(!has_char(cells[1], '.'));
    assert(!has_char(cells[2], '.'));
    let t1 = cells.drop_first();
    let t2 = t1.drop_first();
    assert(t2.len() == 1);
    assert(join(t2, '.') == cells[2]);
    assert(join(t1, '.') == cells[1] + seq!['.'] + cells[2]);
    assert(join(cells, '.') == cells[0] + seq!['.'] + (cells[1] + seq!['.'] + cells[2]));
    assert(cells[0] + seq!['.'] + (cells[1] + seq!['.'] + cells[2]) == cells[0] + seq!['.']
        + cells[1] + seq!['.'] + cells[2]);
}

/// A text spells a version if and only if it holds exactly two dots.
pub proof fn lemma_version_has_two_dots(s: Seq<char>)
    ensures
        VersionView::parse(s) is Some <==> count_char(s, '.') == 2,
{
    lemma_split_len(s, '.');
}

/// The text of a version without dots in its cells parses back to it.
pub proof fn lemma_version_text_parse(v: VersionView)
    requires
        v.wf(),
    ensures
        VersionView::parse(v.text()) == Some(v),
{
    let parts = seq![v.first_cell, v.second_cell, v.third_cell];
    lemma_split_join(parts, '.');
    let t1 = parts.drop_first();
    let t2 = t1.drop_first();
    assert(t2.len() == 1);
    assert(join(t2, '.') == v.third_cell);
    assert(join(t1, '.') == v.second_cell + seq!['.'] + v.third_cell);
    assert(join(parts, '.') == v.first_cell + seq!['.'] + (v.second_cell + seq!['.']
        + v.third_cell));
    assert(join(parts, '.') == v.text());
}

impl Version {
    /// Reads a version from its text. The text must fall into exactly three
    /// pieces at its dots; a piece may be empty or hold anything but a dot.
    pub fn parse(text: &str) -> (r: Option<Version>)
        ensures
            r is Some == VersionView::parse(text@) is Some,
            r matches Some(v) ==> v@ == VersionView::parse(text@)->0,
    {
        let chars = to_chars(text);
        assert(chars@.subrange(0, chars.len() as int) == text@);
        Version::parse_in(&chars, 0, chars.len())
    }

    /// Reads a version from `chars[lo..hi]`.
    pub fn parse_in(chars: &Vec<char>, lo: usize, hi: usize) -> (r: Option<Version>)
        requires
            lo <= hi <= chars.len(),
        ensures
            r is Some == VersionView::parse(chars@.subrange(lo as int, hi as int)) is Some,
            r matches Some(v) ==> v@ == VersionView::parse(
                chars@.subrange(lo as int, hi as int),
            )->0,
    {
        let cells = split_in(chars, lo, hi, '.');
        if cells.len() != 3 {
            return None;
        }
        Some(
            Version {
                first_cell: from_chars(chars, cells[0].0, cells[0].1),
                second_cell: from_chars(chars, cells[1].0, cells[1].1),
                third_cell: from_chars(chars, cells[2].0, cells[2].1),
            },
        )
    }

    /// The cells with a dot between neighbours.
    pub fn text(&self) -> (s: String)
        ensures
            s@ == self@.text(),
    {
        let mut s = copy_text(&self.first_cell);
        s.push('.');
        s.append(self.second_cell.as_str());
        s.push('.');
        s.append(self.third_cell.as_str());
        s
    }

    /// A copy of this version.
    pub fn duplicate(&self) -> (v: Version)
        ensures
            v@ == self@,
    {
        Version {
            first_cell: copy_text(&self.first_cell),
            second_cell: copy_text(&self.second_cell),
            third_cell: copy_text(&self.third_cell),
        }
    }
}

impl PkgType {
    /// A copy of this layout.
    pub fn duplicate(&self) -> (t: PkgType)
        ensures
            t@ == self@,
    {
        match self {
            PkgType::SingleExecutable => PkgType::SingleExecutable,
            PkgType::Directory(entry_point) => PkgType::Directory(copy_text(entry_point)),
        }
    }
}

/// An installed package: what the record store keeps of it, but for the
/// bridge that owns it.
#[derive(Debug, Clone, PartialEq, Eq)]
pub struct Pkg {
    pub name: String,
    pub version: Version,
    pub path: String,
    pub pkg_type: PkgType,
}

pub struct PkgView {
    pub name: Seq<char>,
    pub version: VersionView,
    pub path: Seq<char>,
    pub pkg_type: PkgTypeView,
}

impl View for Pkg {
    type V = PkgView;

    open spec fn view(&self) -> PkgView {
        PkgView {
            name: self.name@,
            version: self.version@,
            path: self.path@,
            pkg_type: self.pkg_type@,
        }
    }
}

/// The stored form of a record: the six text columns of one row.
#[derive(Debug, Clone, PartialEq, Eq)]
pub struct PkgRow {
    pub name: String,
    pub version: String,
    pub path: String,
    pub pkg_type: String,
    pub entry_point: String,
    pub bridge: String,
}

pub struct PkgRowView {
    pub name: Seq<char>,
    pub version: Seq<char>,
    pub path: Seq<char>,
    pub pkg_type: Seq<char>,
    pub entry_point: Seq<char>,
    pub bridge: Seq<char>,
}

impl View for PkgRow {
    type V = PkgRowView;

    open spec fn view(&self) -> PkgRowView {
        PkgRowView {
            name: self.name@,
            version: self.version@,
            path: self.path@,
            pkg_type: self.pkg_type@,
            entry_point: self.entry_point@,
            bridge: self.bridge@,
        }
    }
}

/// Why a row is no record.
#[derive(Debug, Clone, Copy, PartialEq, Eq)]
pub enum RowError {
    /// The version column does not have exactly three cells.
    WrongVersionFormat,
    /// The type column names no known layout.
    UnknownPkgType,
}

/// The type column of a package that is one executable file.
pub open spec fn single_executable_tag() -> Seq<char> {
    "SingleExecutable"@
}

/// The type column of a package that is a directory.
pub open spec fn directory_tag() -> Seq<char> {
    "Directory"@
}

impl PkgView {
    /// The row under which this record is stored for `bridge`. A single
    /// executable has its own path as entry point.
    pub open spec fn row(self, bridge: Seq<char>) -> PkgRowView {
        PkgRowView {
            name: self.name,
            version: self.version.text(),
            path: self.path,
            pkg_type: match self.pkg_type {
                PkgTypeView::SingleExecutable => single_executable_tag(),
                PkgTypeView::Directory(_) => directory_tag(),
            },
            entry_point: match self.pkg_type {
                PkgTypeView::SingleExecutable => self.path,
                PkgTypeView::Directory(entry_point) => entry_point,
            },
            bridge: bridge,
        }
    }
}

impl PkgRowView {
    /// The record that this row holds. The version column is checked first,
    /// then the type column.
    pub open spec fn record(self) -> Result<PkgView, RowError> {
        match VersionView::parse(self.version) {
            None => Err(RowError::WrongVersionFormat),
            Some(version) => if self.pkg_type == single_executable_tag() {
                Ok(
                    PkgView {
                        name: self.name,
                        version: version,
                        path: self.path,
                        pkg_type: PkgTypeView::SingleExecutable,
                    },
                )
            } else if self.pkg_type == directory_tag() {
                Ok(
                    PkgView {
                        name: self.name,
                        version: version,
                        path: self.path,
                        pkg_type: PkgTypeView::Directory(self.entry_point),
                    },
                )
            } else {
                Err(RowError::UnknownPkgType)
            },
        }
    }
}

/// A record read back from the row it was written to is the record that was
/// written, and the row names the bridge it was written for. This holds of
/// every record whose version cells hold no dot.
pub proof fn lemma_row_round_trip(pkg: PkgView, bridge: Seq<char>)
    requires
        pkg.version.wf(),
    ensures
        pkg.row(bridge).record() == Ok::<PkgView, RowError>(pkg),
        pkg.row(bridge).name == pkg.name,
        pkg.row(bridge).bridge == bridge,
{
    lemma_version_text_parse(pkg.version);
    reveal_strlit("SingleExecutable");
    reveal_strlit("Directory");
    assert("SingleExecutable"@.len() != "Directory"@.len());
}

impl Pkg {
    /// A copy of this record.
    pub fn duplicate(&self) -> (p: Pkg)
        ensures
            p@ == self@,
    {
        Pkg {
            name: copy_text(&self.name),
            version: self.version.duplicate(),
            path: copy_text(&self.path),
            pkg_type: self.pkg_type.duplicate(),
        }
    }

    /// The declaration that stands for a record which is no longer declared:
    /// its name, its path as input, and no attributes.
    pub fn to_pkg_declaration_with_empty_attributes(&self) -> (d: PkgDeclaration)
        ensures
            d@ == self@.stand_in(),
    {
        let d = PkgDeclaration {
            name: copy_text(&self.name),
            input: copy_text(&self.path),
            attributes: Vec::new(),
        };
        assert(d@.attributes =~= Seq::empty());
        d
    }

    /// The row under which this record is stored for `bridge`.
    pub fn to_row(&self, bridge: &str) -> (row: PkgRow)
        ensures
            row@ == self@.row(bridge@),
    {
        let pkg_type = match &self.pkg_type {
            PkgType::SingleExecutable => "SingleExecutable".to_string(),
            PkgType::Directory(_) => "Directory".to_string(),
        };
        let entry_point = match &self.pkg_type {
            PkgType::SingleExecutable => copy_text(&self.path),
            PkgType::Directory(entry_point) => copy_text(entry_point),
        };
        PkgRow {
            name: copy_text(&self.name),
            version: self.version.text(),
            path: copy_text(&self.path),
            pkg_type,
            entry_point,
            bridge: bridge.to_owned(),
        }
    }

    /// The record that `row` holds, or why it holds none.
    pub fn from_row(row: &PkgRow) -> (r: Result<Pkg, RowError>)
        ensures
            r is Ok == row@.record() is Ok,
            r matches Ok(pkg) ==> Ok::<PkgView, RowError>(pkg@) == row@.record(),
            r matches Err(e) ==> Err::<PkgView, RowError>(e) == row@.record(),
    {
        let version = match Version::parse(row.version.as_str()) {
            None => { return Err(RowError::WrongVersionFormat); },
            Some(version) => version,
        };
        let pkg_type = if same_text(row.pkg_type.as_str(), "SingleExecutable") {
            PkgType::SingleExecutable
        } else if same_text(row.pkg_type.as_str(), "Directory") {
            PkgType::Directory(copy_text(&row.entry_point))
        } else {
            return Err(RowError::UnknownPkgType);
        };
        Ok(Pkg { name: copy_text(&row.name), version, path: copy_text(&row.path), pkg_type })
    }
}

/// A record of the store: an installed package and the bridge that owns
/// it.
#[derive(Debug, Clone, PartialEq, Eq)]
pub struct InstalledPkg {
    pub pkg: Pkg,
    pub bridge: String,
}

pub struct InstalledPkgView {
    pub pkg: PkgView,
    pub bridge: Seq<char>,
}

impl View for InstalledPkg {
    type V = InstalledPkgView;

    open spec fn view(&self) -> InstalledPkgView {
        InstalledPkgView { pkg: self.pkg@, bridge: self.bridge@ }
    }
}

/// The views of a list of records.
pub open spec fn record_views(records: Seq<InstalledPkg>) -> Seq<InstalledPkgView> {
    Seq::new(records.len(), |i: int| records[i]@)
}

/// The names of a list of records.
pub open spec fn record_names(records: Seq<InstalledPkgView>) -> Seq<Seq<char>> {
    Seq::new(records.len(), |i: int| records[i].pkg.name)
}

impl PkgView {
    /// The declaration that stands for a record which is no longer
    /// declared: its name, its path as input, and no attributes.
    pub open spec fn stand_in(self) -> PkgDeclarationView {
        PkgDeclarationView { name: self.name, input: self.path, attributes: Seq::empty() }
    }
}

impl InstalledPkg {
    /// The row under which this record is stored.
    pub fn to_row(&self) -> (row: PkgRow)
        ensures
            row@ == self@.pkg.row(self@.bridge),
    {
        self.pkg.to_row(self.bridge.as_str())
    }

    /// The record that `row` holds, or why it holds none.
    pub fn from_row(row: &PkgRow) -> (r: Result<InstalledPkg, RowError>)
        ensures
            r is Ok == row@.record() is Ok,
            r matches Ok(record) ==> Ok::<PkgView, RowError>(record@.pkg) == row@.record()
                && record@.bridge == row@.bridge,
            r matches Err(e) ==> Err::<PkgView, RowError>(e) == row@.record(),
    {
        match Pkg::from_row(row) {
            Ok(pkg) => Ok(InstalledPkg { pkg, bridge: copy_text(&row.bridge) }),
            Err(e) => Err(e),
        }
    }
}

/// Why the store refuses a record.
#[derive(Debug, Clone, PartialEq, Eq)]
pub enum DbError {
    /// A row of the store is no record.
    InvalidRow(RowError),
    /// The store holds a record of this name already.
    NameTaken(String),
}

pub enum DbErrorView {
    InvalidRow(RowError),
    NameTaken(Seq<char>),
}

impl View for DbError {
    type V = DbErrorView;

    open spec fn view(&self) -> DbErrorView {
        match self {
            DbError::InvalidRow(e) => DbErrorView::InvalidRow(*e),
            DbError::NameTaken(name) => DbErrorView::NameTaken(name@),
        }
    }
}

/// The records of the store as a run works with them, in the order in
/// which they were written. The file that keeps them between runs is the
/// caller's to read and to write. No two records have the same name.
#[derive(Debug, Clone, PartialEq, Eq)]
pub struct Db {
    pub records: Vec<InstalledPkg>,
}

impl View for Db {
    type V = Seq<InstalledPkgView>;

    open spec fn view(&self) -> Seq<InstalledPkgView> {
        record_views(self.records@)
    }
}

/// No two records have the same name.
pub open spec fn unique_names(records: Seq<InstalledPkgView>) -> bool {
    forall|i: int, j: int|
        0 <= i < j < records.len() ==> (#[trigger] records[i]).pkg.name != (
        #[trigger] records[j]).pkg.name
}

/// The test for a record whose name is among `names`, or is not.
pub open spec fn record_named_in(names: Seq<Seq<char>>, present: bool) -> spec_fn(
    InstalledPkgView,
) -> bool {
    |r: InstalledPkgView| names.contains(r.pkg.name) == present
}

/// The test for a record by name and owner: its name is among `names`
/// where names are given, and `bridge` owns it where a bridge is given.
pub open spec fn fits(names: Option<Seq<Seq<char>>>, bridge: Option<Seq<char>>) -> spec_fn(
    InstalledPkgView,
) -> bool {
    |r: InstalledPkgView|
        (match names {
            Some(wanted) => wanted.contains(r.pkg.name),
            None => true,
        }) && (match bridge {
            Some(owner) => r.bridge == owner,
            None => true,
        })
}

/// The packages of a list of records.
pub open spec fn pkgs_of(records: Seq<InstalledPkgView>) -> Seq<PkgView> {
    Seq::new(records.len(), |i: int| records[i].pkg)
}

/// The records whose name is among `names`, in the order of the store.
pub open spec fn selected(records: Seq<InstalledPkgView>, names: Seq<Seq<char>>) -> Seq<
    InstalledPkgView,
> {
    records.filter(fits(Some(names), None))
}

/// The records that `bridge` owns, in the order of the store.
pub open spec fn owned(records: Seq<InstalledPkgView>, bridge: Seq<char>) -> Seq<InstalledPkgView> {
    records.filter(fits(None, Some(bridge)))
}

/// The store without the records whose name is among `names`.
pub open spec fn without(records: Seq<InstalledPkgView>, names: Seq<Seq<char>>) -> Seq<
    InstalledPkgView,
> {
    records.filter(record_named_in(names, false))
}

/// The bridge that owns the record of this name, if there is such a
/// record.
pub open spec fn owner_of(records: Seq<InstalledPkgView>, name: Seq<char>) -> Option<Seq<char>> {
    let i = position(record_names(records), name);
    if 0 <= i < records.len() {
        Some(records[i].bridge)
    } else {
        None
    }
}

/// The place in `pkgs` of the first package that cannot be written for
/// want of a free name: its name is taken by a record of the store or by a
/// package before it. Where all can be written, this is `pkgs.len()`.
pub open spec fn first_taken(records: Seq<InstalledPkgView>, pkgs: Seq<PkgView>) -> int
    decreases pkgs.len(),
{
    if pkgs.len() == 0 {
        0
    } else {
        let before = first_taken(records, pkgs.drop_last());
        if before < pkgs.len() - 1 {
            before
        } else if record_names(records).contains(pkgs.last().name) || record_names(
            written(pkgs.drop_last(), Seq::empty()),
        ).contains(pkgs.last().name) {
            pkgs.len() - 1
        } else {
            pkgs.len() as int
        }
    }
}

/// The records of `pkgs`, all owned by `bridge`.
pub open spec fn written(pkgs: Seq<PkgView>, bridge: Seq<char>) -> Seq<InstalledPkgView> {
    Seq::new(pkgs.len(), |i: int| InstalledPkgView { pkg: pkgs[i], bridge: bridge })
}

/// The names of the bridges that own a record, each once, in the order in
/// which the store first names them.
pub open spec fn owners(records: Seq<InstalledPkgView>) -> Seq<Seq<char>>
    decreases records.len(),
{
    if records.len() == 0 {
        Seq::empty()
    } else {
        let before = owners(records.drop_last());
        if before.contains(records.last().bridge) {
            before
        } else {
            before.push(records.last().bridge)
        }
    }
}

/// The store that the rows of a table give when they are added to
/// `records` one by one: each row must hold a record, and its name must be
/// free.
pub open spec fn loaded_rows(rows: Seq<PkgRowView>, records: Seq<InstalledPkgView>) -> Result<
    Seq<InstalledPkgView>,
    DbErrorView,
>
    decreases rows.len(),
{
    if rows.len() == 0 {
        Ok(records)
    } else {
        match rows[0].record() {
            Err(e) => Err(DbErrorView::InvalidRow(e)),
            Ok(pkg) => if record_names(records).contains(pkg.name) {
                Err(DbErrorView::NameTaken(pkg.name))
            } else {
                loaded_rows(
                    rows.drop_first(),
                    records.push(InstalledPkgView { pkg: pkg, bridge: rows[0].bridge }),
                )
            },
        }
    }
}

impl Db {
    /// No two records have the same name.
    pub open spec fn wf(&self) -> bool {
        unique_names(self@)
    }

    /// A store without records.
    pub fn new() -> (db: Db)
        ensures
            db@ == Seq::<InstalledPkgView>::empty(),
            db.wf(),
    {
        let db = Db { records: Vec::new() };
        assert(db@ =~= Seq::empty());
        db
    }

    /// The store that holds the records of `rows`, in their order. The
    /// first row that is no record, or whose name an earlier row has, ends
    /// the loading with an error.
    pub fn from_rows(rows: &Vec<PkgRow>) -> (r: Result<Db, DbError>)
        ensures
            result_view(r) == loaded_rows(list_view(rows@), Seq::empty()),
            r matches Ok(db) ==> db.wf(),
    {
        let ghost all = list_view(rows@);
        let ghost whole = loaded_rows(all, Seq::empty());
        let mut db = Db::new();
        let mut i: usize = 0;
        assert(all.skip(0) =~= all);
        while i < rows.len()
            invariant
                i <= rows.len(),
                all == list_view(rows@),
                db.wf(),
                whole == loaded_rows(list_view(rows@), Seq::empty()),
                whole == loaded_rows(all.skip(i as int), db@),
            decreases rows.len() - i,
        {
            proof {
                assert(all.skip(i as int)[0] == rows@[i as int]@);
                assert(all.skip(i as int).drop_first() =~= all.skip(i + 1));
            }
            let record = match InstalledPkg::from_row(&rows[i]) {
                Err(e) => { return Err(DbError::InvalidRow(e)); },
                Ok(record) => record,
            };
            let names = db.names();
            if has_name(&names, record.pkg.name.as_str()) {
                return Err(DbError::NameTaken(copy_text(&record.pkg.name)));
            }
            let ghost before = db@;
            db.records.push(record);
            proof {
                assert(db@ =~= before.push(record@));
                assert forall|a: int, b: int| 0 <= a < b < db@.len() implies (
                #[trigger] db@[a]).pkg.name != (#[trigger] db@[b]).pkg.name by {
                    if b == before.len() {
                        assert(record_names(before)[a] == before[a].pkg.name);
                    } else {
                        assert(before[a].pkg.name != before[b].pkg.name);
                    }
                }
            }
            i += 1;
        }
        Ok(db)
    }

    /// The names of all records, in the order of the store.
    pub fn names(&self) -> (names: Vec<String>)
        ensures
            texts(names@) == record_names(self@),
    {
        let mut names: Vec<String> = Vec::new();
        let mut i: usize = 0;
        while i < self.records.len()
            invariant
                i <= self.records.len(),
                names@.len() == i,
                forall|k: int| 0 <= k < i ==> names@[k]@ == self.records@[k].pkg.name@,
            decreases self.records.len() - i,
        {
            names.push(copy_text(&self.records[i].pkg.name));
            i += 1;
        }
        assert(texts(names@) =~= record_names(self@));
        names
    }

    /// The names of the bridges that own a record, each once.
    pub fn get_bridges(&self) -> (bridges: Vec<String>)
        ensures
            texts(bridges@) == owners(self@),
    {
        let ghost all = self@;
        let mut bridges: Vec<String> = Vec::new();
        let mut i: usize = 0;
        assert(texts(bridges@) =~= Seq::empty());
        assert(all.take(0) =~= Seq::empty());
        while i < self.records.len()
            invariant
                i <= self.records.len(),
                all == self@,
                texts(bridges@) == owners(all.take(i as int)),
            decreases self.records.len() - i,
        {
            proof {
                assert(all.take(i + 1).drop_last() == all.take(i as int));
                assert(all.take(i + 1).last() == self.records@[i as int]@);
            }
            if !has_name(&bridges, self.records[i].bridge.as_str()) {
                let ghost before = texts(bridges@);
                bridges.push(copy_text(&self.records[i].bridge));
                assert(texts(bridges@) =~= before.push(self.records@[i as int].bridge@));
            }
            i += 1;
        }
        assert(all.take(i as int) == all);
        bridges
    }

    /// The bridge that owns the record named `pkg_name`, if the store holds
    /// such a record.
    pub fn get_pkg_bridge_by_name(&self, pkg_name: &str) -> (bridge: Option<String>)
        ensures
            option_view(bridge) == owner_of(self@, pkg_name@),
    {
        let names = self.names();
        let i = crate::model::position_of(&names, pkg_name);
        if i < self.records.len() {
            Some(copy_text(&self.records[i].bridge))
        } else {
            None
        }
    }

    /// Those of `pkgs` under which the store holds a record, in the order
    /// of `pkgs`.
    pub fn which_pkgs_are_installed(&self, pkgs: &Vec<String>) -> (found: Vec<String>)
        ensures
            texts(found@) == texts(pkgs@).filter(crate::model::among(record_names(self@), true)),
    {
        let names = self.names();
        crate::model::pick(pkgs, &names, true)
    }

    /// Those of `pkgs` under which the store holds no record, in the order
    /// of `pkgs`.
    pub fn which_pkgs_are_not_installed(&self, pkgs: &Vec<String>) -> (missing: Vec<String>)
        ensures
            texts(missing@) == texts(pkgs@).filter(crate::model::among(record_names(self@), false)),
    {
        let names = self.names();
        crate::model::pick(pkgs, &names, false)
    }

    /// Writes the records of `pkgs` for `bridge`, one by one and in order.
    /// The first package whose name is taken ends the writing with an
    /// error that names it; the records written before it stay.
    pub fn install_bridge_pkgs(&mut self, pkgs: &Vec<Pkg>, bridge: &str) -> (r: Result<(), DbError>)
        requires
            old(self).wf(),
        ensures
            final(self).wf(),
            ({
                let n = first_taken(old(self)@, list_view(pkgs@));
                &&& 0 <= n <= pkgs@.len()
                &&& final(self)@ == old(self)@ + written(list_view(pkgs@), bridge@).take(n)
                &&& r is Ok == (n == pkgs@.len())
                &&& r matches Err(e) ==> e@ == DbErrorView::NameTaken(pkgs@[n]@.name)
            }),
    {
        let ghost start = self@;
        let ghost all = list_view(pkgs@);
        let ghost records = written(all, bridge@);
        let mut i: usize = 0;
        proof {
            assert(start + records.take(0) =~= start);
            assert(all.take(0) =~= Seq::empty());
        }
        while i < pkgs.len()
            invariant
                i <= pkgs.len(),
                start == old(self)@,
                unique_names(start),
                all == list_view(pkgs@),
                records == written(all, bridge@),
                self.wf(),
                self@ == start + records.take(i as int),
                first_taken(start, all.take(i as int)) == i,
            decreases pkgs.len() - i,
        {
            let names = self.names();
            let taken = has_name(&names, pkgs[i].name.as_str());
            proof {
                assert(all.take(i + 1).drop_last() == all.take(i as int));
                assert(all.take(i + 1).last() == all[i as int]);
                lemma_names_of_sum(start, all.take(i as int), bridge@, all[i as int].name);
                assert(written(all.take(i as int), bridge@) =~= records.take(i as int));
            }
            if taken {
                proof {
                    lemma_first_taken_stays(start, all, i as int, i as int + 1);
                }
                return Err(DbError::NameTaken(copy_text(&pkgs[i].name)));
            }
            let ghost before = self@;
            let record = InstalledPkg { pkg: pkgs[i].duplicate(), bridge: bridge.to_owned() };
            self.records.push(record);
            proof {
                assert(self@ =~= before.push(records[i as int]));
                assert(records.take(i + 1) =~= records.take(i as int).push(records[i as int]));
                assert(self@ =~= start + records.take(i + 1));
                assert forall|a: int, b: int| 0 <= a < b < self@.len() implies (
                #[trigger] self@[a]).pkg.name != (#[trigger] self@[b]).pkg.name by {
                    if b == before.len() {
                        assert(record_names(before)[a] == before[a].pkg.name);
                    } else {
                        assert(before[a].pkg.name != before[b].pkg.name);
                    }
                }
            }
            i += 1;
        }
        proof {
            assert(all.take(i as int) == all);
        }
        Ok(())
    }

    /// Deletes the records whose name is among `pkgs_names`. The others
    /// stay, in their order.
    pub fn remove_pkgs(&mut self, pkgs_names: &Vec<String>)
        requires
            old(self).wf(),
        ensures
            final(self).wf(),
            final(self)@ == without(old(self)@, texts(pkgs_names@)),
    {
        let ghost all = self@;
        let ghost test = record_named_in(texts(pkgs_names@), false);
        let mut kept: Vec<InstalledPkg> = Vec::new();
        let mut i: usize = 0;
        proof {
            reveal(Seq::filter);
            assert(all.take(0).filter(test) =~= Seq::empty());
            assert(record_views(kept@) =~= Seq::empty());
        }
        while i < self.records.len()
            invariant
                i <= self.records.len(),
                all == self@,
                test == record_named_in(texts(pkgs_names@), false),
                record_views(kept@) == all.take(i as int).filter(test),
            decreases self.records.len() - i,
        {
            proof {
                assert(all.take(i + 1) == all.take(i as int).push(all[i as int]));
                all.take(i as int).lemma_filter_push(all[i as int], test);
            }
            if !has_name(pkgs_names, self.records[i].pkg.name.as_str()) {
                let ghost before = record_views(kept@);
                kept.push(
                    InstalledPkg {
                        pkg: self.records[i].pkg.duplicate(),
                        bridge: copy_text(&self.records[i].bridge),
                    },
                );
                assert(record_views(kept@) == before.push(all[i as int]));
            }
            i += 1;
        }
        proof {
            assert(all.take(i as int) == all);
            lemma_filter_keeps_unique(all, test);
        }
        self.records = kept;
    }

    /// The packages of all records, in the order of the store.
    pub fn get_pkgs(&self) -> (pkgs: Vec<Pkg>)
        ensures
            list_view(pkgs@) == pkgs_of(self@),
    {
        let mut pkgs: Vec<Pkg> = Vec::new();
        let mut i: usize = 0;
        while i < self.records.len()
            invariant
                i <= self.records.len(),
                pkgs@.len() == i,
                forall|k: int| 0 <= k < i ==> pkgs@[k]@ == self.records@[k].pkg@,
            decreases self.records.len() - i,
        {
            pkgs.push(self.records[i].pkg.duplicate());
            i += 1;
        }
        assert(list_view(pkgs@) =~= pkgs_of(self@));
        pkgs
    }

    /// The packages of the records whose name is among `names`, where
    /// names are given, and which `bridge` owns, where a bridge is given.
    fn get_where(&self, names: Option<&Vec<String>>, bridge: Option<&str>) -> (pkgs: Vec<Pkg>)
        ensures
            list_view(pkgs@) == pkgs_of(
                self@.filter(
                    fits(
                        match names {
                            Some(wanted) => Some(texts(wanted@)),
                            None => None,
                        },
                        match bridge {
                            Some(owner) => Some(owner@),
                            None => None,
                        },
                    ),
                ),
            ),
    {
        let ghost all = self@;
        let ghost test = fits(
            match names {
                Some(wanted) => Some(texts(wanted@)),
                None => None,
            },
            match bridge {
                Some(owner) => Some(owner@),
                None => None,
            },
        );
        let owner = match bridge {
            Some(owner) => Some(owner.to_owned()),
            None => None,
        };
        let mut pkgs: Vec<Pkg> = Vec::new();
        let mut i: usize = 0;
        proof {
            reveal(Seq::filter);
            assert(all.take(0).filter(test) =~= Seq::empty());
            assert(list_view(pkgs@) =~= pkgs_of(Seq::empty()));
        }
        while i < self.records.len()
            invariant
                i <= self.records.len(),
                all == self@,
                test == fits(
                    match names {
                        Some(wanted) => Some(texts(wanted@)),
                        None => None,
                    },
                    match bridge {
                        Some(owner) => Some(owner@),
                        None => None,
                    },
                ),
                option_view(owner) == (match bridge {
                    Some(owner) => Some(owner@),
                    None => None,
                }),
                list_view(pkgs@) == pkgs_of(all.take(i as int).filter(test)),
            decreases self.records.len() - i,
        {
            proof {
                assert(all.take(i + 1) == all.take(i as int).push(all[i as int]));
                all.take(i as int).lemma_filter_push(all[i as int], test);
            }
            let name_fits = match names {
                Some(wanted) => has_name(wanted, self.records[i].pkg.name.as_str()),
                None => true,
            };
            let owner_fits = match &owner {
                Some(owner) => self.records[i].bridge == *owner,
                None => true,
            };
            if name_fits && owner_fits {
                let ghost before = list_view(pkgs@);
                pkgs.push(self.records[i].pkg.duplicate());
                proof {
                    assert(list_view(pkgs@) =~= before.push(all[i as int].pkg));
                    assert(pkgs_of(all.take(i as int).filter(test).push(all[i as int]))
                        =~= pkgs_of(all.take(i as int).filter(test)).push(all[i as int].pkg));
                }
            }
            i += 1;
        }
        assert(all.take(i as int) == all);
        pkgs
    }

    /// The packages whose name is among `pkg_names`, in the order of the
    /// store.
    pub fn get_pkgs_by_name(&self, pkg_names: &Vec<String>) -> (pkgs: Vec<Pkg>)
        ensures
            list_view(pkgs@) == pkgs_of(selected(self@, texts(pkg_names@))),
    {
        self.get_where(Some(pkg_names), None)
    }

    /// The packages that the bridge named `bridge_name` owns, in the order
    /// of the store.
    pub fn get_pkgs_by_bridge(&self, bridge_name: &str) -> (pkgs: Vec<Pkg>)
        ensures
            list_view(pkgs@) == pkgs_of(owned(self@, bridge_name@)),
    {
        self.get_where(None, Some(bridge_name))
    }
}

/// The names of a store to which records of `pkgs` were added are the
/// names of the store and the names of `pkgs`.
pub proof fn lemma_names_of_sum(
    records: Seq<InstalledPkgView>,
    pkgs: Seq<PkgView>,
    bridge: Seq<char>,
    name: Seq<char>,
)
    ensures
        record_names(records + written(pkgs, bridge)).contains(name) <==> record_names(
            records,
        ).contains(name) || record_names(written(pkgs, Seq::empty())).contains(name),
{
    let sum = records + written(pkgs, bridge);
    let plain = written(pkgs, Seq::empty());
    if record_names(sum).contains(name) {
        let i = choose|i: int| 0 <= i < sum.len() && record_names(sum)[i] == name;
        if i < records.len() {
            assert(record_names(records)[i] == name);
        } else {
            assert(record_names(plain)[i - records.len()] == name);
        }
    }
    if record_names(records).contains(name) {
        let i = choose|i: int| 0 <= i < records.len() && record_names(records)[i] == name;
        assert(record_names(sum)[i] == name);
    }
    if record_names(plain).contains(name) {
        let i = choose|i: int| 0 <= i < plain.len() && record_names(plain)[i] == name;
        assert(record_names(sum)[records.len() + i] == name);
    }
}

/// Once a package cannot be written, it stays the first that cannot,
/// however many follow.
pub proof fn lemma_first_taken_stays(
    records: Seq<InstalledPkgView>,
    pkgs: Seq<PkgView>,
    m: int,
    n: int,
)
    requires
        0 <= m < n <= pkgs.len(),
        first_taken(records, pkgs.take(n)) == m,
    ensures
        first_taken(records, pkgs) == m,
    decreases pkgs.len() - n,
{
    if n < pkgs.len() {
        assert(pkgs.take(n + 1).drop_last() == pkgs.take(n));
        lemma_first_taken_stays(records, pkgs, m, n + 1);
    } else {
        assert(pkgs.take(n) == pkgs);
    }
}

/// What passes a test out of records with unique names has unique names.
pub proof fn lemma_filter_keeps_unique(
    records: Seq<InstalledPkgView>,
    test: spec_fn(InstalledPkgView) -> bool,
)
    requires
        unique_names(records),
    ensures
        unique_names(records.filter(test)),
    decreases records.len(),
{
    reveal(Seq::filter);
    if records.len() > 0 {
        let front = records.drop_last();
        assert forall|i: int, j: int| 0 <= i < j < front.len() implies (
        #[trigger] front[i]).pkg.name != (#[trigger] front[j]).pkg.name by {
            assert(front[i] == records[i] && front[j] == records[j]);
        }
        lemma_filter_keeps_unique(front, test);
        let kept = front.filter(test);
        if test(records.last()) {
            let all = kept.push(records.last());
            assert forall|i: int, j: int| 0 <= i < j < all.len() implies (
            #[trigger] all[i]).pkg.name != (#[trigger] all[j]).pkg.name by {
                if j == kept.len() {
                    assert(kept.contains(kept[i]));
                    front.lemma_filter_contains_rev(test, kept[i]);
                    let k = choose|k: int| 0 <= k < front.len() && front[k] == kept[i];
                    assert(records[k] == kept[i]);
                } else {
                    assert(kept[i].pkg.name != kept[j].pkg.name);
                }
            }
        }
    }
}

/// A record that was written can be read back: after a package is written
/// under a free name, asking for that name gives exactly that package, the
/// bridge it was written for owns it, and every other record is as it was.
pub proof fn lemma_write_then_read(records: Seq<InstalledPkgView>, pkg: PkgView, bridge: Seq<char>)
    requires
        unique_names(records),
        !record_names(records).contains(pkg.name),
    ensures
        first_taken(records, seq![pkg]) == 1,
        ({
            let after = records + written(seq![pkg], bridge).take(1);
            &&& unique_names(after)
            &&& pkgs_of(selected(after, seq![pkg.name])) == seq![pkg]
            &&& owner_of(after, pkg.name) == Some(bridge)
            &&& forall|name: Seq<char>|
                name != pkg.name ==> #[trigger] selected(after, seq![name]) == selected(
                    records,
                    seq![name],
                )
        }),
{
    let single = seq![pkg];
    assert(single.drop_last() =~= Seq::<PkgView>::empty());
    assert(record_names(written(single.drop_last(), Seq::empty())) =~= Seq::<Seq<char>>::empty());
    assert(first_taken(records, single.drop_last()) == 0);
    let record = InstalledPkgView { pkg: pkg, bridge: bridge };
    let after = records + written(single, bridge).take(1);
    assert(after =~= records.push(record));
    assert forall|i: int, j: int| 0 <= i < j < after.len() implies (#[trigger] after[i]).pkg.name
        != (#[trigger] after[j]).pkg.name by {
        if j == records.len() {
            assert(record_names(records)[i] == records[i].pkg.name);
        } else {
            assert(records[i].pkg.name != records[j].pkg.name);
        }
    }
    let wanted = fits(Some(seq![pkg.name]), None);
    assert(seq![pkg.name][0] == pkg.name);
    records.lemma_filter_push(record, wanted);
    assert(records.filter(wanted) =~= Seq::<InstalledPkgView>::empty()) by {
        if records.filter(wanted).len() > 0 {
            let r = records.filter(wanted)[0];
            records.lemma_filter_pred(wanted, 0);
            assert(records.filter(wanted).contains(r));
            records.lemma_filter_contains_rev(wanted, r);
            let k = choose|k: int| 0 <= k < records.len() && records[k] == r;
            assert(record_names(records)[k] == r.pkg.name);
            let m = choose|m: int| 0 <= m < 1 && seq![pkg.name][m] == r.pkg.name;
        }
    }
    assert(pkgs_of(selected(after, seq![pkg.name])) =~= seq![pkg]);
    assert forall|i: int| 0 <= i < records.len() implies record_names(after)[i] != pkg.name by {
        assert(record_names(records)[i] == records[i].pkg.name);
    }
    assert(record_names(after)[records.len() as int] == pkg.name);
    lemma_position(record_names(after), pkg.name, records.len() as int);
    assert forall|name: Seq<char>| name != pkg.name implies #[trigger] selected(after, seq![name])
        == selected(records, seq![name]) by {
        let other = fits(Some(seq![name]), None);
        records.lemma_filter_push(record, other);
        if seq![name].contains(pkg.name) {
            let m = choose|m: int| 0 <= m < 1 && seq![name][m] == pkg.name;
        }
    }
}

/// A record that was deleted is gone, and every other record is as it
/// was.
pub proof fn lemma_delete_then_read(records: Seq<InstalledPkgView>, name: Seq<char>)
    ensures
        !record_names(without(records, seq![name])).contains(name),
        selected(without(records, seq![name]), seq![name]) == Seq::<InstalledPkgView>::empty(),
        forall|k: int|
            0 <= k < records.len() && (#[trigger] records[k]).pkg.name != name ==> without(
                records,
                seq![name],
            ).contains(records[k]),
{
    let gone = record_named_in(seq![name], false);
    let rest = without(records, seq![name]);
    assert(seq![name][0] == name);
    if record_names(rest).contains(name) {
        let i = choose|i: int| 0 <= i < rest.len() && record_names(rest)[i] == name;
        records.lemma_filter_pred(gone, i);
    }
    let wanted = fits(Some(seq![name]), None);
    if rest.filter(wanted).len() > 0 {
        let r = rest.filter(wanted)[0];
        rest.lemma_filter_pred(wanted, 0);
        assert(rest.filter(wanted).contains(r));
        rest.lemma_filter_contains_rev(wanted, r);
        let k = choose|k: int| 0 <= k < rest.len() && rest[k] == r;
        records.lemma_filter_pred(gone, k);
    }
    assert(rest.filter(wanted) =~= Seq::<InstalledPkgView>::empty());
    assert forall|k: int| 0 <= k < records.len() && (#[trigger] records[k]).pkg.name
        != name implies rest.contains(records[k]) by {
        if seq![name].contains(records[k].pkg.name) {
            let m = choose|m: int| 0 <= m < 1 && seq![name][m] == records[k].pkg.name;
        }
        records.lemma_filter_contains(gone, k);
    }
}

} // verus!
