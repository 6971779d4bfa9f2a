//! The bridge protocol: how a plugin is found, how it is called for one
//! package and one operation, and how what it printed is read.
//!
//! Nothing here touches the file system, the environment or a process. The
//! caller does that work and hands back what happened.
use crate::db::{PkgType, PkgTypeView, Version, VersionView};
use crate::input::{AttributeValue, AttributeValueView};
use crate::model::{has_name, lemma_position, list_view, option_view, position, result_view, texts};
use crate::text::{
    copy_text, decimal, decimal_nat, decimal_u128, first_line, first_line_in, from_chars,
    lemma_decimal_nat_injective, lemma_decimal_nat_shape, same_text, split, split_in, to_chars,
    trim, trim_in,
};
use vstd::prelude::*;
use vstd::string::*;
use vstd::utf8::{decode_utf8, encode_utf8, valid_utf8};

verus! {

/// What a bridge is asked to do with a package.
#[derive(Debug, Clone, Copy, PartialEq, Eq, Structural)]
pub enum Operation {
    Install,
    Update,
    Remove,
}

impl Operation {
    /// The word that is handed to the bridge as its first argument.
    pub open spec fn word(self) -> Seq<char> {
        match self {
            Operation::Install => "install"@,
            Operation::Update => "update"@,
            Operation::Remove => "remove"@,
        }
    }

    /// The word that is handed to the bridge as its first argument.
    pub fn display(&self) -> (s: String)
        ensures
            s@ == self.word(),
    {
        match self {
            Operation::Install => "install".to_string(),
            Operation::Update => "update".to_string(),
            Operation::Remove => "remove".to_string(),
        }
    }
}

/// What went wrong while a bridge was looked up or called.
#[derive(Debug, Clone, PartialEq, Eq)]
pub enum BridgeApiError {
    IoError(String),
    BridgeNotFound(String),
    BridgeSetNotFound(String),
    BridgeSetPathAreNotADirectory(String),
    BridgeError(String),
    BridgeEntryPointNotExecutable(String),
    BridgeWrongOutput(String),
    BridgeFailedAtRuntime(String),
    BridgeWrongVersionFormat(String),
    BridgeNotValid(String),
    BridgeNotValidEntryPoint(String),
}

pub enum BridgeApiErrorView {
    IoError(Seq<char>),
    BridgeNotFound(Seq<char>),
    BridgeSetNotFound(Seq<char>),
    BridgeSetPathAreNotADirectory(Seq<char>),
    BridgeError(Seq<char>),
    BridgeEntryPointNotExecutable(Seq<char>),
    BridgeWrongOutput(Seq<char>),
    BridgeFailedAtRuntime(Seq<char>),
    BridgeWrongVersionFormat(Seq<char>),
    BridgeNotValid(Seq<char>),
    BridgeNotValidEntryPoint(Seq<char>),
}

impl View for BridgeApiError {
    type V = BridgeApiErrorView;

    open spec fn view(&self) -> BridgeApiErrorView {
        match self {
            BridgeApiError::IoError(s) => BridgeApiErrorView::IoError(s@),
            BridgeApiError::BridgeNotFound(s) => BridgeApiErrorView::BridgeNotFound(s@),
            BridgeApiError::BridgeSetNotFound(s) => BridgeApiErrorView::BridgeSetNotFound(s@),
            BridgeApiError::BridgeSetPathAreNotADirectory(s) =>
                BridgeApiErrorView::BridgeSetPathAreNotADirectory(s@),
            BridgeApiError::BridgeError(s) => BridgeApiErrorView::BridgeError(s@),
            BridgeApiError::BridgeEntryPointNotExecutable(s) =>
                BridgeApiErrorView::BridgeEntryPointNotExecutable(s@),
            BridgeApiError::BridgeWrongOutput(s) => BridgeApiErrorView::BridgeWrongOutput(s@),
            BridgeApiError::BridgeFailedAtRuntime(s) => BridgeApiErrorView::BridgeFailedAtRuntime(
                s@,
            ),
            BridgeApiError::BridgeWrongVersionFormat(s) =>
                BridgeApiErrorView::BridgeWrongVersionFormat(s@),
            BridgeApiError::BridgeNotValid(s) => BridgeApiErrorView::BridgeNotValid(s@),
            BridgeApiError::BridgeNotValidEntryPoint(s) =>
                BridgeApiErrorView::BridgeNotValidEntryPoint(s@),
        }
    }
}

impl BridgeApiErrorView {
    /// The words that introduce the error's text when it is shown.
    pub open spec fn heading(self) -> Seq<char> {
        match self {
            BridgeApiErrorView::IoError(_) => Seq::empty(),
            BridgeApiErrorView::BridgeNotFound(_) => "Bridge not found: "@,
            BridgeApiErrorView::BridgeSetNotFound(_) => "Bridge set not found: "@,
            BridgeApiErrorView::BridgeSetPathAreNotADirectory(_) => "Bridge set not found: "@,
            BridgeApiErrorView::BridgeError(_) => "Bridge returned an error: "@,
            BridgeApiErrorView::BridgeEntryPointNotExecutable(_) =>
                "Bridge entry point is not executable: "@,
            BridgeApiErrorView::BridgeWrongOutput(_) => "Bridge returned a wrong output: "@,
            BridgeApiErrorView::BridgeFailedAtRuntime(_) => "Bridge failed at runtime, error: "@,
            BridgeApiErrorView::BridgeWrongVersionFormat(_) =>
                "Bridge returned a wrong version format: "@,
            BridgeApiErrorView::BridgeNotValid(_) => "Bridge returned not valid path: "@,
            BridgeApiErrorView::BridgeNotValidEntryPoint(_) =>
                "Bridge returned not valid entry point: "@,
        }
    }

    /// The text that the error carries: a path, a name or a message.
    pub open spec fn detail(self) -> Seq<char> {
        match self {
            BridgeApiErrorView::IoError(s) => s,
            BridgeApiErrorView::BridgeNotFound(s) => s,
            BridgeApiErrorView::BridgeSetNotFound(s) => s,
            BridgeApiErrorView::BridgeSetPathAreNotADirectory(s) => s,
            BridgeApiErrorView::BridgeError(s) => s,
            BridgeApiErrorView::BridgeEntryPointNotExecutable(s) => s,
            BridgeApiErrorView::BridgeWrongOutput(s) => s,
            BridgeApiErrorView::BridgeFailedAtRuntime(s) => s,
            BridgeApiErrorView::BridgeWrongVersionFormat(s) => s,
            BridgeApiErrorView::BridgeNotValid(s) => s,
            BridgeApiErrorView::BridgeNotValidEntryPoint(s) => s,
        }
    }
}

impl BridgeApiError {
    /// The error as one line of text: its heading, then what it carries.
    pub fn message(&self) -> (s: String)
        ensures
            s@ == self@.heading() + self@.detail(),
    {
        let (heading, detail) = match self {
            BridgeApiError::IoError(s) => ("", s),
            BridgeApiError::BridgeNotFound(s) => ("Bridge not found: ", s),
            BridgeApiError::BridgeSetNotFound(s) => ("Bridge set not found: ", s),
            BridgeApiError::BridgeSetPathAreNotADirectory(s) => ("Bridge set not found: ", s),
            BridgeApiError::BridgeError(s) => ("Bridge returned an error: ", s),
            BridgeApiError::BridgeEntryPointNotExecutable(s) => (
                "Bridge entry point is not executable: ",
                s,
            ),
            BridgeApiError::BridgeWrongOutput(s) => ("Bridge returned a wrong output: ", s),
            BridgeApiError::BridgeFailedAtRuntime(s) => ("Bridge failed at runtime, error: ", s),
            BridgeApiError::BridgeWrongVersionFormat(s) => (
                "Bridge returned a wrong version format: ",
                s,
            ),
            BridgeApiError::BridgeNotValid(s) => ("Bridge returned not valid path: ", s),
            BridgeApiError::BridgeNotValidEntryPoint(s) => (
                "Bridge returned not valid entry point: ",
                s,
            ),
        };
        proof {
            reveal_strlit("");
            assert(""@ =~= Seq::<char>::empty());
        }
        let mut text = heading.to_string();
        text.append(detail.as_str());
        text
    }
}

/// What a bridge printed on success: where the package is, which version it
/// has and how it is laid out.
#[derive(Debug, Clone, PartialEq, Eq)]
pub struct BridgeOutput {
    pub version: Version,
    pub pkg_path: String,
    pub pkg_type: PkgType,
}

pub struct BridgeOutputView {
    pub version: VersionView,
    pub pkg_path: Seq<char>,
    pub pkg_type: PkgTypeView,
}

impl View for BridgeOutput {
    type V = BridgeOutputView;

    open spec fn view(&self) -> BridgeOutputView {
        BridgeOutputView {
            version: self.version@,
            pkg_path: self.pkg_path@,
            pkg_type: self.pkg_type@,
        }
    }
}

/// What is left of a bridge process once it has ended: the exit code, if it
/// ended by itself, and all it wrote to its two streams.
#[derive(Debug, Clone, PartialEq, Eq)]
pub struct ProcessOutput {
    pub code: Option<i32>,
    pub stdout: Vec<u8>,
    pub stderr: Vec<u8>,
}

pub struct ProcessOutputView {
    pub code: Option<i32>,
    pub stdout: Seq<u8>,
    pub stderr: Seq<u8>,
}

impl View for ProcessOutput {
    type V = ProcessOutputView;

    open spec fn view(&self) -> ProcessOutputView {
        ProcessOutputView { code: self.code, stdout: self.stdout@, stderr: self.stderr@ }
    }
}

impl ProcessOutput {
    /// The process ended by itself with exit code 0.
    pub open spec fn succeeded(self) -> bool {
        self.code == Some(0i32)
    }

    /// The process ended by itself with exit code 0.
    pub fn success(&self) -> (b: bool)
        ensures
            b == self.succeeded(),
    {
        match self.code {
            Some(code) => code == 0,
            None => false,
        }
    }
}

/// `String::from_utf8` gives the text that the bytes encode when they are
/// valid UTF-8, and refuses them otherwise.
#[verifier::external_body]
pub(crate) fn utf8_text(bytes: &Vec<u8>) -> (r: Option<String>)
    ensures
        r is Some == valid_utf8(bytes@),
        r matches Some(s) ==> s@ == decode_utf8(bytes@),
{
    String::from_utf8(bytes.clone()).ok()
}

/// A path is absolute when it starts at the root.
pub open spec fn is_absolute(path: Seq<char>) -> bool {
    path.len() > 0 && path[0] == '/'
}

/// `path` as seen from the directory `cwd`: an absolute path stands for
/// itself, a relative one is put behind `cwd`, with one `/` between the two
/// unless `cwd` is empty or ends in one.
pub open spec fn resolve_path(cwd: Seq<char>, path: Seq<char>) -> Seq<char> {
    if is_absolute(path) {
        path
    } else if cwd.len() > 0 && cwd.last() != '/' {
        cwd + seq!['/'] + path
    } else {
        cwd + path
    }
}

/// The message of the error for a bridge that printed nothing.
pub open spec fn nothing_returned() -> Seq<char> {
    "Wrong bridge output, no thing is returned"@
}

/// The message of the error for output that is not valid UTF-8.
pub open spec fn not_utf8() -> Seq<char> {
    "failed to parse bridge output"@
}

/// What the first line of `text` says, read as `path,version` or
/// `path,version,entry_point`. The line is trimmed first. The version must
/// have exactly three cells. A third field makes the package a directory
/// with that entry point. Relative paths are resolved against `cwd`.
pub open spec fn parse_output_text(text: Seq<char>, cwd: Seq<char>) -> Result<
    BridgeOutputView,
    BridgeApiErrorView,
> {
    match first_line(text) {
        None => Err(BridgeApiErrorView::IoError(nothing_returned())),
        Some(line) => {
            let fields = split(trim(line), ',');
            if fields.len() < 2 || fields.len() > 3 {
                Err(BridgeApiErrorView::BridgeWrongOutput(text))
            } else {
                match VersionView::parse(fields[1]) {
                    None => Err(BridgeApiErrorView::BridgeWrongVersionFormat(fields[1])),
                    Some(version) => Ok(
                        BridgeOutputView {
                            version: version,
                            pkg_path: resolve_path(cwd, fields[0]),
                            pkg_type: if fields.len() == 3 {
                                PkgTypeView::Directory(resolve_path(cwd, fields[2]))
                            } else {
                                PkgTypeView::SingleExecutable
                            },
                        },
                    ),
                }
            }
        },
    }
}

/// The version that a bridge printed has no dot in any cell: a record made
/// of it can be written to its row and read back.
pub proof fn lemma_printed_version_is_wf(text: Seq<char>, cwd: Seq<char>)
    requires
        parse_output_text(text, cwd) is Ok,
    ensures
        parse_output_text(text, cwd)->Ok_0.version.wf(),
{
    let line = first_line(text)->0;
    let fields = split(trim(line), ',');
    crate::db::lemma_version_parse_text(fields[1]);
}

/// The text of a stream, or a fixed message where the stream is not valid
/// UTF-8.
pub open spec fn stream_text(bytes: Seq<u8>) -> Seq<char> {
    if valid_utf8(bytes) {
        decode_utf8(bytes)
    } else {
        not_utf8()
    }
}

/// What a bridge process that was asked to install or update has to say:
/// after a failure, an error with what it wrote to stderr; after success,
/// what its first line of stdout says.
pub open spec fn parse_output(
    code: Option<i32>,
    stdout: Seq<u8>,
    stderr: Seq<u8>,
    cwd: Seq<char>,
) -> Result<BridgeOutputView, BridgeApiErrorView> {
    if code != Some(0i32) {
        Err(BridgeApiErrorView::BridgeError(stream_text(stderr)))
    } else if !valid_utf8(stdout) {
        Err(BridgeApiErrorView::IoError(not_utf8()))
    } else {
        parse_output_text(decode_utf8(stdout), cwd)
    }
}

/// `path` as seen from the directory `cwd`.
pub fn resolve(cwd: &str, path: &str) -> (s: String)
    ensures
        s@ == resolve_path(cwd@, path@),
{
    let p = to_chars(path);
    if p.len() > 0 && p[0] == '/' {
        return path.to_owned();
    }
    let c = to_chars(cwd);
    let mut s = cwd.to_owned();
    if c.len() > 0 && c[c.len() - 1] != '/' {
        s.push('/');
    }
    s.append(path);
    s
}

/// The text of a stream, or a fixed message where the stream is not valid
/// UTF-8.
pub fn read_stream(bytes: &Vec<u8>) -> (s: String)
    ensures
        s@ == stream_text(bytes@),
{
    match utf8_text(bytes) {
        Some(s) => s,
        None => "failed to parse bridge output".to_string(),
    }
}

/// Reads the first line of `text` as `path,version[,entry_point]`.
pub fn parse_text(text: &str, cwd: &str) -> (r: Result<BridgeOutput, BridgeApiError>)
    ensures
        result_view(r) == parse_output_text(text@, cwd@),
{
    let chars = to_chars(text);
    let (_, end) = match first_line_in(&chars) {
        None => {
            return Err(
                BridgeApiError::IoError("Wrong bridge output, no thing is returned".to_string()),
            );
        },
        Some(bounds) => bounds,
    };
    let (lo, hi) = trim_in(&chars, 0, end);
    let fields = split_in(&chars, lo, hi, ',');
    if fields.len() < 2 || fields.len() > 3 {
        return Err(BridgeApiError::BridgeWrongOutput(text.to_owned()));
    }
    let version = match Version::parse_in(&chars, fields[1].0, fields[1].1) {
        None => {
            return Err(
                BridgeApiError::BridgeWrongVersionFormat(
                    from_chars(&chars, fields[1].0, fields[1].1),
                ),
            );
        },
        Some(version) => version,
    };
    let path = from_chars(&chars, fields[0].0, fields[0].1);
    let pkg_type = if fields.len() == 3 {
        let entry_point = from_chars(&chars, fields[2].0, fields[2].1);
        PkgType::Directory(resolve(cwd, entry_point.as_str()))
    } else {
        PkgType::SingleExecutable
    };
    Ok(BridgeOutput { version, pkg_path: resolve(cwd, path.as_str()), pkg_type })
}

/// Reads what a bridge process left behind after an install or an update.
/// The paths in the result are not yet known to exist: see `check_paths`.
pub fn parse_bridge_output(output: &ProcessOutput, cwd: &str) -> (r: Result<
    BridgeOutput,
    BridgeApiError,
>)
    ensures
        result_view(r) == parse_output(output.code, output.stdout@, output.stderr@, cwd@),
{
    if !output.success() {
        return Err(BridgeApiError::BridgeError(read_stream(&output.stderr)));
    }
    match utf8_text(&output.stdout) {
        None => Err(BridgeApiError::IoError("failed to parse bridge output".to_string())),
        Some(text) => parse_text(text.as_str(), cwd),
    }
}

/// What is left of parsed output once it is known which of its paths
/// exist: a package path that does not exist is refused first, then an
/// entry point that does not exist.
pub open spec fn checked_output(
    output: BridgeOutputView,
    path_exists: bool,
    entry_point_exists: bool,
) -> Result<BridgeOutputView, BridgeApiErrorView> {
    if !path_exists {
        Err(BridgeApiErrorView::BridgeNotValid(output.pkg_path))
    } else {
        match output.pkg_type {
            PkgTypeView::Directory(entry_point) if !entry_point_exists => Err(
                BridgeApiErrorView::BridgeNotValidEntryPoint(entry_point),
            ),
            _ => Ok(output),
        }
    }
}

/// Accepts parsed output whose paths exist, and says which path is missing
/// otherwise. For a single executable `entry_point_exists` is not read.
pub fn check_paths(output: BridgeOutput, path_exists: bool, entry_point_exists: bool) -> (r:
    Result<BridgeOutput, BridgeApiError>)
    ensures
        result_view(r) == checked_output(output@, path_exists, entry_point_exists),
{
    if !path_exists {
        return Err(BridgeApiError::BridgeNotValid(output.pkg_path));
    }
    if !entry_point_exists {
        if let PkgType::Directory(entry_point) = &output.pkg_type {
            return Err(BridgeApiError::BridgeNotValidEntryPoint(copy_text(entry_point)));
        }
    }
    Ok(output)
}

/// What a bridge writes to stderr, with exit code 1, to ask for the
/// built-in behaviour in place of its own.
pub open spec fn sentinel() -> Seq<char> {
    "__IMPL_DEFAULT"@
}

/// The process asked for the built-in behaviour: it ended with exit code 1
/// and its stderr, trimmed, is exactly the sentinel.
pub open spec fn asks_default(code: Option<i32>, stderr: Seq<u8>) -> bool {
    code == Some(1i32) && valid_utf8(stderr) && trim(decode_utf8(stderr)) == sentinel()
}

/// What one run of a bridge came to.
#[derive(Debug, Clone, PartialEq, Eq)]
pub enum BridgeOutcome {
    /// An install or update succeeded and printed this. Its paths are not
    /// yet known to exist.
    Success(BridgeOutput),
    /// A remove succeeded.
    Removed,
    /// The bridge leaves the operation to the built-in behaviour.
    DefaultRequested,
    /// The bridge failed, or what it printed cannot be read.
    Failure(BridgeApiError),
}

pub enum BridgeOutcomeView {
    Success(BridgeOutputView),
    Removed,
    DefaultRequested,
    Failure(BridgeApiErrorView),
}

impl View for BridgeOutcome {
    type V = BridgeOutcomeView;

    open spec fn view(&self) -> BridgeOutcomeView {
        match self {
            BridgeOutcome::Success(output) => BridgeOutcomeView::Success(output@),
            BridgeOutcome::Removed => BridgeOutcomeView::Removed,
            BridgeOutcome::DefaultRequested => BridgeOutcomeView::DefaultRequested,
            BridgeOutcome::Failure(error) => BridgeOutcomeView::Failure(error@),
        }
    }
}

/// What a finished bridge process means for `operation`.
///
/// Exit code 0 is success: a remove needs no more, an install or update
/// must have printed a line that can be read. Exit code 1 with the sentinel
/// on stderr asks for the built-in behaviour. Anything else is a failure
/// whose message is what the process wrote to stderr.
pub open spec fn outcome_of(
    operation: Operation,
    code: Option<i32>,
    stdout: Seq<u8>,
    stderr: Seq<u8>,
    cwd: Seq<char>,
) -> BridgeOutcomeView {
    if code == Some(0i32) {
        if operation == Operation::Remove {
            BridgeOutcomeView::Removed
        } else {
            match parse_output(code, stdout, stderr, cwd) {
                Ok(output) => BridgeOutcomeView::Success(output),
                Err(error) => BridgeOutcomeView::Failure(error),
            }
        }
    } else if asks_default(code, stderr) {
        BridgeOutcomeView::DefaultRequested
    } else {
        BridgeOutcomeView::Failure(BridgeApiErrorView::BridgeError(stream_text(stderr)))
    }
}

/// Whether the process asked for the built-in behaviour.
pub fn requests_default(output: &ProcessOutput) -> (b: bool)
    ensures
        b == asks_default(output.code, output.stderr@),
{
    match output.code {
        Some(code) if code == 1 => match utf8_text(&output.stderr) {
            None => false,
            Some(text) => {
                let chars = to_chars(text.as_str());
                let (lo, hi) = trim_in(&chars, 0, chars.len());
                let trimmed = from_chars(&chars, lo, hi);
                assert(chars@.subrange(0, chars.len() as int) == chars@);
                same_text(trimmed.as_str(), "__IMPL_DEFAULT")
            },
        },
        _ => false,
    }
}

/// What a finished bridge process means for `operation`, with `cwd` the
/// directory against which relative paths in its output are resolved.
pub fn interpret(operation: Operation, output: &ProcessOutput, cwd: &str) -> (r: BridgeOutcome)
    ensures
        r@ == outcome_of(operation, output.code, output.stdout@, output.stderr@, cwd@),
{
    if output.success() {
        match operation {
            Operation::Remove => BridgeOutcome::Removed,
            _ => match parse_bridge_output(output, cwd) {
                Ok(parsed) => BridgeOutcome::Success(parsed),
                Err(error) => BridgeOutcome::Failure(error),
            },
        }
    } else if requests_default(output) {
        BridgeOutcome::DefaultRequested
    } else {
        BridgeOutcome::Failure(BridgeApiError::BridgeError(read_stream(&output.stderr)))
    }
}

/// A plugin that is ready to be called: its name and the program that
/// speaks the protocol.
#[derive(Debug, Clone, PartialEq, Eq)]
pub struct Bridge {
    pub name: String,
    pub entry_point: String,
}

pub struct BridgeView {
    pub name: Seq<char>,
    pub entry_point: Seq<char>,
}

impl View for Bridge {
    type V = BridgeView;

    open spec fn view(&self) -> BridgeView {
        BridgeView { name: self.name@, entry_point: self.entry_point@ }
    }
}

/// A subdirectory of the bridge set that holds a file named `run`: the
/// directory's name, the path of that file and its permission bits.
#[derive(Debug, Clone, PartialEq, Eq)]
pub struct BridgeCandidate {
    pub name: String,
    pub entry_point: String,
    pub mode: u32,
}

pub struct BridgeCandidateView {
    pub name: Seq<char>,
    pub entry_point: Seq<char>,
    pub mode: u32,
}

impl View for BridgeCandidate {
    type V = BridgeCandidateView;

    open spec fn view(&self) -> BridgeCandidateView {
        BridgeCandidateView { name: self.name@, entry_point: self.entry_point@, mode: self.mode }
    }
}

/// What was found at the path of the bridge set.
#[derive(Debug, Clone, PartialEq, Eq)]
pub enum BridgeSet {
    /// Nothing is there.
    Missing,
    /// Something is there, but no directory.
    NotADirectory,
    /// A directory, with its candidates in the order of the scan.
    Directory(Vec<BridgeCandidate>),
}

/// Any of the three execute bits is set.
pub open spec fn executable(mode: u32) -> bool {
    mode & 0o111 != 0
}

/// The name under which a bridge keeps its program.
pub const BRIDGE_ENTRY_POINT_NAME: &'static str = "run";

/// The bridges that a scan admits. Candidates are taken in order. One whose
/// name is not needed is passed over, whatever its permissions. A needed
/// one without an execute bit ends the scan with an error that names its
/// entry point.
pub open spec fn admitted(candidates: Seq<BridgeCandidateView>, needed: Seq<Seq<char>>) -> Result<
    Seq<BridgeView>,
    BridgeApiErrorView,
>
    decreases candidates.len(),
{
    if candidates.len() == 0 {
        Ok(Seq::empty())
    } else {
        match admitted(candidates.drop_last(), needed) {
            Err(error) => Err(error),
            Ok(bridges) => {
                let last = candidates.last();
                if !needed.contains(last.name) {
                    Ok(bridges)
                } else if !executable(last.mode) {
                    Err(BridgeApiErrorView::BridgeEntryPointNotExecutable(last.entry_point))
                } else {
                    Ok(bridges.push(BridgeView { name: last.name, entry_point: last.entry_point }))
                }
            },
        }
    }
}

/// The names of a list of bridges.
pub open spec fn bridge_names(bridges: Seq<BridgeView>) -> Seq<Seq<char>> {
    Seq::new(bridges.len(), |i: int| bridges[i].name)
}

/// The position in `needed` of the first name that no bridge has, or
/// `needed.len()` when every needed bridge is there.
pub open spec fn first_missing(needed: Seq<Seq<char>>, names: Seq<Seq<char>>) -> int
    decreases needed.len(),
{
    if needed.len() == 0 || !names.contains(needed[0]) {
        0
    } else {
        1 + first_missing(needed.drop_first(), names)
    }
}

/// `first_missing` is the one position before which every needed name is
/// there and which is either the end of `needed` or a name that is not.
pub proof fn lemma_first_missing(needed: Seq<Seq<char>>, names: Seq<Seq<char>>, i: int)
    requires
        0 <= i <= needed.len(),
        forall|j: int| 0 <= j < i ==> names.contains(needed[j]),
        i < needed.len() ==> !names.contains(needed[i]),
    ensures
        first_missing(needed, names) == i,
    decreases needed.len(),
{
    if needed.len() == 0 || !names.contains(needed[0]) {
    } else {
        let rest = needed.drop_first();
        assert forall|j: int| 0 <= j < i - 1 implies names.contains(rest[j]) by {
            assert(rest[j] == needed[j + 1]);
        }
        lemma_first_missing(rest, names, i - 1);
    }
}

/// The bridges of a run: the admitted candidates, provided that every
/// needed name is among them. Where several are missing, the error names
/// the one that comes first in `needed`.
pub open spec fn loaded(candidates: Seq<BridgeCandidateView>, needed: Seq<Seq<char>>) -> Result<
    Seq<BridgeView>,
    BridgeApiErrorView,
> {
    match admitted(candidates, needed) {
        Err(error) => Err(error),
        Ok(bridges) => {
            let i = first_missing(needed, bridge_names(bridges));
            if 0 <= i < needed.len() {
                Err(BridgeApiErrorView::BridgeNotFound(needed[i]))
            } else {
                Ok(bridges)
            }
        },
    }
}

/// What a scan of the bridge set at `path` comes to.
pub open spec fn discovered(path: Seq<char>, set: BridgeSet, needed: Seq<Seq<char>>) -> Result<
    Seq<BridgeView>,
    BridgeApiErrorView,
> {
    match set {
        BridgeSet::Missing => Err(BridgeApiErrorView::BridgeSetNotFound(path)),
        BridgeSet::NotADirectory => Err(BridgeApiErrorView::BridgeSetPathAreNotADirectory(path)),
        BridgeSet::Directory(candidates) => loaded(list_view(candidates@), needed),
    }
}

/// Whether a file with these permission bits can be run by anyone.
pub fn is_executable(mode: u32) -> (b: bool)
    ensures
        b == executable(mode),
{
    mode & 0o111 != 0
}

/// The bridges that were loaded for a run.
#[derive(Debug, Clone, PartialEq, Eq)]
pub struct BridgeApi {
    pub bridges: Vec<Bridge>,
}

impl View for BridgeApi {
    type V = Seq<BridgeView>;

    open spec fn view(&self) -> Seq<BridgeView> {
        list_view(self.bridges@)
    }
}

impl BridgeApi {
    /// Loads the bridges of a run from what was found at `bridge_set_path`.
    /// It fails where the set is missing or no directory, where a needed
    /// bridge cannot be executed, and where a needed bridge is not there.
    pub fn new(bridge_set_path: &str, set: BridgeSet, needed_bridges: &Vec<String>) -> (r: Result<
        BridgeApi,
        BridgeApiError,
    >)
        ensures
            result_view(r) == discovered(bridge_set_path@, set, texts(needed_bridges@)),
    {
        match set {
            BridgeSet::Missing => Err(
                BridgeApiError::BridgeSetNotFound(bridge_set_path.to_owned()),
            ),
            BridgeSet::NotADirectory => Err(
                BridgeApiError::BridgeSetPathAreNotADirectory(bridge_set_path.to_owned()),
            ),
            BridgeSet::Directory(candidates) => match BridgeApi::load_bridges(
                &candidates,
                needed_bridges,
            ) {
                Ok(bridges) => Ok(BridgeApi { bridges }),
                Err(error) => Err(error),
            },
        }
    }

    /// Whether a subdirectory of this name has to be looked at.
    pub fn is_needed(needed_bridges: &Vec<String>, name: &str) -> (b: bool)
        ensures
            b == texts(needed_bridges@).contains(name@),
    {
        has_name(needed_bridges, name)
    }

    /// Picks the needed bridges out of the candidates of a scan and makes
    /// sure that none is missing.
    pub fn load_bridges(candidates: &Vec<BridgeCandidate>, needed_bridges: &Vec<String>) -> (r:
        Result<Vec<Bridge>, BridgeApiError>)
        ensures
            r matches Ok(bridges) ==> Ok::<Seq<BridgeView>, BridgeApiErrorView>(
                list_view(bridges@),
            ) == loaded(list_view(candidates@), texts(needed_bridges@)),
            r matches Err(error) ==> Err::<Seq<BridgeView>, BridgeApiErrorView>(error@) == loaded(
                list_view(candidates@),
                texts(needed_bridges@),
            ),
    {
        let ghost all = list_view(candidates@);
        let ghost needed = texts(needed_bridges@);
        let mut bridges: Vec<Bridge> = Vec::new();
        let mut i: usize = 0;
        assert(list_view(bridges@) =~= Seq::empty());
        while i < candidates.len()
            invariant
                i <= candidates.len(),
                all == list_view(candidates@),
                needed == texts(needed_bridges@),
                admitted(all.take(i as int), needed) == Ok::<Seq<BridgeView>, BridgeApiErrorView>(
                    list_view(bridges@),
                ),
            decreases candidates.len() - i,
        {
            let candidate = &candidates[i];
            proof {
                assert(all.take(i + 1).drop_last() == all.take(i as int));
                assert(all.take(i + 1).last() == candidate@);
            }
            if has_name(needed_bridges, candidate.name.as_str()) {
                if !is_executable(candidate.mode) {
                    proof {
                        lemma_admitted_error(all, needed, i + 1);
                    }
                    return Err(
                        BridgeApiError::BridgeEntryPointNotExecutable(
                            copy_text(&candidate.entry_point),
                        ),
                    );
                }
                let ghost before = list_view(bridges@);
                bridges.push(
                    Bridge {
                        name: copy_text(&candidate.name),
                        entry_point: copy_text(&candidate.entry_point),
                    },
                );
                assert(list_view(bridges@) == before.push(
                    BridgeView { name: candidate.name@, entry_point: candidate.entry_point@ },
                ));
            }
            i += 1;
        }
        assert(all.take(i as int) == all);
        let mut names: Vec<String> = Vec::new();
        let mut k: usize = 0;
        while k < bridges.len()
            invariant
                k <= bridges.len(),
                names@.len() == k,
                forall|j: int| 0 <= j < k ==> names@[j]@ == bridges@[j].name@,
            decreases bridges.len() - k,
        {
            names.push(copy_text(&bridges[k].name));
            k += 1;
        }
        assert(texts(names@) == bridge_names(list_view(bridges@)));
        let mut m: usize = 0;
        while m < needed_bridges.len() && has_name(&names, needed_bridges[m].as_str())
            invariant
                m <= needed_bridges.len(),
                needed == texts(needed_bridges@),
                forall|j: int| 0 <= j < m ==> texts(names@).contains(needed[j]),
            decreases needed_bridges.len() - m,
        {
            m += 1;
        }
        proof {
            lemma_first_missing(needed, texts(names@), m as int);
        }
        if m < needed_bridges.len() {
            return Err(BridgeApiError::BridgeNotFound(copy_text(&needed_bridges[m])));
        }
        Ok(bridges)
    }

    /// The program of the bridge named `bridge_name`, if it was loaded.
    pub fn entry_point(&self, bridge_name: &str) -> (r: Option<String>)
        ensures
            r is Some == bridge_names(self@).contains(bridge_name@),
            r matches Some(path) ==> path@ == self@[position(
                bridge_names(self@),
                bridge_name@,
            )].entry_point,
    {
        let wanted = bridge_name.to_owned();
        let mut i: usize = 0;
        while i < self.bridges.len() && self.bridges[i].name != wanted
            invariant
                i <= self.bridges.len(),
                wanted@ == bridge_name@,
                forall|j: int| 0 <= j < i ==> bridge_names(self@)[j] != bridge_name@,
            decreases self.bridges.len() - i,
        {
            i += 1;
        }
        proof {
            lemma_position(bridge_names(self@), bridge_name@, i as int);
        }
        if i < self.bridges.len() {
            Some(copy_text(&self.bridges[i].entry_point))
        } else {
            None
        }
    }
}

/// Once a prefix of the candidates has ended the scan with an error, the
/// whole scan ends with that error.
pub proof fn lemma_admitted_error(
    candidates: Seq<BridgeCandidateView>,
    needed: Seq<Seq<char>>,
    n: int,
)
    requires
        0 <= n <= candidates.len(),
        admitted(candidates.take(n), needed) is Err,
    ensures
        admitted(candidates, needed) == admitted(candidates.take(n), needed),
    decreases candidates.len() - n,
{
    if n < candidates.len() {
        assert(candidates.take(n + 1).drop_last() == candidates.take(n));
        lemma_admitted_error(candidates, needed, n + 1);
    } else {
        assert(candidates.take(n) == candidates);
    }
}

/// The views of a list of pairs of strings.
pub open spec fn pairs(v: Seq<(String, String)>) -> Seq<(Seq<char>, Seq<char>)> {
    Seq::new(v.len(), |i: int| (v[i].0@, v[i].1@))
}

/// The variable that tells a bridge where the package is installed now.
pub open spec fn pkg_path_name() -> Seq<char> {
    "pkg_path"@
}

/// The variable that tells a bridge where its log is kept.
pub open spec fn pkg_log_file_name() -> Seq<char> {
    "pkg_log_file"@
}

/// The variables that are set for one call of a bridge, in the order in
/// which they are set: the package path where there is one, the log file,
/// then one variable for each attribute, named by its key and holding the
/// attribute's value as text. A later variable of the same name wins.
pub open spec fn env_plan(
    attributes: Seq<(Seq<char>, AttributeValueView)>,
    pkg_path: Option<Seq<char>>,
    log_file: Seq<char>,
) -> Seq<(Seq<char>, Seq<char>)> {
    let head = match pkg_path {
        Some(path) => seq![(pkg_path_name(), path)],
        None => Seq::empty(),
    };
    head + seq![(pkg_log_file_name(), log_file)] + Seq::new(
        attributes.len(),
        |i: int| (attributes[i].0, attributes[i].1.text()),
    )
}

/// The names of the variables of a plan.
pub open spec fn env_names(vars: Seq<(Seq<char>, Seq<char>)>) -> Seq<Seq<char>> {
    Seq::new(vars.len(), |i: int| vars[i].0)
}

/// The environment after the variables of `vars` were set one by one.
pub open spec fn env_after_set(
    env: Map<Seq<char>, Seq<char>>,
    vars: Seq<(Seq<char>, Seq<char>)>,
) -> Map<Seq<char>, Seq<char>>
    decreases vars.len(),
{
    if vars.len() == 0 {
        env
    } else {
        env_after_set(env, vars.drop_last()).insert(vars.last().0, vars.last().1)
    }
}

/// The environment after the variables named in `names` were unset one by
/// one.
pub open spec fn env_after_unset(env: Map<Seq<char>, Seq<char>>, names: Seq<Seq<char>>) -> Map<
    Seq<char>,
    Seq<char>,
>
    decreases names.len(),
{
    if names.len() == 0 {
        env
    } else {
        env_after_unset(env, names.drop_last()).remove(names.last())
    }
}

/// Unsetting removes exactly the named variables and leaves the others as
/// they were.
pub proof fn lemma_env_after_unset(
    env: Map<Seq<char>, Seq<char>>,
    names: Seq<Seq<char>>,
    k: Seq<char>,
)
    ensures
        env_after_unset(env, names).contains_key(k) <==> env.contains_key(k) && !names.contains(k),
        env_after_unset(env, names).contains_key(k) ==> env_after_unset(env, names)[k] == env[k],
    decreases names.len(),
{
    if names.len() == 0 {
    } else {
        let front = names.drop_last();
        lemma_env_after_unset(env, front, k);
        if front.contains(k) {
            let i = choose|i: int| 0 <= i < front.len() && front[i] == k;
            assert(names[i] == k);
        }
        if names.contains(k) {
            let i = choose|i: int| 0 <= i < names.len() && names[i] == k;
            if i < front.len() {
                assert(front[i] == k);
            }
        }
        if k == names.last() {
            assert(names[names.len() - 1] == k);
        }
    }
}

/// Setting touches only the variables of the plan.
pub proof fn lemma_env_after_set(
    env: Map<Seq<char>, Seq<char>>,
    vars: Seq<(Seq<char>, Seq<char>)>,
    k: Seq<char>,
)
    requires
        !env_names(vars).contains(k),
    ensures
        env_after_set(env, vars).contains_key(k) == env.contains_key(k),
        env.contains_key(k) ==> env_after_set(env, vars)[k] == env[k],
    decreases vars.len(),
{
    if vars.len() == 0 {
    } else {
        let front = vars.drop_last();
        assert(env_names(vars)[vars.len() - 1] == vars.last().0);
        assert forall|i: int| 0 <= i < front.len() implies env_names(front)[i] != k by {
            assert(env_names(vars)[i] == front[i].0);
        }
        lemma_env_after_set(env, front, k);
    }
}

/// After a call, whatever came of it, no variable that was set for it is
/// left in the environment: not the one of any attribute, nor `pkg_path`,
/// nor `pkg_log_file`. Every other variable is as it was before the call.
pub proof fn lemma_env_isolation(
    env: Map<Seq<char>, Seq<char>>,
    attributes: Seq<(Seq<char>, AttributeValueView)>,
    pkg_path: Option<Seq<char>>,
    log_file: Seq<char>,
)
    ensures
        ({
            let plan = env_plan(attributes, pkg_path, log_file);
            let after = env_after_unset(env_after_set(env, plan), env_names(plan));
            &&& forall|i: int|
                0 <= i < attributes.len() ==> !after.contains_key(#[trigger] attributes[i].0)
            &&& !after.contains_key(pkg_log_file_name())
            &&& pkg_path is Some ==> !after.contains_key(pkg_path_name())
            &&& forall|k: Seq<char>|
                !env_names(plan).contains(k) ==> (#[trigger] after.contains_key(k)
                    == env.contains_key(k)) && (env.contains_key(k) ==> after[k] == env[k])
        }),
{
    let plan = env_plan(attributes, pkg_path, log_file);
    let names = env_names(plan);
    let during = env_after_set(env, plan);
    let after = env_after_unset(during, names);
    let offset: int = if pkg_path is Some {
        1
    } else {
        0
    };
    assert(plan[offset].0 == pkg_log_file_name());
    assert(names[offset] == pkg_log_file_name());
    lemma_env_after_unset(during, names, pkg_log_file_name());
    if pkg_path is Some {
        assert(plan[0].0 == pkg_path_name());
        assert(names[0] == pkg_path_name());
        lemma_env_after_unset(during, names, pkg_path_name());
    }
    assert forall|i: int| 0 <= i < attributes.len() implies !after.contains_key(
        #[trigger] attributes[i].0,
    ) by {
        assert(plan[offset + 1 + i].0 == attributes[i].0);
        assert(names[offset + 1 + i] == attributes[i].0);
        lemma_env_after_unset(during, names, attributes[i].0);
    }
    assert forall|k: Seq<char>| !env_names(plan).contains(k) implies (#[trigger] after.contains_key(
        k,
    ) == env.contains_key(k)) && (env.contains_key(k) ==> after[k] == env[k]) by {
        lemma_env_after_set(env, plan, k);
        lemma_env_after_unset(during, names, k);
    }
}

/// The file in which what a bridge prints is kept.
pub open spec fn log_file_path(log_root: Seq<char>, bridge_name: Seq<char>) -> Seq<char> {
    log_root + seq!['/'] + bridge_name + ".log"@
}

/// The directory under which a bridge works on a package. Every call gets
/// a directory of its own below it.
pub open spec fn work_base(
    work_root: Seq<char>,
    bridge_name: Seq<char>,
    pkg_name: Seq<char>,
) -> Seq<char> {
    resolve_path(resolve_path(work_root, bridge_name), pkg_name)
}

/// The directory of one call below `base`, named by `token` in decimal.
pub open spec fn work_dir(base: Seq<char>, token: u128) -> Seq<char> {
    resolve_path(base, decimal(token as int))
}

/// Calls with different tokens work in different directories.
pub proof fn lemma_work_dir_unique(base: Seq<char>, first: u128, second: u128)
    requires
        first != second,
    ensures
        work_dir(base, first) != work_dir(base, second),
{
    let a = decimal_nat(first as nat);
    let b = decimal_nat(second as nat);
    lemma_decimal_nat_shape(first as nat);
    lemma_decimal_nat_shape(second as nat);
    let head = if base.len() > 0 && base.last() != '/' {
        base + seq!['/']
    } else {
        base
    };
    assert(work_dir(base, first) =~= head + a);
    assert(work_dir(base, second) =~= head + b);
    if head + a == head + b {
        assert((head + a).skip(head.len() as int) =~= a);
        assert((head + b).skip(head.len() as int) =~= b);
        lemma_decimal_nat_injective(first as nat, second as nat);
    }
}

/// What is appended to a bridge's log after a call: the package's name,
/// then all that the bridge wrote to stdout, then all that it wrote to
/// stderr, each under a line of its own that says what follows.
pub open spec fn log_frame(pkg_name: Seq<char>, stdout: Seq<u8>, stderr: Seq<u8>) -> Seq<u8> {
    encode_utf8("\n|PKG="@) + encode_utf8(pkg_name) + encode_utf8("|:::::::\n|STDOUT|::::::::\n"@)
        + stdout + encode_utf8("\n\n|STDERR|::::::::\n"@) + stderr + encode_utf8("\n"@)
}

/// The file in which what the bridge named `bridge_name` prints is kept.
pub fn log_file(log_root: &str, bridge_name: &str) -> (s: String)
    ensures
        s@ == log_file_path(log_root@, bridge_name@),
{
    let mut s = log_root.to_owned();
    s.push('/');
    s.append(bridge_name);
    s.append(".log");
    s
}

/// The frame that is appended to a bridge's log after a call for the
/// package named `pkg_name`.
pub fn frame(pkg_name: &str, stdout: &Vec<u8>, stderr: &Vec<u8>) -> (bytes: Vec<u8>)
    ensures
        bytes@ == log_frame(pkg_name@, stdout@, stderr@),
{
    let mut bytes = "\n|PKG=".as_bytes_vec();
    let mut name = pkg_name.as_bytes_vec();
    bytes.append(&mut name);
    let mut heading = "|:::::::\n|STDOUT|::::::::\n".as_bytes_vec();
    bytes.append(&mut heading);
    let mut out = stdout.clone();
    bytes.append(&mut out);
    let mut heading = "\n\n|STDERR|::::::::\n".as_bytes_vec();
    bytes.append(&mut heading);
    let mut err = stderr.clone();
    bytes.append(&mut err);
    let mut end = "\n".as_bytes_vec();
    bytes.append(&mut end);
    bytes
}

impl BridgeApi {
    /// The variables to set before a bridge is called, in the order in
    /// which to set them.
    pub fn pass_opts_to_env(
        attributes: &Vec<(String, AttributeValue)>,
        pkg_path: Option<&String>,
        log_file: &str,
    ) -> (vars: Vec<(String, String)>)
        ensures
            pairs(vars@) == env_plan(
                crate::input::attribute_views(attributes@),
                option_view(pkg_path),
                log_file@,
            ),
    {
        let mut vars: Vec<(String, String)> = Vec::new();
        if let Some(path) = pkg_path {
            vars.push(("pkg_path".to_string(), copy_text(path)));
        }
        vars.push(("pkg_log_file".to_string(), log_file.to_owned()));
        let ghost head = pairs(vars@);
        let ghost views = crate::input::attribute_views(attributes@);
        let mut i: usize = 0;
        while i < attributes.len()
            invariant
                i <= attributes.len(),
                views == crate::input::attribute_views(attributes@),
                pairs(vars@) == head + Seq::new(
                    i as nat,
                    |k: int| (views[k].0, views[k].1.text()),
                ),
            decreases attributes.len() - i,
        {
            let ghost before = pairs(vars@);
            vars.push((copy_text(&attributes[i].0), attributes[i].1.text()));
            assert(pairs(vars@) == before.push((views[i as int].0, views[i as int].1.text())));
            i += 1;
        }
        vars
    }

    /// The names of the variables to unset after a bridge was called:
    /// every variable that was set for the call.
    pub fn clear_env(vars: &Vec<(String, String)>) -> (names: Vec<String>)
        ensures
            texts(names@) == env_names(pairs(vars@)),
    {
        let mut names: Vec<String> = Vec::new();
        let mut i: usize = 0;
        while i < vars.len()
            invariant
                i <= vars.len(),
                names@.len() == i,
                forall|k: int| 0 <= k < i ==> names@[k]@ == vars@[k].0@,
            decreases vars.len() - i,
        {
            names.push(copy_text(&vars[i].0));
            i += 1;
        }
        assert(texts(names@) =~= env_names(pairs(vars@)));
        names
    }

    /// The directory of one call for a package, below the working root and
    /// named by `token`.
    pub fn setup_working_directory(
        work_root: &str,
        bridge_name: &str,
        pkg_name: &str,
        token: u128,
    ) -> (dir: String)
        ensures
            dir@ == work_dir(work_base(work_root@, bridge_name@, pkg_name@), token),
    {
        let under_bridge = resolve(work_root, bridge_name);
        let base = resolve(under_bridge.as_str(), pkg_name);
        let name = decimal_u128(token);
        resolve(base.as_str(), name.as_str())
    }
}

} // verus!
