//! The configuration of the program: where the declarations, the bridges,
//! the managed storage and the record store are.
use crate::bridge::{resolve, resolve_path};
use crate::document::{
    document_nodes, entries_of, entry_value, error_text, first_named, lemma_first_named,
    node_children, node_named, parse_document, parsed_document, NodeView, Value, ValueView,
};
use crate::model::result_view;
use crate::text::{from_chars, starts_with, to_chars};
use vstd::prelude::*;

verus! {

/// The paths that the program works with.
#[derive(Debug, Clone, PartialEq, Eq)]
pub struct Config {
    pub path: String,
    pub source_dir: String,
    pub bridges_set: String,
    pub target_dir: String,
    pub db_path: String,
    pub load_path: String,
}

pub struct ConfigView {
    pub path: Seq<char>,
    pub source_dir: Seq<char>,
    pub bridges_set: Seq<char>,
    pub target_dir: Seq<char>,
    pub db_path: Seq<char>,
    pub load_path: Seq<char>,
}

impl View for Config {
    type V = ConfigView;

    open spec fn view(&self) -> ConfigView {
        ConfigView {
            path: self.path@,
            source_dir: self.source_dir@,
            bridges_set: self.bridges_set@,
            target_dir: self.target_dir@,
            db_path: self.db_path@,
            load_path: self.load_path@,
        }
    }
}

/// Why the configuration cannot be read.
#[derive(Debug, Clone, PartialEq, Eq)]
pub enum ConfigError {
    IoError(String),
    /// The file is no KDL document.
    KdlError(String),
    /// A node of this name is missing, or has nothing in it.
    MissingValue(String),
    /// The value of the node of this name is no text.
    InvalidPath(String),
}

pub enum ConfigErrorView {
    IoError(Seq<char>),
    KdlError(Seq<char>),
    MissingValue(Seq<char>),
    InvalidPath(Seq<char>),
}

impl View for ConfigError {
    type V = ConfigErrorView;

    open spec fn view(&self) -> ConfigErrorView {
        match self {
            ConfigError::IoError(s) => ConfigErrorView::IoError(s@),
            ConfigError::KdlError(s) => ConfigErrorView::KdlError(s@),
            ConfigError::MissingValue(s) => ConfigErrorView::MissingValue(s@),
            ConfigError::InvalidPath(s) => ConfigErrorView::InvalidPath(s@),
        }
    }
}

/// A path with a leading `~/` replaced by the home directory, where one is
/// known.
pub open spec fn expanded(path: Seq<char>, home: Option<Seq<char>>) -> Seq<char> {
    match home {
        Some(dir) if starts_with(path, seq!['~', '/']) => resolve_path(dir, path.skip(2)),
        _ => path,
    }
}

/// The children of the first node named `key`. That there is no such node,
/// or that it has no block of children, is an error that names `key`.
pub open spec fn block_of(nodes: Seq<NodeView>, key: Seq<char>) -> Result<
    Seq<NodeView>,
    ConfigErrorView,
> {
    let i = first_named(nodes, key);
    if 0 <= i < nodes.len() {
        match nodes[i].children {
            Some(children) => Ok(children),
            None => Err(ConfigErrorView::MissingValue(key)),
        }
    } else {
        Err(ConfigErrorView::MissingValue(key))
    }
}

/// The path that the first node named `key` gives as its first entry.
pub open spec fn path_of(nodes: Seq<NodeView>, key: Seq<char>, home: Option<Seq<char>>) -> Result<
    Seq<char>,
    ConfigErrorView,
> {
    let i = first_named(nodes, key);
    if 0 <= i < nodes.len() && nodes[i].entries.len() > 0 {
        match nodes[i].entries[0].value {
            ValueView::String(path) => Ok(expanded(path, home)),
            _ => Err(ConfigErrorView::InvalidPath(key)),
        }
    } else {
        Err(ConfigErrorView::MissingValue(key))
    }
}

/// The message for a `config` node without children.
pub open spec fn empty_config() -> Seq<char> {
    "config node is empty"@
}

/// The configuration that a document gives.
///
/// All of it stands under the node `config`: the blocks `inputs`, `output`
/// and `db`, which must all be there, and in them the paths `path` and
/// `bridges-set` of `inputs`, `target-dir` and `load-path` of `output`, and
/// `path` of `db`, which are read in this order.
pub open spec fn config_of(path: Seq<char>, nodes: Seq<NodeView>, home: Option<Seq<char>>) -> Result<
    ConfigView,
    ConfigErrorView,
> {
    let i = first_named(nodes, "config"@);
    if !(0 <= i < nodes.len()) {
        Err(ConfigErrorView::MissingValue("config"@))
    } else {
        match nodes[i].children {
            None => Err(ConfigErrorView::MissingValue(empty_config())),
            Some(content) => match block_of(content, "inputs"@) {
                Err(error) => Err(error),
                Ok(inputs) => match block_of(content, "output"@) {
                    Err(error) => Err(error),
                    Ok(output) => match block_of(content, "db"@) {
                        Err(error) => Err(error),
                        Ok(db) => paths_of(path, inputs, output, db, home),
                    },
                },
            },
        }
    }
}

/// The configuration that the three blocks give.
pub open spec fn paths_of(
    path: Seq<char>,
    inputs: Seq<NodeView>,
    output: Seq<NodeView>,
    db: Seq<NodeView>,
    home: Option<Seq<char>>,
) -> Result<ConfigView, ConfigErrorView> {
    match path_of(inputs, "path"@, home) {
        Err(error) => Err(error),
        Ok(source_dir) => match path_of(inputs, "bridges-set"@, home) {
            Err(error) => Err(error),
            Ok(bridges_set) => match path_of(output, "target-dir"@, home) {
                Err(error) => Err(error),
                Ok(target_dir) => match path_of(output, "load-path"@, home) {
                    Err(error) => Err(error),
                    Ok(load_path) => match path_of(db, "path"@, home) {
                        Err(error) => Err(error),
                        Ok(db_path) => Ok(
                            ConfigView {
                                path: path,
                                source_dir: source_dir,
                                bridges_set: bridges_set,
                                target_dir: target_dir,
                                db_path: db_path,
                                load_path: load_path,
                            },
                        ),
                    },
                },
            },
        },
    }
}

/// A path with a leading `~/` replaced by the home directory, where one is
/// known.
pub fn expand_home(path: &str, home: Option<&str>) -> (s: String)
    ensures
        s@ == expanded(
            path@,
            match home {
                Some(dir) => Some(dir@),
                None => None,
            },
        ),
{
    let c = to_chars(path);
    match home {
        Some(dir) if c.len() >= 2 && c[0] == '~' && c[1] == '/' => {
            assert(c@.take(2) =~= seq!['~', '/']);
            let rest = from_chars(&c, 2, c.len());
            assert(c@.subrange(2, c.len() as int) =~= path@.skip(2));
            resolve(dir, rest.as_str())
        },
        _ => {
            proof {
                if home is Some && starts_with(path@, seq!['~', '/']) {
                    assert(path@.take(2)[0] == '~' && path@.take(2)[1] == '/');
                }
            }
            path.to_owned()
        },
    }
}

/// The children of the first node of `doc` named `key`.
fn get_children<'a>(doc: &'a kdl::KdlDocument, key: &str) -> (r: Result<
    &'a kdl::KdlDocument,
    ConfigError,
>)
    ensures
        r matches Ok(children) ==> Ok::<Seq<NodeView>, ConfigErrorView>(document_nodes(*children))
            == block_of(document_nodes(*doc), key@),
        r matches Err(error) ==> Err::<Seq<NodeView>, ConfigErrorView>(error@) == block_of(
            document_nodes(*doc),
            key@,
        ),
{
    proof {
        lemma_first_named(document_nodes(*doc), key@);
    }
    match node_named(doc, key) {
        None => Err(ConfigError::MissingValue(key.to_owned())),
        Some(node) => match node_children(node) {
            None => Err(ConfigError::MissingValue(key.to_owned())),
            Some(children) => Ok(children),
        },
    }
}

/// The path that the first node of `doc` named `key` gives.
fn get_node_value_as_string(doc: &kdl::KdlDocument, key: &str, home: Option<&str>) -> (r: Result<
    String,
    ConfigError,
>)
    ensures
        result_view(r) == path_of(
            document_nodes(*doc),
            key@,
            match home {
                Some(dir) => Some(dir@),
                None => None,
            },
        ),
{
    proof {
        lemma_first_named(document_nodes(*doc), key@);
    }
    let node = match node_named(doc, key) {
        None => { return Err(ConfigError::MissingValue(key.to_owned())); },
        Some(node) => node,
    };
    let entries = entries_of(node);
    if entries.len() == 0 {
        return Err(ConfigError::MissingValue(key.to_owned()));
    }
    match entry_value(&entries[0]) {
        Value::String(path) => Ok(expand_home(path.as_str(), home)),
        _ => Err(ConfigError::InvalidPath(key.to_owned())),
    }
}

impl Config {
    /// The configuration that `document` gives. `path` is where the
    /// document was read from, `home` the user's home directory.
    pub fn from_document(path: String, document: &kdl::KdlDocument, home: Option<&str>) -> (r:
        Result<Config, ConfigError>)
        ensures
            result_view(r) == config_of(
                path@,
                document_nodes(*document),
                match home {
                    Some(dir) => Some(dir@),
                    None => None,
                },
            ),
    {
        proof {
            lemma_first_named(document_nodes(*document), "config"@);
        }
        let config_node = match node_named(document, "config") {
            None => { return Err(ConfigError::MissingValue("config".to_string())); },
            Some(node) => node,
        };
        let content = match node_children(config_node) {
            None => { return Err(ConfigError::MissingValue("config node is empty".to_string())); },
            Some(content) => content,
        };
        let inputs = match get_children(content, "inputs") {
            Err(error) => { return Err(error); },
            Ok(block) => block,
        };
        let output = match get_children(content, "output") {
            Err(error) => { return Err(error); },
            Ok(block) => block,
        };
        let db = match get_children(content, "db") {
            Err(error) => { return Err(error); },
            Ok(block) => block,
        };
        let source_dir = match get_node_value_as_string(inputs, "path", home) {
            Err(error) => { return Err(error); },
            Ok(value) => value,
        };
        let bridges_set = match get_node_value_as_string(inputs, "bridges-set", home) {
            Err(error) => { return Err(error); },
            Ok(value) => value,
        };
        let target_dir = match get_node_value_as_string(output, "target-dir", home) {
            Err(error) => { return Err(error); },
            Ok(value) => value,
        };
        let load_path = match get_node_value_as_string(output, "load-path", home) {
            Err(error) => { return Err(error); },
            Ok(value) => value,
        };
        let db_path = match get_node_value_as_string(db, "path", home) {
            Err(error) => { return Err(error); },
            Ok(value) => value,
        };
        Ok(Config { path, source_dir, bridges_set, target_dir, db_path, load_path })
    }

    /// The configuration that the text of the file at `path` gives.
    pub fn load(path: String, source: &str, home: Option<&str>) -> (r: Result<Config, ConfigError>)
        ensures
            parsed_document(source@) is None ==> r matches Err(ConfigError::KdlError(_)),
            parsed_document(source@) matches Some(nodes) ==> result_view(r) == config_of(
                path@,
                nodes,
                match home {
                    Some(dir) => Some(dir@),
                    None => None,
                },
            ),
    {
        match parse_document(source) {
            Err(error) => Err(ConfigError::KdlError(error_text(&error))),
            Ok(document) => Config::from_document(path, &document, home),
        }
    }
}

} // verus!
