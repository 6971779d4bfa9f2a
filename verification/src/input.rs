//! Declared packages, as the user wrote them down.
use crate::document::{
    document_nodes, entries_of, entry_content, entry_name, entry_text, entry_value, error_text,
    node_children, node_content, node_name, nodes_of, parse_document, parsed_document, EntryView,
    NodeView, Value, ValueView,
};
use crate::model::{
    lemma_position, lemma_position_bounds, option_view, position, position_of, result_view, texts,
};
use crate::text::{copy_text, decimal, decimal_i64, to_chars};
use vstd::prelude::*;

verus! {

/// The value of one attribute of a declared package.
#[derive(Debug, Clone, PartialEq, Eq)]
pub enum AttributeValue {
    String(String),
    Integer(i64),
    /// A number with a fraction, held as the decimal text that stands for it.
    Float(String),
    Boolean(bool),
}

pub enum AttributeValueView {
    String(Seq<char>),
    Integer(i64),
    Float(Seq<char>),
    Boolean(bool),
}

impl View for AttributeValue {
    type V = AttributeValueView;

    open spec fn view(&self) -> AttributeValueView {
        match self {
            AttributeValue::String(s) => AttributeValueView::String(s@),
            AttributeValue::Integer(i) => AttributeValueView::Integer(*i),
            AttributeValue::Float(t) => AttributeValueView::Float(t@),
            AttributeValue::Boolean(b) => AttributeValueView::Boolean(*b),
        }
    }
}

/// One declared package: its name, the source reference that is handed to
/// the bridge, and its attributes by key. No key occurs twice.
#[derive(Debug, Clone, PartialEq, Eq)]
pub struct PkgDeclaration {
    pub name: String,
    pub input: String,
    pub attributes: Vec<(String, AttributeValue)>,
}

pub struct PkgDeclarationView {
    pub name: Seq<char>,
    pub input: Seq<char>,
    pub attributes: Seq<(Seq<char>, AttributeValueView)>,
}

/// The views of a list of attributes.
pub open spec fn attribute_views(attributes: Seq<(String, AttributeValue)>) -> Seq<
    (Seq<char>, AttributeValueView),
> {
    Seq::new(attributes.len(), |i: int| (attributes[i].0@, attributes[i].1@))
}

impl View for PkgDeclaration {
    type V = PkgDeclarationView;

    open spec fn view(&self) -> PkgDeclarationView {
        PkgDeclarationView {
            name: self.name@,
            input: self.input@,
            attributes: attribute_views(self.attributes@),
        }
    }
}

impl AttributeValueView {
    /// The value as the text that a bridge gets: a string as it is, an
    /// integer in decimal, a boolean as `true` or `false`.
    pub open spec fn text(self) -> Seq<char> {
        match self {
            AttributeValueView::String(s) => s,
            AttributeValueView::Integer(i) => decimal(i as int),
            AttributeValueView::Float(t) => t,
            AttributeValueView::Boolean(b) => if b {
                "true"@
            } else {
                "false"@
            },
        }
    }
}

impl AttributeValue {
    /// The value as the text that a bridge gets.
    pub fn text(&self) -> (s: String)
        ensures
            s@ == self@.text(),
    {
        match self {
            AttributeValue::String(s) => copy_text(s),
            AttributeValue::Integer(i) => decimal_i64(*i),
            AttributeValue::Float(t) => copy_text(t),
            AttributeValue::Boolean(b) => if *b {
                "true".to_string()
            } else {
                "false".to_string()
            },
        }
    }

    /// A copy of this value.
    pub fn duplicate(&self) -> (v: AttributeValue)
        ensures
            v@ == self@,
    {
        match self {
            AttributeValue::String(s) => AttributeValue::String(copy_text(s)),
            AttributeValue::Integer(i) => AttributeValue::Integer(*i),
            AttributeValue::Float(t) => AttributeValue::Float(copy_text(t)),
            AttributeValue::Boolean(b) => AttributeValue::Boolean(*b),
        }
    }
}

impl PkgDeclarationView {
    /// No attribute key occurs twice.
    pub open spec fn wf(self) -> bool {
        forall|i: int, j: int|
            0 <= i < j < self.attributes.len() ==> self.attributes[i].0 != self.attributes[j].0
    }
}

impl PkgDeclaration {
    /// A copy of this declaration.
    pub fn duplicate(&self) -> (d: PkgDeclaration)
        ensures
            d@ == self@,
    {
        let mut attributes: Vec<(String, AttributeValue)> = Vec::new();
        let mut i: usize = 0;
        while i < self.attributes.len()
            invariant
                i <= self.attributes.len(),
                attributes@.len() == i,
                forall|k: int|
                    0 <= k < i ==> attributes@[k].0@ == self.attributes@[k].0@ && attributes@[k].1@
                        == self.attributes@[k].1@,
            decreases self.attributes.len() - i,
        {
            attributes.push((copy_text(&self.attributes[i].0), self.attributes[i].1.duplicate()));
            i += 1;
        }
        let d = PkgDeclaration {
            name: copy_text(&self.name),
            input: copy_text(&self.input),
            attributes,
        };
        assert(d@.attributes =~= self@.attributes);
        d
    }
}

/// The views of a list of declarations.
pub open spec fn declaration_views(pkgs: Seq<PkgDeclaration>) -> Seq<PkgDeclarationView> {
    Seq::new(pkgs.len(), |i: int| pkgs[i]@)
}

/// A bridge as the user declared it: its name and the packages that it is
/// to provide, in the order in which they were written down.
#[derive(Debug, Clone, PartialEq, Eq)]
pub struct Bridge {
    pub name: String,
    pub pkgs: Vec<PkgDeclaration>,
}

pub struct BridgeView {
    pub name: Seq<char>,
    pub pkgs: Seq<PkgDeclarationView>,
}

impl View for Bridge {
    type V = BridgeView;

    open spec fn view(&self) -> BridgeView {
        BridgeView { name: self.name@, pkgs: declaration_views(self.pkgs@) }
    }
}

/// Why the declared packages cannot be read.
#[derive(Debug, Clone, PartialEq, Eq)]
pub enum InputError {
    IoError(String),
    /// A file is no KDL document.
    KdlError(String),
    /// An attribute has a value that is neither text, number nor boolean.
    UnSupportedAttributeType(String),
    /// A bridge has no block of packages, a package has no input, or an
    /// attribute has no name.
    MissingField,
    /// The input of a package is no text.
    InvalidAttribute,
    /// Two packages have the same name.
    DuplicatePkgDeclaration(String),
}

pub enum InputErrorView {
    IoError(Seq<char>),
    KdlError(Seq<char>),
    UnSupportedAttributeType(Seq<char>),
    MissingField,
    InvalidAttribute,
    DuplicatePkgDeclaration(Seq<char>),
}

impl View for InputError {
    type V = InputErrorView;

    open spec fn view(&self) -> InputErrorView {
        match self {
            InputError::IoError(s) => InputErrorView::IoError(s@),
            InputError::KdlError(s) => InputErrorView::KdlError(s@),
            InputError::UnSupportedAttributeType(s) => InputErrorView::UnSupportedAttributeType(s@),
            InputError::MissingField => InputErrorView::MissingField,
            InputError::InvalidAttribute => InputErrorView::InvalidAttribute,
            InputError::DuplicatePkgDeclaration(s) => InputErrorView::DuplicatePkgDeclaration(s@),
        }
    }
}

/// All that is declared: the bridges with their packages, and all packages
/// in the order of their declaration.
#[derive(Debug, Clone, PartialEq, Eq)]
pub struct Input {
    pub path: String,
    pub bridges: Vec<Bridge>,
    pub pkgs: Vec<PkgDeclaration>,
}

pub struct InputView {
    pub path: Seq<char>,
    pub bridges: Seq<BridgeView>,
    pub pkgs: Seq<PkgDeclarationView>,
}

/// The views of a list of bridges.
pub open spec fn group_views(bridges: Seq<Bridge>) -> Seq<BridgeView> {
    Seq::new(bridges.len(), |i: int| bridges[i]@)
}

impl View for Input {
    type V = InputView;

    open spec fn view(&self) -> InputView {
        InputView {
            path: self.path@,
            bridges: group_views(self.bridges@),
            pkgs: declaration_views(self.pkgs@),
        }
    }
}

/// The names of a list of bridges.
pub open spec fn group_names(bridges: Seq<BridgeView>) -> Seq<Seq<char>> {
    Seq::new(bridges.len(), |i: int| bridges[i].name)
}

/// The names of a list of declarations.
pub open spec fn pkg_names(pkgs: Seq<PkgDeclarationView>) -> Seq<Seq<char>> {
    Seq::new(pkgs.len(), |i: int| pkgs[i].name)
}

/// The keys of a list of attributes.
pub open spec fn attribute_keys(attributes: Seq<(Seq<char>, AttributeValueView)>) -> Seq<
    Seq<char>,
> {
    Seq::new(attributes.len(), |i: int| attributes[i].0)
}

/// The attribute value that a document's value stands for. An integer
/// keeps its low 64 bits. A null stands for none.
pub open spec fn attribute_of(value: ValueView) -> Option<AttributeValueView> {
    match value {
        ValueView::String(s) => Some(AttributeValueView::String(s)),
        ValueView::Integer(i) => Some(AttributeValueView::Integer(i as i64)),
        ValueView::Float(t) => Some(AttributeValueView::Float(t)),
        ValueView::Boolean(b) => Some(AttributeValueView::Boolean(b)),
        ValueView::Null => None,
    }
}

/// The attributes with one more: a key that is there already gets the new
/// value, a new key comes last.
pub open spec fn with_attribute(
    attributes: Seq<(Seq<char>, AttributeValueView)>,
    key: Seq<char>,
    value: AttributeValueView,
) -> Seq<(Seq<char>, AttributeValueView)> {
    let i = position(attribute_keys(attributes), key);
    if 0 <= i < attributes.len() {
        attributes.update(i, (key, value))
    } else {
        attributes.push((key, value))
    }
}

/// The attributes that `entries` add to `so_far`, taken in order. An entry
/// without a name, or with a value that stands for no attribute value, is
/// an error.
pub open spec fn attributes_from(
    entries: Seq<EntryView>,
    so_far: Seq<(Seq<char>, AttributeValueView)>,
) -> Result<Seq<(Seq<char>, AttributeValueView)>, InputErrorView>
    decreases entries.len(),
{
    if entries.len() == 0 {
        Ok(so_far)
    } else {
        match entries[0].name {
            None => Err(InputErrorView::MissingField),
            Some(name) => match attribute_of(entries[0].value) {
                None => Err(InputErrorView::UnSupportedAttributeType(entries[0].text)),
                Some(value) => attributes_from(
                    entries.drop_first(),
                    with_attribute(so_far, name, value),
                ),
            },
        }
    }
}

/// The package that a node declares: the node's name is the package's, the
/// first entry is its input and must be text, the other entries are its
/// attributes.
pub open spec fn declaration_of(node: NodeView) -> Result<PkgDeclarationView, InputErrorView> {
    if node.entries.len() == 0 {
        Err(InputErrorView::MissingField)
    } else {
        match node.entries[0].value {
            ValueView::String(input) => match attributes_from(
                node.entries.drop_first(),
                Seq::empty(),
            ) {
                Ok(attributes) => Ok(
                    PkgDeclarationView { name: node.name, input: input, attributes: attributes },
                ),
                Err(error) => Err(error),
            },
            _ => Err(InputErrorView::InvalidAttribute),
        }
    }
}

impl InputView {
    /// The input with one more package for the bridge at position `at`. A
    /// name that is declared already, by whatever bridge, is an error.
    pub open spec fn with_package(self, at: int, pkg: PkgDeclarationView) -> Result<
        InputView,
        InputErrorView,
    > {
        if pkg_names(self.pkgs).contains(pkg.name) {
            Err(InputErrorView::DuplicatePkgDeclaration(pkg.name))
        } else {
            Ok(
                InputView {
                    bridges: self.bridges.update(
                        at,
                        BridgeView {
                            name: self.bridges[at].name,
                            pkgs: self.bridges[at].pkgs.push(pkg),
                        },
                    ),
                    pkgs: self.pkgs.push(pkg),
                    ..self
                },
            )
        }
    }

    /// The input with the packages that `nodes` declare for the bridge at
    /// position `at`, taken in order.
    pub open spec fn with_packages(self, at: int, nodes: Seq<NodeView>) -> Result<
        InputView,
        InputErrorView,
    >
        decreases nodes.len(),
    {
        if nodes.len() == 0 {
            Ok(self)
        } else {
            match declaration_of(nodes[0]) {
                Err(error) => Err(error),
                Ok(pkg) => match self.with_package(at, pkg) {
                    Err(error) => Err(error),
                    Ok(next) => next.with_packages(at, nodes.drop_first()),
                },
            }
        }
    }

    /// The input with the bridge that `node` declares: the node's name is
    /// the bridge's, its children are the bridge's packages. A bridge that
    /// is declared in several places has the packages of all of them. A
    /// node without a block of children is an error.
    pub open spec fn with_bridge(self, node: NodeView) -> Result<InputView, InputErrorView> {
        match node.children {
            None => Err(InputErrorView::MissingField),
            Some(children) => {
                let at = position(group_names(self.bridges), node.name);
                let known = if 0 <= at < self.bridges.len() {
                    self
                } else {
                    InputView {
                        bridges: self.bridges.push(
                            BridgeView { name: node.name, pkgs: Seq::empty() },
                        ),
                        ..self
                    }
                };
                known.with_packages(at, children)
            },
        }
    }

    /// The input with the bridges that `nodes` declare, taken in order.
    pub open spec fn with_bridges(self, nodes: Seq<NodeView>) -> Result<InputView, InputErrorView>
        decreases nodes.len(),
    {
        if nodes.len() == 0 {
            Ok(self)
        } else {
            match self.with_bridge(nodes[0]) {
                Err(error) => Err(error),
                Ok(next) => next.with_bridges(nodes.drop_first()),
            }
        }
    }

    /// The input with all that `documents` declare, taken in order.
    pub open spec fn with_documents(self, documents: Seq<Seq<NodeView>>) -> Result<
        InputView,
        InputErrorView,
    >
        decreases documents.len(),
    {
        if documents.len() == 0 {
            Ok(self)
        } else {
            match self.with_bridges(documents[0]) {
                Err(error) => Err(error),
                Ok(next) => next.with_documents(documents.drop_first()),
            }
        }
    }
}

/// No two items of a list of names are the same.
pub open spec fn distinct(names: Seq<Seq<char>>) -> bool {
    forall|i: int, j: int| 0 <= i < j < names.len() ==> names[i] != names[j]
}

impl InputView {
    /// What holds of everything that was loaded: no two packages have the
    /// same name, whatever bridges declare them; no two bridges have the
    /// same name; and every package of a bridge is among the packages.
    pub open spec fn wf(self) -> bool {
        &&& distinct(pkg_names(self.pkgs))
        &&& distinct(group_names(self.bridges))
        &&& forall|g: int, k: int|
            0 <= g < self.bridges.len() && 0 <= k < self.bridges[g].pkgs.len()
                ==> self.pkgs.contains(#[trigger] self.bridges[g].pkgs[k])
    }
}

/// Adding a package keeps the input well-formed.
pub proof fn lemma_with_package_wf(input: InputView, at: int, pkg: PkgDeclarationView)
    requires
        input.wf(),
        0 <= at < input.bridges.len(),
        input.with_package(at, pkg) is Ok,
    ensures
        input.with_package(at, pkg)->Ok_0.wf(),
        input.with_package(at, pkg)->Ok_0.bridges.len() == input.bridges.len(),
{
    let next = input.with_package(at, pkg)->Ok_0;
    assert forall|i: int, j: int| 0 <= i < j < pkg_names(next.pkgs).len() implies pkg_names(
        next.pkgs,
    )[i] != pkg_names(next.pkgs)[j] by {
        if j == input.pkgs.len() {
            assert(pkg_names(input.pkgs)[i] == input.pkgs[i].name);
        } else {
            assert(pkg_names(input.pkgs)[i] != pkg_names(input.pkgs)[j]);
        }
    }
    assert forall|i: int, j: int| 0 <= i < j < group_names(next.bridges).len() implies group_names(
        next.bridges,
    )[i] != group_names(next.bridges)[j] by {
        assert(group_names(input.bridges)[i] != group_names(input.bridges)[j]);
    }
    assert forall|g: int, k: int|
        0 <= g < next.bridges.len() && 0 <= k < next.bridges[g].pkgs.len() implies next.pkgs.contains(
        #[trigger] next.bridges[g].pkgs[k],
    ) by {
        let item = next.bridges[g].pkgs[k];
        if g == at && k == input.bridges[at].pkgs.len() {
            assert(next.pkgs[input.pkgs.len() as int] == item);
        } else {
            assert(input.bridges[g].pkgs[k] == item);
            assert(input.pkgs.contains(input.bridges[g].pkgs[k]));
            let m = choose|m: int| 0 <= m < input.pkgs.len() && input.pkgs[m] == item;
            assert(next.pkgs[m] == item);
        }
    }
}

/// Adding the packages of a bridge keeps the input well-formed.
pub proof fn lemma_with_packages_wf(input: InputView, at: int, nodes: Seq<NodeView>)
    requires
        input.wf(),
        0 <= at < input.bridges.len(),
        input.with_packages(at, nodes) is Ok,
    ensures
        input.with_packages(at, nodes)->Ok_0.wf(),
    decreases nodes.len(),
{
    if nodes.len() > 0 {
        let pkg = declaration_of(nodes[0])->Ok_0;
        lemma_with_package_wf(input, at, pkg);
        lemma_with_packages_wf(input.with_package(at, pkg)->Ok_0, at, nodes.drop_first());
    }
}

/// Adding a bridge keeps the input well-formed.
pub proof fn lemma_with_bridge_wf(input: InputView, node: NodeView)
    requires
        input.wf(),
        input.with_bridge(node) is Ok,
    ensures
        input.with_bridge(node)->Ok_0.wf(),
{
    let at = position(group_names(input.bridges), node.name);
    lemma_position_bounds(group_names(input.bridges), node.name);
    let group = BridgeView { name: node.name, pkgs: Seq::empty() };
    let known = if 0 <= at < input.bridges.len() {
        input
    } else {
        InputView { bridges: input.bridges.push(group), ..input }
    };
    if !(0 <= at < input.bridges.len()) {
        assert forall|i: int, j: int|
            0 <= i < j < group_names(known.bridges).len() implies group_names(known.bridges)[i]
            != group_names(known.bridges)[j] by {
            if j == input.bridges.len() {
                assert(group_names(input.bridges)[i] == known.bridges[i].name);
            } else {
                assert(group_names(input.bridges)[i] != group_names(input.bridges)[j]);
            }
        }
        assert forall|g: int, k: int|
            0 <= g < known.bridges.len() && 0 <= k < known.bridges[g].pkgs.len() implies known.pkgs.contains(
            #[trigger] known.bridges[g].pkgs[k],
        ) by {
            assert(input.bridges[g].pkgs[k] == known.bridges[g].pkgs[k]);
        }
    }
    lemma_with_packages_wf(known, at, node.children->0);
}

/// Adding the bridges of a document keeps the input well-formed.
pub proof fn lemma_with_bridges_wf(input: InputView, nodes: Seq<NodeView>)
    requires
        input.wf(),
        input.with_bridges(nodes) is Ok,
    ensures
        input.with_bridges(nodes)->Ok_0.wf(),
    decreases nodes.len(),
{
    if nodes.len() > 0 {
        lemma_with_bridge_wf(input, nodes[0]);
        lemma_with_bridges_wf(input.with_bridge(nodes[0])->Ok_0, nodes.drop_first());
    }
}

/// Whatever documents are loaded, what comes of it is well-formed: the
/// packages of a run have names of their own, across all bridges.
pub proof fn lemma_loaded_input_is_wf(input: InputView, documents: Seq<Seq<NodeView>>)
    requires
        input.wf(),
        input.with_documents(documents) is Ok,
    ensures
        input.with_documents(documents)->Ok_0.wf(),
    decreases documents.len(),
{
    if documents.len() > 0 {
        lemma_with_bridges_wf(input, documents[0]);
        lemma_loaded_input_is_wf(
            input.with_bridges(documents[0])->Ok_0,
            documents.drop_first(),
        );
    }
}

/// The nodes of each of a list of documents.
pub open spec fn documents_nodes(documents: Seq<kdl::KdlDocument>) -> Seq<Seq<NodeView>> {
    Seq::new(documents.len(), |i: int| document_nodes(documents[i]))
}

/// Whether a file of this name holds declarations: its extension is `kdl`,
/// in whatever case, and it is not hidden.
pub open spec fn input_file_name(name: Seq<char>) -> bool {
    let n = name.len() as int;
    &&& n >= 5
    &&& name[0] != '.'
    &&& name[n - 4] == '.'
    &&& (name[n - 3] == 'k' || name[n - 3] == 'K')
    &&& (name[n - 2] == 'd' || name[n - 2] == 'D')
    &&& (name[n - 1] == 'l' || name[n - 1] == 'L')
}

/// Whether a file of this name holds declarations.
pub fn is_input_file(name: &str) -> (b: bool)
    ensures
        b == input_file_name(name@),
{
    let c = to_chars(name);
    let n = c.len();
    n >= 5 && c[0] != '.' && c[n - 4] == '.' && (c[n - 3] == 'k' || c[n - 3] == 'K') && (c[n - 2]
        == 'd' || c[n - 2] == 'D') && (c[n - 1] == 'l' || c[n - 1] == 'L')
}

/// The attribute value that a document's value stands for.
pub fn to_attribute(value: Value) -> (r: Option<AttributeValue>)
    ensures
        option_view(r) == attribute_of(value@),
{
    match value {
        Value::String(s) => Some(AttributeValue::String(s)),
        Value::Integer(i) => Some(AttributeValue::Integer(#[verifier::truncate] (i as i64))),
        Value::Float(t) => Some(AttributeValue::Float(t)),
        Value::Boolean(b) => Some(AttributeValue::Boolean(b)),
        Value::Null => None,
    }
}

/// Puts one more attribute into the list.
pub fn put_attribute(attributes: &mut Vec<(String, AttributeValue)>, key: String, value: AttributeValue)
    ensures
        attribute_views(final(attributes)@) == with_attribute(
            attribute_views(old(attributes)@),
            key@,
            value@,
        ),
{
    let ghost before = attribute_views(attributes@);
    let mut i: usize = 0;
    while i < attributes.len() && attributes[i].0 != key
        invariant
            i <= attributes.len(),
            forall|j: int| 0 <= j < i ==> attribute_keys(attribute_views(attributes@))[j] != key@,
        decreases attributes.len() - i,
    {
        i += 1;
    }
    proof {
        lemma_position(attribute_keys(before), key@, i as int);
    }
    if i < attributes.len() {
        attributes.set(i, (key, value));
        assert(attribute_views(attributes@) =~= before.update(i as int, (key@, value@)));
    } else {
        attributes.push((key, value));
        assert(attribute_views(attributes@) =~= before.push((key@, value@)));
    }
}

/// The attributes of a package node: the entries after the first.
fn parse_attributes(node: &kdl::KdlNode) -> (r: Result<
    Vec<(String, AttributeValue)>,
    InputError,
>)
    requires
        node_content(*node).entries.len() >= 1,
    ensures
        r matches Ok(attributes) ==> Ok::<
            Seq<(Seq<char>, AttributeValueView)>,
            InputErrorView,
        >(attribute_views(attributes@)) == attributes_from(
            node_content(*node).entries.drop_first(),
            Seq::empty(),
        ),
        r matches Err(error) ==> Err::<Seq<(Seq<char>, AttributeValueView)>, InputErrorView>(error@)
            == attributes_from(node_content(*node).entries.drop_first(), Seq::empty()),
{
    let ghost entries = node_content(*node).entries;
    let ghost whole = attributes_from(entries.drop_first(), Seq::empty());
    let all = entries_of(node);
    let n = all.len();
    let mut attributes: Vec<(String, AttributeValue)> = Vec::new();
    let mut i: usize = 1;
    proof {
        assert(entries.skip(1) =~= entries.drop_first());
        assert(attribute_views(attributes@) =~= Seq::empty());
    }
    while i < n
        invariant
            1 <= i <= n,
            n == entries.len(),
            n == all@.len(),
            forall|k: int| 0 <= k < n ==> entry_content(#[trigger] all@[k]) == entries[k],
            entries == node_content(*node).entries,
            whole == attributes_from(entries.drop_first(), Seq::empty()),
            whole == attributes_from(entries.skip(i as int), attribute_views(attributes@)),
        decreases n - i,
    {
        let entry = &all[i];
        proof {
            assert(entries.skip(i as int)[0] == entries[i as int]);
            assert(entries.skip(i as int).drop_first() =~= entries.skip(i + 1));
        }
        let name = match entry_name(entry) {
            None => { return Err(InputError::MissingField); },
            Some(name) => name,
        };
        let value = match to_attribute(entry_value(entry)) {
            None => { return Err(InputError::UnSupportedAttributeType(entry_text(entry))); },
            Some(value) => value,
        };
        put_attribute(&mut attributes, name, value);
        i += 1;
    }
    Ok(attributes)
}

/// The package that a node declares.
pub fn parse_pkg(node: &kdl::KdlNode) -> (r: Result<PkgDeclaration, InputError>)
    ensures
        result_view(r) == declaration_of(node_content(*node)),
{
    let entries = entries_of(node);
    if entries.len() == 0 {
        return Err(InputError::MissingField);
    }
    let input = match entry_value(&entries[0]) {
        Value::String(input) => input,
        _ => { return Err(InputError::InvalidAttribute); },
    };
    match parse_attributes(node) {
        Ok(attributes) => Ok(PkgDeclaration { name: node_name(node), input, attributes }),
        Err(error) => Err(error),
    }
}

impl Input {
    /// Nothing declared yet.
    pub fn new(path: String) -> (input: Input)
        ensures
            input@ == (InputView { path: path@, bridges: Seq::empty(), pkgs: Seq::empty() }),
    {
        let input = Input { path, bridges: Vec::new(), pkgs: Vec::new() };
        assert(input@.bridges =~= Seq::empty());
        assert(input@.pkgs =~= Seq::empty());
        input
    }

    /// The names of the bridges, in the order of their declaration.
    pub fn bridge_names(&self) -> (names: Vec<String>)
        ensures
            texts(names@) == group_names(self@.bridges),
    {
        let mut names: Vec<String> = Vec::new();
        let mut i: usize = 0;
        while i < self.bridges.len()
            invariant
                i <= self.bridges.len(),
                names@.len() == i,
                forall|k: int| 0 <= k < i ==> names@[k]@ == self.bridges@[k].name@,
            decreases self.bridges.len() - i,
        {
            names.push(copy_text(&self.bridges[i].name));
            i += 1;
        }
        assert(texts(names@) =~= group_names(self@.bridges));
        names
    }

    /// The names of the packages, in the order of their declaration.
    pub fn pkg_names(&self) -> (names: Vec<String>)
        ensures
            texts(names@) == pkg_names(self@.pkgs),
    {
        let mut names: Vec<String> = Vec::new();
        let mut i: usize = 0;
        while i < self.pkgs.len()
            invariant
                i <= self.pkgs.len(),
                names@.len() == i,
                forall|k: int| 0 <= k < i ==> names@[k]@ == self.pkgs@[k].name@,
            decreases self.pkgs.len() - i,
        {
            names.push(copy_text(&self.pkgs[i].name));
            i += 1;
        }
        assert(texts(names@) =~= pkg_names(self@.pkgs));
        names
    }

    /// Adds one package for the bridge at position `at`.
    fn add_package(self, at: usize, pkg: PkgDeclaration) -> (r: Result<Input, InputError>)
        requires
            at < self.bridges.len(),
        ensures
            result_view(r) == self@.with_package(at as int, pkg@),
            r matches Ok(next) ==> next.bridges.len() == self.bridges.len(),
    {
        let names = self.pkg_names();
        if crate::model::has_name(&names, pkg.name.as_str()) {
            return Err(InputError::DuplicatePkgDeclaration(pkg.name));
        }
        let Input { path, bridges, pkgs } = self;
        let ghost old_bridges = group_views(bridges@);
        let ghost old_pkgs = declaration_views(pkgs@);
        let mut bridges = bridges;
        let mut pkgs = pkgs;
        let mut group = Bridge { name: copy_text(&bridges[at].name), pkgs: Vec::new() };
        let mut k: usize = 0;
        while k < bridges[at].pkgs.len()
            invariant
                at < bridges.len(),
                k <= bridges@[at as int].pkgs.len(),
                group.name@ == bridges@[at as int].name@,
                group.pkgs@.len() == k,
                forall|j: int| 0 <= j < k ==> group.pkgs@[j]@ == bridges@[at as int].pkgs@[j]@,
            decreases bridges@[at as int].pkgs.len() - k,
        {
            group.pkgs.push(bridges[at].pkgs[k].duplicate());
            k += 1;
        }
        group.pkgs.push(pkg.duplicate());
        assert(group@.pkgs =~= old_bridges[at as int].pkgs.push(pkg@));
        bridges.set(at, group);
        pkgs.push(pkg);
        let next = Input { path, bridges, pkgs };
        assert(next@.pkgs =~= old_pkgs.push(pkg@));
        assert(next@.bridges =~= old_bridges.update(
            at as int,
            BridgeView {
                name: old_bridges[at as int].name,
                pkgs: old_bridges[at as int].pkgs.push(pkg@),
            },
        ));
        Ok(next)
    }

    /// Adds the bridge that `node` declares, with its packages.
    pub fn add_bridge(self, node: &kdl::KdlNode) -> (r: Result<Input, InputError>)
        ensures
            result_view(r) == self@.with_bridge(node_content(*node)),
    {
        let children = match node_children(node) {
            None => { return Err(InputError::MissingField); },
            Some(children) => children,
        };
        let name = node_name(node);
        let names = self.bridge_names();
        let at = position_of(&names, name.as_str());
        proof {
            lemma_position_bounds(group_names(self@.bridges), name@);
        }
        let mut input = self;
        if at >= input.bridges.len() {
            let ghost before = input@;
            input.bridges.push(Bridge { name, pkgs: Vec::new() });
            proof {
                assert(input@.bridges.last().pkgs =~= Seq::empty());
                assert(input@.bridges =~= before.bridges.push(
                    BridgeView { name: node_content(*node).name, pkgs: Seq::empty() },
                ));
            }
        }
        let declared = nodes_of(children);
        let ghost nodes = document_nodes(*children);
        let ghost whole = input@.with_packages(at as int, nodes);
        let ghost goal = self@.with_bridge(node_content(*node));
        assert(whole == goal);
        let n = declared.len();
        let mut i: usize = 0;
        assert(nodes.skip(0) =~= nodes);
        while i < n
            invariant
                i <= n,
                n == nodes.len(),
                n == declared@.len(),
                forall|k: int| 0 <= k < n ==> node_content(#[trigger] declared@[k]) == nodes[k],
                nodes == document_nodes(*children),
                at < input.bridges.len(),
                goal == self@.with_bridge(node_content(*node)),
                whole == goal,
                whole == input@.with_packages(at as int, nodes.skip(i as int)),
            decreases n - i,
        {
            proof {
                assert(nodes.skip(i as int)[0] == nodes[i as int]);
                assert(nodes.skip(i as int).drop_first() =~= nodes.skip(i + 1));
            }
            let pkg = match parse_pkg(&declared[i]) {
                Err(error) => { return Err(error); },
                Ok(pkg) => pkg,
            };
            input = match input.add_package(at, pkg) {
                Err(error) => { return Err(error); },
                Ok(next) => next,
            };
            i += 1;
        }
        Ok(input)
    }

    /// Adds all that a document declares.
    pub fn add_document(self, document: &kdl::KdlDocument) -> (r: Result<Input, InputError>)
        ensures
            result_view(r) == self@.with_bridges(document_nodes(*document)),
    {
        let declared = nodes_of(document);
        let ghost nodes = document_nodes(*document);
        let ghost whole = self@.with_bridges(nodes);
        let n = declared.len();
        let mut input = self;
        let mut i: usize = 0;
        assert(nodes.skip(0) =~= nodes);
        while i < n
            invariant
                i <= n,
                n == nodes.len(),
                n == declared@.len(),
                forall|k: int| 0 <= k < n ==> node_content(#[trigger] declared@[k]) == nodes[k],
                nodes == document_nodes(*document),
                whole == self@.with_bridges(nodes),
                whole == input@.with_bridges(nodes.skip(i as int)),
            decreases n - i,
        {
            proof {
                assert(nodes.skip(i as int)[0] == nodes[i as int]);
                assert(nodes.skip(i as int).drop_first() =~= nodes.skip(i + 1));
            }
            input = match input.add_bridge(&declared[i]) {
                Err(error) => { return Err(error); },
                Ok(next) => next,
            };
            i += 1;
        }
        Ok(input)
    }

    /// All that `documents` declare, taken in order.
    pub fn from_documents(path: String, documents: &Vec<kdl::KdlDocument>) -> (r: Result<
        Input,
        InputError,
    >)
        ensures
            result_view(r) == (InputView {
                path: path@,
                bridges: Seq::empty(),
                pkgs: Seq::empty(),
            }).with_documents(documents_nodes(documents@)),
            r matches Ok(input) ==> input@.wf(),
    {
        proof {
            let start = InputView { path: path@, bridges: Seq::empty(), pkgs: Seq::empty() };
            if start.with_documents(documents_nodes(documents@)) is Ok {
                lemma_loaded_input_is_wf(start, documents_nodes(documents@));
            }
        }
        let ghost all = documents_nodes(documents@);
        let ghost start = InputView { path: path@, bridges: Seq::empty(), pkgs: Seq::empty() };
        let mut input = Input::new(path);
        let ghost whole = input@.with_documents(all);
        let mut i: usize = 0;
        assert(all.skip(0) =~= all);
        while i < documents.len()
            invariant
                i <= documents.len(),
                all == documents_nodes(documents@),
                start == (InputView { path: path@, bridges: Seq::empty(), pkgs: Seq::empty() }),
                whole == start.with_documents(all),
                whole == input@.with_documents(all.skip(i as int)),
            decreases documents.len() - i,
        {
            proof {
                assert(all.skip(i as int)[0] == all[i as int]);
                assert(all.skip(i as int).drop_first() =~= all.skip(i + 1));
            }
            input = match input.add_document(&documents[i]) {
                Err(error) => { return Err(error); },
                Ok(next) => next,
            };
            i += 1;
        }
        Ok(input)
    }
}

/// Reads each text as a KDL document. The first text that is none ends
/// the reading with an error.
pub fn parse_inputs_kdl(sources: &Vec<String>) -> (r: Result<Vec<kdl::KdlDocument>, InputError>)
    ensures
        r is Ok == (forall|i: int|
            0 <= i < sources@.len() ==> parsed_document(#[trigger] sources@[i]@) is Some),
        r matches Ok(documents) ==> documents@.len() == sources@.len() && forall|i: int|
            0 <= i < sources@.len() ==> Some(document_nodes(#[trigger] documents@[i]))
                == parsed_document(sources@[i]@),
        r matches Err(error) ==> error is KdlError,
{
    let mut documents: Vec<kdl::KdlDocument> = Vec::new();
    let mut i: usize = 0;
    while i < sources.len()
        invariant
            i <= sources.len(),
            documents@.len() == i,
            forall|k: int|
                0 <= k < i ==> Some(document_nodes(#[trigger] documents@[k])) == parsed_document(
                    sources@[k]@,
                ),
            forall|k: int| 0 <= k < i ==> parsed_document(#[trigger] sources@[k]@) is Some,
        decreases sources.len() - i,
    {
        match parse_document(sources[i].as_str()) {
            Err(error) => {
                assert(parsed_document(sources@[i as int]@) is None);
                return Err(InputError::KdlError(error_text(&error)));
            },
            Ok(document) => { documents.push(document); },
        }
        i += 1;
    }
    Ok(documents)
}

impl Input {
    /// All that the texts of the files below `path` declare. The texts are
    /// read as KDL documents first, all of them, and then gone through in
    /// order.
    pub fn load(path: String, sources: &Vec<String>) -> (r: Result<Input, InputError>)
        ensures
            (exists|i: int|
                0 <= i < sources@.len() && parsed_document(#[trigger] sources@[i]@) is None)
                ==> r matches Err(InputError::KdlError(_)),
            (forall|i: int|
                0 <= i < sources@.len() ==> parsed_document(#[trigger] sources@[i]@) is Some)
                ==> result_view(r) == (InputView {
                path: path@,
                bridges: Seq::empty(),
                pkgs: Seq::empty(),
            }).with_documents(
                Seq::new(sources@.len(), |i: int| parsed_document(sources@[i]@)->0),
            ),
            r matches Ok(input) ==> input@.wf(),
    {
        let documents = match parse_inputs_kdl(sources) {
            Err(error) => { return Err(error); },
            Ok(documents) => documents,
        };
        assert(documents_nodes(documents@) =~= Seq::new(
            sources@.len(),
            |i: int| parsed_document(sources@[i]@)->0,
        ));
        Input::from_documents(path, &documents)
    }
}

} // verus!
