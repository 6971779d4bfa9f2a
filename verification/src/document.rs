//! KDL documents, as far as the library reads them.
//!
//! Parsing is the `kdl` crate's. What a parsed document holds is spoken of
//! here as a tree of plain values, and the functions of this module read
//! one node, one entry or one value of a document at a time.
use vstd::prelude::*;

verus! {

/// `kdl::KdlDocument`, a parsed document. Nothing of what is inside is known here.
#[verifier::external_type_specification]
#[verifier::external_body]
pub struct ExKdlDocument(kdl::KdlDocument);

/// `kdl::KdlNode`, a node of a document. Nothing of what is inside is known here.
#[verifier::external_type_specification]
#[verifier::external_body]
pub struct ExKdlNode(kdl::KdlNode);

/// `kdl::KdlEntry`, an entry of a node. Nothing of what is inside is known here.
#[verifier::external_type_specification]
#[verifier::external_body]
pub struct ExKdlEntry(kdl::KdlEntry);

/// `kdl::KdlError`, why a text is no document. Nothing of what is inside is known here.
#[verifier::external_type_specification]
#[verifier::external_body]
pub struct ExKdlError(kdl::KdlError);

/// The value of an entry. A number with a fraction is held as the text
/// that stands for it.
#[derive(Debug, Clone, PartialEq, Eq)]
pub enum Value {
    String(String),
    Integer(i128),
    Float(String),
    Boolean(bool),
    Null,
}

pub enum ValueView {
    String(Seq<char>),
    Integer(i128),
    Float(Seq<char>),
    Boolean(bool),
    Null,
}

impl View for Value {
    type V = ValueView;

    open spec fn view(&self) -> ValueView {
        match self {
            Value::String(s) => ValueView::String(s@),
            Value::Integer(i) => ValueView::Integer(*i),
            Value::Float(t) => ValueView::Float(t@),
            Value::Boolean(b) => ValueView::Boolean(*b),
            Value::Null => ValueView::Null,
        }
    }
}

/// What an entry holds: its name as it is written, if it has one, its
/// value, and its value as it is written.
pub struct EntryView {
    pub name: Option<Seq<char>>,
    pub value: ValueView,
    pub text: Seq<char>,
}

/// What a node holds: its name as it is written, its name as it is meant
/// (without quotes), its entries in order, and its children, if it has a
/// block of children.
pub struct NodeView {
    pub name: Seq<char>,
    pub key: Seq<char>,
    pub entries: Seq<EntryView>,
    pub children: Option<Seq<NodeView>>,
}

/// The nodes of a document, in order.
pub uninterp spec fn document_nodes(doc: kdl::KdlDocument) -> Seq<NodeView>;

/// What a node holds.
pub uninterp spec fn node_content(node: kdl::KdlNode) -> NodeView;

/// What an entry holds.
pub uninterp spec fn entry_content(entry: kdl::KdlEntry) -> EntryView;

/// The nodes of the document that a text spells, if it spells one.
pub uninterp spec fn parsed_document(text: Seq<char>) -> Option<Seq<NodeView>>;

/// The position of the first node whose name is `key`, or `nodes.len()`
/// when there is none.
pub open spec fn first_named(nodes: Seq<NodeView>, key: Seq<char>) -> int
    decreases nodes.len(),
{
    if nodes.len() == 0 || nodes[0].key == key {
        0
    } else {
        1 + first_named(nodes.drop_first(), key)
    }
}

/// What `first_named` gives is in range.
pub proof fn lemma_first_named(nodes: Seq<NodeView>, key: Seq<char>)
    ensures
        0 <= first_named(nodes, key) <= nodes.len(),
        first_named(nodes, key) < nodes.len() ==> nodes[first_named(nodes, key)].key == key,
        forall|j: int| 0 <= j < first_named(nodes, key) ==> nodes[j].key != key,
    decreases nodes.len(),
{
    if nodes.len() == 0 || nodes[0].key == key {
    } else {
        let rest = nodes.drop_first();
        lemma_first_named(rest, key);
        assert forall|j: int| 0 <= j < first_named(nodes, key) implies nodes[j].key != key by {
            if j > 0 {
                assert(rest[j - 1] == nodes[j]);
            }
        }
    }
}

/// `KdlDocument::parse` reads a text as a document, or refuses it.
#[verifier::external_body]
pub(crate) fn parse_document(text: &str) -> (r: Result<kdl::KdlDocument, kdl::KdlError>)
    ensures
        r is Ok == parsed_document(text@) is Some,
        r matches Ok(doc) ==> Some(document_nodes(doc)) == parsed_document(text@),
{
    kdl::KdlDocument::parse(text)
}

/// `KdlError` shown as text.
#[verifier::external_body]
pub(crate) fn error_text(error: &kdl::KdlError) -> (s: String) {
    error.to_string()
}

/// `KdlDocument::nodes` gives the nodes of a document, in order.
#[verifier::external_body]
pub(crate) fn nodes_of(doc: &kdl::KdlDocument) -> (nodes: &[kdl::KdlNode])
    ensures
        nodes@.len() == document_nodes(*doc).len(),
        forall|i: int|
            0 <= i < nodes@.len() ==> node_content(#[trigger] nodes@[i]) == document_nodes(*doc)[i],
{
    doc.nodes()
}

/// `KdlDocument::get` gives the first node of a document whose name is
/// `key`, the name taken as it is meant.
#[verifier::external_body]
pub(crate) fn node_named<'a>(doc: &'a kdl::KdlDocument, key: &str) -> (r: Option<&'a kdl::KdlNode>)
    ensures
        r is Some == (first_named(document_nodes(*doc), key@) < document_nodes(*doc).len()),
        r matches Some(node) ==> node_content(*node) == document_nodes(*doc)[first_named(
            document_nodes(*doc),
            key@,
        )],
{
    doc.get(key)
}

/// `KdlNode::name`, shown as it is written.
#[verifier::external_body]
pub(crate) fn node_name(node: &kdl::KdlNode) -> (s: String)
    ensures
        s@ == node_content(*node).name,
{
    node.name().to_string()
}

/// `KdlNode::children` gives the block of children of a node, if it has
/// one.
#[verifier::external_body]
pub(crate) fn node_children(node: &kdl::KdlNode) -> (r: Option<&kdl::KdlDocument>)
    ensures
        r is Some == node_content(*node).children is Some,
        r matches Some(doc) ==> Some(document_nodes(*doc)) == node_content(*node).children,
{
    node.children()
}

/// `KdlNode::entries` gives the entries of a node, in order.
#[verifier::external_body]
pub(crate) fn entries_of(node: &kdl::KdlNode) -> (entries: &[kdl::KdlEntry])
    ensures
        entries@.len() == node_content(*node).entries.len(),
        forall|i: int|
            0 <= i < entries@.len() ==> entry_content(#[trigger] entries@[i]) == node_content(
                *node,
            ).entries[i],
{
    node.entries()
}

/// `KdlEntry::name`, shown as it is written.
#[verifier::external_body]
pub(crate) fn entry_name(entry: &kdl::KdlEntry) -> (r: Option<String>)
    ensures
        crate::model::option_view(r) == entry_content(*entry).name,
{
    entry.name().map(|name| name.to_string())
}

/// `KdlEntry::value`, variant by variant. A float is given as the text
/// that `f64::to_string` writes for it.
#[verifier::external_body]
pub(crate) fn entry_value(entry: &kdl::KdlEntry) -> (value: Value)
    ensures
        value@ == entry_content(*entry).value,
{
    match entry.value() {
        kdl::KdlValue::String(s) => Value::String(s.clone()),
        kdl::KdlValue::Integer(i) => Value::Integer(*i),
        kdl::KdlValue::Float(f) => Value::Float(f.to_string()),
        kdl::KdlValue::Bool(b) => Value::Boolean(*b),
        kdl::KdlValue::Null => Value::Null,
    }
}

/// `KdlEntry::value`, shown as it is written.
#[verifier::external_body]
pub(crate) fn entry_text(entry: &kdl::KdlEntry) -> (s: String)
    ensures
        s@ == entry_content(*entry).text,
{
    entry.value().to_string()
}

} // verus!
