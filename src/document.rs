use crate::config::{ConfigError, Fault};
use vstd::prelude::*;

verus! {

/// Byte range of a node in the text it was parsed from.
#[derive(Debug, Clone, Copy, PartialEq, Eq, Structural)]
pub struct Span {
    pub offset: usize,
    pub len: usize,
}

/// A node of a parsed document, holding what configuration and layout
/// reading look at: its name, for each of its entries in order the entry's
/// value when that value is a string, its children block if it has one, and
/// where it stands.
#[derive(Debug, PartialEq, Eq)]
pub struct Node {
    pub name: String,
    pub entries: Vec<Option<String>>,
    pub children: Option<Vec<Node>>,
    pub span: Span,
}

/// kdl's parse error, carried to the caller for its diagnostics.
#[verifier::external_type_specification]
#[verifier::external_body]
pub struct ExKdlError(kdl::KdlError);

/// kdl's parsed node, read only while it is copied into a `Node`.
#[verifier::external_type_specification]
#[verifier::external_body]
pub struct ExKdlNode(kdl::KdlNode);

/// The nodes that the KDL v2 grammar reads from `text`, or `None` where
/// `text` is not a well-formed document.
pub uninterp spec fn kdl_document(text: Seq<char>) -> Option<Seq<Node>>;

/// Relies on kdl's `KdlDocument::parse_v2`: parses a KDL v2 document, and
/// fails exactly when the text is not one. The result depends on the text
/// alone.
#[verifier::external_body]
fn kdl_parse_v2(text: &str) -> (r: Result<Vec<Node>, kdl::KdlError>)
    ensures
        match r {
            Ok(nodes) => kdl_document(text@) == Some(nodes@),
            Err(_) => kdl_document(text@) is None,
        },
{
    let doc = kdl::KdlDocument::parse_v2(text)?;
    Ok(doc.nodes().iter().map(node_from_kdl).collect())
}

/// Parses the text of a KDL v2 document into its nodes.
pub fn parse_document(text: &str) -> (r: Result<Vec<Node>, ConfigError>)
    ensures
        match r {
            Ok(nodes) => kdl_document(text@) == Some(nodes@),
            Err(e) => kdl_document(text@) is None && e.fault() == Fault::Syntax,
        },
{
    match kdl_parse_v2(text) {
        Ok(nodes) => Ok(nodes),
        Err(e) => Err(ConfigError::Syntax(e)),
    }
}

/// Relies on kdl's `KdlNode` accessors `name`, `entries`, `children` and
/// `span`, and on `KdlValue::as_string`, to copy one parsed node and its
/// children into a `Node`. Its only caller is `kdl_parse_v2`, whose
/// contract covers the copy.
#[verifier::external_body]
fn node_from_kdl(n: &kdl::KdlNode) -> (r: Node) {
    Node {
        name: n.name().value().to_owned(),
        entries: n.entries().iter().map(|e| e.value().as_string().map(|s| s.to_owned())).collect(),
        children: n.children().map(|d| d.nodes().iter().map(node_from_kdl).collect()),
        span: Span { offset: n.span().offset(), len: n.span().len() },
    }
}

/// The value of the first entry of `n`, when it is a string.
pub open spec fn first_string(n: Node) -> Option<Seq<char>> {
    if n.entries@.len() > 0 && n.entries@[0] is Some {
        Some(n.entries@[0]->0@)
    } else {
        None
    }
}

/// Index of the first node at or after `i` named `name`.
pub open spec fn first_named_from(nodes: Seq<Node>, name: Seq<char>, i: int) -> Option<int>
    decreases nodes.len() - i,
{
    if i < 0 || i >= nodes.len() {
        None
    } else if nodes[i].name@ == name {
        Some(i)
    } else {
        first_named_from(nodes, name, i + 1)
    }
}

/// The first node named `name`, if any.
pub open spec fn lookup(nodes: Seq<Node>, name: Seq<char>) -> Option<Node> {
    match first_named_from(nodes, name, 0) {
        Some(i) => Some(nodes[i]),
        None => None,
    }
}

/// The first node of `nodes` named `name`.
pub fn get<'a>(nodes: &'a Vec<Node>, name: &str) -> (r: Option<&'a Node>)
    ensures
        match r {
            Some(n) => lookup(nodes@, name@) == Some(*n),
            None => lookup(nodes@, name@) is None,
        },
{
    let wanted = name.to_owned();
    let mut i: usize = 0;
    while i < nodes.len()
        invariant
            i <= nodes@.len(),
            wanted@ == name@,
            first_named_from(nodes@, name@, 0) == first_named_from(nodes@, name@, i as int),
        decreases nodes@.len() - i,
    {
        if nodes[i].name == wanted {
            return Some(&nodes[i]);
        }
        i = i + 1;
    }
    None
}

} // verus!
