use crate::config::{ConfigError, Fault};
use crate::document::{get, kdl_document, lookup, parse_document, Node};
use vstd::prelude::*;

verus! {

/// The repositories a bootstrap brings in, in the order the layout lists them.
#[derive(Debug, Clone, PartialEq, Eq)]
pub struct Layout {
    pub repos: Vec<String>,
}

/// Names of `nodes`, in order.
pub open spec fn node_names(nodes: Seq<Node>) -> Seq<Seq<char>> {
    nodes.map_values(|n: Node| n.name@)
}

/// Repository identifiers listed by a layout document: the names of the
/// children of its `repositories` node, which must have at least one.
pub open spec fn layout_spec(doc: Seq<Node>) -> Result<Seq<Seq<char>>, Fault> {
    match lookup(doc, "repositories"@) {
        None => Err(Fault::MissingNode("repositories"@)),
        Some(n) => match n.children {
            None => Err(Fault::EmptyNode("repositories"@, n.span)),
            Some(c) => if c@.len() == 0 {
                Err(Fault::EmptyNode("repositories"@, n.span))
            } else {
                Ok(node_names(c@))
            },
        },
    }
}

pub open spec fn layout_outcome(r: Result<Layout, ConfigError>) -> Result<Seq<Seq<char>>, Fault> {
    match r {
        Ok(l) => Ok(l.repos@.map_values(|s: String| s@)),
        Err(e) => Err(e.fault()),
    }
}

/// Reads the repository list from a parsed layout document.
pub fn layout_from_document(doc: &Vec<Node>) -> (r: Result<Layout, ConfigError>)
    ensures
        layout_outcome(r) == layout_spec(doc@),
{
    let node = match get(doc, "repositories") {
        Some(node) => node,
        None => {
            return Err(ConfigError::MissingNode { node: "repositories".to_owned() });
        },
    };
    let children = match &node.children {
        Some(children) => children,
        None => {
            return Err(ConfigError::EmptyNode { node: "repositories".to_owned(), span: node.span });
        },
    };
    if children.len() == 0 {
        return Err(ConfigError::EmptyNode { node: "repositories".to_owned(), span: node.span });
    }
    let mut repos: Vec<String> = Vec::new();
    let mut i: usize = 0;
    while i < children.len()
        invariant
            i <= children@.len(),
            repos@.len() == i,
            forall|j: int| 0 <= j < i ==> #[trigger] repos@[j]@ == children@[j].name@,
        decreases children@.len() - i,
    {
        repos.push(children[i].name.clone());
        i = i + 1;
    }
    let layout = Layout { repos };
    assert(layout.repos@.map_values(|s: String| s@) =~= node_names(children@));
    Ok(layout)
}

/// Reads the repository list from the text of a layout file.
pub fn load_layout(text: &str) -> (r: Result<Layout, ConfigError>)
    ensures
        match kdl_document(text@) {
            None => r matches Err(e) && e.fault() == Fault::Syntax,
            Some(doc) => layout_outcome(r) == layout_spec(doc),
        },
{
    match parse_document(text) {
        Ok(doc) => layout_from_document(&doc),
        Err(e) => Err(e),
    }
}

/// A layout whose `repositories` node has N children lists exactly those N
/// names, in document order; one without that node, or with the node but no
/// children, is refused.
pub proof fn lemma_layout_lists_children(doc: Seq<Node>)
    ensures
        lookup(doc, "repositories"@) is None ==> layout_spec(doc) is Err,
        lookup(doc, "repositories"@) matches Some(n) ==> (n.children is None ==> layout_spec(
            doc,
        ) is Err),
        lookup(doc, "repositories"@) matches Some(n) ==> (n.children matches Some(c) ==> (
        c@.len() == 0 <==> layout_spec(doc) is Err)),
        lookup(doc, "repositories"@) matches Some(n) ==> (n.children matches Some(c) ==> (
        layout_spec(doc) matches Ok(names) ==> names.len() == c@.len() && forall|i: int|
            0 <= i < c@.len() ==> #[trigger] names[i] == c@[i].name@)),
{
}

} // verus!
