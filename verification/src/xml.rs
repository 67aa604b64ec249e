//! The nodes of an XML document as plain values, read with `roxmltree`.

use vstd::prelude::*;

verus! {

/// `roxmltree::Error`: why a text is not a well-formed XML document.
#[verifier::external_type_specification]
#[verifier::external_body]
pub struct ExXmlError(roxmltree::Error);

/// One node of a document. The nodes of a document stand in document order,
/// and a node refers to its parent by the parent's place in that order.
#[derive(Debug)]
pub struct XmlNode {
    /// Whether the node is an element, and not text, a comment or the like.
    pub element: bool,
    /// The local name of the element's tag; empty for other nodes.
    pub name: String,
    /// The place of the parent node, where the node has one.
    pub parent: Option<usize>,
    /// The value of the attribute that the document was read for, where the
    /// node carries it.
    pub attribute: Option<String>,
}

/// What a node holds, as plain values.
pub struct NodeView {
    pub element: bool,
    pub name: Seq<char>,
    pub parent: Option<int>,
    pub attribute: Option<Seq<char>>,
}

impl View for XmlNode {
    type V = NodeView;

    open spec fn view(&self) -> NodeView {
        NodeView {
            element: self.element,
            name: self.name@,
            parent: match self.parent {
                Some(p) => Some(p as int),
                None => None,
            },
            attribute: match self.attribute {
                Some(a) => Some(a@),
                None => None,
            },
        }
    }
}

/// The nodes of a list as plain values.
pub open spec fn node_views(nodes: Seq<XmlNode>) -> Seq<NodeView> {
    nodes.map_values(|n: XmlNode| n@)
}

/// What `roxmltree::Document::parse` makes of `text`: the nodes of the
/// document in document order, each with its tag name, its parent and its value
/// of the attribute named `attribute`; or `None` where it rejects the text.
pub uninterp spec fn xml_nodes(text: Seq<char>, attribute: Seq<char>) -> Option<Seq<NodeView>>;

/// Parses `text` with `roxmltree::Document::parse` and copies out, for each
/// node that `descendants` yields from the root, whether it is an element, the
/// local name of its tag, the number of its parent and what `attribute` returns
/// for the given attribute name. `roxmltree` numbers the nodes in the order in
/// which `descendants` yields them, from zero.
#[verifier::external_body]
pub(crate) fn read_nodes(text: &str, attribute: &str) -> (nodes: Result<
    Vec<XmlNode>,
    roxmltree::Error,
>)
    ensures
        match nodes {
            Ok(n) => xml_nodes(text@, attribute@) == Some(node_views(n@)),
            Err(_) => xml_nodes(text@, attribute@) is None,
        },
{
    let doc = roxmltree::Document::parse(text)?;
    Ok(
        doc.descendants().map(
            |n|
                XmlNode {
                    element: n.is_element(),
                    name: n.tag_name().name().to_string(),
                    parent: n.parent().map(|p| p.id().get_usize()),
                    attribute: n.attribute(attribute).map(str::to_string),
                },
        ).collect(),
    )
}

} // verus!
