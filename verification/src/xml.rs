//! The WebDAV multistatus documents the servers answer with, read as the
//! flat list of their nodes in document order.
use vstd::prelude::*;
use crate::carddav::opt_view;
use crate::text::{chars_of, eq_chars};

verus! {

/// The `DAV:` namespace.
pub const DAV_NS: &'static str = "DAV:";

/// The CalDAV namespace.
pub const CALDAV_NS: &'static str = "urn:ietf:params:xml:ns:caldav";

/// The CardDAV namespace.
pub const CARDDAV_NS: &'static str = "urn:ietf:params:xml:ns:carddav";

/// Apple's iCal namespace (calendar color, order, description).
pub const APPLE_ICAL_NS: &'static str = "http://apple.com/ns/ical/";

/// One node of a parsed document.
#[derive(Debug, Clone)]
pub struct XmlNode {
    /// The node is an element (not text, a comment or the document root).
    pub is_element: bool,
    /// Namespace URI of the element's name.
    pub namespace: Option<String>,
    /// Local name of the element (empty for other nodes).
    pub name: String,
    /// The node's text: for an element, that of its first child when it is a text node.
    pub text: Option<String>,
    /// Number of nodes in the subtree rooted here, this one included; they
    /// are this node and the ones right after it.
    pub extent: usize,
}

/// Model of a node.
pub struct XmlNodeModel {
    pub is_element: bool,
    pub namespace: Option<Seq<char>>,
    pub name: Seq<char>,
    pub text: Option<Seq<char>>,
    pub extent: nat,
}

impl View for XmlNode {
    type V = XmlNodeModel;

    open spec fn view(&self) -> XmlNodeModel {
        XmlNodeModel {
            is_element: self.is_element,
            namespace: opt_view(self.namespace),
            name: self.name@,
            text: opt_view(self.text),
            extent: self.extent as nat,
        }
    }
}

/// Models of a node list.
pub open spec fn nodes_view(v: Seq<XmlNode>) -> Seq<XmlNodeModel> {
    v.map_values(|n: XmlNode| n@)
}

/// Every subtree lies inside the list.
pub open spec fn well_nested(ns: Seq<XmlNodeModel>) -> bool {
    forall|i: int| 0 <= i < ns.len() ==> 1 <= #[trigger] ns[i].extent && i + ns[i].extent <= ns.len()
}

/// roxmltree: the nodes of `xml` in document order, or the parser's error message.
pub uninterp spec fn xml_document(xml: Seq<char>) -> Result<Seq<XmlNodeModel>, Seq<char>>;

/// Calls `roxmltree::Document::parse` and lists `descendants()` of the
/// document, each with its name, text and subtree size. The contract claims
/// that the result is a function of the text and that every subtree fits in
/// the list, as pre-order traversal guarantees.
#[verifier::external_body]
pub(crate) fn parse_xml(xml: &str) -> (r: Result<Vec<XmlNode>, String>)
    ensures
        match r {
            Ok(v) => xml_document(xml@) == Ok::<Seq<XmlNodeModel>, Seq<char>>(nodes_view(v@))
                && well_nested(nodes_view(v@)),
            Err(e) => xml_document(xml@) == Err::<Seq<XmlNodeModel>, Seq<char>>(e@),
        },
{
    match roxmltree::Document::parse(xml) {
        Ok(doc) => Ok(
            doc.descendants().map(|n| XmlNode {
                is_element: n.is_element(),
                namespace: n.tag_name().namespace().map(|s| s.to_string()),
                name: n.tag_name().name().to_string(),
                text: n.text().map(|s| s.to_string()),
                extent: n.descendants().count(),
            }).collect(),
        ),
        Err(e) => Err(e.to_string()),
    }
}

/// The node is the element `{ns}name` (`Node::has_tag_name`).
pub open spec fn has_tag(n: XmlNodeModel, ns: Seq<char>, name: Seq<char>) -> bool {
    n.is_element && n.namespace == Some(ns) && n.name == name
}

/// First index in `lo..hi` of the element `{ns}name`.
pub open spec fn first_tag_in(nodes: Seq<XmlNodeModel>, lo: int, hi: int, ns: Seq<char>, name: Seq<char>) -> Option<int>
    decreases hi - lo,
{
    if lo >= hi {
        None
    } else if has_tag(nodes[lo], ns, name) {
        Some(lo)
    } else {
        first_tag_in(nodes, lo + 1, hi, ns, name)
    }
}

pub proof fn lemma_first_tag_in_range(nodes: Seq<XmlNodeModel>, lo: int, hi: int, ns: Seq<char>, name: Seq<char>)
    ensures
        match first_tag_in(nodes, lo, hi, ns, name) {
            Some(j) => lo <= j < hi && has_tag(nodes[j], ns, name),
            None => true,
        },
    decreases hi - lo,
{
    if lo < hi && !has_tag(nodes[lo], ns, name) {
        lemma_first_tag_in_range(nodes, lo + 1, hi, ns, name);
    }
}

pub proof fn lemma_first_named_in_range(nodes: Seq<XmlNodeModel>, lo: int, hi: int, name: Seq<char>)
    ensures
        match first_named_in(nodes, lo, hi, name) {
            Some(j) => lo <= j < hi && nodes[j].name == name,
            None => true,
        },
    decreases hi - lo,
{
    if lo < hi && nodes[lo].name != name {
        lemma_first_named_in_range(nodes, lo + 1, hi, name);
    }
}

/// First index in `lo..hi` of a node with local name `name`, in any namespace.
pub open spec fn first_named_in(nodes: Seq<XmlNodeModel>, lo: int, hi: int, name: Seq<char>) -> Option<int>
    decreases hi - lo,
{
    if lo >= hi {
        None
    } else if nodes[lo].name == name {
        Some(lo)
    } else {
        first_named_in(nodes, lo + 1, hi, name)
    }
}

/// The first element `{ns}name` in the subtree of node `i` (`descendants().find(..)`).
pub open spec fn subtree_tag(nodes: Seq<XmlNodeModel>, i: int, ns: Seq<char>, name: Seq<char>) -> Option<int> {
    first_tag_in(nodes, i, i + nodes[i].extent, ns, name)
}

/// The text of the first element `{ns}name` in the subtree of node `i`.
pub open spec fn subtree_text(nodes: Seq<XmlNodeModel>, i: int, ns: Seq<char>, name: Seq<char>) -> Option<Seq<char>> {
    match subtree_tag(nodes, i, ns, name) {
        Some(j) => nodes[j].text,
        None => None,
    }
}

fn same_text(a: &String, b: &str) -> (r: bool)
    ensures
        r == (a@ == b@),
{
    let x = chars_of(a.as_str());
    let y = chars_of(b);
    eq_chars(&x, &y)
}

/// Whether a node is the element `{ns}name`.
pub fn is_tag(n: &XmlNode, ns: &str, name: &str) -> (r: bool)
    ensures
        r == has_tag(n@, ns@, name@),
{
    if !n.is_element {
        return false;
    }
    match &n.namespace {
        Some(x) => same_text(x, ns) && same_text(&n.name, name),
        None => false,
    }
}

/// First index in `lo..hi` of the element `{ns}name`.
pub fn find_tag(nodes: &Vec<XmlNode>, lo: usize, hi: usize, ns: &str, name: &str) -> (r: Option<usize>)
    requires
        lo <= hi <= nodes.len(),
    ensures
        match r {
            Some(j) => first_tag_in(nodes_view(nodes@), lo as int, hi as int, ns@, name@) == Some(j as int),
            None => first_tag_in(nodes_view(nodes@), lo as int, hi as int, ns@, name@) is None,
        },
    decreases hi - lo,
{
    if lo >= hi {
        return None;
    }
    assert(nodes_view(nodes@)[lo as int] == nodes@[lo as int]@);
    if is_tag(&nodes[lo], ns, name) {
        Some(lo)
    } else {
        find_tag(nodes, lo + 1, hi, ns, name)
    }
}

/// First index in `lo..hi` of a node named `name`.
pub fn find_named(nodes: &Vec<XmlNode>, lo: usize, hi: usize, name: &str) -> (r: Option<usize>)
    requires
        lo <= hi <= nodes.len(),
    ensures
        match r {
            Some(j) => first_named_in(nodes_view(nodes@), lo as int, hi as int, name@) == Some(j as int),
            None => first_named_in(nodes_view(nodes@), lo as int, hi as int, name@) is None,
        },
    decreases hi - lo,
{
    if lo >= hi {
        return None;
    }
    assert(nodes_view(nodes@)[lo as int] == nodes@[lo as int]@);
    if same_text(&nodes[lo].name, name) {
        Some(lo)
    } else {
        find_named(nodes, lo + 1, hi, name)
    }
}

/// The text of the first element `{ns}name` in the subtree of node `i`.
pub fn text_in_subtree(nodes: &Vec<XmlNode>, i: usize, ns: &str, name: &str) -> (r: Option<String>)
    requires
        i < nodes.len(),
        well_nested(nodes_view(nodes@)),
    ensures
        opt_view(r) == subtree_text(nodes_view(nodes@), i as int, ns@, name@),
{
    assert(nodes_view(nodes@)[i as int] == nodes@[i as int]@);
    let hi = i + nodes[i].extent;
    proof {
        lemma_first_tag_in_range(nodes_view(nodes@), i as int, hi as int, ns@, name@);
    }
    match find_tag(nodes, i, hi, ns, name) {
        Some(j) => {
            assert(nodes_view(nodes@)[j as int] == nodes@[j as int]@);
            crate::carddav::clone_opt(&nodes[j].text)
        },
        None => None,
    }
}

/// Whether the subtree of node `i` holds the element `{ns}name`.
pub fn subtree_has(nodes: &Vec<XmlNode>, i: usize, ns: &str, name: &str) -> (r: bool)
    requires
        i < nodes.len(),
        well_nested(nodes_view(nodes@)),
    ensures
        r == subtree_tag(nodes_view(nodes@), i as int, ns@, name@) is Some,
{
    assert(nodes_view(nodes@)[i as int] == nodes@[i as int]@);
    let hi = i + nodes[i].extent;
    find_tag(nodes, i, hi, ns, name).is_some()
}

} // verus!
