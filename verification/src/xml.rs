//! An owned XML node tree and the trusted parser behind it.
//!
//! The configuration document arrives as XML text.  Parsing is delegated to
//! the `roxmltree` crate; its node tree is carried over, node for node, into
//! the library's own [`XmlNode`] type, which all decoding logic works on.

use vstd::prelude::*;
use crate::strings::str_eq;

verus! {

/// One node of an XML document: its element tag name (empty for non-element
/// nodes such as text), its attributes in document order, and its child
/// nodes in document order.
pub struct XmlNode {
    pub tag: String,
    pub attrs: Vec<(String, String)>,
    pub children: Vec<XmlNode>,
}

/// The root node tree that parsing `s` as XML yields, or `None` when `s` is
/// not well-formed XML.  Names what `roxmltree::Document::parse` returns.
pub uninterp spec fn xml_tree(s: Seq<char>) -> Option<XmlNode>;

#[verifier::external_type_specification]
#[verifier::external_body]
pub struct ExNode<'a, 'input: 'a>(roxmltree::Node<'a, 'input>);

/// Relies on roxmltree's node accessors: `tag_name().name()` (the empty name
/// for non-element nodes), `attributes()` (name and value of each attribute,
/// in document order) and `children()` (all child nodes, in document order).
/// Carries one parsed node over into an owned node, child for child.
#[verifier::external_body]
fn convert_node(node: roxmltree::Node<'_, '_>) -> XmlNode {
    XmlNode {
        tag: node.tag_name().name().to_string(),
        attrs: node.attributes().map(
            |a| (a.name().to_string(), a.value().to_string()),
        ).collect(),
        children: node.children().map(convert_node).collect(),
    }
}

/// Relies on roxmltree's `Document::parse`: parses `text` as XML and hands
/// back the root element's node tree, or `None` when the text is not
/// well-formed XML.
#[verifier::external_body]
pub fn parse_xml(text: &str) -> (r: Option<XmlNode>)
    ensures
        r == xml_tree(text@),
{
    match roxmltree::Document::parse(text) {
        Ok(doc) => Some(convert_node(doc.root_element())),
        Err(_) => None,
    }
}

// ---------------------------------------------------------------------------
// Lookups over the owned tree
// ---------------------------------------------------------------------------

/// The value of the first attribute named `key`, if any.
pub open spec fn attr_of(pairs: Seq<(String, String)>, key: Seq<char>) -> Option<Seq<char>>
    decreases pairs.len(),
{
    if pairs.len() == 0 {
        None
    } else if pairs[0].0@ == key {
        Some(pairs[0].1@)
    } else {
        attr_of(pairs.drop_first(), key)
    }
}

/// Whether `n` is an element node.
pub open spec fn is_element(n: XmlNode) -> bool {
    n.tag@.len() > 0
}

/// The first element child of `n`, if any.
pub open spec fn first_element(children: Seq<XmlNode>) -> Option<XmlNode>
    decreases children.len(),
{
    if children.len() == 0 {
        None
    } else if is_element(children[0]) {
        Some(children[0])
    } else {
        first_element(children.drop_first())
    }
}

/// The first `<attr name="key">` child of an `<attrs>` node, if any.
pub open spec fn attr_child(children: Seq<XmlNode>, key: Seq<char>) -> Option<XmlNode>
    decreases children.len(),
{
    if children.len() == 0 {
        None
    } else if children[0].tag@ == "attr"@ && attr_of(children[0].attrs@, "name"@) == Some(key) {
        Some(children[0])
    } else {
        attr_child(children.drop_first(), key)
    }
}

/// The value node bound to `key` under the `<attrs>` node `n`: the first
/// element child of the first matching `<attr>` child.
pub open spec fn key_node(n: XmlNode, key: Seq<char>) -> Option<XmlNode> {
    match attr_child(n.children@, key) {
        Some(a) => first_element(a.children@),
        None => None,
    }
}

/// The `value` attribute of `n`, if any.
pub open spec fn node_value(n: XmlNode) -> Option<Seq<char>> {
    attr_of(n.attrs@, "value"@)
}

/// Looks up the first attribute of `n` named `key`.
pub fn attr_value<'a>(n: &'a XmlNode, key: &str) -> (r: Option<&'a String>)
    ensures
        match r {
            Some(v) => attr_of(n.attrs@, key@) == Some(v@),
            None => attr_of(n.attrs@, key@) is None,
        },
{
    let ghost pairs = n.attrs@;
    let mut i: usize = 0;
    proof {
        assert(pairs.subrange(0, pairs.len() as int) =~= pairs);
    }
    while i < n.attrs.len()
        invariant
            i <= pairs.len(),
            pairs == n.attrs@,
            attr_of(pairs, key@) == attr_of(pairs.subrange(i as int, pairs.len() as int), key@),
        decreases pairs.len() - i,
    {
        let ghost tail = pairs.subrange(i as int, pairs.len() as int);
        proof {
            assert(tail[0] == pairs[i as int]);
            assert(tail.drop_first() =~= pairs.subrange(i + 1 as int, pairs.len() as int));
        }
        if str_eq(n.attrs[i].0.as_str(), key) {
            return Some(&n.attrs[i].1);
        }
        i = i + 1;
    }
    None
}

/// The `value` attribute of `n`, if any.
pub fn value_of<'a>(n: &'a XmlNode) -> (r: Option<&'a String>)
    ensures
        match r {
            Some(v) => node_value(*n) == Some(v@),
            None => node_value(*n) is None,
        },
{
    attr_value(n, "value")
}

/// The first element child of `n`, if any.
pub fn first_element_child<'a>(n: &'a XmlNode) -> (r: Option<&'a XmlNode>)
    ensures
        match r {
            Some(c) => first_element(n.children@) == Some(*c),
            None => first_element(n.children@) is None,
        },
{
    let ghost cs = n.children@;
    let mut i: usize = 0;
    proof {
        assert(cs.subrange(0, cs.len() as int) =~= cs);
    }
    while i < n.children.len()
        invariant
            i <= cs.len(),
            cs == n.children@,
            first_element(cs) == first_element(cs.subrange(i as int, cs.len() as int)),
        decreases cs.len() - i,
    {
        let ghost tail = cs.subrange(i as int, cs.len() as int);
        proof {
            assert(tail[0] == cs[i as int]);
            assert(tail.drop_first() =~= cs.subrange(i + 1 as int, cs.len() as int));
        }
        if n.children[i].tag.unicode_len() > 0 {
            return Some(&n.children[i]);
        }
        i = i + 1;
    }
    None
}

/// The value node bound to `key` under the `<attrs>` node `n`, if any.
pub fn lookup_key<'a>(n: &'a XmlNode, key: &str) -> (r: Option<&'a XmlNode>)
    ensures
        match r {
            Some(c) => key_node(*n, key@) == Some(*c),
            None => key_node(*n, key@) is None,
        },
{
    let ghost cs = n.children@;
    let mut i: usize = 0;
    proof {
        assert(cs.subrange(0, cs.len() as int) =~= cs);
    }
    while i < n.children.len()
        invariant
            i <= cs.len(),
            cs == n.children@,
            attr_child(cs, key@) == attr_child(cs.subrange(i as int, cs.len() as int), key@),
        decreases cs.len() - i,
    {
        let ghost tail = cs.subrange(i as int, cs.len() as int);
        proof {
            assert(tail[0] == cs[i as int]);
            assert(tail.drop_first() =~= cs.subrange(i + 1 as int, cs.len() as int));
        }
        let child = &n.children[i];
        if str_eq(child.tag.as_str(), "attr") {
            let name_matches: bool = match attr_value(child, "name") {
                Some(v) => str_eq(v.as_str(), key),
                None => false,
            };
            if name_matches {
                return first_element_child(child);
            }
        }
        i = i + 1;
    }
    None
}

} // verus!
