use vstd::prelude::*;

use crate::error::Error;
use crate::strutil::str_eq;

verus! {

/// One XML element as plain data: its local name, its attributes by local
/// name in the parser's order, its concatenated text content, and its
/// child elements in document order.
pub struct XmlNode {
    pub name: String,
    pub attrs: Vec<(String, String)>,
    pub text: String,
    pub children: Vec<XmlNode>,
}

/// minidom's element type, opaque to the verifier; it is only carried from
/// the parser into the reduction below.
#[verifier::external_type_specification]
#[verifier::external_body]
pub struct ExXmlElement(minidom::Element);

/// The element tree that an XML byte stream parses to, or `None` when the
/// bytes are not a well-formed document.
pub uninterp spec fn xml_tree_of(data: Seq<u8>) -> Option<XmlNode>;

/// Relies on minidom::Element::from_reader: parses an XML document; the
/// result is a function of the bytes alone.
#[verifier::external_body]
pub(crate) fn parse_xml(data: &[u8]) -> (r: Result<XmlNode, Error>)
    ensures
        match r {
            Ok(root) => xml_tree_of(data@) == Some(root),
            Err(e) => xml_tree_of(data@) is None && e is Minidom,
        },
{
    match minidom::Element::from_reader(data) {
        Ok(e) => Ok(xml_node_of(&e)),
        Err(e) => Err(Error::Minidom(e.to_string())),
    }
}

/// Relies on minidom::Element::name, attrs, text and children: each
/// element is carried over with its local name, its attribute pairs by
/// local name, its text and its child elements.
#[verifier::external_body]
fn xml_node_of(e: &minidom::Element) -> XmlNode {
    XmlNode {
        name: e.name().to_string(),
        attrs: e.attrs().iter().map(|((_ns, k), v)| (k.to_string(), v.clone())).collect(),
        text: e.text(),
        children: e.children().map(xml_node_of).collect(),
    }
}

/// The value of the first attribute named `key`, if any.
pub open spec fn attr_get(attrs: Seq<(String, String)>, key: Seq<char>) -> Option<Seq<char>>
    decreases attrs.len(),
{
    if attrs.len() == 0 {
        None
    } else if attrs.first().0@ == key {
        Some(attrs.first().1@)
    } else {
        attr_get(attrs.drop_first(), key)
    }
}

/// A scan that has passed `i` attributes without a match has not changed
/// what `attr_get` will find.
proof fn lemma_attr_get_scan(attrs: Seq<(String, String)>, key: Seq<char>, i: int)
    requires
        0 <= i <= attrs.len(),
        forall|j: int| 0 <= j < i ==> attrs[j].0@ != key,
    ensures
        attr_get(attrs, key) == attr_get(attrs.skip(i), key),
    decreases i,
{
    if i == 0 {
        assert(attrs.skip(0) =~= attrs);
    } else {
        assert(attrs.first().0@ != key);
        assert(forall|j: int|
            0 <= j < i - 1 ==> #[trigger] attrs.drop_first()[j].0@ == attrs[j + 1].0@);
        lemma_attr_get_scan(attrs.drop_first(), key, i - 1);
        assert(attrs.drop_first().skip(i - 1) =~= attrs.skip(i));
    }
}

/// Finds the first attribute named `key` of a node.
pub fn node_attr<'a>(node: &'a XmlNode, key: &str) -> (r: Option<&'a String>)
    ensures
        match r {
            Some(v) => attr_get(node.attrs@, key@) == Some(v@),
            None => attr_get(node.attrs@, key@) is None,
        },
{
    let n = node.attrs.len();
    let mut i: usize = 0;
    while i < n
        invariant
            n == node.attrs@.len(),
            i <= n,
            forall|j: int| 0 <= j < i ==> node.attrs@[j].0@ != key@,
        decreases n - i,
    {
        if str_eq(node.attrs[i].0.as_str(), key) {
            proof {
                lemma_attr_get_scan(node.attrs@, key@, i as int);
                assert(node.attrs@.skip(i as int).first() == node.attrs@[i as int]);
                assert(node.attrs@.skip(i as int).len() > 0);
            }
            return Some(&node.attrs[i].1);
        }
        i = i + 1;
    }
    proof {
        lemma_attr_get_scan(node.attrs@, key@, n as int);
        assert(node.attrs@.skip(n as int).len() == 0);
    }
    None
}

} // verus!
