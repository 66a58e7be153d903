//! A plain XML tree and the queries the feed transform makes of it.

use vstd::prelude::*;
use crate::text::str_eq;

verus! {

/// One child of an element.
#[derive(Debug, PartialEq, Eq)]
pub enum XmlNode {
    Element(XmlElement),
    Comment(String),
    CData(String),
    Text(String),
    ProcessingInstruction(String, Option<String>),
}

/// An XML element with its namespace data, attributes and children.
#[derive(Debug, PartialEq, Eq)]
pub struct XmlElement {
    pub prefix: Option<String>,
    pub namespace: Option<String>,
    /// Namespace declarations in scope, as `(prefix, uri)` pairs.
    pub namespaces: Option<Vec<(String, String)>>,
    /// Local name, without prefix.
    pub name: String,
    /// Attributes as `(name, value)` pairs.
    pub attributes: Vec<(String, String)>,
    pub children: Vec<XmlNode>,
}

/// `n` is an element whose local name is `name`.
pub open spec fn is_element_named(n: XmlNode, name: Seq<char>) -> bool {
    match n {
        XmlNode::Element(e) => e.name@ == name,
        _ => false,
    }
}

/// The element inside `n`; meaningful where `n` is an element.
pub open spec fn element_of(n: XmlNode) -> XmlElement
    recommends
        n is Element,
{
    match n {
        XmlNode::Element(e) => e,
        _ => arbitrary(),
    }
}

/// The first element of `s` named `name`.
pub open spec fn first_named(s: Seq<XmlNode>, name: Seq<char>) -> Option<XmlElement>
    decreases s.len(),
{
    if s.len() == 0 {
        None
    } else {
        match first_named(s.drop_last(), name) {
            Some(e) => Some(e),
            None => if is_element_named(s.last(), name) {
                Some(element_of(s.last()))
            } else {
                None
            },
        }
    }
}

/// The text of a text or character-data node.
pub open spec fn text_piece(n: XmlNode) -> Option<Seq<char>> {
    match n {
        XmlNode::Text(t) => Some(t@),
        XmlNode::CData(t) => Some(t@),
        _ => None,
    }
}

/// Whether `s` holds a text or character-data node.
pub open spec fn has_text(s: Seq<XmlNode>) -> bool
    decreases s.len(),
{
    if s.len() == 0 {
        false
    } else {
        has_text(s.drop_last()) || text_piece(s.last()) is Some
    }
}

/// The text and character data of `s`, joined in order.
pub open spec fn joined_text(s: Seq<XmlNode>) -> Seq<char>
    decreases s.len(),
{
    if s.len() == 0 {
        Seq::empty()
    } else {
        match text_piece(s.last()) {
            Some(t) => joined_text(s.drop_last()) + t,
            None => joined_text(s.drop_last()),
        }
    }
}

/// The text of an element: none where it has no text child.
pub open spec fn element_text(e: XmlElement) -> Option<Seq<char>> {
    if has_text(e.children@) {
        Some(joined_text(e.children@))
    } else {
        None
    }
}

/// The text of the first child element of `e` named `name`.
pub open spec fn child_text(e: XmlElement, name: Seq<char>) -> Option<Seq<char>> {
    match first_named(e.children@, name) {
        Some(c) => element_text(c),
        None => None,
    }
}

/// Whether `n` is an element named `name`.
pub fn node_is_named(n: &XmlNode, name: &str) -> (r: bool)
    ensures
        r == is_element_named(*n, name@),
{
    match n {
        XmlNode::Element(e) => str_eq(e.name.as_str(), name),
        _ => false,
    }
}

/// The text of `e`: its text and character-data children joined, or `None`
/// where it has none.
pub fn text_of(e: &XmlElement) -> (r: Option<String>)
    ensures
        match r {
            Some(t) => element_text(*e) == Some(t@),
            None => element_text(*e) is None,
        },
{
    let s = &e.children;
    let mut acc = String::new();
    let mut found = false;
    let mut i: usize = 0;
    while i < s.len()
        invariant
            i <= s@.len(),
            s@ == e.children@,
            found == has_text(s@.subrange(0, i as int)),
            acc@ == joined_text(s@.subrange(0, i as int)),
        decreases s@.len() - i,
    {
        assert(s@.subrange(0, i + 1).drop_last() == s@.subrange(0, i as int));
        match &s[i] {
            XmlNode::Text(t) => {
                acc.append(t.as_str());
                found = true;
            },
            XmlNode::CData(t) => {
                acc.append(t.as_str());
                found = true;
            },
            _ => {},
        }
        i = i + 1;
    }
    assert(s@.subrange(0, i as int) == s@);
    if found {
        Some(acc)
    } else {
        None
    }
}

/// The text of the first child element of `e` named `name`.
pub fn text_of_child(e: &XmlElement, name: &str) -> (r: Option<String>)
    ensures
        match r {
            Some(t) => child_text(*e, name@) == Some(t@),
            None => child_text(*e, name@) is None,
        },
{
    let s = &e.children;
    let mut i: usize = 0;
    while i < s.len()
        invariant
            i <= s@.len(),
            s@ == e.children@,
            first_named(s@.subrange(0, i as int), name@) is None,
        decreases s@.len() - i,
    {
        assert(s@.subrange(0, i + 1).drop_last() == s@.subrange(0, i as int));
        if node_is_named(&s[i], name) {
            match &s[i] {
                XmlNode::Element(c) => {
                    assert(first_named(s@.subrange(0, i + 1), name@) == Some(*c));
                    proof {
                        lemma_first_named_prefix(s@, i as int + 1, name@);
                    }
                    return text_of(c);
                },
                _ => {},
            }
        }
        i = i + 1;
    }
    assert(s@.subrange(0, i as int) == s@);
    None
}

/// A match within a prefix is the first match of the whole sequence.
pub proof fn lemma_first_named_prefix(s: Seq<XmlNode>, k: int, name: Seq<char>)
    requires
        0 <= k <= s.len(),
        first_named(s.subrange(0, k), name) is Some,
    ensures
        first_named(s, name) == first_named(s.subrange(0, k), name),
    decreases s.len() - k,
{
    if k < s.len() {
        assert(s.subrange(0, k + 1).drop_last() == s.subrange(0, k));
        lemma_first_named_prefix(s, k + 1, name);
    } else {
        assert(s.subrange(0, k) == s);
    }
}

} // verus!
