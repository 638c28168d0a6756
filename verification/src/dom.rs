//! The document tree: text and element nodes with an ordered attribute
//! mapping. The tree is an immutable input to styling and layout.

use vstd::prelude::*;
use crate::strutil::{split_classes, split_spaces, str_eq};

verus! {

/// An ordered mapping from attribute name to attribute value. A later
/// entry for the same name shadows an earlier one.
#[derive(Debug)]
pub struct AttrMap {
    pub entries: Vec<(String, String)>,
}

/// The value bound to `name`: the last entry with that name, if any.
pub open spec fn attr_get(entries: Seq<(String, String)>, name: Seq<char>) -> Option<Seq<char>>
    decreases entries.len(),
{
    if entries.len() == 0 {
        None
    } else if entries.last().0@ == name {
        Some(entries.last().1@)
    } else {
        attr_get(entries.drop_last(), name)
    }
}

impl AttrMap {
    pub open spec fn get_spec(&self, name: Seq<char>) -> Option<Seq<char>> {
        attr_get(self.entries@, name)
    }

    pub fn new() -> (r: AttrMap)
        ensures
            r.entries@ =~= Seq::<(String, String)>::empty(),
    {
        AttrMap { entries: Vec::new() }
    }

    pub fn insert(&mut self, name: String, value: String)
        ensures
            final(self).entries@ =~= old(self).entries@.push((name, value)),
    {
        self.entries.push((name, value));
    }

    pub fn get(&self, name: &str) -> (r: Option<&String>)
        ensures
            match r {
                Some(v) => self.get_spec(name@) == Some(v@),
                None => self.get_spec(name@) is None,
            },
    {
        let mut i: usize = self.entries.len();
        proof {
            assert(self.entries@.subrange(0, i as int) =~= self.entries@);
        }
        while i > 0
            invariant
                0 <= i <= self.entries.len(),
                attr_get(self.entries@, name@) == attr_get(
                    self.entries@.subrange(0, i as int),
                    name@,
                ),
            decreases i,
        {
            i = i - 1;
            proof {
                assert(self.entries@.subrange(0, i as int + 1).drop_last() =~= self
                    .entries@
                    .subrange(0, i as int));
                assert(self.entries@.subrange(0, i as int + 1).last() == self.entries@[i as int]);
            }
            let entry = &self.entries[i];
            if str_eq(entry.0.as_str(), name) {
                return Some(&entry.1);
            }
        }
        proof {
            assert(self.entries@.subrange(0, 0) =~= Seq::<(String, String)>::empty());
        }
        None
    }
}

/// A document node: its children in order and its own content.
#[derive(Debug)]
pub struct Node {
    pub children: Vec<Node>,
    pub node_type: NodeType,
}

#[derive(Debug)]
pub enum NodeType {
    Text(String),
    Element(ElementData),
}

/// An element: tag name and attributes.
#[derive(Debug)]
pub struct ElementData {
    pub tag_name: String,
    pub attributes: AttrMap,
}

impl ElementData {
    /// The element's id attribute, if present.
    pub open spec fn id_spec(&self) -> Option<Seq<char>> {
        self.attributes.get_spec("id"@)
    }

    /// The element's class names: the `class` attribute split at spaces,
    /// or nothing when the attribute is absent.
    pub open spec fn classes_spec(&self) -> Seq<Seq<char>> {
        match self.attributes.get_spec("class"@) {
            Some(list) => split_spaces(list),
            None => Seq::empty(),
        }
    }

    pub fn id(&self) -> (r: Option<&String>)
        ensures
            match r {
                Some(v) => self.id_spec() == Some(v@),
                None => self.id_spec() is None,
            },
    {
        self.attributes.get("id")
    }

    pub fn classes(&self) -> (r: Vec<String>)
        ensures
            r.deep_view() =~= self.classes_spec(),
    {
        match self.attributes.get("class") {
            Some(classlist) => split_classes(classlist.as_str()),
            None => Vec::new(),
        }
    }
}

/// Builds a text node.
pub fn text(data: String) -> (n: Node)
    ensures
        n.children@ =~= Seq::<Node>::empty(),
        n.node_type == NodeType::Text(data),
{
    Node { children: Vec::new(), node_type: NodeType::Text(data) }
}

/// Builds an element node.
pub fn elem(name: String, attrs: AttrMap, children: Vec<Node>) -> (n: Node)
    ensures
        n.children == children,
        n.node_type == NodeType::Element(ElementData { tag_name: name, attributes: attrs }),
{
    Node {
        children,
        node_type: NodeType::Element(ElementData { tag_name: name, attributes: attrs }),
    }
}

} // verus!
