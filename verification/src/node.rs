//! The tree nodes: `XMLNode` and `Element`.
use vstd::prelude::*;
use crate::outside::{attribute_entries, clone_attribute_map, clone_namespace, namespace_mappings, new_attribute_map, AttributeMap};
use xml::namespace::Namespace;

verus! {

/// A node of the tree.
#[derive(Debug, PartialEq, Eq)]
pub enum XMLNode {
    Element(Element),
    Comment(String),
    CData(String),
    Text(String),
    ProcessingInstruction(String, Option<String>),
}

/// Represents an XML element.
#[derive(Debug, PartialEq, Eq)]
pub struct Element {
    /// This elements prefix, if any
    pub prefix: Option<String>,
    /// This elements namespace, if any
    pub namespace: Option<String>,
    /// The full list of namespaces, if any
    pub namespaces: Option<Namespace>,
    /// The name of the Element.  Does not include any namespace info
    pub name: String,
    /// The Element attributes, in the order in which they were inserted
    pub attributes: AttributeMap<String, String>,
}

impl XMLNode {
    /// The element held by this node, if it is one.
    pub fn as_element(&self) -> (r: Option<&Element>)
        ensures
            match self {
                XMLNode::Element(e) => r == Some(e),
                _ => r is None,
            },
    {
        if let XMLNode::Element(e) = self {
            Some(e)
        } else {
            None
        }
    }

    /// A mutable borrow of the element held by this node, if it is one.
    pub fn as_mut_element(&mut self) -> (r: Option<&mut Element>)
        ensures
            match *old(self) {
                XMLNode::Element(e) => r matches Some(b) && *b == e && *final(self) == XMLNode::Element(
                    *final(b),
                ),
                _ => r is None && *final(self) == *old(self),
            },
    {
        if let XMLNode::Element(e) = self {
            Some(e)
        } else {
            None
        }
    }

    /// The text of a comment node.
    pub fn as_comment(&self) -> (r: Option<&str>)
        ensures
            match self {
                XMLNode::Comment(c) => r matches Some(t) && t@ == c@,
                _ => r is None,
            },
    {
        if let XMLNode::Comment(c) = self {
            Some(c.as_str())
        } else {
            None
        }
    }

    /// The text of a CDATA node.
    pub fn as_cdata(&self) -> (r: Option<&str>)
        ensures
            match self {
                XMLNode::CData(c) => r matches Some(t) && t@ == c@,
                _ => r is None,
            },
    {
        if let XMLNode::CData(c) = self {
            Some(c.as_str())
        } else {
            None
        }
    }

    /// The text of a text node.
    pub fn as_text(&self) -> (r: Option<&str>)
        ensures
            match self {
                XMLNode::Text(c) => r matches Some(t) && t@ == c@,
                _ => r is None,
            },
    {
        if let XMLNode::Text(c) = self {
            Some(c.as_str())
        } else {
            None
        }
    }

    /// The target and the optional data of a processing instruction.
    pub fn as_processing_instruction(&self) -> (r: Option<(&str, Option<&str>)>)
        ensures
            match self {
                XMLNode::ProcessingInstruction(s, o) => r matches Some((t, d)) && t@ == s@ && match o {
                    Some(v) => d matches Some(w) && w@ == v@,
                    None => d is None,
                },
                _ => r is None,
            },
    {
        if let XMLNode::ProcessingInstruction(s, o) = self {
            let data = match o {
                Some(v) => Some(v.as_str()),
                None => None,
            };
            Some((s.as_str(), data))
        } else {
            None
        }
    }
}

impl Element {
    /// Create a new empty element with given name
    ///
    /// All other fields are empty
    pub fn new(name: &str) -> (e: Element)
        ensures
            e.name@ == name@,
            e.prefix is None,
            e.namespace is None,
            e.namespaces is None,
            attribute_entries(e.attributes) == Seq::<(Seq<char>, Seq<char>)>::empty(),
    {
        Element {
            name: name.to_owned(),
            prefix: None,
            namespace: None,
            namespaces: None,
            attributes: new_attribute_map(),
        }
    }
}

/// A copy of an optional string.
fn clone_opt_string(s: &Option<String>) -> (r: Option<String>)
    ensures
        r == *s,
{
    match s {
        Some(v) => Some(v.clone()),
        None => None,
    }
}

impl Clone for Element {
    /// A copy of the element: equal names, prefix and namespace, the same
    /// namespace mappings and the same attributes in the same order.
    fn clone(&self) -> (r: Self)
        ensures
            r.name == self.name,
            r.prefix == self.prefix,
            r.namespace == self.namespace,
            r.namespaces is Some <==> self.namespaces is Some,
            r.namespaces is Some ==> namespace_mappings(r.namespaces->0) == namespace_mappings(self.namespaces->0),
            attribute_entries(r.attributes) == attribute_entries(self.attributes),
    {
        Element {
            prefix: clone_opt_string(&self.prefix),
            namespace: clone_opt_string(&self.namespace),
            namespaces: match &self.namespaces {
                Some(ns) => Some(clone_namespace(ns)),
                None => None,
            },
            name: self.name.clone(),
            attributes: clone_attribute_map(&self.attributes),
        }
    }
}

impl Clone for XMLNode {
    /// A copy of the node: the same variant with copied contents.
    fn clone(&self) -> (r: Self)
        ensures
            match (self, r) {
                (XMLNode::Element(a), XMLNode::Element(b)) => b.name == a.name && b.prefix == a.prefix
                    && b.namespace == a.namespace && attribute_entries(b.attributes) == attribute_entries(a.attributes)
                    && (b.namespaces is Some <==> a.namespaces is Some)
                    && (b.namespaces is Some ==> namespace_mappings(b.namespaces->0) == namespace_mappings(a.namespaces->0)),
                (XMLNode::Comment(a), XMLNode::Comment(b)) => a == b,
                (XMLNode::CData(a), XMLNode::CData(b)) => a == b,
                (XMLNode::Text(a), XMLNode::Text(b)) => a == b,
                (XMLNode::ProcessingInstruction(a, c), XMLNode::ProcessingInstruction(b, d)) => a == b && c == d,
                _ => false,
            },
    {
        match self {
            XMLNode::Element(e) => XMLNode::Element(e.clone()),
            XMLNode::Comment(s) => XMLNode::Comment(s.clone()),
            XMLNode::CData(s) => XMLNode::CData(s.clone()),
            XMLNode::Text(s) => XMLNode::Text(s.clone()),
            XMLNode::ProcessingInstruction(s, d) => XMLNode::ProcessingInstruction(s.clone(), clone_opt_string(d)),
        }
    }
}

} // verus!
