//! Predicates that select elements: by local name, or by local name and
//! namespace.
use vstd::prelude::*;
use std::borrow::Cow;
use crate::node::Element;
use crate::outside::str_eq;

verus! {

/// The element's local name is `name`.
pub open spec fn name_matches(e: Element, name: Seq<char>) -> bool {
    e.name@ == name
}

/// The element's local name is `name` and its namespace is `ns`.
pub open spec fn name_and_namespace_match(e: Element, name: Seq<char>, ns: Seq<char>) -> bool {
    &&& e.name@ == name
    &&& e.namespace matches Some(n) && n@ == ns
}

/// A predicate for matching elements.
///
/// The implementations here match by tag name or by a tuple of tag name and
/// namespace.
pub trait ElementPredicate {
    fn match_element(&self, e: &Element) -> bool;
}

/// A string that a predicate compares names with: `&str`, `String` or
/// `Cow<str>`.
pub trait NamePattern {
    /// The characters of the pattern.
    spec fn pattern_view(&self) -> Seq<char>;

    /// The pattern as a string slice.
    fn as_pattern(&self) -> (r: &str)
        ensures
            r@ == self.pattern_view(),
    ;
}

impl<'a> NamePattern for &'a str {
    open spec fn pattern_view(&self) -> Seq<char> {
        (*self)@
    }

    fn as_pattern(&self) -> (r: &str) {
        *self
    }
}

impl NamePattern for String {
    open spec fn pattern_view(&self) -> Seq<char> {
        self@
    }

    fn as_pattern(&self) -> (r: &str) {
        self.as_str()
    }
}

impl<'a> NamePattern for Cow<'a, str> {
    open spec fn pattern_view(&self) -> Seq<char> {
        self@
    }

    fn as_pattern(&self) -> (r: &str) {
        match self {
            Cow::Borrowed(b) => *b,
            Cow::Owned(o) => o.as_str(),
        }
    }
}

impl<TN: NamePattern> ElementPredicate for (TN,) {
    /// Search by tag name
    fn match_element(&self, e: &Element) -> (r: bool)
        ensures
            r == name_matches(*e, self.0.pattern_view()),
    {
        str_eq(e.name.as_str(), self.0.as_pattern())
    }
}

impl<'a> ElementPredicate for &'a str {
    /// Search by tag name
    fn match_element(&self, e: &Element) -> (r: bool)
        ensures
            r == name_matches(*e, (*self)@),
    {
        (*self,).match_element(e)
    }
}

impl<'a> ElementPredicate for Cow<'a, str> {
    /// Search by tag name
    fn match_element(&self, e: &Element) -> (r: bool)
        ensures
            r == name_matches(*e, self@),
    {
        (self.as_pattern(),).match_element(e)
    }
}

impl ElementPredicate for String {
    /// Search by tag name
    fn match_element(&self, e: &Element) -> (r: bool)
        ensures
            r == name_matches(*e, self@),
    {
        (self.as_str(),).match_element(e)
    }
}

impl<TN: NamePattern, NS: NamePattern> ElementPredicate for (TN, NS) {
    /// Search by a tuple of (tagname, namespace)
    fn match_element(&self, e: &Element) -> (r: bool)
        ensures
            r == name_and_namespace_match(*e, self.0.pattern_view(), self.1.pattern_view()),
    {
        str_eq(e.name.as_str(), self.0.as_pattern()) && match &e.namespace {
            Some(ns) => str_eq(ns.as_str(), self.1.as_pattern()),
            None => false,
        }
    }
}

/// Law: an element that a (name, namespace) predicate selects is selected by
/// the name alone.
pub proof fn lemma_namespace_match_refines_name_match(e: Element, name: Seq<char>, ns: Seq<char>)
    requires
        name_and_namespace_match(e, name, ns),
    ensures
        name_matches(e, name),
{
}

} // verus!
