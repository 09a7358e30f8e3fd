//! Declarations of the outside types that the library carries, and the
//! trusted wrappers of the outside functions that it calls.
use vstd::prelude::*;

verus! {

#[verifier::external_type_specification]
#[verifier::external_body]
pub struct ExNamespace(xml::namespace::Namespace);

/// The prefix-to-URI mappings held by a namespace.
pub uninterp spec fn namespace_mappings(ns: xml::namespace::Namespace) -> Map<Seq<char>, Seq<char>>;

/// One of the three mappings that every namespace holds by default: the empty
/// prefix to the empty URI, `xmlns` and `xml` to their fixed URIs.
pub open spec fn is_default_mapping(prefix: Seq<char>, uri: Seq<char>) -> bool {
    ||| prefix == ""@ && uri == ""@
    ||| prefix == "xmlns"@ && uri == "http://www.w3.org/2000/xmlns/"@
    ||| prefix == "xml"@ && uri == "http://www.w3.org/XML/1998/namespace"@
}

/// A namespace is essentially empty when it holds nothing but default mappings.
pub open spec fn is_essentially_empty_spec(m: Map<Seq<char>, Seq<char>>) -> bool {
    forall|p: Seq<char>| #[trigger] m.contains_key(p) ==> is_default_mapping(p, m[p])
}

/// `Namespace::is_essentially_empty`: true exactly when every mapping of the
/// namespace is one of the default ones.
#[verifier::external_body]
pub(crate) fn namespace_is_essentially_empty(ns: &xml::namespace::Namespace) -> (r: bool)
    ensures
        r == is_essentially_empty_spec(namespace_mappings(*ns)),
{
    ns.is_essentially_empty()
}

/// `Namespace::clone`: a namespace with the same mappings.
#[verifier::external_body]
pub(crate) fn clone_namespace(ns: &xml::namespace::Namespace) -> (r: xml::namespace::Namespace)
    ensures
        namespace_mappings(r) == namespace_mappings(*ns),
{
    ns.clone()
}

/// The position (zero-based row and column) that a reader error carries.
pub uninterp spec fn reader_error_position(e: xml::reader::Error) -> (u64, u64);

/// The decimal digits of `n`.
pub open spec fn decimal(n: nat) -> Seq<char>
    decreases n,
{
    if n < 10 {
        seq![(48 + n) as char]
    } else {
        decimal(n / 10).push((48 + n % 10) as char)
    }
}

/// How a reader error shows its position: one-based row and column, a colon
/// between them, a space after.
pub open spec fn position_text(pos: (u64, u64)) -> Seq<char> {
    decimal((pos.0 + 1) as nat) + ":"@ + decimal((pos.1 + 1) as nat) + " "@
}

/// The one-based row and column of the position fit in a `u64`, so that the
/// message can show them.
pub open spec fn position_shows(pos: (u64, u64)) -> bool {
    pos.0 < u64::MAX && pos.1 < u64::MAX
}

/// `<xml::reader::Error as Display>::fmt`: the reader error's own message. It
/// starts with the error's position, shown as `position_text` says; what
/// follows tells what went wrong, and for an input/output error comes from the
/// system's own message text, which depends on the locale: that part is not
/// stated.
#[verifier::external_body]
pub(crate) fn reader_error_text(e: &xml::reader::Error) -> (r: String)
    ensures
        position_shows(reader_error_position(*e)) ==> exists|rest: Seq<char>|
            r@ == position_text(reader_error_position(*e)) + rest,
{
    format!("{}", e)
}

/// `str == str`: true exactly when the two strings hold the same characters.
#[verifier::external_body]
pub(crate) fn str_eq(a: &str, b: &str) -> (r: bool)
    ensures
        r == (a@ == b@),
{
    a == b
}

/// The map that holds the attributes of an element: keys in insertion order.
pub type AttributeMap<K, V> = indexmap::IndexMap<K, V>;

#[verifier::external_type_specification]
#[verifier::external_body]
#[verifier::reject_recursive_types(K)]
#[verifier::reject_recursive_types(V)]
#[verifier::reject_recursive_types(S)]
pub struct ExIndexMap<K, V, S>(indexmap::IndexMap<K, V, S>);

/// The entries of an attribute map, as (name, value) pairs in the map's order.
pub uninterp spec fn attribute_entries(m: indexmap::IndexMap<String, String>) -> Seq<(Seq<char>, Seq<char>)>;

/// No two entries share a key.
pub open spec fn keys_unique(entries: Seq<(Seq<char>, Seq<char>)>) -> bool {
    forall|i: int, j: int|
        0 <= i < entries.len() && 0 <= j < entries.len() && i != j ==> #[trigger] entries[i].0
            != #[trigger] entries[j].0
}

/// What inserting `(k, v)` does to the entries of a map: the value of an existing
/// key is replaced in place, a new key goes last.
pub open spec fn entries_insert(
    entries: Seq<(Seq<char>, Seq<char>)>,
    k: Seq<char>,
    v: Seq<char>,
) -> Seq<(Seq<char>, Seq<char>)> {
    if exists|i: int| 0 <= i < entries.len() && #[trigger] entries[i].0 == k {
        let i = choose|i: int| 0 <= i < entries.len() && #[trigger] entries[i].0 == k;
        entries.update(i, (k, v))
    } else {
        entries.push((k, v))
    }
}

/// `IndexMap::clone`: a map with the same entries in the same order.
#[verifier::external_body]
pub(crate) fn clone_attribute_map(m: &indexmap::IndexMap<String, String>) -> (r: indexmap::IndexMap<String, String>)
    ensures
        attribute_entries(r) == attribute_entries(*m),
{
    m.clone()
}

/// `IndexMap::new`: an empty map.
#[verifier::external_body]
pub(crate) fn new_attribute_map() -> (m: indexmap::IndexMap<String, String>)
    ensures
        attribute_entries(m) == Seq::<(Seq<char>, Seq<char>)>::empty(),
{
    indexmap::IndexMap::new()
}

/// `IndexMap::insert`: the value of an equal key already present is replaced in
/// place and the old value returned; otherwise the pair goes last and `None`
/// comes back. The keys of an `IndexMap` are always unique.
#[verifier::external_body]
pub(crate) fn insert_attribute(
    m: &mut indexmap::IndexMap<String, String>,
    k: String,
    v: String,
) -> (r: Option<String>)
    ensures
        keys_unique(attribute_entries(*old(m))) ==> attribute_entries(*final(m)) == entries_insert(
            attribute_entries(*old(m)),
            k@,
            v@,
        ),
        keys_unique(attribute_entries(*final(m))),
        r is Some <==> exists|i: int|
            0 <= i < attribute_entries(*old(m)).len() && #[trigger] attribute_entries(
                *old(m),
            )[i].0 == k@,
        r matches Some(old_v) ==> exists|i: int|
            0 <= i < attribute_entries(*old(m)).len() && #[trigger] attribute_entries(
                *old(m),
            )[i].0 == k@ && attribute_entries(*old(m))[i].1 == old_v@,
{
    m.insert(k, v)
}

} // verus!
