//! Laws of the attribute map that a start tag gives its element.
use vstd::prelude::*;
use crate::outside::{entries_insert, keys_unique};
use crate::tree_state::{attributes_entries, XmlAttribute};

verus! {

/// The local name of the `i`-th attribute.
pub open spec fn attr_key(attrs: Seq<XmlAttribute>, i: int) -> Seq<char> {
    attrs[i].name.local_name@
}

proof fn lemma_entries_insert(e: Seq<(Seq<char>, Seq<char>)>, k: Seq<char>, v: Seq<char>)
    requires
        keys_unique(e),
    ensures
        ({
            let r = entries_insert(e, k, v);
            &&& keys_unique(r)
            &&& e.len() <= r.len() <= e.len() + 1
            &&& exists|j: int| 0 <= j < r.len() && #[trigger] r[j] == (k, v)
            &&& forall|j: int| 0 <= j < e.len() ==> #[trigger] r[j].0 == e[j].0
            &&& forall|j: int| 0 <= j < r.len() && r[j].0 != k ==> j < e.len() && #[trigger] r[j] == e[j]
            &&& r.len() == e.len() + 1 ==> r[e.len() as int] == (k, v) && forall|j: int|
                0 <= j < e.len() ==> #[trigger] e[j].0 != k
        }),
{
    let r = entries_insert(e, k, v);
    if exists|i: int| 0 <= i < e.len() && #[trigger] e[i].0 == k {
        let i = choose|i: int| 0 <= i < e.len() && #[trigger] e[i].0 == k;
        assert(r == e.update(i, (k, v)));
        assert(r[i] == (k, v));
        assert forall|a: int, b: int|
            0 <= a < r.len() && 0 <= b < r.len() && a != b implies #[trigger] r[a].0 != #[trigger] r[b].0 by {
            if a != i && b != i {
                assert(r[a] == e[a] && r[b] == e[b]);
            } else if a == i {
                assert(e[b].0 != e[i].0);
            } else {
                assert(e[a].0 != e[i].0);
            }
        }
    } else {
        assert(r == e.push((k, v)));
        assert(r[e.len() as int] == (k, v));
        assert forall|a: int, b: int|
            0 <= a < r.len() && 0 <= b < r.len() && a != b implies #[trigger] r[a].0 != #[trigger] r[b].0 by {
            if a < e.len() && b < e.len() {
                assert(r[a] == e[a] && r[b] == e[b]);
            } else if a == e.len() {
                assert(r[b] == e[b]);
            } else {
                assert(r[a] == e[a]);
            }
        }
    }
}

/// Every attribute's name has an entry.
pub open spec fn names_covered(attrs: Seq<XmlAttribute>, e: Seq<(Seq<char>, Seq<char>)>) -> bool {
    forall|i: int| #![trigger attr_key(attrs, i)] 0 <= i < attrs.len() ==> exists|j: int|
        #![trigger e[j]] 0 <= j < e.len() && e[j].0 == attr_key(attrs, i)
}

/// Every entry is the name and value of an attribute that no later attribute
/// of the same name overrides.
pub open spec fn last_values_kept(attrs: Seq<XmlAttribute>, e: Seq<(Seq<char>, Seq<char>)>) -> bool {
    forall|j: int| #![trigger e[j]] 0 <= j < e.len() ==> exists|i: int|
        #![trigger attr_key(attrs, i)] 0 <= i < attrs.len() && e[j].0 == attr_key(attrs, i)
            && e[j].1 == attrs[i].value@ && forall|i2: int| #![trigger attr_key(attrs, i2)]
            i < i2 < attrs.len() ==> attr_key(attrs, i2) != attr_key(attrs, i)
}

/// The entries are in the order in which their names first appear: every
/// occurrence of a later entry's name comes after some occurrence of each
/// earlier entry's name.
pub open spec fn in_first_appearance_order(
    attrs: Seq<XmlAttribute>,
    e: Seq<(Seq<char>, Seq<char>)>,
) -> bool {
    forall|j1: int, j2: int, i2: int|
        #![trigger e[j1], e[j2], attr_key(attrs, i2)]
        0 <= j1 < j2 < e.len() && 0 <= i2 < attrs.len() && attr_key(attrs, i2) == e[j2].0
            ==> occurs_before(attrs, e[j1].0, i2)
}

/// Some attribute before the `i2`-th one has the local name `key`.
pub open spec fn occurs_before(attrs: Seq<XmlAttribute>, key: Seq<char>, i2: int) -> bool {
    exists|i1: int| #![trigger attr_key(attrs, i1)] 0 <= i1 < i2 && attr_key(attrs, i1) == key
}

proof fn lemma_prefix_keys(attrs: Seq<XmlAttribute>)
    requires
        attrs.len() > 0,
    ensures
        forall|i: int| 0 <= i < attrs.len() - 1 ==> #[trigger] attr_key(attrs.drop_last(), i) == attr_key(attrs, i),
{
    assert forall|i: int| 0 <= i < attrs.len() - 1 implies #[trigger] attr_key(attrs.drop_last(), i) == attr_key(attrs, i) by {
        assert(attrs.drop_last()[i] == attrs[i]);
    }
}

proof fn lemma_covered_step(attrs: Seq<XmlAttribute>)
    requires
        attrs.len() > 0,
        keys_unique(attributes_entries(attrs.drop_last())),
        names_covered(attrs.drop_last(), attributes_entries(attrs.drop_last())),
    ensures
        names_covered(attrs, attributes_entries(attrs)),
{
    let prev = attrs.drop_last();
    let n = attrs.len() - 1;
    let k = attr_key(attrs, n);
    let v = attrs[n].value@;
    let p = attributes_entries(prev);
    let e = attributes_entries(attrs);
    assert(e == entries_insert(p, k, v));
    lemma_entries_insert(p, k, v);
    lemma_prefix_keys(attrs);
    let jk = choose|j: int| 0 <= j < e.len() && #[trigger] e[j] == (k, v);
    assert forall|i: int| #![trigger attr_key(attrs, i)] 0 <= i < attrs.len() implies exists|j: int|
        #![trigger e[j]] 0 <= j < e.len() && e[j].0 == attr_key(attrs, i) by {
        if i == n {
            assert(e[jk].0 == attr_key(attrs, i));
        } else {
            assert(attr_key(prev, i) == attr_key(attrs, i));
            let j = choose|j: int| #![trigger p[j]] 0 <= j < p.len() && p[j].0 == attr_key(prev, i);
            assert(e[j].0 == p[j].0);
        }
    }
}

proof fn lemma_values_step(attrs: Seq<XmlAttribute>)
    requires
        attrs.len() > 0,
        keys_unique(attributes_entries(attrs.drop_last())),
        last_values_kept(attrs.drop_last(), attributes_entries(attrs.drop_last())),
    ensures
        last_values_kept(attrs, attributes_entries(attrs)),
{
    let prev = attrs.drop_last();
    let n = attrs.len() - 1;
    let k = attr_key(attrs, n);
    let v = attrs[n].value@;
    let p = attributes_entries(prev);
    let e = attributes_entries(attrs);
    assert(e == entries_insert(p, k, v));
    lemma_entries_insert(p, k, v);
    lemma_prefix_keys(attrs);
    let jk = choose|j: int| 0 <= j < e.len() && #[trigger] e[j] == (k, v);
    assert forall|j: int| #![trigger e[j]] 0 <= j < e.len() implies exists|i: int|
        #![trigger attr_key(attrs, i)] 0 <= i < attrs.len() && e[j].0 == attr_key(attrs, i)
            && e[j].1 == attrs[i].value@ && forall|i2: int| #![trigger attr_key(attrs, i2)]
            i < i2 < attrs.len() ==> attr_key(attrs, i2) != attr_key(attrs, i) by {
        if e[j].0 == k {
            if jk != j {
                assert(e[jk].0 != e[j].0);
            }
            assert(e[j].0 == attr_key(attrs, n) && e[j].1 == attrs[n].value@);
        } else {
            assert(e[j] == p[j]);
            let i = choose|i: int|
                #![trigger attr_key(prev, i)] 0 <= i < prev.len() && p[j].0 == attr_key(prev, i)
                    && p[j].1 == prev[i].value@ && forall|i2: int| #![trigger attr_key(prev, i2)]
                    i < i2 < prev.len() ==> attr_key(prev, i2) != attr_key(prev, i);
            assert(prev[i] == attrs[i]);
            assert forall|i2: int| #![trigger attr_key(attrs, i2)] i < i2 < attrs.len() implies attr_key(attrs, i2)
                != attr_key(attrs, i) by {
                if i2 < n {
                    assert(attr_key(prev, i2) != attr_key(prev, i));
                }
            }
            assert(e[j].0 == attr_key(attrs, i) && e[j].1 == attrs[i].value@);
        }
    }
}

proof fn lemma_order_one(attrs: Seq<XmlAttribute>, j1: int, j2: int, i2: int)
    requires
        attrs.len() > 0,
        keys_unique(attributes_entries(attrs.drop_last())),
        names_covered(attrs.drop_last(), attributes_entries(attrs.drop_last())),
        last_values_kept(attrs.drop_last(), attributes_entries(attrs.drop_last())),
        in_first_appearance_order(attrs.drop_last(), attributes_entries(attrs.drop_last())),
        0 <= j1 < j2 < attributes_entries(attrs).len(),
        0 <= i2 < attrs.len(),
        attr_key(attrs, i2) == attributes_entries(attrs)[j2].0,
    ensures
        occurs_before(attrs, attributes_entries(attrs)[j1].0, i2),
{
    let prev = attrs.drop_last();
    let n = attrs.len() - 1;
    let k = attr_key(attrs, n);
    let v = attrs[n].value@;
    let p = attributes_entries(prev);
    let e = attributes_entries(attrs);
    assert(e == entries_insert(p, k, v));
    lemma_entries_insert(p, k, v);
    if i2 < n {
        assert(prev[i2] == attrs[i2]);
        assert(attr_key(prev, i2) == attr_key(attrs, i2));
        if j2 < p.len() {
            assert(e[j2].0 == p[j2].0);
            assert(e[j1].0 == p[j1].0);
            assert(occurs_before(prev, p[j1].0, i2));
            let i1 = choose|i1: int| #![trigger attr_key(prev, i1)] 0 <= i1 < i2 && attr_key(prev, i1) == p[j1].0;
            assert(prev[i1] == attrs[i1]);
            assert(attr_key(prev, i1) == attr_key(attrs, i1));
        } else {
            // the new key was already among the earlier attributes
            assert(e[j2].0 == k);
            let jj = choose|jj: int| #![trigger p[jj]] 0 <= jj < p.len() && p[jj].0 == attr_key(prev, i2);
            assert(p[jj].0 != k);
        }
    } else {
        assert(e[j2].0 == k);
        if e[j1].0 == k {
            assert(e[j1].0 != e[j2].0);
        }
        assert(e[j1] == p[j1]);
        let i1 = choose|i1: int|
            #![trigger attr_key(prev, i1)] 0 <= i1 < prev.len() && p[j1].0 == attr_key(prev, i1)
                && p[j1].1 == prev[i1].value@ && forall|i3: int| #![trigger attr_key(prev, i3)]
                i1 < i3 < prev.len() ==> attr_key(prev, i3) != attr_key(prev, i1);
        assert(prev[i1] == attrs[i1]);
        assert(attr_key(prev, i1) == attr_key(attrs, i1));
    }
}

proof fn lemma_order_step(attrs: Seq<XmlAttribute>)
    requires
        attrs.len() > 0,
        keys_unique(attributes_entries(attrs.drop_last())),
        names_covered(attrs.drop_last(), attributes_entries(attrs.drop_last())),
        last_values_kept(attrs.drop_last(), attributes_entries(attrs.drop_last())),
        in_first_appearance_order(attrs.drop_last(), attributes_entries(attrs.drop_last())),
    ensures
        in_first_appearance_order(attrs, attributes_entries(attrs)),
{
    let e = attributes_entries(attrs);
    assert forall|j1: int, j2: int, i2: int|
        #![trigger e[j1], e[j2], attr_key(attrs, i2)]
        0 <= j1 < j2 < e.len() && 0 <= i2 < attrs.len() && attr_key(attrs, i2) == e[j2].0
            ==> occurs_before(attrs, e[j1].0, i2) by {
        if 0 <= j1 < j2 < e.len() && 0 <= i2 < attrs.len() && attr_key(attrs, i2) == e[j2].0 {
            lemma_order_one(attrs, j1, j2, i2);
        }
    }
}

/// Law: the attribute map of a start tag holds exactly one entry per distinct
/// local name among its attributes, whatever the values (empty ones
/// included). Each entry holds the value of the last attribute of that name,
/// and the entries come in the order in which their names first appear.
pub proof fn lemma_attribute_entries_hold_last_values(attrs: Seq<XmlAttribute>)
    ensures
        keys_unique(attributes_entries(attrs)),
        attributes_entries(attrs).len() <= attrs.len(),
        names_covered(attrs, attributes_entries(attrs)),
        last_values_kept(attrs, attributes_entries(attrs)),
        in_first_appearance_order(attrs, attributes_entries(attrs)),
    decreases attrs.len(),
{
    if attrs.len() > 0 {
        let prev = attrs.drop_last();
        lemma_attribute_entries_hold_last_values(prev);
        let n = attrs.len() - 1;
        lemma_entries_insert(attributes_entries(prev), attr_key(attrs, n), attrs[n].value@);
        lemma_covered_step(attrs);
        lemma_values_step(attrs);
        lemma_order_step(attrs);
    }
}

} // verus!
