//! Laws of the tree iterator's state machine, over runs of events.
use vstd::prelude::*;
use crate::tree_state::{
    child_count_fits, end_matches, next_state, outcome_kind, path_after_start, path_trimmed,
    prune_state, state_wf, EventKind, OutcomeKind, TreeStateView,
};

verus! {

/// The state after a run of events.
pub open spec fn run(s: TreeStateView, ks: Seq<EventKind>) -> TreeStateView
    decreases ks.len(),
{
    if ks.len() == 0 {
        s
    } else {
        run(next_state(s, ks[0]), ks.drop_first())
    }
}

/// What each event of a run ends in, in order.
pub open spec fn outcomes(s: TreeStateView, ks: Seq<EventKind>) -> Seq<OutcomeKind>
    decreases ks.len(),
{
    if ks.len() == 0 {
        Seq::empty()
    } else {
        seq![outcome_kind(s, ks[0])] + outcomes(next_state(s, ks[0]), ks.drop_first())
    }
}

/// The outcomes with every handed-out node left out (turned into `Continue`);
/// errors and ends are kept.
pub open spec fn hide_nodes(os: Seq<OutcomeKind>) -> Seq<OutcomeKind>
    decreases os.len(),
{
    if os.len() == 0 {
        Seq::empty()
    } else {
        seq![if os[0] is YieldNode { OutcomeKind::Continue } else { os[0] }] + hide_nodes(
            os.drop_first(),
        )
    }
}

/// Throughout the run, at least `d` elements stay open.
pub open spec fn keeps_open(s: TreeStateView, ks: Seq<EventKind>, d: nat) -> bool
    decreases ks.len(),
{
    ks.len() == 0 || (next_state(s, ks[0]).open.len() >= d && keeps_open(
        next_state(s, ks[0]),
        ks.drop_first(),
        d,
    ))
}

/// A run of a well-formed document from state `s`: no reader error, a
/// document start only before anything else, and every end tag closing the
/// innermost open element.
pub open spec fn well_formed_run(s: TreeStateView, ks: Seq<EventKind>) -> bool
    decreases ks.len(),
{
    ks.len() == 0 || ({
        &&& !(ks[0] is Malformed)
        &&& (ks[0] is StartDocument ==> !s.moved)
        &&& (ks[0] matches EventKind::EndElement(n) ==> end_matches(s, n))
        &&& well_formed_run(next_state(s, ks[0]), ks.drop_first())
    })
}

/// What an event of a well-formed document, with nothing pruned, ends in: a
/// node for each start tag and each text, comment, CDATA and processing
/// instruction; the end for the document's end; nothing for the rest.
pub open spec fn document_outcome(k: EventKind) -> OutcomeKind {
    match k {
        EventKind::StartElement(_) => OutcomeKind::YieldNode,
        EventKind::Leaf => OutcomeKind::YieldNode,
        EventKind::EndDocument => OutcomeKind::Finished,
        EventKind::Malformed => OutcomeKind::YieldMalformed,
        _ => OutcomeKind::Continue,
    }
}

pub open spec fn document_outcomes(ks: Seq<EventKind>) -> Seq<OutcomeKind>
    decreases ks.len(),
{
    if ks.len() == 0 {
        Seq::empty()
    } else {
        seq![document_outcome(ks[0])] + document_outcomes(ks.drop_first())
    }
}

/// Law: every event keeps the state well formed.
pub proof fn lemma_step_keeps_wf(s: TreeStateView, k: EventKind)
    requires
        state_wf(s),
    ensures
        state_wf(next_state(s, k)),
{
    if !s.errored {
        if let EventKind::StartElement(n) = k {
            let d = s.open.len() + 1;
            assert(path_trimmed(s.path, d).len() >= d);
            assert(path_after_start(s.path, d).len() == path_trimmed(s.path, d).len());
        }
    }
}

/// Law: once an error is recorded it stays recorded, whatever comes next.
pub proof fn lemma_errored_is_sticky(s: TreeStateView, k: EventKind)
    requires
        s.errored,
    ensures
        next_state(s, k).errored,
{
}

/// Law: a reader error, or an end tag that does not close the innermost open
/// element, is handed out as an error and records it.
pub proof fn lemma_errors_are_recorded(s: TreeStateView, k: EventKind)
    requires
        !s.errored,
        k is Malformed || (k matches EventKind::EndElement(n) && !end_matches(s, n)),
    ensures
        outcome_kind(s, k) is YieldMalformed || outcome_kind(s, k) is YieldCannotParse,
        next_state(s, k).errored,
{
}

/// Law: an error ends the iteration: after it, every event finishes and
/// changes nothing.
pub proof fn lemma_error_ends_iteration(s: TreeStateView, ks: Seq<EventKind>)
    requires
        s.errored,
    ensures
        run(s, ks) == s,
        forall|i: int| 0 <= i < ks.len() ==> #[trigger] outcomes(s, ks)[i] is Finished,
        outcomes(s, ks).len() == ks.len(),
    decreases ks.len(),
{
    if ks.len() > 0 {
        lemma_error_ends_iteration(s, ks.drop_first());
        assert forall|i: int| 0 <= i < ks.len() implies #[trigger] outcomes(s, ks)[i] is Finished by {
            if i > 0 {
                assert(outcomes(s, ks)[i] == outcomes(s, ks.drop_first())[i - 1]);
            }
        }
    }
}

/// Law: a document start is accepted only as the first event; after any other
/// event it is handed out as an error and changes nothing.
pub proof fn lemma_document_start_only_first(s: TreeStateView)
    requires
        !s.errored,
    ensures
        !s.moved ==> outcome_kind(s, EventKind::StartDocument) is Continue,
        s.moved ==> outcome_kind(s, EventKind::StartDocument) is YieldCannotParse && next_state(
            s,
            EventKind::StartDocument,
        ) == s,
{
}

/// Law: the end of the document finishes the iteration and changes nothing.
pub proof fn lemma_document_end_finishes(s: TreeStateView)
    ensures
        outcome_kind(s, EventKind::EndDocument) is Finished,
        next_state(s, EventKind::EndDocument) == s,
{
}

/// Law: the end tag of the element that was just started undoes the start:
/// the open elements and their prune flags are as before, no error is
/// recorded and nothing is handed out for the end tag.
pub proof fn lemma_end_undoes_start(s: TreeStateView, n: Seq<char>)
    requires
        state_wf(s),
        !s.errored,
    ensures
        ({
            let t = next_state(s, EventKind::StartElement(n));
            &&& outcome_kind(t, EventKind::EndElement(n)) is Continue
            &&& next_state(t, EventKind::EndElement(n)).open == s.open
            &&& next_state(t, EventKind::EndElement(n)).pruned == s.pruned
            &&& !next_state(t, EventKind::EndElement(n)).errored
        }),
{
    let t = next_state(s, EventKind::StartElement(n));
    assert(t.open.drop_last() =~= s.open);
    assert(t.pruned.drop_last() =~= s.pruned);
}

/// Law: a leaf node (text, comment, CDATA, processing instruction) is placed
/// one level below the node handed out before it.
pub proof fn lemma_leaf_goes_one_level_down(s: TreeStateView)
    requires
        !s.errored,
    ensures
        next_state(s, EventKind::Leaf).path.len() == s.path.len() + 1,
        next_state(s, EventKind::Leaf).open == s.open,
{
}

/// Law: when the path holds no more than one level beyond the open elements,
/// a started element is placed at the depth of its nesting: the path is as
/// long as the open elements, the new one included, are deep.
pub proof fn lemma_start_element_depth(s: TreeStateView, n: Seq<char>)
    requires
        state_wf(s),
        !s.errored,
        s.path.len() <= s.open.len() + 1,
    ensures
        next_state(s, EventKind::StartElement(n)).path.len() == next_state(
            s,
            EventKind::StartElement(n),
        ).open.len(),
{
}

proof fn lemma_no_prune_flag_after_step(s: TreeStateView, k: EventKind)
    requires
        state_wf(s),
        !s.pruned.contains(true),
    ensures
        !next_state(s, k).pruned.contains(true),
{
    let t = next_state(s, k);
    assert forall|i: int| 0 <= i < t.pruned.len() implies t.pruned[i] != true by {
        if !s.errored {
            match k {
                EventKind::StartElement(_) => {
                    assert(t.pruned == s.pruned.push(false));
                    if i < s.pruned.len() {
                        assert(s.pruned[i] == t.pruned[i]);
                        if s.pruned[i] == true {
                            assert(s.pruned.contains(true));
                        }
                    }
                },
                EventKind::EndElement(n) => {
                    if end_matches(s, n) {
                        assert(t.pruned == s.pruned.drop_last());
                    }
                    assert(s.pruned[i] == t.pruned[i]);
                    if s.pruned[i] == true {
                        assert(s.pruned.contains(true));
                    }
                },
                _ => {
                    assert(s.pruned[i] == t.pruned[i]);
                    if s.pruned[i] == true {
                        assert(s.pruned.contains(true));
                    }
                },
            }
        } else {
            if s.pruned[i] == true {
                assert(s.pruned.contains(true));
            }
        }
    }
}

/// Law: a well-formed document read with nothing pruned hands out a node for
/// every start tag and every text, comment, CDATA section and processing
/// instruction, in document order, with no error; its end finishes the
/// iteration; nothing else is handed out.
pub proof fn lemma_document_in_order(s: TreeStateView, ks: Seq<EventKind>)
    requires
        state_wf(s),
        !s.errored,
        !s.pruned.contains(true),
        well_formed_run(s, ks),
    ensures
        outcomes(s, ks) == document_outcomes(ks),
    decreases ks.len(),
{
    if ks.len() > 0 {
        let k = ks[0];
        let t = next_state(s, k);
        lemma_no_prune_flag_after_step(s, k);
        lemma_step_keeps_wf(s, k);
        assert(!t.errored);
        lemma_document_in_order(t, ks.drop_first());
        assert(outcome_kind(s, k) == document_outcome(k));
        assert(outcomes(s, ks) =~= document_outcomes(ks));
    }
}

/// `t` is `u` with the prune flag of the element at depth `d` set.
pub open spec fn pruned_at(t: TreeStateView, u: TreeStateView, d: nat) -> bool {
    &&& state_wf(u)
    &&& d > 0
    &&& u.open.len() >= d
    &&& t == TreeStateView { pruned: u.pruned.update(d - 1, true), ..u }
}

proof fn lemma_errored_runs_agree(t: TreeStateView, u: TreeStateView, ks: Seq<EventKind>)
    requires
        t.errored,
        u.errored,
    ensures
        outcomes(t, ks) == outcomes(u, ks),
    decreases ks.len(),
{
    if ks.len() > 0 {
        lemma_errored_runs_agree(t, u, ks.drop_first());
    }
}

proof fn lemma_pruned_step(t: TreeStateView, u: TreeStateView, k: EventKind, d: nat)
    requires
        pruned_at(t, u, d),
        next_state(u, k).open.len() >= d,
    ensures
        pruned_at(next_state(t, k), next_state(u, k), d),
        outcome_kind(t, k) == (if outcome_kind(u, k) is YieldNode {
            OutcomeKind::Continue
        } else {
            outcome_kind(u, k)
        }),
{
    lemma_step_keeps_wf(u, k);
    assert(t.pruned.contains(true)) by {
        assert(t.pruned[d - 1]);
    }
    let t2 = next_state(t, k);
    let u2 = next_state(u, k);
    if !u.errored {
        match k {
            EventKind::StartElement(n) => {
                assert(t2.pruned =~= u2.pruned.update(d - 1, true));
                if u.pruned.contains(true) {
                }
            },
            EventKind::EndElement(n) => {
                if end_matches(u, n) {
                    assert(t2.pruned =~= u2.pruned.update(d - 1, true));
                }
            },
            _ => {},
        }
    }
}

proof fn lemma_pruned_run(
    t: TreeStateView,
    u: TreeStateView,
    ks1: Seq<EventKind>,
    n: Seq<char>,
    ks2: Seq<EventKind>,
    d: nat,
)
    requires
        pruned_at(t, u, d),
        keeps_open(u, ks1, d),
        run(u, ks1).open.len() == d,
        end_matches(run(u, ks1), n),
    ensures
        outcomes(t, ks1 + seq![EventKind::EndElement(n)] + ks2) == hide_nodes(outcomes(u, ks1))
            + outcomes(run(u, ks1), seq![EventKind::EndElement(n)] + ks2),
    decreases ks1.len(),
{
    let e = seq![EventKind::EndElement(n)] + ks2;
    assert(ks1 + seq![EventKind::EndElement(n)] + ks2 =~= ks1 + e);
    if ks1.len() == 0 {
        assert(ks1 + e =~= e);
        assert(hide_nodes(outcomes(u, ks1)) =~= Seq::<OutcomeKind>::empty());
        if u.errored {
            lemma_errored_runs_agree(t, u, e);
        } else {
            let t2 = next_state(t, EventKind::EndElement(n));
            let u2 = next_state(u, EventKind::EndElement(n));
            assert(t2.pruned =~= u2.pruned);
            assert(t2 == u2);
            assert(e.drop_first() =~= ks2);
            assert(outcomes(t, e) =~= outcomes(u, e));
        }
    } else {
        let k = ks1[0];
        let rest = ks1.drop_first();
        lemma_pruned_step(t, u, k, d);
        lemma_pruned_run(next_state(t, k), next_state(u, k), rest, n, ks2, d);
        assert(rest + seq![EventKind::EndElement(n)] + ks2 =~= rest + e);
        assert((ks1 + e)[0] == k);
        assert((ks1 + e).drop_first() =~= rest + e);
        let ou = outcomes(u, ks1);
        let ou_rest = outcomes(next_state(u, k), rest);
        assert(ou == seq![outcome_kind(u, k)] + ou_rest);
        assert(ou.len() > 0);
        assert(ou[0] == outcome_kind(u, k));
        assert(ou.drop_first() =~= ou_rest);
        let h = if outcome_kind(u, k) is YieldNode {
            OutcomeKind::Continue
        } else {
            outcome_kind(u, k)
        };
        assert(hide_nodes(ou) == seq![h] + hide_nodes(ou_rest));
        let tail = outcomes(next_state(t, k), rest + e);
        let fin = outcomes(run(u, ks1), e);
        assert(run(u, ks1) == run(next_state(u, k), rest));
        assert(tail == hide_nodes(ou_rest) + fin);
        assert(outcomes(t, ks1 + e) == seq![outcome_kind(t, k)] + tail);
        assert(outcome_kind(t, k) == h);
        assert(seq![h] + (hide_nodes(ou_rest) + fin) =~= (seq![h] + hide_nodes(ou_rest)) + fin);
    }
}

/// Law: pruning the subtree of the innermost open element removes exactly the
/// nodes inside it. Of the events up to its end tag (while it stays open),
/// every node that would have been handed out is left out, and every error or
/// end is kept; from its end tag on, everything is handed out as without the
/// pruning.
pub proof fn lemma_prune_removes_exactly_the_subtree(
    s: TreeStateView,
    ks1: Seq<EventKind>,
    n: Seq<char>,
    ks2: Seq<EventKind>,
)
    requires
        state_wf(s),
        s.open.len() > 0,
        keeps_open(s, ks1, s.open.len()),
        run(s, ks1).open.len() == s.open.len(),
        end_matches(run(s, ks1), n),
    ensures
        outcomes(prune_state(s), ks1 + seq![EventKind::EndElement(n)] + ks2) == hide_nodes(
            outcomes(s, ks1),
        ) + outcomes(run(s, ks1), seq![EventKind::EndElement(n)] + ks2),
{
    lemma_pruned_run(prune_state(s), s, ks1, n, ks2, s.open.len());
}

/// A run made of start and end tags only.
pub open spec fn tags_only(ks: Seq<EventKind>) -> bool {
    forall|i: int| 0 <= i < ks.len() ==> (#[trigger] ks[i] is StartElement || ks[i] is EndElement)
}

/// Law: an end tag is accepted exactly when it names the innermost open
/// element; then that element, and only it, is closed and nothing is handed
/// out. An end tag with any other name, or with no element open, is handed
/// out as `CannotParse` and ends the iteration.
pub proof fn lemma_end_tag_closes_innermost(s: TreeStateView, n: Seq<char>)
    requires
        state_wf(s),
        !s.errored,
    ensures
        (s.open.len() > 0 && s.open[s.open.len() - 1] == n) ==> {
            &&& outcome_kind(s, EventKind::EndElement(n)) is Continue
            &&& next_state(s, EventKind::EndElement(n)).open == s.open.subrange(0, s.open.len() - 1)
            &&& next_state(s, EventKind::EndElement(n)).pruned == s.pruned.subrange(0, s.pruned.len() - 1)
            &&& !next_state(s, EventKind::EndElement(n)).errored
        },
        !(s.open.len() > 0 && s.open[s.open.len() - 1] == n) ==> {
            &&& outcome_kind(s, EventKind::EndElement(n)) is YieldCannotParse
            &&& next_state(s, EventKind::EndElement(n)).errored
            &&& next_state(s, EventKind::EndElement(n)).open == s.open
        },
{
}

/// Law: when the path is no more than one level deeper than the open
/// elements, it stays so after a start or an end tag, and a started element
/// gets a path exactly as long as its nesting depth.
pub proof fn lemma_tag_keeps_path_tight(s: TreeStateView, k: EventKind)
    requires
        state_wf(s),
        s.path.len() <= s.open.len() + 1,
        k is StartElement || k is EndElement,
    ensures
        next_state(s, k).path.len() <= next_state(s, k).open.len() + 1,
        (!s.errored && k is StartElement) ==> next_state(s, k).path.len() == next_state(s, k).open.len()
            && next_state(s, k).open.len() == s.open.len() + 1,
{
    if !s.errored {
        if let EventKind::StartElement(n) = k {
            let d = s.open.len() + 1;
            assert(path_trimmed(s.path, d).len() == d);
        }
    }
}

/// Law: in a run of start and end tags only, starting from a state whose path
/// is no more than one level deeper than its open elements (the empty state
/// among them), the path never becomes more than one level deeper than the
/// open elements: every element started in the run, the one after the end of
/// a sibling's subtree included, gets a path exactly as long as its nesting
/// depth, and so is placed under the element that encloses it.
pub proof fn lemma_tags_keep_paths_at_depth(s: TreeStateView, ks: Seq<EventKind>)
    requires
        state_wf(s),
        s.path.len() <= s.open.len() + 1,
        tags_only(ks),
    ensures
        run(s, ks).path.len() <= run(s, ks).open.len() + 1,
        ks.len() > 0 && ks.last() is StartElement && !run(s, ks.drop_last()).errored ==> run(
            s,
            ks,
        ).path.len() == run(s, ks).open.len(),
    decreases ks.len(),
{
    if ks.len() > 0 {
        let k = ks[0];
        assert(k is StartElement || k is EndElement) by {
            assert(tags_only(ks));
            assert(ks[0] == k);
        }
        lemma_step_keeps_wf(s, k);
        lemma_tag_keeps_path_tight(s, k);
        let rest = ks.drop_first();
        assert(tags_only(rest)) by {
            assert forall|i: int| 0 <= i < rest.len() implies (#[trigger] rest[i] is StartElement
                || rest[i] is EndElement) by {
                assert(rest[i] == ks[i + 1]);
            }
        }
        lemma_tags_keep_paths_at_depth(next_state(s, k), rest);
        if ks.len() == 1 {
            assert(ks.drop_last() =~= Seq::<EventKind>::empty());
            assert(ks.last() == k);
            assert(rest =~= Seq::<EventKind>::empty());
        } else {
            assert(rest.last() == ks.last());
            assert(rest.drop_last() =~= ks.drop_last().drop_first());
            assert(ks.drop_last()[0] == k);
        }
    }
}

/// Law: two sibling elements never get the same path. After an element is
/// started and ended, the next start tag at the same level keeps the path's
/// prefix and counts one more child in its last entry.
pub proof fn lemma_next_sibling_counts_one_more(s: TreeStateView, a: Seq<char>, b: Seq<char>)
    requires
        state_wf(s),
        !s.errored,
        s.path.len() <= s.open.len() + 1,
        next_state(s, EventKind::StartElement(a)).path.last() < usize::MAX,
    ensures
        ({
            let t1 = next_state(s, EventKind::StartElement(a));
            let t3 = next_state(
                next_state(t1, EventKind::EndElement(a)),
                EventKind::StartElement(b),
            );
            &&& t1.path.len() > 0
            &&& t3.path.len() == t1.path.len()
            &&& t3.path.last() == t1.path.last() + 1
            &&& t3.path.drop_last() == t1.path.drop_last()
            &&& t3.path != t1.path
        }),
{
    let t1 = next_state(s, EventKind::StartElement(a));
    lemma_tag_keeps_path_tight(s, EventKind::StartElement(a));
    assert(t1.open.last() == a);
    let t2 = next_state(t1, EventKind::EndElement(a));
    assert(t2.open =~= s.open);
    assert(t2.path == t1.path);
    let t3 = next_state(t2, EventKind::StartElement(b));
    let d = t2.open.len() + 1;
    assert(path_trimmed(t2.path, d) == t1.path);
    assert(t3.path.drop_last() =~= t1.path.drop_last());
}

/// Law: the next start tag has room exactly when the child counter it adds
/// one to is below the largest `usize`. That counter is the entry of the path
/// just below the innermost open element's level when the path reaches that
/// far, else the entry at that level, else a fresh counter of zero.
pub proof fn lemma_room_is_counter_below_max(s: TreeStateView)
    requires
        state_wf(s),
    ensures
        child_count_fits(s) <==> (if s.path.len() >= s.open.len() + 2 {
            s.path[s.open.len() + 1int] < usize::MAX
        } else if s.path.len() == s.open.len() + 1 {
            s.path[s.open.len() as int] < usize::MAX
        } else {
            true
        }),
        (forall|i: int| 0 <= i < s.path.len() ==> #[trigger] s.path[i] < usize::MAX) ==> child_count_fits(s),
{
    let d = s.open.len() + 1;
    let p = path_trimmed(s.path, d);
    if s.path.len() >= s.open.len() + 2 {
        assert(p.last() == s.path[s.open.len() + 1int]);
    } else if s.path.len() == s.open.len() + 1 {
        assert(p.last() == s.path[s.open.len() as int]);
    } else {
        assert(p.last() == 0);
    }
}

} // verus!
