//! The decisions of the tree iterator: from the state it keeps and the next
//! event of the XML reader to its next state and what it hands out.
use vstd::prelude::*;
use crate::error::ParseError;
use crate::node::{Element, XMLNode};
use crate::outside::{
    attribute_entries, entries_insert, insert_attribute, is_essentially_empty_spec, keys_unique,
    namespace_is_essentially_empty, namespace_mappings, new_attribute_map,
};
use xml::namespace::Namespace;

verus! {

/// A qualified name as the reader reports it.
pub struct XmlName {
    pub local_name: String,
    pub prefix: Option<String>,
    pub namespace: Option<String>,
}

/// An attribute as the reader reports it.
pub struct XmlAttribute {
    pub name: XmlName,
    pub value: String,
}

/// The events of an XML reader, holding what the tree iterator reads of them.
#[allow(inconsistent_fields)]
pub enum ReaderEvent {
    StartDocument,
    EndDocument,
    ProcessingInstruction { name: String, data: Option<String> },
    StartElement { name: XmlName, attributes: Vec<XmlAttribute>, namespace: Namespace },
    EndElement { name: XmlName },
    CData(String),
    Comment(String),
    Characters(String),
    Whitespace(String),
}

/// What one step of the tree iterator ends in.
pub enum StepOutcome {
    /// Nothing is handed out: read the next event.
    Continue,
    /// This item is handed out.
    Yield(Result<XMLNode, ParseError>),
    /// The document has ended: the iterator is exhausted.
    Finished,
}

/// The shape of an event, as far as the state of the iterator depends on it.
pub enum EventKind {
    StartDocument,
    EndDocument,
    /// A text, comment, CDATA or processing instruction event.
    Leaf,
    Whitespace,
    StartElement(Seq<char>),
    EndElement(Seq<char>),
    /// The reader reported an error.
    Malformed,
}

/// The shape of an outcome, as far as the state decides it.
pub enum OutcomeKind {
    Continue,
    YieldNode,
    YieldCannotParse,
    YieldMalformed,
    Finished,
}

pub open spec fn event_kind(ev: Result<ReaderEvent, xml::reader::Error>) -> EventKind {
    match ev {
        Err(_) => EventKind::Malformed,
        Ok(ReaderEvent::StartDocument) => EventKind::StartDocument,
        Ok(ReaderEvent::EndDocument) => EventKind::EndDocument,
        Ok(ReaderEvent::ProcessingInstruction { .. }) => EventKind::Leaf,
        Ok(ReaderEvent::StartElement { name, .. }) => EventKind::StartElement(name.local_name@),
        Ok(ReaderEvent::EndElement { name }) => EventKind::EndElement(name.local_name@),
        Ok(ReaderEvent::CData(_)) => EventKind::Leaf,
        Ok(ReaderEvent::Comment(_)) => EventKind::Leaf,
        Ok(ReaderEvent::Characters(_)) => EventKind::Leaf,
        Ok(ReaderEvent::Whitespace(_)) => EventKind::Whitespace,
    }
}

/// The state of the tree iterator.
pub struct TreeStateView {
    /// The local names of the open elements, outermost first.
    pub open: Seq<Seq<char>>,
    /// For each open element, whether its subtree is pruned.
    pub pruned: Seq<bool>,
    /// The path in the collection of trees to the node handed out last.
    pub path: Seq<usize>,
    /// A reader error or an unmatched end tag was met.
    pub errored: bool,
    /// Some event other than the document's end has been seen.
    pub moved: bool,
}

/// The path after an element at `depth` (counting from one) starts: entries
/// below the parent's child are dropped, a missing level is added, and the
/// last entry counts one more child.
pub open spec fn path_trimmed(path: Seq<usize>, depth: nat) -> Seq<usize> {
    let trimmed = if path.len() > depth + 1 {
        path.take((depth + 1) as int)
    } else {
        path
    };
    if trimmed.len() < depth {
        trimmed.push(0usize)
    } else {
        trimmed
    }
}

pub open spec fn path_after_start(path: Seq<usize>, depth: nat) -> Seq<usize> {
    let p = path_trimmed(path, depth);
    if p.len() == 0 {
        p
    } else {
        p.update(p.len() - 1, (p.last() + 1) as usize)
    }
}

/// The child counter that a start of an element adds one to is below the
/// largest `usize`.
pub open spec fn child_count_fits(s: TreeStateView) -> bool {
    let p = path_trimmed(s.path, s.open.len() + 1);
    p.len() > 0 ==> p.last() < usize::MAX
}

/// The state well formed: one prune flag per open element, and a path at
/// least as long as the open elements are deep.
pub open spec fn state_wf(s: TreeStateView) -> bool {
    &&& s.pruned.len() == s.open.len()
    &&& s.path.len() >= s.open.len()
}

/// The end tag `n` closes the innermost open element.
pub open spec fn end_matches(s: TreeStateView, n: Seq<char>) -> bool {
    s.open.len() > 0 && s.open.last() == n
}

/// The state after the event `k`. Once an error is recorded the iteration has
/// ended, and no event changes the state.
pub open spec fn next_state(s: TreeStateView, k: EventKind) -> TreeStateView {
    if s.errored {
        s
    } else {
        next_state_running(s, k)
    }
}

pub open spec fn next_state_running(s: TreeStateView, k: EventKind) -> TreeStateView {
    match k {
        EventKind::Malformed => TreeStateView { moved: true, errored: true, ..s },
        EventKind::EndDocument => s,
        EventKind::StartDocument => TreeStateView { moved: true, ..s },
        EventKind::Whitespace => TreeStateView { moved: true, ..s },
        EventKind::Leaf => TreeStateView { moved: true, path: s.path.push(0usize), ..s },
        EventKind::EndElement(n) => if end_matches(s, n) {
            TreeStateView {
                moved: true,
                open: s.open.drop_last(),
                pruned: s.pruned.drop_last(),
                path: if s.open.len() < s.path.len() {
                    s.path.drop_last()
                } else {
                    s.path
                },
                ..s
            }
        } else {
            TreeStateView { moved: true, errored: true, ..s }
        },
        EventKind::StartElement(n) => TreeStateView {
            moved: true,
            open: s.open.push(n),
            pruned: s.pruned.push(false),
            path: path_after_start(s.path, s.open.len() + 1),
            ..s
        },
    }
}

/// What the event `k` ends in. Once an error is recorded the iteration has
/// ended: every step finishes.
pub open spec fn outcome_kind(s: TreeStateView, k: EventKind) -> OutcomeKind {
    if s.errored {
        OutcomeKind::Finished
    } else {
        outcome_kind_running(s, k)
    }
}

pub open spec fn outcome_kind_running(s: TreeStateView, k: EventKind) -> OutcomeKind {
    match k {
        EventKind::Malformed => OutcomeKind::YieldMalformed,
        EventKind::EndDocument => OutcomeKind::Finished,
        EventKind::StartDocument => if s.moved {
            OutcomeKind::YieldCannotParse
        } else {
            OutcomeKind::Continue
        },
        EventKind::Whitespace => OutcomeKind::Continue,
        EventKind::Leaf => if s.pruned.contains(true) {
            OutcomeKind::Continue
        } else {
            OutcomeKind::YieldNode
        },
        EventKind::EndElement(n) => if end_matches(s, n) {
            OutcomeKind::Continue
        } else {
            OutcomeKind::YieldCannotParse
        },
        EventKind::StartElement(_) => if s.pruned.contains(true) {
            OutcomeKind::Continue
        } else {
            OutcomeKind::YieldNode
        },
    }
}

/// The state after the subtree of the innermost open element is pruned.
pub open spec fn prune_state(s: TreeStateView) -> TreeStateView {
    TreeStateView {
        pruned: if s.pruned.len() == 0 {
            s.pruned
        } else {
            s.pruned.update(s.pruned.len() - 1, true)
        },
        ..s
    }
}

/// The attribute entries that inserting the attributes, in order and by local
/// name, into an empty map gives.
pub open spec fn attributes_entries(attrs: Seq<XmlAttribute>) -> Seq<(Seq<char>, Seq<char>)>
    decreases attrs.len(),
{
    if attrs.len() == 0 {
        Seq::empty()
    } else {
        entries_insert(
            attributes_entries(attrs.drop_last()),
            attrs.last().name.local_name@,
            attrs.last().value@,
        )
    }
}

/// `e` is the element that a start tag with these parts describes.
pub open spec fn element_of_start(
    e: Element,
    name: XmlName,
    attributes: Seq<XmlAttribute>,
    namespace: Namespace,
) -> bool {
    &&& e.name == name.local_name
    &&& e.prefix == name.prefix
    &&& e.namespace == name.namespace
    &&& attribute_entries(e.attributes) == attributes_entries(attributes)
    &&& if is_essentially_empty_spec(namespace_mappings(namespace)) {
        e.namespaces is None
    } else {
        e.namespaces == Some(namespace)
    }
}

/// `n` is the node that the event `ev` describes.
pub open spec fn node_of_event(ev: ReaderEvent, n: XMLNode) -> bool {
    match (ev, n) {
        (ReaderEvent::Characters(s), XMLNode::Text(t)) => s == t,
        (ReaderEvent::Comment(s), XMLNode::Comment(t)) => s == t,
        (ReaderEvent::CData(s), XMLNode::CData(t)) => s == t,
        (ReaderEvent::ProcessingInstruction { name, data }, XMLNode::ProcessingInstruction(t, d)) => name == t
            && data == d,
        (ReaderEvent::StartElement { name, attributes, namespace }, XMLNode::Element(e)) => element_of_start(
            e,
            name,
            attributes@,
            namespace,
        ),
        _ => false,
    }
}

/// The state that the tree iterator keeps between events.
pub struct TreeState {
    /// The open elements, outermost first: local name and prune flag.
    open_elements: Vec<(String, bool)>,
    path: Vec<usize>,
    errored: bool,
    moved: bool,
}

impl View for TreeState {
    type V = TreeStateView;

    closed spec fn view(&self) -> TreeStateView {
        TreeStateView {
            open: self.open_elements@.map_values(|p: (String, bool)| p.0@),
            pruned: self.open_elements@.map_values(|p: (String, bool)| p.1),
            path: self.path@,
            errored: self.errored,
            moved: self.moved,
        }
    }
}

/// Whether some open element is pruned.
fn any_pruned(v: &Vec<(String, bool)>) -> (r: bool)
    ensures
        r == v@.map_values(|p: (String, bool)| p.1).contains(true),
{
    let ghost flags = v@.map_values(|p: (String, bool)| p.1);
    let mut i: usize = 0;
    while i < v.len()
        invariant
            i <= v.len(),
            flags == v@.map_values(|p: (String, bool)| p.1),
            forall|j: int| 0 <= j < i ==> !flags[j],
        decreases v.len() - i,
    {
        if v[i].1 {
            assert(flags[i as int]);
            return true;
        }
        i = i + 1;
    }
    false
}

impl TreeState {
    /// The path is at least as long as the open elements are deep.
    #[verifier::type_invariant]
    closed spec fn inv(self) -> bool {
        self.path@.len() >= self.open_elements@.len()
    }

    /// The state before the first event: nothing open, an empty path.
    pub fn new() -> (s: TreeState)
        ensures
            state_wf(s@),
            s@.open == Seq::<Seq<char>>::empty(),
            s@.pruned == Seq::<bool>::empty(),
            s@.path == Seq::<usize>::empty(),
            !s@.errored,
            !s@.moved,
    {
        let s = TreeState { open_elements: Vec::new(), path: Vec::new(), errored: false, moved: false };
        proof {
            assert(s@.open =~= Seq::<Seq<char>>::empty());
            assert(s@.pruned =~= Seq::<bool>::empty());
        }
        s
    }

    /// Whether an error has ended the iteration: no further event needs to be
    /// read, as every step now finishes.
    pub fn is_errored(&self) -> (r: bool)
        ensures
            r == self@.errored,
    {
        self.errored
    }

    /// The path in the collection of trees to the node handed out last.
    pub fn current_path(&self) -> (r: &[usize])
        ensures
            r@ == self@.path,
    {
        self.path.as_slice()
    }

    /// Prunes the subtree of the innermost open element: none of the nodes
    /// below it are handed out until it ends.
    pub fn prune_current_subtree(&mut self)
        ensures
            state_wf(final(self)@),
            final(self)@ == prune_state(old(self)@),
    {
        proof {
            use_type_invariant(&*self);
        }
        let ghost s0 = self@;
        let mut open = Vec::new();
        std::mem::swap(&mut open, &mut self.open_elements);
        if let Some((name, _)) = open.pop() {
            open.push((name, true));
        }
        self.open_elements = open;
        proof {
            assert(self@.open =~= s0.open);
            if s0.pruned.len() > 0 {
                assert(self@.pruned =~= s0.pruned.update(s0.pruned.len() - 1, true));
            } else {
                assert(self@.pruned =~= s0.pruned);
            }
        }
    }

    /// Whether the counter of children that the next start of an element
    /// adds one to still has room.
    pub fn child_count_has_room(&self) -> (r: bool)
        ensures
            r == child_count_fits(self@),
    {
        proof {
            use_type_invariant(self);
        }
        let depth = self.open_elements.len();
        let len = self.path.len();
        if len > depth && len - depth >= 2 {
            self.path[depth + 1] < usize::MAX
        } else if len <= depth {
            true
        } else {
            self.path[len - 1] < usize::MAX
        }
    }

    /// Builds the attribute map of a start tag: each attribute, in order, is
    /// inserted under its local name.
    fn attribute_map(attributes: &Vec<XmlAttribute>) -> (m: crate::outside::AttributeMap<String, String>)
        ensures
            attribute_entries(m) == attributes_entries(attributes@),
    {
        let mut m = new_attribute_map();
        let mut i: usize = 0;
        while i < attributes.len()
            invariant
                i <= attributes.len(),
                attribute_entries(m) == attributes_entries(attributes@.take(i as int)),
                keys_unique(attribute_entries(m)),
            decreases attributes.len() - i,
        {
            let a = &attributes[i];
            insert_attribute(&mut m, a.name.local_name.clone(), a.value.clone());
            proof {
                assert(attributes@.take(i + 1).drop_last() =~= attributes@.take(i as int));
            }
            i = i + 1;
        }
        proof {
            assert(attributes@.take(attributes.len() as int) =~= attributes@);
        }
        m
    }

    /// Takes the next event of the reader and decides what follows from it:
    /// the new state, and whether a node, an error, or the end is handed out.
    /// Once an error has been handed out the iteration is over: the event is
    /// ignored and the step finishes.
    pub fn step(&mut self, event: Result<ReaderEvent, xml::reader::Error>) -> (out: StepOutcome)
        requires
            event_kind(event) is StartElement ==> child_count_fits(old(self)@),
        ensures
            state_wf(final(self)@),
            final(self)@ == next_state(old(self)@, event_kind(event)),
            match outcome_kind(old(self)@, event_kind(event)) {
                OutcomeKind::Continue => out is Continue,
                OutcomeKind::Finished => out is Finished,
                OutcomeKind::YieldCannotParse => out matches StepOutcome::Yield(Err(ParseError::CannotParse)),
                OutcomeKind::YieldMalformed => event matches Err(e) && out == StepOutcome::Yield(Err(ParseError::MalformedXml(e))),
                OutcomeKind::YieldNode => event matches Ok(ev) && out matches StepOutcome::Yield(Ok(n))
                    && node_of_event(ev, n),
            },
    {
        proof {
            use_type_invariant(&*self);
        }
        let ghost s0 = self@;
        if self.errored {
            return StepOutcome::Finished;
        }
        // the open elements and the path are worked on outside the state and
        // put back together, the path first
        let mut open = Vec::new();
        std::mem::swap(&mut open, &mut self.open_elements);
        let mut path = Vec::new();
        std::mem::swap(&mut path, &mut self.path);
        let out = match event {
            Ok(ReaderEvent::EndElement { name }) => {
                self.moved = true;
                let n = open.len();
                if n > 0 && open[n - 1].0 == name.local_name {
                    open.pop();
                    if open.len() + 1 < path.len() {
                        path.pop();
                    }
                    proof {
                        assert(open@.map_values(|p: (String, bool)| p.0@) =~= s0.open.drop_last());
                        assert(open@.map_values(|p: (String, bool)| p.1) =~= s0.pruned.drop_last());
                    }
                    StepOutcome::Continue
                } else {
                    self.errored = true;
                    StepOutcome::Yield(Err(ParseError::CannotParse))
                }
            },
            Ok(ReaderEvent::StartElement { name, attributes, namespace }) => {
                self.moved = true;
                let attr_map = Self::attribute_map(&attributes);
                let essentially_empty = namespace_is_essentially_empty(&namespace);
                let XmlName { local_name, prefix, namespace: uri } = name;
                let new_elem = Element {
                    prefix,
                    namespace: uri,
                    namespaces: if essentially_empty {
                        None
                    } else {
                        Some(namespace)
                    },
                    name: local_name.clone(),
                    attributes: attr_map,
                };
                open.push((local_name, false));
                let depth = open.len();
                if path.len() > depth {
                    path.truncate(depth + 1);
                }
                if path.len() < depth {
                    path.push(0);
                }
                let len = path.len();
                if len > 0 {
                    let v = path[len - 1];
                    path.set(len - 1, v + 1);
                }
                proof {
                    let pr = open@.map_values(|p: (String, bool)| p.1);
                    assert(open@.map_values(|p: (String, bool)| p.0@) =~= s0.open.push(local_name@));
                    assert(path@ =~= path_after_start(s0.path, s0.open.len() + 1));
                    assert(pr =~= s0.pruned.push(false));
                    if pr.contains(true) {
                        let i = choose|i: int| 0 <= i < pr.len() && pr[i] == true;
                        assert(s0.pruned[i] == true);
                    }
                    if s0.pruned.contains(true) {
                        let i = choose|i: int| 0 <= i < s0.pruned.len() && s0.pruned[i] == true;
                        assert(pr[i] == true);
                    }
                }
                if !any_pruned(&open) {
                    StepOutcome::Yield(Ok(XMLNode::Element(new_elem)))
                } else {
                    StepOutcome::Continue
                }
            },
            Ok(ReaderEvent::Characters(s)) => {
                self.moved = true;
                path.push(0);
                if !any_pruned(&open) {
                    StepOutcome::Yield(Ok(XMLNode::Text(s)))
                } else {
                    StepOutcome::Continue
                }
            },
            Ok(ReaderEvent::Whitespace(_)) => {
                self.moved = true;
                StepOutcome::Continue
            },
            Ok(ReaderEvent::Comment(s)) => {
                self.moved = true;
                path.push(0);
                if !any_pruned(&open) {
                    StepOutcome::Yield(Ok(XMLNode::Comment(s)))
                } else {
                    StepOutcome::Continue
                }
            },
            Ok(ReaderEvent::CData(s)) => {
                self.moved = true;
                path.push(0);
                if !any_pruned(&open) {
                    StepOutcome::Yield(Ok(XMLNode::CData(s)))
                } else {
                    StepOutcome::Continue
                }
            },
            Ok(ReaderEvent::ProcessingInstruction { name, data }) => {
                self.moved = true;
                path.push(0);
                if !any_pruned(&open) {
                    StepOutcome::Yield(Ok(XMLNode::ProcessingInstruction(name, data)))
                } else {
                    StepOutcome::Continue
                }
            },
            Ok(ReaderEvent::StartDocument) => {
                if self.moved {
                    StepOutcome::Yield(Err(ParseError::CannotParse))
                } else {
                    self.moved = true;
                    StepOutcome::Continue
                }
            },
            Ok(ReaderEvent::EndDocument) => StepOutcome::Finished,
            Err(e) => {
                self.moved = true;
                self.errored = true;
                StepOutcome::Yield(Err(ParseError::MalformedXml(e)))
            },
        };
        self.path = path;
        self.open_elements = open;
        out
    }
}

} // verus!
