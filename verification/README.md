# xmltree

Reads an XML document into a collection of trees of `XMLNode`s.

- `src/` is the verified library: the node model (`node.rs`), element
  predicates (`predicate.rs`), parse errors (`error.rs`), the state machine
  that decides, for each reader event, what the tree iterator yields and the
  path of the yielded node (`tree_state.rs`), laws over runs of events
  (`tree_laws.rs`), and the declarations of the outside types and functions it
  relies on (`outside.rs`).
- `app/` holds the iterator over a `Read` source: it pulls events from the
  `xml-rs` reader, converts them, and hands them to `TreeState::step`; it also
  plugs the iterator into `tree_iterators_rs`.
- Element attributes are kept in an `indexmap::IndexMap`, in insertion order:
  this is the "attribute order" configuration of an attribute map, and the
  only one this crate offers. The field `Element::attributes` therefore has
  the type `IndexMap<String, String>`, not a `HashMap`.
- The tree iterator's items are `Result<XMLNode, ParseError>`; collecting the
  trees keeps an error as an item of the tree rather than ending the
  collection with it.
