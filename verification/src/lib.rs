//! A small library that turns the event stream of an XML reader into a
//! collection of trees of `XMLNode`s.
//!
//! The verified part of the crate holds the tree model (`XMLNode`,
//! `Element`), the element predicates, the parse error type, and the state
//! machine that decides, event by event, which node the tree iterator yields
//! and where in the tree it stands.
pub mod outside;
pub mod node;
pub mod error;
pub mod tree_state;
pub mod tree_laws;
pub mod predicate;
pub mod attribute_laws;

pub use outside::AttributeMap;
pub use node::{Element, XMLNode};
pub use error::ParseError;
pub use predicate::{ElementPredicate, NamePattern};
pub use tree_state::{
    EventKind, OutcomeKind, ReaderEvent, StepOutcome, TreeState, TreeStateView, XmlAttribute,
    XmlName,
};
pub use xml::namespace::Namespace;
pub use xml::reader::ParserConfig;
pub use xml::writer::{EmitterConfig, Error};
