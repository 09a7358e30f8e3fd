use std::borrow::Cow;

use xml::namespace::Namespace;
use xml::reader::{EventReader, ParserConfig, XmlEvent};
use xmltree::{
    Element, ElementPredicate, ParseError, ReaderEvent, StepOutcome, TreeState, XMLNode,
    XmlAttribute, XmlName,
};

fn xml_name(local: &str) -> XmlName {
    XmlName {
        local_name: local.to_string(),
        prefix: None,
        namespace: None,
    }
}

fn owned(name: xml::name::OwnedName) -> XmlName {
    XmlName {
        local_name: name.local_name,
        prefix: name.prefix,
        namespace: name.namespace,
    }
}

fn convert(event: XmlEvent) -> ReaderEvent {
    match event {
        XmlEvent::StartDocument { .. } => ReaderEvent::StartDocument,
        XmlEvent::EndDocument => ReaderEvent::EndDocument,
        XmlEvent::ProcessingInstruction { name, data } => {
            ReaderEvent::ProcessingInstruction { name, data }
        }
        XmlEvent::StartElement {
            name,
            attributes,
            namespace,
        } => ReaderEvent::StartElement {
            name: owned(name),
            attributes: attributes
                .into_iter()
                .map(|a| XmlAttribute {
                    name: owned(a.name),
                    value: a.value,
                })
                .collect(),
            namespace,
        },
        XmlEvent::EndElement { name } => ReaderEvent::EndElement { name: owned(name) },
        XmlEvent::CData(s) => ReaderEvent::CData(s),
        XmlEvent::Comment(s) => ReaderEvent::Comment(s),
        XmlEvent::Characters(s) => ReaderEvent::Characters(s),
        XmlEvent::Whitespace(s) => ReaderEvent::Whitespace(s),
    }
}

/// Runs the reader over `data` and hands every event to the tree state, the
/// way the tree iterator does; returns each yielded item with its path.
fn parse_all(data: &str) -> Vec<(Result<XMLNode, ParseError>, Vec<usize>)> {
    let mut reader = EventReader::new_with_config(
        data.as_bytes(),
        ParserConfig::new().ignore_comments(false),
    );
    let mut state = TreeState::new();
    let mut out = Vec::new();
    'items: loop {
        if state.is_errored() {
            break;
        }
        loop {
            let event = reader.next().map(convert);
            match state.step(event) {
                StepOutcome::Continue => {}
                StepOutcome::Yield(item) => {
                    out.push((item, state.current_path().to_vec()));
                    continue 'items;
                }
                StepOutcome::Finished => break 'items,
            }
        }
    }
    out
}

fn first_error(items: &[(Result<XMLNode, ParseError>, Vec<usize>)]) -> Option<&ParseError> {
    items.iter().find_map(|(item, _)| item.as_ref().err())
}

fn start(local: &str, attrs: &[(&str, &str)], namespace: Namespace) -> Result<ReaderEvent, xml::reader::Error> {
    Ok(ReaderEvent::StartElement {
        name: xml_name(local),
        attributes: attrs
            .iter()
            .map(|(k, v)| XmlAttribute {
                name: xml_name(k),
                value: v.to_string(),
            })
            .collect(),
        namespace,
    })
}

fn end(local: &str) -> Result<ReaderEvent, xml::reader::Error> {
    Ok(ReaderEvent::EndElement { name: xml_name(local) })
}

fn text(s: &str) -> Result<ReaderEvent, xml::reader::Error> {
    Ok(ReaderEvent::Characters(s.to_string()))
}

#[test]
fn test_mal_01() {
    // some tests for error handling

    let data = r#"
        <?xml version="1.0" encoding="utf-8" standalone="yes"?>
        <names>
            <name first="bob" last="jones />
            <name first="elizabeth" last="smith" />
        </names>
    "#;

    let names_element = parse_all(data);
    if let Some(ParseError::MalformedXml(..)) = first_error(&names_element) {
        // OK
    } else {
        panic!("unexpected parse result");
    }
}

#[test]
fn test_mal_02() {
    // some tests for error handling

    let data = r##"
            this is not even close
            to XML
    "##;

    let names_element = parse_all(data);
    if let Some(ParseError::MalformedXml(..)) = first_error(&names_element) {
        // OK
    } else {
        panic!("unexpected parse result");
    }
}

#[test]
fn test_mal_03() {
    // some tests for error handling

    let data = r#"
        <?xml version="1.0" encoding="utf-8" standalone="yes"?>
        <names>
            <name first="bob" last="jones"></badtag>
            <name first="elizabeth" last="smith" />
        </names>
    "#;

    let names_element = parse_all(data);
    if let Some(ParseError::MalformedXml(..)) = first_error(&names_element) {
        // OK
    } else {
        panic!("unexpected parse result");
    }
}

#[test]
fn parse_document_yields_nodes_in_order_with_paths() {
    let data = r#"<?xml version="1.0"?><names><name first="bob" last="jones"/><!--c--><name first="elizabeth"/></names>"#;
    let items = parse_all(data);
    assert_eq!(items.len(), 4);
    match &items[0] {
        (Ok(XMLNode::Element(e)), path) => {
            assert_eq!(e.name, "names");
            assert_eq!(path, &vec![1]);
        }
        _ => panic!("expected the root element"),
    }
    match &items[1] {
        (Ok(XMLNode::Element(e)), path) => {
            assert_eq!(e.name, "name");
            let attrs: Vec<(&str, &str)> =
                e.attributes.iter().map(|(k, v)| (k.as_str(), v.as_str())).collect();
            assert_eq!(attrs, vec![("first", "bob"), ("last", "jones")]);
            assert_eq!(path, &vec![1, 1]);
        }
        _ => panic!("expected the first child"),
    }
    match &items[2] {
        (Ok(XMLNode::Comment(c)), path) => {
            assert_eq!(c, "c");
            assert_eq!(path, &vec![1, 1, 0]);
        }
        _ => panic!("expected the comment"),
    }
    match &items[3] {
        (Ok(XMLNode::Element(e)), path) => {
            assert_eq!(e.name, "name");
            assert_eq!(e.attributes.get("first").map(|s| s.as_str()), Some("elizabeth"));
            assert_eq!(path, &vec![1, 1, 1]);
        }
        _ => panic!("expected the second child"),
    }
}

#[test]
fn parse_processing_instruction() {
    let data = r#"<?xml version="1.0"?><root><?pi foo="blah"?></root>"#;
    let items = parse_all(data);
    assert_eq!(items.len(), 2);
    if let (Ok(XMLNode::ProcessingInstruction(pt1, pt2)), path) = &items[1] {
        assert_eq!(pt1, "pi");
        assert_eq!(pt2.as_ref().unwrap(), "foo=\"blah\"");
        assert_eq!(path, &vec![1, 0]);
    } else {
        panic!("Should be processing instruction");
    }
}

#[test]
fn new_state_is_empty() {
    let s = TreeState::new();
    assert!(s.current_path().is_empty());
    assert!(!s.is_errored());
    assert!(s.child_count_has_room());
}

#[test]
fn unmatched_end_tag_is_cannot_parse_and_ends() {
    let mut s = TreeState::new();
    assert!(matches!(s.step(start("a", &[], Namespace::empty())), StepOutcome::Yield(Ok(_))));
    match s.step(end("b")) {
        StepOutcome::Yield(Err(ParseError::CannotParse)) => {}
        _ => panic!("expected CannotParse"),
    }
    assert!(s.is_errored());
}

#[test]
fn steps_after_an_error_finish() {
    let mut s = TreeState::new();
    s.step(end("x"));
    assert!(s.is_errored());
    assert!(matches!(s.step(start("a", &[], Namespace::empty())), StepOutcome::Finished));
    assert!(matches!(s.step(text("t")), StepOutcome::Finished));
    assert!(s.current_path().is_empty());
}

#[test]
fn malformed_message_is_prefix_and_text() {
    assert_eq!(xmltree::error::malformed_message("1:2 oops"), "Malformed XML. 1:2 oops");
    assert_eq!(xmltree::error::malformed_message(""), "Malformed XML. ");
}

#[test]
fn end_tag_without_open_element_is_cannot_parse() {
    let mut s = TreeState::new();
    assert!(matches!(s.step(end("a")), StepOutcome::Yield(Err(ParseError::CannotParse))));
    assert!(s.is_errored());
}

#[test]
fn matching_end_tag_continues() {
    let mut s = TreeState::new();
    s.step(start("a", &[], Namespace::empty()));
    s.step(start("b", &[], Namespace::empty()));
    assert_eq!(s.current_path(), &[1, 1]);
    assert!(matches!(s.step(end("b")), StepOutcome::Continue));
    assert!(matches!(s.step(end("a")), StepOutcome::Continue));
    assert!(!s.is_errored());
    assert!(matches!(s.step(Ok(ReaderEvent::EndDocument)), StepOutcome::Finished));
}

#[test]
fn second_document_start_is_cannot_parse() {
    let mut s = TreeState::new();
    assert!(matches!(s.step(Ok(ReaderEvent::StartDocument)), StepOutcome::Continue));
    match s.step(Ok(ReaderEvent::StartDocument)) {
        StepOutcome::Yield(Err(ParseError::CannotParse)) => {}
        _ => panic!("expected CannotParse"),
    }
    // this error does not end the iteration
    assert!(!s.is_errored());
}

#[test]
fn content_before_document_start_makes_start_an_error() {
    let mut s = TreeState::new();
    assert!(matches!(s.step(Ok(ReaderEvent::Whitespace(" ".to_string()))), StepOutcome::Continue));
    assert!(matches!(s.step(Ok(ReaderEvent::StartDocument)), StepOutcome::Yield(Err(ParseError::CannotParse))));
}

#[test]
fn reader_error_is_malformed_and_ends() {
    let mut reader = EventReader::new("<a>".as_bytes());
    let err = loop {
        match reader.next() {
            Ok(_) => {}
            Err(e) => break e,
        }
    };
    let mut s = TreeState::new();
    match s.step(Err(err)) {
        StepOutcome::Yield(Err(ParseError::MalformedXml(_))) => {}
        _ => panic!("expected MalformedXml"),
    }
    assert!(s.is_errored());
}

#[test]
fn leaves_yield_text_comment_cdata() {
    let mut s = TreeState::new();
    s.step(start("a", &[], Namespace::empty()));
    match s.step(text("hello")) {
        StepOutcome::Yield(Ok(XMLNode::Text(t))) => assert_eq!(t, "hello"),
        _ => panic!("expected text"),
    }
    assert_eq!(s.current_path(), &[1, 0]);
    match s.step(Ok(ReaderEvent::Comment("c".to_string()))) {
        StepOutcome::Yield(Ok(XMLNode::Comment(t))) => assert_eq!(t, "c"),
        _ => panic!("expected comment"),
    }
    assert_eq!(s.current_path(), &[1, 0, 0]);
    match s.step(Ok(ReaderEvent::CData("<x>".to_string()))) {
        StepOutcome::Yield(Ok(XMLNode::CData(t))) => assert_eq!(t, "<x>"),
        _ => panic!("expected cdata"),
    }
    assert!(matches!(s.step(Ok(ReaderEvent::Whitespace("  ".to_string()))), StepOutcome::Continue));
    assert_eq!(s.current_path(), &[1, 0, 0, 0]);
}

#[test]
fn pruned_subtree_is_hidden_until_its_end() {
    let mut s = TreeState::new();
    s.step(start("root", &[], Namespace::empty()));
    s.step(start("skip", &[], Namespace::empty()));
    s.prune_current_subtree();
    assert!(matches!(s.step(start("inner", &[], Namespace::empty())), StepOutcome::Continue));
    assert!(matches!(s.step(text("t")), StepOutcome::Continue));
    assert!(matches!(s.step(end("inner")), StepOutcome::Continue));
    assert!(matches!(s.step(end("skip")), StepOutcome::Continue));
    match s.step(start("keep", &[], Namespace::empty())) {
        StepOutcome::Yield(Ok(XMLNode::Element(e))) => assert_eq!(e.name, "keep"),
        _ => panic!("expected the element after the pruned subtree"),
    }
}

#[test]
fn prune_without_open_element_changes_nothing() {
    let mut s = TreeState::new();
    s.prune_current_subtree();
    assert!(matches!(s.step(start("a", &[], Namespace::empty())), StepOutcome::Yield(Ok(_))));
}

#[test]
fn start_element_attributes_keep_order_and_last_value_wins() {
    let mut s = TreeState::new();
    match s.step(start("a", &[("x", "1"), ("y", "2"), ("x", "3")], Namespace::empty())) {
        StepOutcome::Yield(Ok(XMLNode::Element(e))) => {
            let attrs: Vec<(&str, &str)> =
                e.attributes.iter().map(|(k, v)| (k.as_str(), v.as_str())).collect();
            assert_eq!(attrs, vec![("x", "3"), ("y", "2")]);
        }
        _ => panic!("expected an element"),
    }
}

#[test]
fn start_element_copies_name_parts() {
    let mut s = TreeState::new();
    let ev = Ok(ReaderEvent::StartElement {
        name: XmlName {
            local_name: "table".to_string(),
            prefix: Some("h".to_string()),
            namespace: Some("http://www.w3.org/TR/html4/".to_string()),
        },
        attributes: vec![XmlAttribute {
            name: XmlName {
                local_name: "id".to_string(),
                prefix: Some("p".to_string()),
                namespace: Some("urn:p".to_string()),
            },
            value: "t1".to_string(),
        }],
        namespace: Namespace::empty(),
    });
    match s.step(ev) {
        StepOutcome::Yield(Ok(XMLNode::Element(e))) => {
            assert_eq!(e.name, "table");
            assert_eq!(e.prefix.as_deref(), Some("h"));
            assert_eq!(e.namespace.as_deref(), Some("http://www.w3.org/TR/html4/"));
            assert_eq!(e.attributes.get("id").map(|s| s.as_str()), Some("t1"));
        }
        _ => panic!("expected an element"),
    }
}

#[test]
fn default_namespace_mappings_give_no_namespaces() {
    let mut ns = Namespace::empty();
    ns.put("", "");
    ns.put("xml", "http://www.w3.org/XML/1998/namespace");
    ns.put("xmlns", "http://www.w3.org/2000/xmlns/");
    let mut s = TreeState::new();
    match s.step(start("a", &[], ns)) {
        StepOutcome::Yield(Ok(XMLNode::Element(e))) => assert!(e.namespaces.is_none()),
        _ => panic!("expected an element"),
    }
}

#[test]
fn other_namespace_mappings_are_kept() {
    let mut ns = Namespace::empty();
    ns.put("h", "http://www.w3.org/TR/html4/");
    let mut s = TreeState::new();
    match s.step(start("a", &[], ns.clone())) {
        StepOutcome::Yield(Ok(XMLNode::Element(e))) => assert_eq!(e.namespaces, Some(ns)),
        _ => panic!("expected an element"),
    }
}

#[test]
fn element_after_leaf_path() {
    // <r><c/>t<d/></r>: the text after the closed child leaves the path one level deeper
    let mut s = TreeState::new();
    s.step(start("r", &[], Namespace::empty()));
    s.step(start("c", &[], Namespace::empty()));
    s.step(end("c"));
    assert_eq!(s.current_path(), &[1, 1]);
    s.step(text("t"));
    assert_eq!(s.current_path(), &[1, 1, 0]);
    s.step(start("d", &[], Namespace::empty()));
    assert_eq!(s.current_path(), &[1, 1, 1]);
}

#[test]
fn child_counter_room() {
    let mut s = TreeState::new();
    s.step(start("r", &[], Namespace::empty()));
    assert!(s.child_count_has_room());
}

#[test]
fn element_new_is_empty() {
    let e = Element::new("n");
    assert_eq!(e.name, "n");
    assert!(e.prefix.is_none());
    assert!(e.namespace.is_none());
    assert!(e.namespaces.is_none());
    assert!(e.attributes.is_empty());
}

#[test]
fn element_clone_is_equal() {
    let mut e = Element::new("n");
    e.attributes.insert("b".to_string(), "2".to_string());
    e.attributes.insert("a".to_string(), "1".to_string());
    e.namespace = Some("urn:x".to_string());
    let mut ns = Namespace::empty();
    ns.put("x", "urn:x");
    e.namespaces = Some(ns);
    let c = e.clone();
    assert_eq!(c, e);
    let keys: Vec<&String> = c.attributes.keys().collect();
    assert_eq!(keys, vec!["b", "a"]);
    let node = XMLNode::Element(e);
    assert_eq!(node.clone(), node);
}

#[test]
fn node_accessors() {
    let el = XMLNode::Element(Element::new("e"));
    let comment = XMLNode::Comment("c".to_string());
    let cdata = XMLNode::CData("d".to_string());
    let txt = XMLNode::Text("t".to_string());
    let pi = XMLNode::ProcessingInstruction("pi".to_string(), Some("x".to_string()));
    let pi_none = XMLNode::ProcessingInstruction("pi".to_string(), None);

    assert_eq!(el.as_element().map(|e| e.name.as_str()), Some("e"));
    assert!(comment.as_element().is_none());
    assert_eq!(comment.as_comment(), Some("c"));
    assert!(txt.as_comment().is_none());
    assert_eq!(cdata.as_cdata(), Some("d"));
    assert!(el.as_cdata().is_none());
    assert_eq!(txt.as_text(), Some("t"));
    assert!(cdata.as_text().is_none());
    assert_eq!(pi.as_processing_instruction(), Some(("pi", Some("x"))));
    assert_eq!(pi_none.as_processing_instruction(), Some(("pi", None)));
    assert!(txt.as_processing_instruction().is_none());
}

#[test]
fn node_as_mut_element() {
    let mut el = XMLNode::Element(Element::new("e"));
    el.as_mut_element().unwrap().name = "f".to_string();
    assert_eq!(el.as_element().unwrap().name, "f");
    let mut txt = XMLNode::Text("t".to_string());
    assert!(txt.as_mut_element().is_none());
    assert_eq!(txt, XMLNode::Text("t".to_string()));
}

#[test]
fn predicates_by_name() {
    let mut e = Element::new("table");
    assert!("table".match_element(&e));
    assert!(!"tab".match_element(&e));
    assert!(String::from("table").match_element(&e));
    assert!(!String::from("chair").match_element(&e));
    assert!(Cow::Borrowed("table").match_element(&e));
    assert!(!Cow::<str>::Owned("chair".to_string()).match_element(&e));
    assert!(("table",).match_element(&e));
    assert!((String::from("table"),).match_element(&e));
    assert!(!("table", "urn:a").match_element(&e));
    e.namespace = Some("urn:a".to_string());
    assert!(("table", "urn:a").match_element(&e));
    assert!(!("table", "urn:b").match_element(&e));
    assert!(!("chair", "urn:a").match_element(&e));
    assert!((String::from("table"), String::from("urn:a")).match_element(&e));
    assert!(!(String::from("table"), String::from("urn:b")).match_element(&e));
    assert!(("table", String::from("urn:a")).match_element(&e));
    assert!(!(String::from("table"), "urn:b").match_element(&e));
    assert!((Cow::Borrowed("table"), Cow::<str>::Owned("urn:a".to_string())).match_element(&e));
    assert!((Cow::Borrowed("table"),).match_element(&e));
    assert!(!(Cow::<str>::Owned("tab".to_string()),).match_element(&e));
}

#[test]
fn parse_error_texts() {
    let e = ParseError::CannotParse;
    assert_eq!(e.description(), "Cannot parse");
    assert_eq!(e.message(), "Cannot parse");
    assert!(e.cause().is_none());

    let mut reader = EventReader::new("<a></b>".as_bytes());
    let err = loop {
        match reader.next() {
            Ok(_) => {}
            Err(e) => break e,
        }
    };
    let text = format!("{}", err);
    let e = ParseError::MalformedXml(err);
    assert_eq!(e.description(), "Malformed XML");
    assert_eq!(e.message(), format!("Malformed XML. {}", text));
    assert!(e.message().starts_with("Malformed XML. 1:"));
    assert!(e.cause().is_some());
}
