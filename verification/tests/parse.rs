use xmltodict_rs::config::ParseConfig;
use xmltodict_rs::document::{build_document, feed, parse, parse_xml_with_parser};
use xmltodict_rs::error::{validate_element_name, HookError, StructuralError, XmlError};
use xmltodict_rs::hooks::{
    settle, settle_flag, ForceList, ForceListPredicate, NoHook, Postprocessor,
};
use xmltodict_rs::merge::{offer_answer, store_answer};
use xmltodict_rs::namespace::{namespace_binding, resolve_name};
use xmltodict_rs::parser::{kept_text, prefixed_key, NamespacePrefix, XmlAttribute, XmlParser};
use xmltodict_rs::tokenizer::{
    convert_event, map_quick_xml_error, tokenizer_failure, Tokenizer, XmlEvent,
};
use xmltodict_rs::value::Value;

fn text(s: &str) -> Value {
    Value::Text(s.to_string())
}

fn map(entries: Vec<(&str, Value)>) -> Value {
    Value::Mapping(entries.into_iter().map(|(k, v)| (k.to_string(), v)).collect())
}

fn list(items: Vec<Value>) -> Value {
    Value::List(items)
}

fn plain(xml: &str) -> Result<Value, XmlError> {
    parse::<NoHook, NoHook>(xml.as_bytes(), ParseConfig::default(), ForceList::Absent, None)
}

fn with_config(xml: &str, config: ParseConfig) -> Result<Value, XmlError> {
    parse::<NoHook, NoHook>(xml.as_bytes(), config, ForceList::Absent, None)
}

fn attr(key: &str, value: &str) -> XmlAttribute {
    XmlAttribute { key: key.to_string(), value: value.to_string() }
}

fn start(name: &str) -> XmlEvent {
    XmlEvent::Start { name: name.to_string(), attrs: Vec::new() }
}

fn end(name: &str) -> XmlEvent {
    XmlEvent::End { name: name.to_string() }
}

#[test]
fn repeated_siblings_become_a_list_in_document_order() {
    assert_eq!(
        plain("<a><b>1</b><b>2</b></a>"),
        Ok(map(vec![("a", map(vec![("b", list(vec![text("1"), text("2")]))]))]))
    );
    assert_eq!(
        plain("<a><b>1</b><c>x</c><b>2</b><b>3</b></a>"),
        Ok(map(vec![(
            "a",
            map(vec![("b", list(vec![text("1"), text("2"), text("3")])), ("c", text("x"))])
        )]))
    );
}

#[test]
fn a_forced_key_holds_a_list_of_one() {
    let r = parse::<NoHook, NoHook>(
        b"<a><b>1</b></a>",
        ParseConfig::default(),
        ForceList::Keys(vec!["b".to_string()]),
        None,
    );
    assert_eq!(r, Ok(map(vec![("a", map(vec![("b", list(vec![text("1")]))]))])));
    let r = parse::<NoHook, NoHook>(
        b"<a><b>1</b><b>2</b><c>3</c></a>",
        ParseConfig::default(),
        ForceList::Keys(vec!["b".to_string()]),
        None,
    );
    assert_eq!(
        r,
        Ok(map(vec![(
            "a",
            map(vec![("b", list(vec![text("1"), text("2")])), ("c", text("3"))])
        )]))
    );
}

#[test]
fn a_uniform_policy_forces_every_key_or_none() {
    let r = parse::<NoHook, NoHook>(
        b"<a><b>1</b></a>",
        ParseConfig::default(),
        ForceList::Uniform(true),
        None,
    );
    assert_eq!(r, Ok(map(vec![("a", map(vec![("b", list(vec![text("1")]))]))])));
    let r = parse::<NoHook, NoHook>(
        b"<a><b>1</b></a>",
        ParseConfig::default(),
        ForceList::Uniform(false),
        None,
    );
    assert_eq!(r, Ok(map(vec![("a", map(vec![("b", text("1"))]))])));
}

#[test]
fn attributes_get_the_prefix_and_text_its_key() {
    assert_eq!(
        plain("<a id=\"5\">x</a>"),
        Ok(map(vec![("a", map(vec![("@id", text("5")), ("#text", text("x"))]))]))
    );
    let config = ParseConfig::builder().attr_prefix("$").cdata_key("_t").build();
    assert_eq!(
        with_config("<a id=\"5\" n=\"&lt;\">x</a>", config),
        Ok(map(vec![(
            "a",
            map(vec![("$id", text("5")), ("$n", text("<")), ("_t", text("x"))])
        )]))
    );
}

#[test]
fn attributes_are_left_out_where_they_are_not_read() {
    let config = ParseConfig::builder().xml_attribs(false).build();
    assert_eq!(with_config("<a id=\"5\">x</a>", config), Ok(map(vec![("a", text("x"))])));
}

#[test]
fn namespaces_are_collapsed_into_names() {
    let config = ParseConfig::builder().process_namespaces(true).build();
    assert_eq!(
        with_config("<a xmlns:ns=\"urn:x\"><ns:b>1</ns:b></a>", config),
        Ok(map(vec![(
            "a",
            map(vec![("@xmlns", map(vec![("ns", text("urn:x"))])), ("urn:x:b", text("1"))])
        )]))
    );
}

#[test]
fn an_alias_stands_for_its_namespace() {
    let config = ParseConfig::builder()
        .process_namespaces(true)
        .namespaces(Some(vec![("urn:x".to_string(), "x".to_string())]))
        .build();
    assert_eq!(
        with_config("<a xmlns:ns=\"urn:x\"><ns:b>1</ns:b></a>", config),
        Ok(map(vec![("a", map(vec![("x:b", text("1"))]))]))
    );
    let config = ParseConfig::builder()
        .process_namespaces(true)
        .namespaces(Some(vec![("urn:x".to_string(), "".to_string())]))
        .build();
    assert_eq!(
        with_config("<a xmlns:ns=\"urn:x\"><ns:b>1</ns:b></a>", config),
        Ok(map(vec![("a", map(vec![("b", text("1"))]))]))
    );
}

#[test]
fn the_default_namespace_applies_to_elements_without_a_prefix() {
    let config = ParseConfig::builder().process_namespaces(true).namespace_separator("|").build();
    assert_eq!(
        with_config("<a xmlns=\"urn:d\" xmlns:p=\"urn:p\" p:k=\"v\" k=\"w\"><b/></a>", config),
        Ok(map(vec![(
            "urn:d|a",
            map(vec![
                ("@xmlns", map(vec![("", text("urn:d")), ("p", text("urn:p"))])),
                ("@p:k", text("v")),
                ("@k", text("w")),
                ("urn:d|b", Value::Null),
            ])
        )]))
    );
}

#[test]
fn prefixed_attributes_are_resolved_where_they_hold_the_separator() {
    let config = ParseConfig::builder().process_namespaces(true).build();
    assert_eq!(
        with_config("<a xmlns:p=\"urn:p\" p:k=\"v\"/>", config),
        Ok(map(vec![(
            "a",
            map(vec![("@xmlns", map(vec![("p", text("urn:p"))])), ("@urn:p:k", text("v"))])
        )]))
    );
}

#[test]
fn namespace_declarations_are_attributes_where_namespaces_are_not_processed() {
    assert_eq!(
        plain("<a xmlns:ns=\"urn:x\"><ns:b>1</ns:b></a>"),
        Ok(map(vec![("a", map(vec![("@xmlns:ns", text("urn:x")), ("ns:b", text("1"))]))]))
    );
}

#[test]
fn a_child_inherits_the_namespaces_of_its_parent() {
    let config = ParseConfig::builder().process_namespaces(true).build();
    assert_eq!(
        with_config("<a xmlns:n=\"u\"><n:b><n:c xmlns:m=\"w\"><m:d/></n:c></n:b></a>", config),
        Ok(map(vec![(
            "a",
            map(vec![
                ("@xmlns", map(vec![("n", text("u"))])),
                (
                    "u:b",
                    map(vec![(
                        "u:c",
                        map(vec![
                            ("@xmlns", map(vec![("n", text("u")), ("m", text("w"))])),
                            ("w:d", Value::Null),
                        ])
                    )])
                ),
            ])
        )]))
    );
}

#[test]
fn malformed_input_is_rejected() {
    assert!(matches!(plain("<a><b></a>"), Err(XmlError::Tokenizer(_))));
    assert_eq!(
        plain("<a><b></b>"),
        Err(XmlError::Structure(StructuralError::UnclosedElements))
    );
    assert_eq!(plain("<a>"), Err(XmlError::Structure(StructuralError::UnclosedElements)));
}

#[test]
fn input_without_an_element_is_rejected() {
    assert_eq!(plain(""), Err(XmlError::Structure(StructuralError::NoElementFound)));
    assert_eq!(
        plain("<?xml version=\"1.0\"?><!-- only a comment -->"),
        Err(XmlError::Structure(StructuralError::NoElementFound))
    );
}

#[test]
fn a_second_root_is_rejected() {
    assert_eq!(plain("<a/><b/>"), Err(XmlError::Structure(StructuralError::UnclosedElements)));
}

#[test]
fn an_unknown_entity_is_rejected_by_the_tokenizer() {
    assert!(matches!(plain("<a>&nope;</a>"), Err(XmlError::Tokenizer(_))));
    assert!(matches!(plain("<a b=\"&nope;\"/>"), Err(XmlError::Tokenizer(_))));
    assert!(matches!(plain("<a b=\"1\" b=\"2\"/>"), Err(XmlError::Tokenizer(_))));
}

#[test]
fn empty_elements_are_null() {
    assert_eq!(plain("<a/>"), Ok(map(vec![("a", Value::Null)])));
    assert_eq!(plain("<a></a>"), Ok(map(vec![("a", Value::Null)])));
    assert_eq!(plain("<a>  \n </a>"), Ok(map(vec![("a", Value::Null)])));
    assert_eq!(
        plain("<a><b/><b/></a>"),
        Ok(map(vec![("a", map(vec![("b", list(vec![Value::Null, Value::Null]))]))]))
    );
}

#[test]
fn entities_are_resolved_in_text() {
    assert_eq!(plain("<a>1 &lt; 2 &amp; 3</a>"), Ok(map(vec![("a", text("1 < 2 & 3"))])));
    assert_eq!(plain("<a><![CDATA[1 < 2]]></a>"), Ok(map(vec![("a", text("1 < 2"))])));
}

#[test]
fn pieces_of_text_are_joined_with_the_separator() {
    assert_eq!(
        plain("<a>x<b/>y</a>"),
        Ok(map(vec![("a", map(vec![("b", Value::Null), ("#text", text("xy"))]))]))
    );
    let config = ParseConfig::builder().cdata_separator("|").build();
    assert_eq!(
        with_config("<a>x<b/>y<![CDATA[z]]></a>", config),
        Ok(map(vec![("a", map(vec![("b", Value::Null), ("#text", text("x|y|z"))]))]))
    );
}

#[test]
fn text_is_wrapped_where_wrapping_is_forced() {
    let config = ParseConfig::builder().force_cdata(true).build();
    assert_eq!(
        with_config("<a><b>1</b><c/></a>", config),
        Ok(map(vec![(
            "a",
            map(vec![("b", map(vec![("#text", text("1"))])), ("c", Value::Null)])
        )]))
    );
}

#[test]
fn white_space_is_kept_where_it_is_not_stripped() {
    let config = ParseConfig::builder().strip_whitespace(false).build();
    assert_eq!(with_config("<a> x </a>", config), Ok(map(vec![("a", text(" x "))])));
    let config = ParseConfig::builder().strip_whitespace(false).build();
    assert_eq!(with_config("<a> </a>", config), Ok(map(vec![("a", text(" "))])));
    assert_eq!(plain("<a> x </a>"), Ok(map(vec![("a", text("x"))])));
}

#[test]
fn comments_become_entries_where_they_are_processed() {
    let config = ParseConfig::builder().process_comments(true).build();
    assert_eq!(
        with_config("<!-- top --><a><!-- one --><b>1</b><!--two--></a>", config),
        Ok(map(vec![(
            "a",
            map(vec![("#comment", list(vec![text("one"), text("two")])), ("b", text("1"))])
        )]))
    );
    assert_eq!(
        plain("<a><!-- one --><b>1</b></a>"),
        Ok(map(vec![("a", map(vec![("b", text("1"))]))]))
    );
    let config =
        ParseConfig::builder().process_comments(true).strip_whitespace(false).comment_key("C").build();
    assert_eq!(
        with_config("<a><!-- one --></a>", config),
        Ok(map(vec![("a", map(vec![("C", text(" one "))]))]))
    );
}

#[test]
fn the_driver_takes_its_own_switches() {
    let r = parse_xml_with_parser::<NoHook, NoHook>(
        b"<a><!--c--> x </a>",
        ParseConfig::default(),
        ForceList::Absent,
        None,
        false,
        true,
    );
    assert_eq!(
        r,
        Ok(map(vec![("a", map(vec![("#comment", text("c")), ("#text", text(" x "))]))]))
    );
}

#[test]
fn element_names_are_validated() {
    assert_eq!(validate_element_name("a"), Ok(()));
    assert_eq!(validate_element_name("ns:a-b.c"), Ok(()));
    assert_eq!(validate_element_name(""), Err(XmlError::MalformedName));
    assert_eq!(validate_element_name("a<b"), Err(XmlError::MalformedName));
    assert_eq!(validate_element_name(">"), Err(XmlError::MalformedName));
}

#[test]
fn the_builder_refuses_a_malformed_name_and_changes_nothing() {
    let mut parser = XmlParser::<NoHook, NoHook>::new(ParseConfig::default(), ForceList::Absent, None);
    assert_eq!(parser.start_element("", &Vec::new()), Err(XmlError::MalformedName));
    assert_eq!(parser.start_element("a<", &Vec::new()), Err(XmlError::MalformedName));
    assert_eq!(parser.start_element("a", &Vec::new()), Ok(()));
    assert_eq!(feed(&mut parser, &end("<"), false), Err(XmlError::MalformedName));
    assert_eq!(parser.end_element("a"), Ok(()));
    assert_eq!(parser.finish(), Ok(map(vec![("a", Value::Null)])));
}

#[test]
fn an_end_tag_without_an_open_element_is_refused() {
    let mut parser = XmlParser::<NoHook, NoHook>::new(ParseConfig::default(), ForceList::Absent, None);
    assert_eq!(
        parser.end_element("a"),
        Err(XmlError::Structure(StructuralError::UnexpectedEndTag))
    );
    assert_eq!(parser.finish(), Err(XmlError::Structure(StructuralError::NoElementFound)));
}

#[test]
fn text_and_comments_outside_any_element_are_left_out() {
    let config = ParseConfig::builder().process_comments(true).build();
    let mut parser = XmlParser::<NoHook, NoHook>::new(config, ForceList::Absent, None);
    parser.characters("stray");
    assert_eq!(parser.comment("stray"), Ok(()));
    assert_eq!(parser.start_element("a", &vec![attr("k", "v")]), Ok(()));
    parser.characters("x");
    assert_eq!(parser.end_element("a"), Ok(()));
    parser.characters("stray");
    assert_eq!(parser.comment("stray"), Ok(()));
    assert_eq!(
        parser.finish(),
        Ok(map(vec![("a", map(vec![("@k", text("v")), ("#text", text("x"))]))]))
    );
}

#[test]
fn a_repeated_attribute_keeps_its_place_and_takes_the_last_value() {
    let mut parser = XmlParser::<NoHook, NoHook>::new(ParseConfig::default(), ForceList::Absent, None);
    let attrs = vec![attr("k", "1"), attr("j", "2"), attr("k", "3")];
    assert_eq!(parser.start_element("a", &attrs), Ok(()));
    assert_eq!(parser.end_element("a"), Ok(()));
    assert_eq!(
        parser.finish(),
        Ok(map(vec![("a", map(vec![("@k", text("3")), ("@j", text("2"))]))]))
    );
}

#[test]
fn events_build_the_same_tree_as_the_input_they_stand_for() {
    let events = vec![
        XmlEvent::Other,
        XmlEvent::Start { name: "a".to_string(), attrs: vec![attr("id", "5")] },
        XmlEvent::Text("x".to_string()),
        XmlEvent::Empty { name: "b".to_string(), attrs: Vec::new() },
        start("b"),
        XmlEvent::CData("1".to_string()),
        end("b"),
        XmlEvent::Comment("c".to_string()),
        end("a"),
        XmlEvent::Eof,
    ];
    let r = build_document::<NoHook, NoHook>(
        &events,
        ParseConfig::default(),
        ForceList::Absent,
        None,
        false,
    );
    let expected = map(vec![(
        "a",
        map(vec![
            ("@id", text("5")),
            ("b", list(vec![Value::Null, text("1")])),
            ("#text", text("x")),
        ]),
    )]);
    assert_eq!(r, Ok(expected));
    assert_eq!(plain("<?xml version=\"1.0\"?><a id=\"5\">x<b/><b><![CDATA[1]]></b><!--c--></a>"), r);
}

#[test]
fn the_first_bad_event_fails_the_whole() {
    let events = vec![start("a"), end("a"), end("a"), start("")];
    let r = build_document::<NoHook, NoHook>(
        &events,
        ParseConfig::default(),
        ForceList::Absent,
        None,
        false,
    );
    assert_eq!(r, Err(XmlError::Structure(StructuralError::UnexpectedEndTag)));
}

#[test]
fn the_tokenizer_yields_plain_events() {
    let mut t = Tokenizer::new(b"<a k=\"&amp;\">x &gt; y<b/><!--c--><![CDATA[<]]></a>", true, true);
    assert_eq!(
        t.next_event(),
        Ok(XmlEvent::Start { name: "a".to_string(), attrs: vec![attr("k", "&")] })
    );
    assert_eq!(t.next_event(), Ok(XmlEvent::Text("x > y".to_string())));
    assert_eq!(t.next_event(), Ok(start("b")));
    assert_eq!(t.next_event(), Ok(end("b")));
    assert_eq!(t.next_event(), Ok(XmlEvent::Comment("c".to_string())));
    assert_eq!(t.next_event(), Ok(XmlEvent::CData("<".to_string())));
    assert_eq!(t.next_event(), Ok(end("a")));
    assert_eq!(t.next_event(), Ok(XmlEvent::Eof));
    assert_eq!(t.next_event(), Ok(XmlEvent::Eof));
}

#[test]
fn the_tokenizer_reports_bytes_that_are_no_text() {
    let mut t = Tokenizer::new(b"<a>\xff</a>", true, true);
    assert_eq!(t.next_event(), Ok(start("a")));
    assert!(matches!(t.next_event(), Err(XmlError::Tokenizer(_))));
    let mut t = Tokenizer::new(b"<\xff/>", true, true);
    assert!(matches!(t.next_event(), Err(XmlError::Tokenizer(_))));
}

#[test]
fn namespace_declarations_are_told_by_their_name() {
    assert_eq!(namespace_binding("xmlns"), Some(NamespacePrefix::Default));
    assert_eq!(namespace_binding("xmlns:p"), Some(NamespacePrefix::Named("p".to_string())));
    assert_eq!(namespace_binding("xmlns:"), Some(NamespacePrefix::Default));
    assert_eq!(namespace_binding("xmlns-x"), None);
    assert_eq!(namespace_binding("xml"), None);
    assert_eq!(namespace_binding("other"), None);
    assert_eq!(NamespacePrefix::Default.as_str(), "");
    assert_eq!(NamespacePrefix::Named("p".to_string()).as_str(), "p");
    assert_eq!(NamespacePrefix::from_name(String::new()), NamespacePrefix::Default);
}

#[test]
fn names_are_resolved_against_the_mapping_in_force() {
    let ns = vec![("".to_string(), "urn:d".to_string()), ("p".to_string(), "urn:p".to_string())];
    let off = ParseConfig::default();
    assert_eq!(resolve_name(&off, &ns, "p:a"), "p:a");
    let on = ParseConfig::builder().process_namespaces(true).build();
    assert_eq!(resolve_name(&on, &ns, "p:a"), "urn:p:a");
    assert_eq!(resolve_name(&on, &ns, "a"), "urn:d:a");
    assert_eq!(resolve_name(&on, &ns, "q:a"), "q:a");
    assert_eq!(resolve_name(&on, &Vec::new(), "a"), "a");
    let aliased = ParseConfig::builder()
        .process_namespaces(true)
        .namespace_separator("/")
        .namespaces(Some(vec![
            ("urn:p".to_string(), "P".to_string()),
            ("urn:d".to_string(), "".to_string()),
        ]))
        .build();
    assert_eq!(resolve_name(&aliased, &ns, "p:a"), "P/a");
    assert_eq!(resolve_name(&aliased, &ns, "a"), "a");
}

struct Upper;

impl Postprocessor for Upper {
    fn postprocess(
        &self,
        path: &Vec<String>,
        key: &str,
        value: &Value,
    ) -> Result<Option<(String, Value)>, HookError> {
        if key == "skip" {
            Ok(None)
        } else if key == "bad" {
            Err(HookError { message: format!("bad at depth {}", path.len()) })
        } else {
            Ok(Some((key.to_uppercase(), value.clone())))
        }
    }
}

#[test]
fn a_postprocessor_renames_and_drops_entries() {
    let r = parse::<Upper, NoHook>(
        b"<a id=\"1\"><b>x</b><skip>y</skip><b>z</b></a>",
        ParseConfig::default(),
        ForceList::Absent,
        Some(Upper),
    );
    assert_eq!(
        r,
        Ok(map(vec![(
            "A",
            map(vec![("@ID", text("1")), ("B", list(vec![text("x"), text("z")]))])
        )]))
    );
}

#[test]
fn a_postprocessor_that_drops_the_root_leaves_no_document() {
    let r =
        parse::<Upper, NoHook>(b"<skip>x</skip>", ParseConfig::default(), ForceList::Absent, Some(Upper));
    assert_eq!(r, Err(XmlError::Structure(StructuralError::NoElementFound)));
}

#[test]
fn a_failing_hook_fails_the_conversion() {
    let r = parse::<Upper, NoHook>(
        b"<a><b><bad/></b></a>",
        ParseConfig::default(),
        ForceList::Absent,
        Some(Upper),
    );
    assert_eq!(r, Err(XmlError::Hook(HookError { message: "bad at depth 2".to_string() })));
}

struct Replace;

impl Postprocessor for Replace {
    fn postprocess(
        &self,
        _path: &Vec<String>,
        key: &str,
        value: &Value,
    ) -> Result<Option<(String, Value)>, HookError> {
        match value {
            Value::Text(s) => Ok(Some((key.to_string(), Value::Text(format!("[{}]", s))))),
            other => Ok(Some((key.to_string(), other.clone()))),
        }
    }
}

#[test]
fn a_list_takes_the_value_as_it_was_before_the_postprocessor() {
    let r = parse::<Replace, NoHook>(
        b"<a><b>1</b><b>2</b><b>3</b></a>",
        ParseConfig::default(),
        ForceList::Absent,
        Some(Replace),
    );
    assert_eq!(
        r,
        Ok(map(vec![("a", map(vec![("b", list(vec![text("[1]"), text("[2]"), text("3")]))]))]))
    );
}

struct TopLevelOnly;

impl ForceListPredicate for TopLevelOnly {
    fn force_list(&self, path: &Vec<String>, key: &str, _value: &Value) -> Result<bool, HookError> {
        if key == "bad" {
            Err(HookError { message: "no".to_string() })
        } else {
            Ok(path.len() == 1)
        }
    }
}

#[test]
fn a_predicate_decides_for_each_new_key() {
    let r = parse::<NoHook, TopLevelOnly>(
        b"<a><b><c>1</c></b><b>2</b></a>",
        ParseConfig::default(),
        ForceList::Predicate(TopLevelOnly),
        None,
    );
    assert_eq!(
        r,
        Ok(map(vec![("a", map(vec![("b", list(vec![map(vec![("c", text("1"))]), text("2")]))]))]))
    );
    let r = parse::<NoHook, TopLevelOnly>(
        b"<a><bad/></a>",
        ParseConfig::default(),
        ForceList::Predicate(TopLevelOnly),
        None,
    );
    assert_eq!(r, Err(XmlError::Hook(HookError { message: "no".to_string() })));
}

#[test]
fn no_hook_changes_nothing() {
    let r = parse::<NoHook, NoHook>(
        b"<a><b>1</b></a>",
        ParseConfig::default(),
        ForceList::Predicate(NoHook),
        Some(NoHook),
    );
    assert_eq!(r, plain("<a><b>1</b></a>"));
}

#[test]
fn structural_errors_have_their_messages() {
    assert_eq!(StructuralError::UnexpectedEndTag.message(), "unexpected closing tag");
    assert_eq!(StructuralError::NoElementFound.message(), "no element found");
    assert_eq!(StructuralError::UnclosedElements.message(), "unclosed element(s) found");
    assert_eq!(StructuralError::RootCount.message(), "Document must have exactly one root");
}

#[test]
fn errors_of_the_tokenizer_keep_their_message() {
    let failed = quick_xml::Error::Io(std::sync::Arc::new(std::io::Error::other("source failed")));
    assert_eq!(
        map_quick_xml_error(failed),
        XmlError::Adapter("I/O error: source failed".to_string())
    );
    assert_eq!(
        map_quick_xml_error(quick_xml::Error::UnexpectedEof("Element".to_string())),
        XmlError::Tokenizer("Unexpected EOF during reading Element".to_string())
    );
    assert_eq!(
        map_quick_xml_error(quick_xml::Error::EndEventMismatch {
            expected: "b".to_string(),
            found: "a".to_string()
        }),
        XmlError::Tokenizer("Expecting </b> found </a>".to_string())
    );
}

#[test]
fn events_of_the_tokenizer_become_plain_events() {
    let start = quick_xml::events::BytesStart::from_content("a k=\"1\" j='&lt;'", 1);
    assert_eq!(
        convert_event(quick_xml::events::Event::Start(start.clone()), true),
        Ok(XmlEvent::Start { name: "a".to_string(), attrs: vec![attr("k", "1"), attr("j", "<")] })
    );
    assert_eq!(
        convert_event(quick_xml::events::Event::Empty(start), true),
        Ok(XmlEvent::Empty { name: "a".to_string(), attrs: vec![attr("k", "1"), attr("j", "<")] })
    );
    assert_eq!(
        convert_event(quick_xml::events::Event::End(quick_xml::events::BytesEnd::new("a")), true),
        Ok(end("a"))
    );
    assert_eq!(
        convert_event(
            quick_xml::events::Event::Text(quick_xml::events::BytesText::from_escaped("1 &amp; 2")),
            true
        ),
        Ok(XmlEvent::Text("1 & 2".to_string()))
    );
    assert_eq!(
        convert_event(
            quick_xml::events::Event::CData(quick_xml::events::BytesCData::new("1 &amp; 2")),
            true
        ),
        Ok(XmlEvent::CData("1 &amp; 2".to_string()))
    );
    assert_eq!(
        convert_event(
            quick_xml::events::Event::Comment(quick_xml::events::BytesText::from_escaped(
                " c &amp; d "
            )),
            true
        ),
        Ok(XmlEvent::Comment(" c &amp; d ".to_string()))
    );
    assert_eq!(
        convert_event(
            quick_xml::events::Event::PI(quick_xml::events::BytesText::from_escaped("pi")),
            true
        ),
        Ok(XmlEvent::Other)
    );
    assert_eq!(convert_event(quick_xml::events::Event::Eof, false), Ok(XmlEvent::Eof));
    let broken = quick_xml::events::BytesStart::from_content("a k=1", 1);
    assert!(matches!(
        convert_event(quick_xml::events::Event::Start(broken.clone()), true),
        Err(XmlError::Tokenizer(_))
    ));
    assert!(matches!(
        convert_event(quick_xml::events::Event::Start(broken), false),
        Err(XmlError::Tokenizer(_))
    ));
}

#[test]
fn attributes_that_are_not_read_are_not_decoded() {
    let start = quick_xml::events::BytesStart::from_content("a k=\"&nope;\" j='\u{e9}'", 1);
    assert!(matches!(
        convert_event(quick_xml::events::Event::Start(start.clone()), true),
        Err(XmlError::Tokenizer(_))
    ));
    assert_eq!(
        convert_event(quick_xml::events::Event::Start(start), false),
        Ok(XmlEvent::Start { name: "a".to_string(), attrs: Vec::new() })
    );
    let mut t = Tokenizer::new(b"<a k=\"&nope;\"><b j=\"1\"/></a>", true, false);
    assert_eq!(t.next_event(), Ok(start_of("a")));
    assert_eq!(t.next_event(), Ok(start_of("b")));
    assert_eq!(t.next_event(), Ok(end("b")));
    assert_eq!(t.next_event(), Ok(end("a")));
    assert_eq!(t.next_event(), Ok(XmlEvent::Eof));
    let unread = ParseConfig::builder().xml_attribs(false).build();
    assert_eq!(with_config("<a k=\"&nope;\">x</a>", unread), Ok(map(vec![("a", text("x"))])));
    let unread = ParseConfig::builder().xml_attribs(false).build();
    assert!(matches!(with_config("<a k=\"1\" k=\"2\"/>", unread), Err(XmlError::Tokenizer(_))));
}

fn start_of(name: &str) -> XmlEvent {
    XmlEvent::Start { name: name.to_string(), attrs: Vec::new() }
}

#[test]
fn a_failure_of_the_source_is_told_from_a_refused_input() {
    assert_eq!(tokenizer_failure(true, "m".to_string()), XmlError::Adapter("m".to_string()));
    assert_eq!(tokenizer_failure(false, "m".to_string()), XmlError::Tokenizer("m".to_string()));
    assert_eq!(tokenizer_failure(false, String::new()), XmlError::Tokenizer(String::new()));
}

#[test]
fn the_answer_of_a_hook_is_taken_as_it_came() {
    assert_eq!(
        settle(Ok(Some(("k".to_string(), text("v"))))),
        Ok(Some(("k".to_string(), Some(text("v")))))
    );
    assert_eq!(settle(Ok(Some((String::new(), Value::Null)))), Ok(Some((String::new(), Some(Value::Null)))));
    assert_eq!(settle(Ok(None)), Ok(None));
    assert_eq!(
        settle(Err(HookError { message: "m".to_string() })),
        Err(XmlError::Hook(HookError { message: "m".to_string() }))
    );
    assert_eq!(settle_flag(Ok(true)), Ok(true));
    assert_eq!(settle_flag(Ok(false)), Ok(false));
    assert_eq!(
        settle_flag(Err(HookError { message: "m".to_string() })),
        Err(XmlError::Hook(HookError { message: "m".to_string() }))
    );
}

#[test]
fn the_key_of_an_attribute_has_the_prefix_before_the_resolved_name() {
    let ns = vec![("p".to_string(), "urn:p".to_string()), ("".to_string(), "urn:d".to_string())];
    let off = ParseConfig::default();
    assert_eq!(prefixed_key(&off, &ns, "id"), "@id");
    assert_eq!(prefixed_key(&off, &ns, "p:id"), "@p:id");
    let on = ParseConfig::builder().process_namespaces(true).attr_prefix("_").build();
    assert_eq!(prefixed_key(&on, &ns, "p:id"), "_urn:p:id");
    assert_eq!(prefixed_key(&on, &ns, "q:id"), "_q:id");
    assert_eq!(prefixed_key(&on, &ns, "id"), "_id");
    let bare = ParseConfig::builder().attr_prefix("").build();
    assert_eq!(prefixed_key(&bare, &Vec::new(), "id"), "id");
}

#[test]
fn blank_text_is_dropped_only_where_white_space_is_stripped() {
    assert_eq!(kept_text("  ".to_string(), true, true), None);
    assert_eq!(kept_text("  ".to_string(), false, true), Some("  ".to_string()));
    assert_eq!(kept_text("x".to_string(), true, false), Some("x".to_string()));
    assert_eq!(kept_text(String::new(), false, false), Some(String::new()));
}

#[test]
fn a_prefix_is_made_of_a_name() {
    assert_eq!(NamespacePrefix::from("p"), NamespacePrefix::Named("p".to_string()));
    assert_eq!(NamespacePrefix::from(""), NamespacePrefix::Default);
    assert_eq!(NamespacePrefix::from("p".to_string()), NamespacePrefix::Named("p".to_string()));
    assert_eq!(NamespacePrefix::from(String::new()), NamespacePrefix::Default);
}

#[test]
fn the_answer_of_a_hook_is_stored_under_its_key() {
    let mut entries = vec![("a".to_string(), text("1")), ("b".to_string(), text("2"))];
    store_answer(&mut entries, text("3"), Some(("a".to_string(), None)));
    assert_eq!(entries, vec![("a".to_string(), text("3")), ("b".to_string(), text("2"))]);
    store_answer(&mut entries, text("4"), Some(("c".to_string(), Some(text("5")))));
    assert_eq!(
        entries,
        vec![
            ("a".to_string(), text("3")),
            ("b".to_string(), text("2")),
            ("c".to_string(), text("5"))
        ]
    );
    store_answer(&mut entries, text("6"), None);
    assert_eq!(entries.len(), 3);
}

#[test]
fn the_answer_of_a_hook_joins_a_mapping_by_the_merge_rule() {
    let mut entries: Vec<(String, Value)> = Vec::new();
    offer_answer(&mut entries, text("1"), Some(("a".to_string(), None)), false);
    assert_eq!(entries, vec![("a".to_string(), text("1"))]);
    offer_answer(&mut entries, text("2"), Some(("a".to_string(), Some(text("two")))), true);
    assert_eq!(entries, vec![("a".to_string(), list(vec![text("1"), text("two")]))]);
    offer_answer(&mut entries, text("3"), Some(("a".to_string(), Some(text("three")))), false);
    assert_eq!(entries, vec![("a".to_string(), list(vec![text("1"), text("two"), text("3")]))]);
    offer_answer(&mut entries, text("4"), None, true);
    assert_eq!(entries.len(), 1);
    offer_answer(&mut entries, text("5"), Some(("b".to_string(), Some(text("five")))), true);
    assert_eq!(entries[1], ("b".to_string(), list(vec![text("five")])));
}
