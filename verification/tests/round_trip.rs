use xmltodict_rs::config::{ParseConfig, UnparseConfig};
use xmltodict_rs::document::{parse, unparse};
use xmltodict_rs::hooks::{ForceList, NoHook};
use xmltodict_rs::value::Value;

fn there_and_back(xml: &str, parse_config: fn() -> ParseConfig, force: fn() -> ForceList<NoHook>, unparse_config: UnparseConfig) {
    let first = parse::<NoHook, NoHook>(xml.as_bytes(), parse_config(), force(), None)
        .expect("the document parses");
    let markup = unparse::<NoHook>(&first, unparse_config, None).expect("the tree is written");
    let second = parse::<NoHook, NoHook>(markup.as_bytes(), parse_config(), force(), None)
        .expect("the markup parses");
    assert_eq!(first, second, "markup: {}", markup);
}

fn absent() -> ForceList<NoHook> {
    ForceList::Absent
}

fn forced() -> ForceList<NoHook> {
    ForceList::Keys(vec!["b".to_string(), "item".to_string()])
}

fn wrapping() -> ParseConfig {
    ParseConfig::builder().force_cdata(true).build()
}

const DOCUMENT: &str = "<root id=\"1\" name=\"a &amp; b\">\n  <b>1</b>\n  <c>\n    <item k=\"v\">x &lt; y</item>\n    <item/>\n    <d>text<e/>more</d>\n  </c>\n  <b>2</b>\n  <empty></empty>\n</root>";

#[test]
fn a_parsed_tree_survives_writing_and_parsing() {
    there_and_back(DOCUMENT, ParseConfig::default, absent, UnparseConfig::default());
    there_and_back("<a/>", ParseConfig::default, absent, UnparseConfig::default());
    there_and_back("<a>x</a>", ParseConfig::default, absent, UnparseConfig::default());
}

#[test]
fn a_parsed_tree_survives_pretty_printing() {
    let mut config = UnparseConfig::default();
    config.pretty = true;
    there_and_back(DOCUMENT, ParseConfig::default, absent, config);
    let mut config = UnparseConfig::default();
    config.pretty = true;
    config.short_empty_elements = true;
    config.indent = "    ".to_string();
    there_and_back(DOCUMENT, ParseConfig::default, forced, config);
}

#[test]
fn a_parsed_tree_survives_with_forced_lists_and_wrapped_text() {
    there_and_back(DOCUMENT, ParseConfig::default, forced, UnparseConfig::default());
    there_and_back(DOCUMENT, wrapping, absent, UnparseConfig::default());
    there_and_back(DOCUMENT, wrapping, forced, UnparseConfig::default());
}

#[test]
fn writing_a_parsed_tree_gives_back_the_markup_of_a_plain_document() {
    let xml = "<a id=\"5\">x<b>1</b><b>2</b><c></c></a>";
    let tree = parse::<NoHook, NoHook>(xml.as_bytes(), ParseConfig::default(), ForceList::Absent, None)
        .expect("the document parses");
    let mut config = UnparseConfig::default();
    config.full_document = false;
    assert_eq!(unparse::<NoHook>(&tree, config, None), Ok(xml.to_string()));
    assert!(matches!(tree, Value::Mapping(_)));
}
