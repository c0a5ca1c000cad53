use xmltodict_rs::config::{AttrPrefix, CdataKey, UnparseConfig};
use xmltodict_rs::document::unparse;
use xmltodict_rs::error::{HookError, StructuralError, XmlError};
use xmltodict_rs::hooks::{NoHook, Preprocessor};
use xmltodict_rs::unparser::XmlWriter;
use xmltodict_rs::value::Value;

fn text(s: &str) -> Value {
    Value::Text(s.to_string())
}

fn map(entries: Vec<(&str, Value)>) -> Value {
    Value::Mapping(entries.into_iter().map(|(k, v)| (k.to_string(), v)).collect())
}

fn list(items: Vec<Value>) -> Value {
    Value::List(items)
}

fn fragment() -> UnparseConfig {
    let mut config = UnparseConfig::default();
    config.full_document = false;
    config
}

fn pretty() -> UnparseConfig {
    let mut config = fragment();
    config.pretty = true;
    config
}

fn written(input: &Value, config: UnparseConfig) -> Result<String, XmlError> {
    unparse::<NoHook>(input, config, None)
}

const HEADER: &str = "<?xml version=\"1.0\" encoding=\"utf-8\"?>\n";

#[test]
fn a_full_document_has_exactly_one_root() {
    let none = map(vec![]);
    assert_eq!(
        written(&none, UnparseConfig::default()),
        Err(XmlError::Structure(StructuralError::RootCount))
    );
    let two = map(vec![("a", text("1")), ("b", text("2"))]);
    assert_eq!(
        written(&two, UnparseConfig::default()),
        Err(XmlError::Structure(StructuralError::RootCount))
    );
    assert_eq!(
        written(&text("x"), UnparseConfig::default()),
        Err(XmlError::Structure(StructuralError::RootCount))
    );
}

#[test]
fn an_empty_root_is_written_in_either_form() {
    let input = map(vec![("a", Value::Null)]);
    assert_eq!(written(&input, UnparseConfig::default()), Ok(format!("{}<a></a>", HEADER)));
    let mut short = UnparseConfig::default();
    short.short_empty_elements = true;
    assert_eq!(written(&input, short), Ok(format!("{}<a/>", HEADER)));
}

#[test]
fn the_declaration_names_the_encoding_and_ends_with_the_line_break() {
    let mut config = UnparseConfig::default();
    config.encoding = "latin-1".to_string();
    config.newl = "\r\n".to_string();
    assert_eq!(
        written(&map(vec![("a", text("x"))]), config),
        Ok("<?xml version=\"1.0\" encoding=\"latin-1\"?>\r\n<a>x</a>".to_string())
    );
}

#[test]
fn a_fragment_may_have_any_number_of_roots() {
    assert_eq!(written(&map(vec![]), fragment()), Ok(String::new()));
    assert_eq!(written(&Value::Null, fragment()), Ok(String::new()));
    assert_eq!(
        written(&map(vec![("a", text("1")), ("b", text("2"))]), fragment()),
        Ok("<a>1</a><b>2</b>".to_string())
    );
    assert_eq!(
        written(&map(vec![("a", text("1")), ("b", text("2"))]), pretty()),
        Ok("<a>1</a>\n<b>2</b>".to_string())
    );
}

#[test]
fn text_is_escaped_and_booleans_are_spelled_out() {
    assert_eq!(
        written(&map(vec![("a", text("1 < 2 & \"3\""))]), fragment()),
        Ok("<a>1 &lt; 2 &amp; \"3\"</a>".to_string())
    );
    assert_eq!(
        written(&map(vec![("a", Value::Bool(true)), ("b", Value::Bool(false))]), fragment()),
        Ok("<a>true</a><b>false</b>".to_string())
    );
}

#[test]
fn a_list_is_written_as_siblings_under_one_tag() {
    assert_eq!(
        written(&map(vec![("a", map(vec![("b", list(vec![text("1"), Value::Null, text("2")]))]))]), fragment()),
        Ok("<a><b>1</b><b></b><b>2</b></a>".to_string())
    );
    assert_eq!(
        written(&map(vec![("a", list(vec![]))]), fragment()),
        Ok(String::new())
    );
}

#[test]
fn a_mapping_is_written_as_attributes_text_and_children() {
    let input = map(vec![(
        "a",
        map(vec![
            ("b", Value::Null),
            ("@id", text("5")),
            ("#text", text("x<y")),
            ("@flag", Value::Bool(true)),
            ("@q", text("say \"hi\"")),
            ("c", text("z")),
        ]),
    )]);
    assert_eq!(
        written(&input, fragment()),
        Ok("<a id=\"5\" flag=\"true\" q=\"say &quot;hi&quot;\">x&lt;y<b></b><c>z</c></a>".to_string())
    );
}

#[test]
fn a_mapping_without_text_and_children_is_an_empty_element() {
    let input = map(vec![("a", map(vec![("@id", text("5"))])), ("b", map(vec![]))]);
    assert_eq!(written(&input, fragment()), Ok("<a id=\"5\"></a><b></b>".to_string()));
    let mut short = fragment();
    short.short_empty_elements = true;
    assert_eq!(written(&input, short), Ok("<a id=\"5\"/><b/>".to_string()));
}

#[test]
fn the_last_text_entry_counts_and_values_without_text_are_empty() {
    let input = Value::Mapping(vec![(
        "a".to_string(),
        Value::Mapping(vec![
            ("#text".to_string(), text("first")),
            ("@n".to_string(), Value::Null),
            ("#text".to_string(), Value::Bool(false)),
        ]),
    )]);
    assert_eq!(written(&input, fragment()), Ok("<a n=\"\">false</a>".to_string()));
}

#[test]
fn other_keys_can_mark_attributes_and_text() {
    let mut config = fragment();
    config.attr_prefix = AttrPrefix::new("attr_");
    config.cdata_key = CdataKey::new("$");
    let input = map(vec![(
        "a",
        map(vec![("attr_id", text("5")), ("$", text("x")), ("@id", text("y")), ("#text", text("t"))]),
    )]);
    assert_eq!(
        written(&input, config),
        Ok("<a id=\"5\">x<@id>y</@id><#text>t</#text></a>".to_string())
    );
}

#[test]
fn pretty_printing_puts_each_child_on_its_own_line() {
    let input = map(vec![(
        "a",
        map(vec![("b", text("1")), ("c", map(vec![("d", text("2")), ("e", Value::Null)]))]),
    )]);
    assert_eq!(
        written(&input, pretty()),
        Ok("<a>\n\t<b>1</b>\n\t<c>\n\t\t<d>2</d>\n\t\t<e></e>\n\t</c>\n</a>".to_string())
    );
    let mut spaces = pretty();
    spaces.indent = "  ".to_string();
    spaces.newl = "\r\n".to_string();
    assert_eq!(
        written(&input, spaces),
        Ok("<a>\r\n  <b>1</b>\r\n  <c>\r\n    <d>2</d>\r\n    <e></e>\r\n  </c>\r\n</a>".to_string())
    );
}

#[test]
fn pretty_printing_breaks_before_a_list_and_before_each_of_its_items() {
    let input = map(vec![("a", map(vec![("b", list(vec![text("1"), text("2")]))]))]);
    assert_eq!(
        written(&input, pretty()),
        Ok("<a>\n\t\n\t<b>1</b>\n\t<b>2</b>\n</a>".to_string())
    );
}

#[test]
fn pretty_printing_keeps_text_next_to_the_start_tag() {
    let input = map(vec![("a", map(vec![("#text", text("x")), ("b", Value::Null)]))]);
    assert_eq!(written(&input, pretty()), Ok("<a>x\n\t<b></b>\n</a>".to_string()));
}

struct Rename;

impl Preprocessor for Rename {
    fn preprocess(&self, key: &str, value: &Value) -> Result<Option<(String, Value)>, HookError> {
        if key == "skip" {
            Ok(None)
        } else if key == "bad" {
            Err(HookError { message: "bad".to_string() })
        } else if key == "wrap" {
            Ok(Some(("w".to_string(), Value::List(vec![value.clone(), value.clone()]))))
        } else {
            Ok(Some((format!("x-{}", key), value.clone())))
        }
    }
}

#[test]
fn a_preprocessor_renames_replaces_and_leaves_out_elements() {
    let input = map(vec![(
        "a",
        map(vec![("b", text("1")), ("skip", text("2")), ("@k", text("v")), ("wrap", text("3"))]),
    )]);
    assert_eq!(
        unparse(&input, fragment(), Some(Rename)),
        Ok("<x-a k=\"v\"><x-b>1</x-b><x-w>3</x-w><x-w>3</x-w></x-a>".to_string())
    );
    let input = map(vec![("skip", text("1"))]);
    assert_eq!(unparse(&input, UnparseConfig::default(), Some(Rename)), Ok(HEADER.to_string()));
}

#[test]
fn a_failing_preprocessor_fails_the_conversion() {
    let input = map(vec![("a", map(vec![("b", map(vec![("bad", text("1"))]))]))]);
    assert_eq!(
        unparse(&input, fragment(), Some(Rename)),
        Err(XmlError::Hook(HookError { message: "bad".to_string() }))
    );
}

struct Without(&'static str);

impl Preprocessor for Without {
    fn preprocess(&self, key: &str, value: &Value) -> Result<Option<(String, Value)>, HookError> {
        if key == self.0 {
            Ok(None)
        } else {
            Ok(Some((key.to_string(), value.clone())))
        }
    }
}

#[test]
fn an_element_that_is_left_out_takes_its_subtree_with_it() {
    let value = map(vec![("b", map(vec![("x", text("1"))])), ("c", text("2"))]);
    let mut writer = XmlWriter::new(fragment(), Some(Without("b")));
    assert_eq!(writer.write_element("a", &value, false), Ok(()));
    assert_eq!(writer.finish(), "<a><c>2</c></a>");
    let mut writer = XmlWriter::new(pretty(), Some(Without("c")));
    assert_eq!(writer.write_element("a", &value, false), Ok(()));
    assert_eq!(writer.finish(), "<a>\n\t<b>\n\t\t<x>1</x>\n\t</b>\n</a>");
    let mut writer = XmlWriter::new(fragment(), Some(Without("a")));
    assert_eq!(writer.write_element("a", &value, false), Ok(()));
    assert_eq!(writer.finish(), "");
    let items = list(vec![text("1"), map(vec![("x", Value::Null)])]);
    let mut writer = XmlWriter::new(fragment(), Some(Without("x")));
    assert_eq!(writer.write_element("a", &items, false), Ok(()));
    assert_eq!(writer.finish(), "<a>1</a><a></a>");
}

#[test]
fn the_writer_works_element_by_element() {
    let mut writer = XmlWriter::<NoHook>::new(pretty(), None);
    writer.write_header();
    assert_eq!(writer.write_element("a", &text("1"), false), Ok(()));
    assert_eq!(writer.write_element("b", &map(vec![("c", Value::Null)]), true), Ok(()));
    assert_eq!(writer.finish(), "<a>1</a>\n<b>\n\t<c></c>\n</b>");
    let mut writer = XmlWriter::<NoHook>::new(UnparseConfig::default(), None);
    writer.write_header();
    assert_eq!(writer.finish(), HEADER);
}

#[test]
fn deep_nesting_is_written_level_by_level() {
    let mut value = text("x");
    let mut expected = "x".to_string();
    for level in 0..200 {
        let tag = format!("e{}", level);
        expected = format!("<{}>{}</{}>", tag, expected, tag);
        value = Value::Mapping(vec![(tag, value)]);
    }
    assert_eq!(unparse::<NoHook>(&value, fragment(), None), Ok(expected));
    let nested = map(vec![("a", map(vec![("b", map(vec![("c", list(vec![text("1"), text("2")]))]))]))]);
    assert_eq!(
        written(&nested, pretty()),
        Ok("<a>\n\t<b>\n\t\t\n\t\t<c>1</c>\n\t\t<c>2</c>\n\t</b>\n</a>".to_string())
    );
    let mut spaces = pretty();
    spaces.indent = "  ".to_string();
    spaces.newl = "\r\n".to_string();
    assert_eq!(
        written(&nested, spaces),
        Ok("<a>\r\n  <b>\r\n    \r\n    <c>1</c>\r\n    <c>2</c>\r\n  </b>\r\n</a>".to_string())
    );
}
