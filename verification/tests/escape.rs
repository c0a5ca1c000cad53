use std::borrow::Cow;
use xmltodict_rs::escape::{escape_xml, escape_xml_attr};

#[test]
fn test_escape_xml() {
    assert_eq!(
        "Start &amp; then &lt; some &gt; text &amp; more &lt; text &gt; end",
        escape_xml("Start & then < some > text & more < text > end")
    );
}

#[test]
fn test_escape_xml_no_escape_needed() {
    assert_eq!("Hello World", escape_xml("Hello World"));
}

#[test]
fn test_escape_xml_attr() {
    assert_eq!(
        "value with &quot;quotes&quot; and &amp;",
        escape_xml_attr("value with \"quotes\" and &")
    );
}

#[test]
fn escape_xml_hands_back_plain_text_without_a_copy() {
    let text = "plain text, with \"quotes\"";
    match escape_xml(text) {
        Cow::Borrowed(s) => assert_eq!(s.as_ptr(), text.as_ptr()),
        Cow::Owned(_) => panic!("a text without special characters was copied"),
    }
}

#[test]
fn escape_xml_copies_where_it_replaces() {
    assert!(matches!(escape_xml("a<b"), Cow::Owned(_)));
    assert!(matches!(escape_xml("a>b"), Cow::Owned(_)));
    assert!(matches!(escape_xml("a&b"), Cow::Owned(_)));
}

#[test]
fn escape_xml_leaves_quotes() {
    assert_eq!("say \"hi\"", escape_xml("say \"hi\""));
}

#[test]
fn escape_xml_attr_hands_back_plain_text_without_a_copy() {
    let text = "plain";
    match escape_xml_attr(text) {
        Cow::Borrowed(s) => assert_eq!(s.as_ptr(), text.as_ptr()),
        Cow::Owned(_) => panic!("a value without special characters was copied"),
    }
    assert!(matches!(escape_xml_attr("a\"b"), Cow::Owned(_)));
}

#[test]
fn escape_keeps_characters_beyond_ascii() {
    assert_eq!("caf\u{e9} &lt; \u{8d8a}", escape_xml("caf\u{e9} < \u{8d8a}"));
    assert_eq!("\u{1f600}&quot;", escape_xml_attr("\u{1f600}\""));
    assert_eq!("\u{a6}\u{bc}", escape_xml("\u{a6}\u{bc}"));
}

#[test]
fn escape_of_empty_text_is_empty() {
    assert_eq!("", escape_xml(""));
    assert_eq!("", escape_xml_attr(""));
}

#[test]
fn escape_first_and_last_character() {
    assert_eq!("&amp;x&gt;", escape_xml("&x>"));
    assert_eq!("&lt;&lt;", escape_xml_attr("<<"));
}
