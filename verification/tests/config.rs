use xmltodict_rs::config::{
    AttrPrefix, CdataKey, CommentKey, NamespaceSeparator, ParseConfig, ParseConfigBuilder,
    UnparseConfig,
};

#[test]
fn keys_have_their_defaults() {
    assert_eq!(AttrPrefix::default().as_str(), "@");
    assert_eq!(CdataKey::default().as_str(), "#text");
    assert_eq!(CommentKey::default().as_str(), "#comment");
    assert_eq!(NamespaceSeparator::default().as_str(), ":");
}

#[test]
fn keys_hold_what_they_were_made_of() {
    assert_eq!(AttrPrefix::new("$").as_str(), "$");
    assert_eq!(CdataKey::new("_text").as_str(), "_text");
    assert_eq!(CommentKey::new("_c").as_str(), "_c");
    assert_eq!(NamespaceSeparator::new("|").as_str(), "|");
    assert_eq!(AttrPrefix::new("$"), AttrPrefix::new("$").clone());
}

#[test]
fn parse_config_has_its_defaults() {
    let c = ParseConfig::default();
    assert!(c.xml_attribs);
    assert_eq!(c.attr_prefix.as_str(), "@");
    assert_eq!(c.cdata_key.as_str(), "#text");
    assert!(!c.force_cdata);
    assert_eq!(c.cdata_separator, "");
    assert!(c.strip_whitespace);
    assert_eq!(c.namespace_separator.as_str(), ":");
    assert!(!c.process_namespaces);
    assert!(!c.process_comments);
    assert_eq!(c.comment_key.as_str(), "#comment");
    assert_eq!(c.item_depth, 0);
    assert!(c.disable_entities);
    assert_eq!(c.namespaces, None);
}

#[test]
fn builder_sets_each_option() {
    let c = ParseConfig::builder()
        .xml_attribs(false)
        .attr_prefix("$")
        .cdata_key("_text")
        .force_cdata(true)
        .cdata_separator(" ")
        .strip_whitespace(false)
        .namespace_separator("|")
        .process_namespaces(true)
        .process_comments(true)
        .comment_key("_c")
        .item_depth(2)
        .disable_entities(false)
        .namespaces(Some(vec![("urn:x".to_string(), "x".to_string())]))
        .build();
    assert!(!c.xml_attribs);
    assert_eq!(c.attr_prefix.as_str(), "$");
    assert_eq!(c.cdata_key.as_str(), "_text");
    assert!(c.force_cdata);
    assert_eq!(c.cdata_separator, " ");
    assert!(!c.strip_whitespace);
    assert_eq!(c.namespace_separator.as_str(), "|");
    assert!(c.process_namespaces);
    assert!(c.process_comments);
    assert_eq!(c.comment_key.as_str(), "_c");
    assert_eq!(c.item_depth, 2);
    assert!(!c.disable_entities);
    assert_eq!(c.namespaces, Some(vec![("urn:x".to_string(), "x".to_string())]));
}

#[test]
fn builder_starts_from_the_defaults() {
    let c = ParseConfigBuilder::default().build();
    assert!(c.xml_attribs);
    assert_eq!(c.attr_prefix.as_str(), "@");
    assert_eq!(c.namespaces, None);
}

#[test]
fn unparse_config_has_its_defaults() {
    let c = UnparseConfig::default();
    assert_eq!(c.encoding, "utf-8");
    assert!(c.full_document);
    assert!(!c.short_empty_elements);
    assert_eq!(c.attr_prefix.as_str(), "@");
    assert_eq!(c.cdata_key.as_str(), "#text");
    assert!(!c.pretty);
    assert_eq!(c.newl, "\n");
    assert_eq!(c.indent, "\t");
}
