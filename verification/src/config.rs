//! The options of parsing and of serialization.

use crate::value::pairs_view;
use vstd::prelude::*;

verus! {

/// What is put before an attribute's name to make its key, `@` by default.
#[derive(Debug, PartialEq, Eq)]
pub struct AttrPrefix(String);

/// The key under which an element's text stands, `#text` by default.
#[derive(Debug, PartialEq, Eq)]
pub struct CdataKey(String);

/// The key under which a comment stands, `#comment` by default.
#[derive(Debug, PartialEq, Eq)]
pub struct CommentKey(String);

/// What stands between a namespace and a local name, `:` by default.
#[derive(Debug, PartialEq, Eq)]
pub struct NamespaceSeparator(String);

impl View for AttrPrefix {
    type V = Seq<char>;

    closed spec fn view(&self) -> Seq<char> {
        self.0@
    }
}

impl AttrPrefix {
    pub fn new(s: &str) -> (r: Self)
        ensures
            r@ == s@,
    {
        Self(s.to_owned())
    }

    pub fn as_str(&self) -> (s: &str)
        ensures
            s@ == self@,
    {
        self.0.as_str()
    }
}

impl Clone for AttrPrefix {
    fn clone(&self) -> (r: Self)
        ensures
            r@ == self@,
    {
        Self(self.0.clone())
    }
}

impl Default for AttrPrefix {
    fn default() -> (r: Self)
        ensures
            r@ == seq!['@'],
    {
        proof {
            reveal_strlit("@");
        }
        Self::new("@")
    }
}

impl View for CdataKey {
    type V = Seq<char>;

    closed spec fn view(&self) -> Seq<char> {
        self.0@
    }
}

impl CdataKey {
    pub fn new(s: &str) -> (r: Self)
        ensures
            r@ == s@,
    {
        Self(s.to_owned())
    }

    pub fn as_str(&self) -> (s: &str)
        ensures
            s@ == self@,
    {
        self.0.as_str()
    }
}

impl Clone for CdataKey {
    fn clone(&self) -> (r: Self)
        ensures
            r@ == self@,
    {
        Self(self.0.clone())
    }
}

impl Default for CdataKey {
    fn default() -> (r: Self)
        ensures
            r@ == seq!['#', 't', 'e', 'x', 't'],
    {
        proof {
            reveal_strlit("#text");
        }
        Self::new("#text")
    }
}

impl View for CommentKey {
    type V = Seq<char>;

    closed spec fn view(&self) -> Seq<char> {
        self.0@
    }
}

impl CommentKey {
    pub fn new(s: &str) -> (r: Self)
        ensures
            r@ == s@,
    {
        Self(s.to_owned())
    }

    pub fn as_str(&self) -> (s: &str)
        ensures
            s@ == self@,
    {
        self.0.as_str()
    }
}

impl Clone for CommentKey {
    fn clone(&self) -> (r: Self)
        ensures
            r@ == self@,
    {
        Self(self.0.clone())
    }
}

impl Default for CommentKey {
    fn default() -> (r: Self)
        ensures
            r@ == seq!['#', 'c', 'o', 'm', 'm', 'e', 'n', 't'],
    {
        proof {
            reveal_strlit("#comment");
        }
        Self::new("#comment")
    }
}

impl View for NamespaceSeparator {
    type V = Seq<char>;

    closed spec fn view(&self) -> Seq<char> {
        self.0@
    }
}

impl NamespaceSeparator {
    pub fn new(s: &str) -> (r: Self)
        ensures
            r@ == s@,
    {
        Self(s.to_owned())
    }

    pub fn as_str(&self) -> (s: &str)
        ensures
            s@ == self@,
    {
        self.0.as_str()
    }
}

impl Clone for NamespaceSeparator {
    fn clone(&self) -> (r: Self)
        ensures
            r@ == self@,
    {
        Self(self.0.clone())
    }
}

impl Default for NamespaceSeparator {
    fn default() -> (r: Self)
        ensures
            r@ == seq![':'],
    {
        proof {
            reveal_strlit(":");
        }
        Self::new(":")
    }
}

/// The options of parsing. `item_depth` and `disable_entities` are carried
/// for callers and change nothing here.
pub struct ParseConfig {
    pub xml_attribs: bool,
    pub attr_prefix: AttrPrefix,
    pub cdata_key: CdataKey,
    pub force_cdata: bool,
    pub cdata_separator: String,
    pub strip_whitespace: bool,
    pub namespace_separator: NamespaceSeparator,
    pub process_namespaces: bool,
    pub process_comments: bool,
    pub comment_key: CommentKey,
    pub item_depth: usize,
    pub disable_entities: bool,
    /// Aliases of namespaces: pairs of a namespace and what stands for it in
    /// names. Where a namespace occurs twice, the first pair counts.
    pub namespaces: Option<Vec<(String, String)>>,
}

/// Mathematical model of a [`ParseConfig`].
pub struct ParseOptions {
    pub xml_attribs: bool,
    pub attr_prefix: Seq<char>,
    pub cdata_key: Seq<char>,
    pub force_cdata: bool,
    pub cdata_separator: Seq<char>,
    pub strip_whitespace: bool,
    pub namespace_separator: Seq<char>,
    pub process_namespaces: bool,
    pub process_comments: bool,
    pub comment_key: Seq<char>,
    pub item_depth: usize,
    pub disable_entities: bool,
    pub namespaces: Option<Seq<(Seq<char>, Seq<char>)>>,
}

impl View for ParseConfig {
    type V = ParseOptions;

    open spec fn view(&self) -> ParseOptions {
        ParseOptions {
            xml_attribs: self.xml_attribs,
            attr_prefix: self.attr_prefix@,
            cdata_key: self.cdata_key@,
            force_cdata: self.force_cdata,
            cdata_separator: self.cdata_separator@,
            strip_whitespace: self.strip_whitespace,
            namespace_separator: self.namespace_separator@,
            process_namespaces: self.process_namespaces,
            process_comments: self.process_comments,
            comment_key: self.comment_key@,
            item_depth: self.item_depth,
            disable_entities: self.disable_entities,
            namespaces: match self.namespaces {
                Some(table) => Some(pairs_view(table@)),
                None => None,
            },
        }
    }
}

/// The options that a [`ParseConfig`] has when none is chosen.
pub open spec fn default_parse_options() -> ParseOptions {
    ParseOptions {
        xml_attribs: true,
        attr_prefix: seq!['@'],
        cdata_key: seq!['#', 't', 'e', 'x', 't'],
        force_cdata: false,
        cdata_separator: Seq::empty(),
        strip_whitespace: true,
        namespace_separator: seq![':'],
        process_namespaces: false,
        process_comments: false,
        comment_key: seq!['#', 'c', 'o', 'm', 'm', 'e', 'n', 't'],
        item_depth: 0,
        disable_entities: true,
        namespaces: None,
    }
}

impl Default for ParseConfig {
    fn default() -> (r: Self)
        ensures
            r@ == default_parse_options(),
    {
        Self {
            xml_attribs: true,
            attr_prefix: AttrPrefix::default(),
            cdata_key: CdataKey::default(),
            force_cdata: false,
            cdata_separator: String::new(),
            strip_whitespace: true,
            namespace_separator: NamespaceSeparator::default(),
            process_namespaces: false,
            process_comments: false,
            comment_key: CommentKey::default(),
            item_depth: 0,
            disable_entities: true,
            namespaces: None,
        }
    }
}

impl ParseConfig {
    /// A builder that starts from the default options.
    pub fn builder() -> (r: ParseConfigBuilder)
        ensures
            r@ == default_parse_options(),
    {
        ParseConfigBuilder { config: ParseConfig::default() }
    }
}

/// Builds a [`ParseConfig`] one option at a time.
pub struct ParseConfigBuilder {
    config: ParseConfig,
}

impl View for ParseConfigBuilder {
    type V = ParseOptions;

    /// The options chosen so far.
    closed spec fn view(&self) -> ParseOptions {
        self.config@
    }
}

impl Default for ParseConfigBuilder {
    fn default() -> (r: Self)
        ensures
            r@ == default_parse_options(),
    {
        ParseConfigBuilder { config: ParseConfig::default() }
    }
}

impl ParseConfigBuilder {
    /// Whether attributes are read.
    pub fn xml_attribs(self, value: bool) -> (r: Self)
        ensures
            r@ == (ParseOptions { xml_attribs: value, ..self@ }),
    {
        let mut config = self.config;
        config.xml_attribs = value;
        ParseConfigBuilder { config }
    }

    /// What is put before an attribute's name to make its key.
    pub fn attr_prefix(self, value: &str) -> (r: Self)
        ensures
            r@ == (ParseOptions { attr_prefix: value@, ..self@ }),
    {
        let mut config = self.config;
        config.attr_prefix = AttrPrefix::new(value);
        ParseConfigBuilder { config }
    }

    /// The key under which an element's text stands.
    pub fn cdata_key(self, value: &str) -> (r: Self)
        ensures
            r@ == (ParseOptions { cdata_key: value@, ..self@ }),
    {
        let mut config = self.config;
        config.cdata_key = CdataKey::new(value);
        ParseConfigBuilder { config }
    }

    /// Whether text always goes into a mapping, under the text key.
    pub fn force_cdata(self, value: bool) -> (r: Self)
        ensures
            r@ == (ParseOptions { force_cdata: value, ..self@ }),
    {
        let mut config = self.config;
        config.force_cdata = value;
        ParseConfigBuilder { config }
    }

    /// What joins the pieces of an element's text.
    pub fn cdata_separator(self, value: &str) -> (r: Self)
        ensures
            r@ == (ParseOptions { cdata_separator: value@, ..self@ }),
    {
        let mut config = self.config;
        config.cdata_separator = value.to_owned();
        ParseConfigBuilder { config }
    }

    /// Whether text that holds white space only is left out.
    pub fn strip_whitespace(self, value: bool) -> (r: Self)
        ensures
            r@ == (ParseOptions { strip_whitespace: value, ..self@ }),
    {
        let mut config = self.config;
        config.strip_whitespace = value;
        ParseConfigBuilder { config }
    }

    /// What stands between a namespace and a local name.
    pub fn namespace_separator(self, value: &str) -> (r: Self)
        ensures
            r@ == (ParseOptions { namespace_separator: value@, ..self@ }),
    {
        let mut config = self.config;
        config.namespace_separator = NamespaceSeparator::new(value);
        ParseConfigBuilder { config }
    }

    /// Whether names are resolved against the namespaces in force.
    pub fn process_namespaces(self, value: bool) -> (r: Self)
        ensures
            r@ == (ParseOptions { process_namespaces: value, ..self@ }),
    {
        let mut config = self.config;
        config.process_namespaces = value;
        ParseConfigBuilder { config }
    }

    /// Whether comments become entries.
    pub fn process_comments(self, value: bool) -> (r: Self)
        ensures
            r@ == (ParseOptions { process_comments: value, ..self@ }),
    {
        let mut config = self.config;
        config.process_comments = value;
        ParseConfigBuilder { config }
    }

    /// The key under which a comment stands.
    pub fn comment_key(self, value: &str) -> (r: Self)
        ensures
            r@ == (ParseOptions { comment_key: value@, ..self@ }),
    {
        let mut config = self.config;
        config.comment_key = CommentKey::new(value);
        ParseConfigBuilder { config }
    }

    /// The depth at which a streaming caller takes items.
    pub fn item_depth(self, value: usize) -> (r: Self)
        ensures
            r@ == (ParseOptions { item_depth: value, ..self@ }),
    {
        let mut config = self.config;
        config.item_depth = value;
        ParseConfigBuilder { config }
    }

    /// Whether entities beyond the predefined ones are refused.
    pub fn disable_entities(self, value: bool) -> (r: Self)
        ensures
            r@ == (ParseOptions { disable_entities: value, ..self@ }),
    {
        let mut config = self.config;
        config.disable_entities = value;
        ParseConfigBuilder { config }
    }

    /// The aliases of namespaces.
    pub fn namespaces(self, value: Option<Vec<(String, String)>>) -> (r: Self)
        ensures
            r@ == (ParseOptions {
                namespaces: match value {
                    Some(table) => Some(pairs_view(table@)),
                    None => None,
                },
                ..self@
            }),
    {
        let mut config = self.config;
        config.namespaces = value;
        ParseConfigBuilder { config }
    }

    /// The options chosen.
    pub fn build(self) -> (r: ParseConfig)
        ensures
            r@ == self@,
    {
        self.config
    }
}

/// The options of serialization.
pub struct UnparseConfig {
    pub encoding: String,
    pub full_document: bool,
    pub short_empty_elements: bool,
    pub attr_prefix: AttrPrefix,
    pub cdata_key: CdataKey,
    pub pretty: bool,
    pub newl: String,
    pub indent: String,
}

/// Mathematical model of an [`UnparseConfig`].
pub struct UnparseOptions {
    pub encoding: Seq<char>,
    pub full_document: bool,
    pub short_empty_elements: bool,
    pub attr_prefix: Seq<char>,
    pub cdata_key: Seq<char>,
    pub pretty: bool,
    pub newl: Seq<char>,
    pub indent: Seq<char>,
}

impl View for UnparseConfig {
    type V = UnparseOptions;

    open spec fn view(&self) -> UnparseOptions {
        UnparseOptions {
            encoding: self.encoding@,
            full_document: self.full_document,
            short_empty_elements: self.short_empty_elements,
            attr_prefix: self.attr_prefix@,
            cdata_key: self.cdata_key@,
            pretty: self.pretty,
            newl: self.newl@,
            indent: self.indent@,
        }
    }
}

/// The options that an [`UnparseConfig`] has when none is chosen.
pub open spec fn default_unparse_options() -> UnparseOptions {
    UnparseOptions {
        encoding: seq!['u', 't', 'f', '-', '8'],
        full_document: true,
        short_empty_elements: false,
        attr_prefix: seq!['@'],
        cdata_key: seq!['#', 't', 'e', 'x', 't'],
        pretty: false,
        newl: seq!['\n'],
        indent: seq!['\t'],
    }
}

impl Default for UnparseConfig {
    fn default() -> (r: Self)
        ensures
            r@ == default_unparse_options(),
    {
        proof {
            reveal_strlit("utf-8");
            reveal_strlit("\n");
            reveal_strlit("\t");
        }
        assert("utf-8"@ == seq!['u', 't', 'f', '-', '8']);
        assert("\n"@ == seq!['\n']);
        assert("\t"@ == seq!['\t']);
        Self {
            encoding: "utf-8".to_owned(),
            full_document: true,
            short_empty_elements: false,
            attr_prefix: AttrPrefix::default(),
            cdata_key: CdataKey::default(),
            pretty: false,
            newl: "\n".to_owned(),
            indent: "\t".to_owned(),
        }
    }
}

} // verus!
