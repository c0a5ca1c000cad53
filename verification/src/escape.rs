//! Escaping of character data and attribute values for markup.

use crate::text::push_char;
use std::borrow::Cow;
use vstd::prelude::*;
use vstd::string::StringExecFns;
use vstd::utf8::*;

verus! {

const LT: u8 = 0x3C;

const GT: u8 = 0x3E;

const AMPERSAND: u8 = 0x26;

/// Whether `c` must be replaced: `&`, `<` and `>` always, `"` inside an
/// attribute value.
pub open spec fn is_special(c: char, in_attribute: bool) -> bool {
    c == '&' || c == '<' || c == '>' || (in_attribute && c == '"')
}

/// What stands for `c` in markup.
pub open spec fn escaped_char(c: char, in_attribute: bool) -> Seq<char> {
    if c == '&' {
        seq!['&', 'a', 'm', 'p', ';']
    } else if c == '<' {
        seq!['&', 'l', 't', ';']
    } else if c == '>' {
        seq!['&', 'g', 't', ';']
    } else if in_attribute && c == '"' {
        seq!['&', 'q', 'u', 'o', 't', ';']
    } else {
        seq![c]
    }
}

/// `s` with each special character replaced by its entity.
pub open spec fn escaped(s: Seq<char>, in_attribute: bool) -> Seq<char>
    decreases s.len(),
{
    if s.len() == 0 {
        Seq::empty()
    } else {
        escaped(s.drop_last(), in_attribute) + escaped_char(s.last(), in_attribute)
    }
}

/// Whether `s` holds a character that must be replaced.
pub open spec fn needs_escape(s: Seq<char>, in_attribute: bool) -> bool {
    exists|i: int| 0 <= i < s.len() && is_special(#[trigger] s[i], in_attribute)
}

/// A string without special characters is its own escaped form.
pub proof fn lemma_escaped_plain(s: Seq<char>, in_attribute: bool)
    requires
        !needs_escape(s, in_attribute),
    ensures
        escaped(s, in_attribute) == s,
    decreases s.len(),
{
    if s.len() > 0 {
        let t = s.drop_last();
        lemma_escaped_plain(t, in_attribute);
    }
}

/// Escaping distributes over concatenation.
pub proof fn lemma_escaped_concat(a: Seq<char>, b: Seq<char>, in_attribute: bool)
    ensures
        escaped(a + b, in_attribute) == escaped(a, in_attribute) + escaped(b, in_attribute),
    decreases b.len(),
{
    if b.len() > 0 {
        assert((a + b).drop_last() == a + b.drop_last());
        lemma_escaped_concat(a, b.drop_last(), in_attribute);
    }
}

/// A byte below 0x80 occurs in the UTF-8 form of a string exactly where the
/// character with that code occurs in the string.
pub proof fn lemma_ascii_byte_occurs(chars: Seq<char>, b: u8)
    requires
        b < 0x80,
    ensures
        encode_utf8(chars).contains(b) <==> chars.contains(b as char),
    decreases chars.len(),
{
    if chars.len() > 0 {
        let c0 = chars[0] as u32;
        let head = encode_scalar(c0);
        let rest = chars.drop_first();
        let tail = encode_utf8(rest);
        lemma_ascii_byte_occurs(rest, b);
        char_is_scalar(chars[0]);
        assert(head.contains(b) <==> c0 == b as u32) by {
            if has_width_1_encoding(c0) {
                assert(leading_byte_width_1(c0) == c0 as u8) by (bit_vector)
                    requires
                        has_width_1_encoding(c0),
                ;
                if c0 == b as u32 {
                    assert(head[0] == b);
                }
            } else {
                assert(leading_byte_width_2(c0) >= 0x80 && leading_byte_width_3(c0) >= 0x80
                    && leading_byte_width_4(c0) >= 0x80 && last_continuation_byte(c0) >= 0x80
                    && second_last_continuation_byte(c0) >= 0x80 && third_last_continuation_byte(
                    c0,
                ) >= 0x80) by (bit_vector);
            }
        }
        assert(c0 == b as u32 <==> chars[0] == b as char) by {
            char_u32_cast(chars[0], c0);
        }
        if chars.contains(b as char) {
            let j = choose|j: int| 0 <= j < chars.len() && chars[j] == b as char;
            if j == 0 {
                let k = choose|k: int| 0 <= k < head.len() && head[k] == b;
                assert((head + tail)[k] == b);
            } else {
                assert(rest[j - 1] == b as char);
                let k = choose|k: int| 0 <= k < tail.len() && tail[k] == b;
                assert((head + tail)[head.len() + k] == b);
            }
        }
    }
}

/// `memchr::memchr3`: the index of the first byte of `haystack` that equals
/// one of the three needles, or `None` where no byte does.
#[verifier::external_body]
fn first_of_three(n1: u8, n2: u8, n3: u8, haystack: &[u8]) -> (r: Option<usize>)
    ensures
        match r {
            Some(i) => i < haystack@.len() && (haystack@[i as int] == n1 || haystack@[i as int]
                == n2 || haystack@[i as int] == n3) && forall|j: int|
                0 <= j < i ==> haystack@[j] != n1 && haystack@[j] != n2 && haystack@[j] != n3,
            None => forall|j: int|
                0 <= j < haystack@.len() ==> haystack@[j] != n1 && haystack@[j] != n2
                    && haystack@[j] != n3,
        },
{
    memchr::memchr3(n1, n2, n3, haystack)
}

/// Appends to `out` what stands for `c` in markup.
fn push_escaped(out: &mut String, c: char, in_attribute: bool)
    ensures
        final(out)@ == old(out)@ + escaped_char(c, in_attribute),
{
    if c == '&' {
        proof {
            reveal_strlit("&amp;");
        }
        out.append("&amp;");
    } else if c == '<' {
        proof {
            reveal_strlit("&lt;");
        }
        out.append("&lt;");
    } else if c == '>' {
        proof {
            reveal_strlit("&gt;");
        }
        out.append("&gt;");
    } else if in_attribute && c == '"' {
        proof {
            reveal_strlit("&quot;");
        }
        out.append("&quot;");
    } else {
        push_char(out, c);
    }
}

/// The escaped form of `text`, built character by character.
fn escape_owned(text: &str, in_attribute: bool) -> (r: String)
    ensures
        r@ == escaped(text@, in_attribute),
{
    let mut out = String::new();
    for c in it: text.chars()
        invariant
            it.seq() == text@,
            out@ == escaped(text@.take(it.index()), in_attribute),
    {
        proof {
            let next = text@.take(it.index() + 1);
            assert(next.drop_last() == text@.take(it.index()));
        }
        push_escaped(&mut out, c, in_attribute);
    }
    assert(text@.take(text@.len() as int) == text@);
    out
}

/// Replaces `&`, `<` and `>` in character data by their entities. A text
/// without any of them is handed back as it came, without a copy.
pub fn escape_xml(text: &str) -> (r: Cow<'_, str>)
    ensures
        r@ == escaped(text@, false),
        r matches Cow::Borrowed(_) <==> !needs_escape(text@, false),
{
    let bytes = text.as_bytes();
    proof {
        lemma_ascii_byte_occurs(text@, AMPERSAND);
        lemma_ascii_byte_occurs(text@, LT);
        lemma_ascii_byte_occurs(text@, GT);
    }
    match first_of_three(AMPERSAND, LT, GT, bytes) {
        None => {
            proof {
                lemma_escaped_plain(text@, false);
            }
            Cow::Borrowed(text)
        },
        Some(at) => {
            Cow::Owned(escape_owned(text, false))
        },
    }
}

/// Replaces `&`, `<`, `>` and `"` in an attribute value by their entities. A
/// value without any of them is handed back as it came, without a copy.
pub fn escape_xml_attr(text: &str) -> (r: Cow<'_, str>)
    ensures
        r@ == escaped(text@, true),
        r matches Cow::Borrowed(_) <==> !needs_escape(text@, true),
{
    let mut found = false;
    for c in it: text.chars()
        invariant
            it.seq() == text@,
            found <==> exists|i: int|
                0 <= i < it.index() && is_special(#[trigger] text@[i], true),
    {
        if c == '&' || c == '<' || c == '>' || c == '"' {
            found = true;
        }
    }
    if found {
        Cow::Owned(escape_owned(text, true))
    } else {
        proof {
            lemma_escaped_plain(text@, true);
        }
        Cow::Borrowed(text)
    }
}

} // verus!
