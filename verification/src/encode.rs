//! The escaping functions for the two HTML contexts in which raw text is
//! emitted: the text content of an element and a double-quoted attribute
//! value.

use crate::escape::amp;
use crate::escape::attribute_specials;
use crate::escape::element_specials;
use crate::escape::escape;
use crate::escape::escape_attribute_value;
use crate::escape::escape_element_text;
use crate::escape::has_special;
use crate::escape::lemma_escape_plain;
use crate::escape::lt;
use crate::escape::quot;
use crate::escape::reference_of;
use regex::Captures;
use regex::Regex;
use std::borrow::Cow;
use vstd::prelude::*;
use vstd::string::StrSliceExecFns;

verus! {

/// The characters that have a meaning of their own inside a bracketed set of
/// a regular expression.
pub open spec fn is_set_syntax(c: char) -> bool {
    c == '[' || c == ']' || c == '\\' || c == '^' || c == '-'
}

/// The characters listed between the brackets of `pattern`.
pub open spec fn set_members(pattern: Seq<char>) -> Seq<char> {
    pattern.subrange(1, pattern.len() - 1)
}

/// Whether `pattern` is a bracketed set that lists between one and eight
/// distinct characters literally, such as `[&<]`.
pub open spec fn is_literal_set(pattern: Seq<char>) -> bool {
    &&& 3 <= pattern.len() <= 10
    &&& pattern.first() == '['
    &&& pattern.last() == ']'
    &&& set_members(pattern).no_duplicates()
    &&& forall|i: int|
        0 <= i < set_members(pattern).len() ==> !is_set_syntax(#[trigger] set_members(pattern)[i])
}

/// The replacement text for one match of a special character.
pub fn character_reference(matched: &str) -> (reference: String)
    ensures
        reference@ == reference_of(matched@),
{
    if matched.unicode_len() == 1 {
        let c = matched.get_char(0);
        assert(matched@ =~= seq![c]);
        if c == '&' {
            proof {
                reveal_strlit("&amp;");
            }
            assert("&amp;"@ =~= amp());
            "&amp;".to_owned()
        } else if c == '<' {
            proof {
                reveal_strlit("&lt;");
            }
            assert("&lt;"@ =~= lt());
            "&lt;".to_owned()
        } else if c == '"' {
            proof {
                reveal_strlit("&quot;");
            }
            assert("&quot;"@ =~= quot());
            "&quot;".to_owned()
        } else {
            assert(seq![c] != seq!['&'] && seq![c] != seq!['<'] && seq![c] != seq!['"']) by {
                assert(seq![c][0] == c);
                assert(seq!['&'][0] == '&');
                assert(seq!['<'][0] == '<');
                assert(seq!['"'][0] == '"');
            }
            matched.to_owned()
        }
    } else {
        assert(seq!['&'].len() == 1 && seq!['<'].len() == 1 && seq!['"'].len() == 1);
        matched.to_owned()
    }
}

/// Compiles `pattern` with `Regex::new` and rewrites `haystack` with
/// `Regex::replace_all`, each match being replaced by its character
/// reference.
///
/// Trusted, for a pattern that is a literal set: such a pattern compiles, a
/// match is exactly one occurrence of one member of the set, every such
/// occurrence is a match, and the text between matches is kept as it is. The
/// result borrows the haystack if there is no match, and is a new text if
/// there is one.
#[verifier::external_body]
fn replace_set_members<'h>(pattern: &str, haystack: &'h str) -> (replaced: Cow<'h, str>)
    requires
        is_literal_set(pattern@),
    ensures
        replaced@ == escape(haystack@, set_members(pattern@)),
        replaced is Borrowed <==> !has_special(haystack@, set_members(pattern@)),
{
    let set = Regex::new(pattern).unwrap();
    set.replace_all(haystack, |found: &Captures| character_reference(&found[0]))
}

/// The text that `input` holds, borrowed or owned.
fn text_of<'a, 'b>(input: &'b Cow<'a, str>) -> (text: &'b str)
    ensures
        text@ == input@,
{
    match input {
        Cow::Borrowed(borrowed) => borrowed,
        Cow::Owned(owned) => owned.as_str(),
    }
}

/// Escapes text for use as the content of an element: every `&` becomes
/// `&amp;` and every `<` becomes `&lt;`. Input that holds neither is handed
/// back as it came, without a copy.
pub fn encode_element_text<'a>(input: Cow<'a, str>) -> (escaped: Cow<'a, str>)
    ensures
        escaped@ == escape_element_text(input@),
        !has_special(input@, element_specials()) ==> escaped == input,
{
    proof {
        reveal_strlit("[&<]");
        assert(set_members("[&<]"@) =~= element_specials());
        if !has_special(input@, element_specials()) {
            lemma_escape_plain(input@, element_specials());
        }
    }
    let replaced = replace_set_members("[&<]", text_of(&input));
    match replaced {
        Cow::Borrowed(_) => input,
        Cow::Owned(owned) => Cow::Owned(owned),
    }
}

/// Escapes text for use as an attribute value between double quotes: every
/// `&` becomes `&amp;` and every `"` becomes `&quot;`, in one pass, so that
/// the `&` of a reference is never escaped again. Input that holds neither
/// is handed back as it came, without a copy.
pub fn encode_double_quoted_attribute<'a>(input: Cow<'a, str>) -> (escaped: Cow<'a, str>)
    ensures
        escaped@ == escape_attribute_value(input@),
        !has_special(input@, attribute_specials()) ==> escaped == input,
{
    proof {
        reveal_strlit("[&\"]");
        assert(set_members("[&\"]"@) =~= attribute_specials());
        if !has_special(input@, attribute_specials()) {
            lemma_escape_plain(input@, attribute_specials());
        }
    }
    let replaced = replace_set_members("[&\"]", text_of(&input));
    match replaced {
        Cow::Borrowed(_) => input,
        Cow::Owned(owned) => Cow::Owned(owned),
    }
}

} // verus!
