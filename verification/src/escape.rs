//! What escaping is: the escaped form of raw text in the two contexts in
//! which a serializer emits it, and what holds of that form.

use vstd::prelude::*;

verus! {

/// The character reference `&amp;`.
pub open spec fn amp() -> Seq<char> {
    seq!['&', 'a', 'm', 'p', ';']
}

/// The character reference `&lt;`.
pub open spec fn lt() -> Seq<char> {
    seq!['&', 'l', 't', ';']
}

/// The character reference `&quot;`.
pub open spec fn quot() -> Seq<char> {
    seq!['&', 'q', 'u', 'o', 't', ';']
}

/// The text that replaces `matched` in escaped output: `&amp;` for `&`,
/// `&lt;` for `<`, `&quot;` for `"`. Any other text stands for itself.
pub open spec fn reference_of(matched: Seq<char>) -> Seq<char> {
    if matched == seq!['&'] {
        amp()
    } else if matched == seq!['<'] {
        lt()
    } else if matched == seq!['"'] {
        quot()
    } else {
        matched
    }
}

/// What one character of raw text becomes when the characters of `specials`
/// are escaped.
pub open spec fn escape_char(c: char, specials: Seq<char>) -> Seq<char> {
    if specials.contains(c) {
        reference_of(seq![c])
    } else {
        seq![c]
    }
}

/// `text` with every occurrence of a character of `specials` replaced by its
/// character reference, all other characters unchanged and in place.
pub open spec fn escape(text: Seq<char>, specials: Seq<char>) -> Seq<char>
    decreases text.len(),
{
    if text.len() == 0 {
        Seq::empty()
    } else {
        escape(text.drop_last(), specials) + escape_char(text.last(), specials)
    }
}

/// The characters that are escaped in element text.
pub open spec fn element_specials() -> Seq<char> {
    seq!['&', '<']
}

/// The characters that are escaped in a double-quoted attribute value.
pub open spec fn attribute_specials() -> Seq<char> {
    seq!['&', '"']
}

/// Element text content with `&` and `<` escaped.
pub open spec fn escape_element_text(text: Seq<char>) -> Seq<char> {
    escape(text, element_specials())
}

/// A double-quoted attribute value with `&` and `"` escaped.
pub open spec fn escape_attribute_value(text: Seq<char>) -> Seq<char> {
    escape(text, attribute_specials())
}

/// Whether a character of `specials` occurs in `text`.
pub open spec fn has_special(text: Seq<char>, specials: Seq<char>) -> bool {
    exists|c: char| specials.contains(c) && text.contains(c)
}

/// Whether `part` occurs in `text` at index `at`.
pub open spec fn has_at(text: Seq<char>, at: int, part: Seq<char>) -> bool {
    0 <= at && at + part.len() <= text.len() && text.subrange(at, at + part.len()) == part
}

/// Escaping works character by character: the escaped form of a
/// concatenation is the concatenation of the escaped forms.
pub proof fn lemma_escape_concat(a: Seq<char>, b: Seq<char>, specials: Seq<char>)
    ensures
        escape(a + b, specials) == escape(a, specials) + escape(b, specials),
    decreases b.len(),
{
    if b.len() == 0 {
        assert(a + b =~= a);
        assert(escape(a, specials) + escape(b, specials) =~= escape(a, specials));
    } else {
        assert((a + b).drop_last() =~= a + b.drop_last());
        lemma_escape_concat(a, b.drop_last(), specials);
        assert(escape(a + b, specials) =~= escape(a, specials) + escape(b, specials));
    }
}

/// Text without any special character is its own escaped form.
pub proof fn lemma_escape_plain(text: Seq<char>, specials: Seq<char>)
    requires
        !has_special(text, specials),
    ensures
        escape(text, specials) == text,
    decreases text.len(),
{
    if text.len() > 0 {
        let earlier = text.drop_last();
        assert(!has_special(earlier, specials)) by {
            if has_special(earlier, specials) {
                let c = choose|c: char| specials.contains(c) && earlier.contains(c);
                let i = choose|i: int| 0 <= i < earlier.len() && earlier[i] == c;
                assert(text[i] == c);
            }
        }
        lemma_escape_plain(earlier, specials);
        assert(text.contains(text.last()));
        assert(earlier + seq![text.last()] =~= text);
    }
}

/// Element text that holds neither `&` nor `<` is handed back unchanged.
pub proof fn lemma_element_text_plain(text: Seq<char>)
    requires
        !text.contains('&'),
        !text.contains('<'),
    ensures
        escape_element_text(text) == text,
{
    lemma_specials(element_specials(), '<');
    lemma_escape_plain(text, element_specials());
}

/// An attribute value that holds neither `&` nor `"` is handed back
/// unchanged.
pub proof fn lemma_attribute_value_plain(text: Seq<char>)
    requires
        !text.contains('&'),
        !text.contains('"'),
    ensures
        escape_attribute_value(text) == text,
{
    lemma_specials(attribute_specials(), '"');
    lemma_escape_plain(text, attribute_specials());
}

/// The two special characters of a context are `&` and `other`, and no
/// others.
proof fn lemma_specials(specials: Seq<char>, other: char)
    requires
        specials == seq!['&', other],
    ensures
        forall|c: char| specials.contains(c) <==> c == '&' || c == other,
{
    assert(specials[0] == '&' && specials[1] == other);
}

/// Escaped text in a context whose special characters are `&` and `other`,
/// where `other` is `<` or `"`: `other` does not occur in it, and every `&`
/// in it begins the reference for `&` or the one for `other`.
proof fn lemma_escaped(text: Seq<char>, specials: Seq<char>, other: char)
    requires
        specials == seq!['&', other],
        other == '<' || other == '"',
    ensures
        !escape(text, specials).contains(other),
        forall|at: int|
            0 <= at < escape(text, specials).len() && escape(text, specials)[at] == '&' ==> has_at(
                escape(text, specials),
                at,
                amp(),
            ) || has_at(escape(text, specials), at, reference_of(seq![other])),
    decreases text.len(),
{
    let out = escape(text, specials);
    if text.len() > 0 {
        let head = escape(text.drop_last(), specials);
        let tail = escape_char(text.last(), specials);
        lemma_escaped(text.drop_last(), specials, other);
        lemma_specials(specials, other);
        assert(seq!['<'] != seq!['"'] && seq!['&'] != seq!['<'] && seq!['&'] != seq!['"']) by {
            assert(seq!['<'][0] == '<' && seq!['"'][0] == '"' && seq!['&'][0] == '&');
        }
        assert(seq![text.last()][0] == text.last());
        assert(tail == if text.last() == '&' {
            amp()
        } else if text.last() == other {
            reference_of(seq![other])
        } else {
            seq![text.last()]
        });
        assert forall|at: int| 0 <= at < out.len() implies out[at] != other by {
            if at < head.len() {
                assert(head.contains(head[at]));
            } else {
                assert(out[at] == tail[at - head.len()]);
            }
        }
        assert forall|at: int| 0 <= at < out.len() && out[at] == '&' implies has_at(out, at, amp())
            || has_at(out, at, reference_of(seq![other])) by {
            if at < head.len() {
                assert(head[at] == '&');
                if has_at(head, at, amp()) {
                    assert(out.subrange(at, at + amp().len()) =~= head.subrange(
                        at,
                        at + amp().len(),
                    ));
                } else {
                    let reference = reference_of(seq![other]);
                    assert(out.subrange(at, at + reference.len()) =~= head.subrange(
                        at,
                        at + reference.len(),
                    ));
                }
            } else {
                assert(out[at] == tail[at - head.len()]);
                assert(at == head.len());
                assert(out.subrange(at, at + tail.len()) =~= tail);
            }
        }
    }
}

/// Escaped element text holds no `<`, and every `&` in it begins `&amp;` or
/// `&lt;`: nothing in it can open a tag or be read as a bare ampersand.
pub proof fn lemma_element_text_escaped(text: Seq<char>)
    ensures
        !escape_element_text(text).contains('<'),
        forall|at: int|
            0 <= at < escape_element_text(text).len() && escape_element_text(text)[at] == '&'
                ==> has_at(escape_element_text(text), at, amp()) || has_at(
                escape_element_text(text),
                at,
                lt(),
            ),
{
    lemma_escaped(text, element_specials(), '<');
    assert(seq!['<'] != seq!['&']) by {
        assert(seq!['<'][0] == '<' && seq!['&'][0] == '&');
    }
}

/// An escaped attribute value holds no `"`, and every `&` in it begins
/// `&amp;` or `&quot;`: nothing in it can close the quoted value or be read
/// as a bare ampersand.
pub proof fn lemma_attribute_value_escaped(text: Seq<char>)
    ensures
        !escape_attribute_value(text).contains('"'),
        forall|at: int|
            0 <= at < escape_attribute_value(text).len() && escape_attribute_value(text)[at]
                == '&' ==> has_at(escape_attribute_value(text), at, amp()) || has_at(
                escape_attribute_value(text),
                at,
                quot(),
            ),
{
    lemma_escaped(text, attribute_specials(), '"');
    assert(seq!['"'] != seq!['&'] && seq!['"'] != seq!['<']) by {
        assert(seq!['"'][0] == '"' && seq!['&'][0] == '&' && seq!['<'][0] == '<');
    }
}

} // verus!
