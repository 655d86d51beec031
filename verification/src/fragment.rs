//! Output fragments: pieces of text that are safe to emit as they are.

use crate::encode::encode_double_quoted_attribute;
use crate::encode::encode_element_text;
use crate::escape::escape_attribute_value;
use crate::escape::escape_element_text;
use std::borrow::Cow;
use vstd::prelude::*;
use vstd::string::StringExecFns;

verus! {

/// One piece of output text that is safe to emit as it is: tag punctuation,
/// escaped text, or a fragment that an inner element produced. Only the
/// functions of this module make fragments, so that raw text cannot become
/// one without being escaped.
#[derive(Debug)]
pub struct Fragment {
    text: Cow<'static, str>,
}

impl View for Fragment {
    type V = Seq<char>;

    closed spec fn view(&self) -> Seq<char> {
        self.text@
    }
}

/// What a child contributes to the output.
#[derive(Debug)]
pub enum Content {
    /// Raw text, escaped when it is emitted.
    Text(&'static str),
    /// A fragment of a nested element, emitted unchanged.
    Nested(Fragment),
}

/// The model of a `Content`.
pub enum ContentView {
    Text(Seq<char>),
    Nested(Seq<char>),
}

impl View for Content {
    type V = ContentView;

    open spec fn view(&self) -> ContentView {
        match self {
            Content::Text(text) => ContentView::Text(text@),
            Content::Nested(fragment) => ContentView::Nested(fragment@),
        }
    }
}

/// The fragment that opens a tag: `<` and the tag name.
pub open spec fn open_text(tag: Seq<char>) -> Seq<char> {
    seq!['<'] + tag
}

/// The fragment that ends the opening tag.
pub open spec fn tag_end_text() -> Seq<char> {
    seq!['>']
}

/// The fragment that closes an element: `</`, the tag name and `>`.
pub open spec fn close_text(tag: Seq<char>) -> Seq<char> {
    seq!['<', '/'] + tag + seq!['>']
}

/// The fragment that begins an attribute: a space, the name and `="`.
pub open spec fn attribute_open_text(name: Seq<char>) -> Seq<char> {
    seq![' '] + name + seq!['=', '"']
}

/// The fragment that ends an attribute: the closing quote.
pub open spec fn quote_text() -> Seq<char> {
    seq!['"']
}

/// The fragment of a child: raw text escaped, a nested fragment as it is.
pub open spec fn content_text(content: ContentView) -> Seq<char> {
    match content {
        ContentView::Text(text) => escape_element_text(text),
        ContentView::Nested(fragment) => fragment,
    }
}

impl Fragment {
    /// The text of the fragment.
    pub fn as_str(&self) -> (text: &str)
        ensures
            text@ == self@,
    {
        match &self.text {
            Cow::Borrowed(borrowed) => borrowed,
            Cow::Owned(owned) => owned.as_str(),
        }
    }

    /// The fragment that opens the tag `tag`.
    pub(crate) fn open(tag: &str) -> (fragment: Fragment)
        ensures
            fragment@ == open_text(tag@),
    {
        proof {
            reveal_strlit("<");
        }
        let mut text = String::from_str("<");
        text.append(tag);
        assert(text@ =~= open_text(tag@));
        Fragment { text: Cow::Owned(text) }
    }

    /// The fragment that ends an opening tag.
    pub(crate) fn tag_end() -> (fragment: Fragment)
        ensures
            fragment@ == tag_end_text(),
    {
        proof {
            reveal_strlit(">");
        }
        assert(">"@ =~= tag_end_text());
        Fragment { text: Cow::Borrowed(">") }
    }

    /// The fragment that closes the element `tag`.
    pub(crate) fn close(tag: &str) -> (fragment: Fragment)
        ensures
            fragment@ == close_text(tag@),
    {
        proof {
            reveal_strlit("</");
            reveal_strlit(">");
        }
        let mut text = String::from_str("</");
        text.append(tag);
        text.append(">");
        assert(text@ =~= close_text(tag@));
        Fragment { text: Cow::Owned(text) }
    }

    /// The fragment that begins the attribute `name`.
    pub(crate) fn attribute_open(name: &str) -> (fragment: Fragment)
        ensures
            fragment@ == attribute_open_text(name@),
    {
        proof {
            reveal_strlit(" ");
            reveal_strlit("=\"");
        }
        let mut text = String::from_str(" ");
        text.append(name);
        text.append("=\"");
        assert(text@ =~= attribute_open_text(name@));
        Fragment { text: Cow::Owned(text) }
    }

    /// The fragment that holds the raw attribute value `value`, escaped.
    pub(crate) fn attribute_value(value: &'static str) -> (fragment: Fragment)
        ensures
            fragment@ == escape_attribute_value(value@),
    {
        Fragment { text: encode_double_quoted_attribute(Cow::Borrowed(value)) }
    }

    /// The fragment that ends an attribute.
    pub(crate) fn quote() -> (fragment: Fragment)
        ensures
            fragment@ == quote_text(),
    {
        proof {
            reveal_strlit("\"");
        }
        assert("\""@ =~= quote_text());
        Fragment { text: Cow::Borrowed("\"") }
    }

    /// The fragment that holds `content`: raw text escaped, a nested
    /// fragment as it is.
    pub(crate) fn content(content: Content) -> (fragment: Fragment)
        ensures
            fragment@ == content_text(content@),
    {
        match content {
            Content::Text(text) => Fragment { text: encode_element_text(Cow::Borrowed(text)) },
            Content::Nested(fragment) => fragment,
        }
    }
}

} // verus!
