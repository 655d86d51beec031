//! The `html` element, the root of a document: it takes a `lang` attribute,
//! and text or the fragments of a `body` element as children.

use crate::body_element::BodyElement;
use crate::body_element::BodySafeOutput;
use crate::document::attributes_first;
use crate::document::attributes_text;
use crate::document::children_text;
use crate::document::document;
use crate::document::event_text;
use crate::document::first_misplaced;
use crate::document::is_child;
use crate::document::joined;
use crate::document::lemma_joined_concat;
use crate::document::lemma_no_attributes;
use crate::document::misplaced;
use crate::document::texts;
use crate::element::Element;
use crate::element::Node;
use crate::element::UnexpectedAttribute;
use crate::escape::escape_attribute_value;
use crate::escape::escape_element_text;
use crate::escape::lemma_attribute_value_plain;
use crate::escape::lemma_element_text_plain;
use crate::fragment::Content;
use crate::fragment::ContentView;
use crate::fragment::Fragment;
use crate::fragment::attribute_open_text;
use crate::fragment::close_text;
use crate::fragment::open_text;
use crate::fragment::quote_text;
use crate::fragment::tag_end_text;
use crate::serializer::join;
use crate::serializer::serialize;
use vstd::prelude::*;
use vstd::std_specs::convert::FromSpecImpl;
use vstd::string::StringExecFns;

verus! {

/// An attribute of an `html` element.
#[derive(Debug)]
pub enum HtmlAttribute {
    /// The `lang` attribute with its raw value.
    Lang(&'static str),
}

/// A child of an `html` element.
#[derive(Debug)]
pub enum HtmlChild {
    /// Raw text, escaped when it is serialized.
    Text(&'static str),
    /// One fragment of a serialized `body` element, emitted unchanged.
    Body(BodySafeOutput),
}

/// One event of an `html` element's input.
#[derive(Debug)]
pub enum Html {
    Attribute(HtmlAttribute),
    Child(HtmlChild),
}

/// A fragment of a serialized `html` element. It is already escaped and must
/// not be escaped again.
#[derive(Debug)]
pub struct HtmlSafeOutput(Fragment);

impl View for HtmlSafeOutput {
    type V = Seq<char>;

    closed spec fn view(&self) -> Seq<char> {
        self.0@
    }
}

impl HtmlSafeOutput {
    /// The text of the fragment.
    pub fn as_str(&self) -> (text: &str)
        ensures
            text@ == self@,
    {
        self.0.as_str()
    }

    /// The fragment itself, to be placed in an enclosing element.
    pub fn into_fragment(self) -> (fragment: Fragment)
        ensures
            fragment@ == self@,
    {
        self.0
    }
}

impl HtmlAttribute {
    /// The raw value that the attribute carries.
    pub open spec fn text(self) -> Seq<char> {
        match self {
            HtmlAttribute::Lang(value) => value@,
        }
    }

    /// The raw value that the attribute carries.
    pub fn as_str(&self) -> (text: &'static str)
        ensures
            text@ == self.text(),
    {
        match self {
            HtmlAttribute::Lang(value) => *value,
        }
    }
}

impl HtmlChild {
    /// The text that the child carries: raw text, or the text of a fragment
    /// that is already escaped.
    pub open spec fn text(self) -> Seq<char> {
        match self {
            HtmlChild::Text(text) => text@,
            HtmlChild::Body(fragment) => fragment@,
        }
    }

    /// The text that the child carries.
    pub fn as_str(&self) -> (text: &str)
        ensures
            text@ == self.text(),
    {
        match self {
            HtmlChild::Text(text) => *text,
            HtmlChild::Body(fragment) => fragment.as_str(),
        }
    }
}

impl Html {
    /// The text that the event carries.
    pub open spec fn text(self) -> Seq<char> {
        match self {
            Html::Attribute(attribute) => attribute.text(),
            Html::Child(child) => child.text(),
        }
    }

    /// The text that the event carries.
    pub fn as_str(&self) -> (text: &str)
        ensures
            text@ == self.text(),
    {
        match self {
            Html::Attribute(attribute) => attribute.as_str(),
            Html::Child(child) => child.as_str(),
        }
    }
}

/// An attribute gives up the raw value that it carries.
impl From<HtmlAttribute> for &'static str {
    fn from(attribute: HtmlAttribute) -> (value: &'static str) {
        match attribute {
            HtmlAttribute::Lang(value) => value,
        }
    }
}

impl FromSpecImpl<HtmlAttribute> for &'static str {
    open spec fn obeys_from_spec() -> bool {
        true
    }

    open spec fn from_spec(attribute: HtmlAttribute) -> &'static str {
        match attribute {
            HtmlAttribute::Lang(value) => value,
        }
    }
}

/// The `html` element.
pub struct HtmlElement;

impl Element for HtmlElement {
    type Event = Html;

    type Attribute = HtmlAttribute;

    type Child = HtmlChild;

    type Output = HtmlSafeOutput;

    open spec fn tag(&self) -> Seq<char> {
        seq!['h', 't', 'm', 'l']
    }

    open spec fn node_of(&self, event: Html) -> Node<HtmlAttribute, HtmlChild> {
        match event {
            Html::Attribute(attribute) => Node::Attribute(attribute),
            Html::Child(child) => Node::Child(child),
        }
    }

    open spec fn attribute_of(&self, attribute: HtmlAttribute) -> Option<(Seq<char>, Seq<char>)> {
        match attribute {
            HtmlAttribute::Lang(value) => Some((seq!['l', 'a', 'n', 'g'], value@)),
        }
    }

    open spec fn content_of(&self, child: HtmlChild) -> ContentView {
        match child {
            HtmlChild::Text(text) => ContentView::Text(text@),
            HtmlChild::Body(fragment) => ContentView::Nested(fragment@),
        }
    }

    open spec fn text_of(&self, output: HtmlSafeOutput) -> Seq<char> {
        output@
    }

    fn tag_name(&self) -> (name: &'static str) {
        proof {
            reveal_strlit("html");
        }
        assert("html"@ =~= seq!['h', 't', 'm', 'l']);
        "html"
    }

    fn node(&self, event: Html) -> (node: Node<HtmlAttribute, HtmlChild>) {
        match event {
            Html::Attribute(attribute) => Node::Attribute(attribute),
            Html::Child(child) => Node::Child(child),
        }
    }

    fn attribute(&self, attribute: &HtmlAttribute) -> (parts: Option<(&'static str, &'static str)>) {
        proof {
            reveal_strlit("lang");
        }
        assert("lang"@ =~= seq!['l', 'a', 'n', 'g']);
        match attribute {
            HtmlAttribute::Lang(value) => Some(("lang", *value)),
        }
    }

    fn content(&self, child: HtmlChild) -> (content: Content) {
        match child {
            HtmlChild::Text(text) => Content::Text(text),
            HtmlChild::Body(fragment) => Content::Nested(fragment.into_fragment()),
        }
    }

    fn output(&self, fragment: Fragment) -> (output: HtmlSafeOutput) {
        HtmlSafeOutput(fragment)
    }

    fn text<'a>(&self, output: &'a HtmlSafeOutput) -> (text: &'a str) {
        output.as_str()
    }
}

/// Serializes an `html` element from its events: `<html`, the `lang`
/// attribute if there is one, `>`, the children, `</html>`.
pub fn html(inner: Vec<Html>) -> (result: Result<
    Vec<HtmlSafeOutput>,
    UnexpectedAttribute<HtmlAttribute>,
>)
    ensures
        match result {
            Ok(outputs) => {
                &&& attributes_first(HtmlElement, inner@)
                &&& texts(HtmlElement, outputs@) == document(HtmlElement, inner@)
            },
            Err(error) => {
                &&& error.element@ == HtmlElement.tag()
                &&& exists|at: int|
                    first_misplaced(HtmlElement, inner@, at) && #[trigger] inner@[at]
                        == Html::Attribute(error.attribute)
            },
        },
{
    serialize(HtmlElement, inner)
}

/// The events that place the fragments of a serialized `body` element in an
/// `html` element: one child for each fragment, in order, each holding its
/// fragment unchanged.
pub open spec fn embedded(fragments: Seq<BodySafeOutput>) -> Seq<Html> {
    Seq::new(fragments.len(), |i: int| Html::Child(HtmlChild::Body(fragments[i])))
}

/// Turns the output of a `body` element into children of an `html` element.
/// The fragments are wrapped again and not touched otherwise.
pub fn embed_body(inner: Vec<BodySafeOutput>) -> (children: Vec<Html>)
    ensures
        children@ == embedded(inner@),
{
    let ghost all = inner@;
    let mut children: Vec<Html> = Vec::new();
    for fragment in it: inner
        invariant
            it.seq() == all,
            children@ == embedded(all.take(it.index())),
    {
        children.push(Html::Child(HtmlChild::Body(fragment)));
        assert(children@ =~= embedded(all.take(it.index() + 1)));
    }
    assert(all.take(all.len() as int) =~= all);
    children
}

/// The events of an `html` element that is given a language and then one
/// text.
pub open spec fn language_and_text(language: &'static str, text: &'static str) -> Seq<Html> {
    seq![Html::Attribute(HtmlAttribute::Lang(language)), Html::Child(HtmlChild::Text(text))]
}

/// An `html` element that is given a language and then one text is written
/// as `<html`, ` lang="`, the escaped language, `"`, `>`, the escaped text
/// and `</html>`.
pub proof fn lemma_language_and_text(language: &'static str, text: &'static str)
    ensures
        attributes_first(HtmlElement, language_and_text(language, text)),
        document(HtmlElement, language_and_text(language, text)) == seq![
            open_text(HtmlElement.tag()),
            attribute_open_text(seq!['l', 'a', 'n', 'g']),
            escape_attribute_value(language@),
            quote_text(),
            tag_end_text(),
            escape_element_text(text@),
            close_text(HtmlElement.tag()),
        ],
{
    let events = language_and_text(language, text);
    let first = seq![events[0]];
    assert(events.drop_last() =~= first);
    assert(first.drop_last() =~= Seq::<Html>::empty());
    assert(attributes_text(HtmlElement, events) =~= event_text(HtmlElement, events[0])) by {
        reveal_with_fuel(attributes_text, 3);
    }
    assert(children_text(HtmlElement, events) =~= event_text(HtmlElement, events[1])) by {
        reveal_with_fuel(children_text, 3);
    }
    assert(document(HtmlElement, events) =~= seq![
        open_text(HtmlElement.tag()),
        attribute_open_text(seq!['l', 'a', 'n', 'g']),
        escape_attribute_value(language@),
        quote_text(),
        tag_end_text(),
        escape_element_text(text@),
        close_text(HtmlElement.tag()),
    ]);
    assert forall|at: int| !misplaced(HtmlElement, events, at) by {
        assert(!is_child(HtmlElement, events[0]));
        assert(is_child(HtmlElement, events[1]));
    }
}

/// The sample document: the document type declaration, then an `html`
/// element with the language `en` and the text `test`.
pub fn html_main() -> (page: String)
    ensures
        page@ == "<!DOCTYPE html><html lang=\"en\">test</html>"@,
{
    let mut events: Vec<Html> = Vec::new();
    events.push(Html::Attribute(HtmlAttribute::Lang("en")));
    events.push(Html::Child(HtmlChild::Text("test")));
    let mut page = String::from_str("<!DOCTYPE html>");
    proof {
        assert(events@ =~= language_and_text("en", "test"));
        lemma_language_and_text("en", "test");
    }
    if let Ok(outputs) = html(events) {
        let markup = join(&HtmlElement, &outputs);
        page.append(markup.as_str());
        proof {
            reveal_strlit("en");
            reveal_strlit("test");
            reveal_strlit("<!DOCTYPE html>");
            reveal_strlit("<!DOCTYPE html><html lang=\"en\">test</html>");
            lemma_attribute_value_plain("en"@);
            lemma_element_text_plain("test"@);
            reveal_with_fuel(joined, 8);
            assert(page@ =~= "<!DOCTYPE html><html lang=\"en\">test</html>"@);
        }
    }
    page
}

/// The children fragments of an embedded `body` are the fragments of the
/// `body`, unchanged.
proof fn lemma_embedded_children(fragments: Seq<BodySafeOutput>)
    ensures
        children_text(HtmlElement, embedded(fragments)) == texts(BodyElement, fragments),
    decreases fragments.len(),
{
    if fragments.len() > 0 {
        lemma_embedded_children(fragments.drop_last());
        assert(embedded(fragments).drop_last() =~= embedded(fragments.drop_last()));
    }
    assert(children_text(HtmlElement, embedded(fragments)) =~= texts(BodyElement, fragments));
}

/// An `html` element whose children are the output of a `body` element
/// encloses that output as it is: `<html`, `>`, the fragments of the `body`
/// one by one and unchanged, `</html>`.
pub proof fn lemma_embedded_body(fragments: Seq<BodySafeOutput>)
    ensures
        attributes_first(HtmlElement, embedded(fragments)),
        document(HtmlElement, embedded(fragments)) == seq![
            open_text(HtmlElement.tag()),
            tag_end_text(),
        ] + texts(BodyElement, fragments) + seq![close_text(HtmlElement.tag())],
        joined(document(HtmlElement, embedded(fragments))) == open_text(HtmlElement.tag())
            + tag_end_text() + joined(texts(BodyElement, fragments)) + close_text(
            HtmlElement.tag(),
        ),
{
    let events = embedded(fragments);
    let inner = texts(BodyElement, fragments);
    let before = seq![open_text(HtmlElement.tag()), tag_end_text()];
    let after = seq![close_text(HtmlElement.tag())];
    lemma_no_attributes(HtmlElement, events);
    lemma_embedded_children(fragments);
    assert(document(HtmlElement, events) =~= before + inner + after);
    lemma_joined_concat(before + inner, after);
    lemma_joined_concat(before, inner);
    assert(joined(before) =~= open_text(HtmlElement.tag()) + tag_end_text()) by {
        reveal_with_fuel(joined, 3);
    }
    assert(joined(after) =~= close_text(HtmlElement.tag())) by {
        reveal_with_fuel(joined, 2);
    }
}

} // verus!
