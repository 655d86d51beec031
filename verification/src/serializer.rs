//! The element serializer: a state machine that is fed the events of one
//! element and hands back the escaped fragments.

use crate::document::attribute_text;
use crate::document::attributes_first;
use crate::document::document;
use crate::document::first_misplaced;
use crate::document::joined;
use crate::document::misplaced;
use crate::document::texts;
use crate::element::Element;
use crate::element::Node;
use crate::element::Phase;
use crate::element::UnexpectedAttribute;
use crate::fragment::Fragment;
use crate::step::emitted;
use crate::step::lemma_misplaced_in_prefix;
use crate::step::lemma_step_rejects_misplaced;
use crate::step::lemma_steps_make_document;
use crate::step::next_phase;
use crate::step::opened;
use crate::step::opening_text;
use crate::step::phase_after;
use crate::step::rejected;
use crate::step::step_text;
use vstd::prelude::*;
use vstd::string::StringExecFns;

verus! {

/// The serializer of one element: it is fed the element's events one by one
/// and hands back, for each, the fragments that are due.
pub struct Serializer<E: Element> {
    element: E,
    phase: Phase,
}

impl<E: Element> Serializer<E> {
    /// The element that is being serialized.
    pub closed spec fn element(&self) -> E {
        self.element
    }

    /// The phase that the serializer is in.
    pub closed spec fn phase(&self) -> Phase {
        self.phase
    }

    /// A serializer for `element` that has emitted nothing yet.
    pub fn new(element: E) -> (serializer: Self)
        ensures
            serializer.element() == element,
            serializer.phase() == Phase::Opening,
    {
        Serializer { element, phase: Phase::Opening }
    }

    /// The phase that the serializer is in.
    pub fn current_phase(&self) -> (phase: Phase)
        ensures
            phase == self.phase(),
    {
        self.phase
    }

    /// Emits the opening of the tag if it is still due, without looking at
    /// any input.
    pub fn open(&mut self) -> (outputs: Vec<E::Output>)
        ensures
            final(self).element() == old(self).element(),
            final(self).phase() == opened(old(self).phase()),
            texts(old(self).element(), outputs@) == opening_text(
                old(self).phase(),
                old(self).element().tag(),
            ),
    {
        let mut outputs: Vec<E::Output> = Vec::new();
        if let Phase::Opening = self.phase {
            let fragment = Fragment::open(self.element.tag_name());
            outputs.push(self.element.output(fragment));
            self.phase = Phase::InAttributes;
        }
        assert(texts(self.element, outputs@) =~= opening_text(
            old(self).phase(),
            self.element.tag(),
        ));
        outputs
    }
}

impl<E: Element> Serializer<E> {
    /// The three fragments of the attribute `name` with the raw value
    /// `value`, appended to `outputs`.
    fn push_attribute(&self, outputs: &mut Vec<E::Output>, name: &str, value: &'static str)
        ensures
            texts(self.element(), final(outputs)@) == texts(self.element(), old(outputs)@)
                + attribute_text(name@, value@),
    {
        outputs.push(self.element.output(Fragment::attribute_open(name)));
        outputs.push(self.element.output(Fragment::attribute_value(value)));
        outputs.push(self.element.output(Fragment::quote()));
        assert(texts(self.element, outputs@) =~= texts(self.element, old(outputs)@)
            + attribute_text(name@, value@));
    }

    /// One fragment appended to `outputs`.
    fn push_fragment(&self, outputs: &mut Vec<E::Output>, fragment: Fragment)
        ensures
            texts(self.element(), final(outputs)@) == texts(self.element(), old(outputs)@)
                + seq![fragment@],
    {
        outputs.push(self.element.output(fragment));
        assert(texts(self.element, outputs@) =~= texts(self.element, old(outputs)@)
            + seq![fragment@]);
    }
}

impl<E: Element> Serializer<E> {
    /// Takes the next event of the element, or with `None` the end of its
    /// input, and hands back the fragments that are due. An attribute that
    /// arrives after a child is refused: the step fails with that attribute,
    /// emits nothing and closes the serializer. A closed serializer takes no
    /// more input and emits nothing.
    pub fn step(&mut self, input: Option<E::Event>) -> (result: Result<
        Vec<E::Output>,
        UnexpectedAttribute<E::Attribute>,
    >)
        ensures
            final(self).element() == old(self).element(),
            final(self).phase() == next_phase(old(self).element(), old(self).phase(), input),
            match result {
                Ok(outputs) => {
                    &&& rejected(old(self).element(), old(self).phase(), input) is None
                    &&& texts(old(self).element(), outputs@) == step_text(
                        old(self).element(),
                        old(self).phase(),
                        input,
                    )
                },
                Err(error) => {
                    &&& rejected(old(self).element(), old(self).phase(), input) == Some(
                        error.attribute,
                    )
                    &&& error.element@ == old(self).element().tag()
                },
            },
    {
        let mut outputs = self.open();
        let ghost due = texts(self.element, outputs@);
        if let Phase::Closed = self.phase {
            assert(due =~= Seq::empty());
            return Ok(outputs);
        }
        match input {
            None => {
                if let Phase::InAttributes = self.phase {
                    self.push_fragment(&mut outputs, Fragment::tag_end());
                }
                self.push_fragment(&mut outputs, Fragment::close(self.element.tag_name()));
                assert(texts(self.element, outputs@) =~= step_text(
                    self.element,
                    old(self).phase(),
                    input,
                ));
                self.phase = Phase::Closed;
                Ok(outputs)
            },
            Some(event) => {
                match self.element.node(event) {
                    Node::Attribute(attribute) => {
                        if let Phase::InChildren = self.phase {
                            self.phase = Phase::Closed;
                            return Err(
                                UnexpectedAttribute { element: self.element.tag_name(), attribute },
                            );
                        }
                        match self.element.attribute(&attribute) {
                            Some((name, value)) => {
                                self.push_attribute(&mut outputs, name, value);
                            },
                            None => {},
                        }
                        assert(texts(self.element, outputs@) =~= step_text(
                            self.element,
                            old(self).phase(),
                            input,
                        ));
                        Ok(outputs)
                    },
                    Node::Child(child) => {
                        if let Phase::InAttributes = self.phase {
                            self.push_fragment(&mut outputs, Fragment::tag_end());
                        }
                        let content = self.element.content(child);
                        self.push_fragment(&mut outputs, Fragment::content(content));
                        assert(texts(self.element, outputs@) =~= step_text(
                            self.element,
                            old(self).phase(),
                            input,
                        ));
                        self.phase = Phase::InChildren;
                        Ok(outputs)
                    },
                }
            },
        }
    }
}

/// Serializes a whole element from all of its events. The result is the
/// element's document if every attribute comes before every child; if not,
/// it is the error for the first attribute that comes after a child, and no
/// output at all.
pub fn serialize<E: Element>(element: E, events: Vec<E::Event>) -> (result: Result<
    Vec<E::Output>,
    UnexpectedAttribute<E::Attribute>,
>)
    ensures
        match result {
            Ok(outputs) => {
                &&& attributes_first(element, events@)
                &&& texts(element, outputs@) == document(element, events@)
            },
            Err(error) => {
                &&& error.element@ == element.tag()
                &&& exists|at: int|
                    first_misplaced(element, events@, at) && element.node_of(
                        #[trigger] events@[at],
                    ) == Node::<E::Attribute, E::Child>::Attribute(error.attribute)
            },
        },
{
    let ghost all = events@;
    let mut serializer = Serializer::new(element);
    let mut outputs: Vec<E::Output> = Vec::new();
    assert(texts(element, outputs@) =~= emitted(element, all.take(0)));
    for event in it: events
        invariant
            it.seq() == all,
            serializer.element() == element,
            serializer.phase() == phase_after(element, all.take(it.index())),
            texts(element, outputs@) == emitted(element, all.take(it.index())),
            attributes_first(element, all.take(it.index())),
    {
        let ghost at = it.index();
        let ghost before = texts(element, outputs@);
        let ghost now = all.take(at + 1);
        proof {
            lemma_step_rejects_misplaced(element, all, at);
            assert(now.drop_last() =~= all.take(at));
        }
        match serializer.step(Some(event)) {
            Ok(mut more) => {
                let ghost added = texts(element, more@);
                outputs.append(&mut more);
                assert(texts(element, outputs@) =~= before + added);
                assert forall|earlier: int| !misplaced(element, now, earlier) by {
                    if 0 <= earlier <= at {
                        lemma_misplaced_in_prefix(element, all, at + 1, earlier);
                    }
                }
            },
            Err(error) => {
                assert(first_misplaced(element, all, at));
                return Err(error);
            },
        }
    }
    let ghost before = texts(element, outputs@);
    proof {
        assert(all.take(all.len() as int) =~= all);
        lemma_steps_make_document(element, all);
    }
    match serializer.step(None) {
        Ok(mut more) => {
            let ghost added = texts(element, more@);
            outputs.append(&mut more);
            assert(texts(element, outputs@) =~= before + added);
            Ok(outputs)
        },
        Err(error) => Err(error),
    }
}

/// Writes output fragments one after the other into one text, which is how
/// a consumer reads them.
pub fn join<E: Element>(element: &E, outputs: &Vec<E::Output>) -> (text: String)
    ensures
        text@ == joined(texts(*element, outputs@)),
{
    let mut text = String::new();
    let mut done: usize = 0;
    while done < outputs.len()
        invariant
            done <= outputs.len(),
            text@ == joined(texts(*element, outputs@.take(done as int))),
        decreases outputs.len() - done,
    {
        let ghost before = texts(*element, outputs@.take(done as int));
        let ghost now = texts(*element, outputs@.take(done + 1));
        assert(now.drop_last() =~= before);
        text.append(element.text(&outputs[done]));
        done = done + 1;
    }
    assert(outputs@.take(done as int) =~= outputs@);
    text
}

} // verus!
