//! The steps of an element serializer: what each input means in each
//! phase, and what a run of steps adds up to.

use crate::document::attributes_first;
use crate::document::attributes_text;
use crate::document::children_text;
use crate::document::document;
use crate::document::event_text;
use crate::document::first_misplaced;
use crate::document::has_child;
use crate::document::is_child;
use crate::document::lemma_no_children;
use crate::document::misplaced;
use crate::element::Element;
use crate::element::Node;
use crate::element::Phase;
use crate::fragment::close_text;
use crate::fragment::open_text;
use crate::fragment::tag_end_text;
use vstd::prelude::*;

verus! {

/// The phase in which an input is looked at: a serializer that has not
/// opened its tag yet opens it first.
pub open spec fn opened(phase: Phase) -> Phase {
    if phase is Opening {
        Phase::InAttributes
    } else {
        phase
    }
}

/// The fragment that is due before any input is looked at.
pub open spec fn opening_text(phase: Phase, tag: Seq<char>) -> Seq<Seq<char>> {
    if phase is Opening {
        seq![open_text(tag)]
    } else {
        Seq::empty()
    }
}

/// The attribute that makes a step fail: one that arrives while the element
/// is in its children.
pub open spec fn rejected<E: Element>(element: E, phase: Phase, input: Option<E::Event>) -> Option<
    E::Attribute,
> {
    match input {
        Some(event) => match element.node_of(event) {
            Node::Attribute(attribute) => if phase is InChildren {
                Some(attribute)
            } else {
                None
            },
            Node::Child(_) => None,
        },
        None => None,
    }
}

/// The phase after a step on `input`, where `None` is the end of the input.
pub open spec fn next_phase<E: Element>(element: E, phase: Phase, input: Option<E::Event>) -> Phase {
    match opened(phase) {
        Phase::Closed => Phase::Closed,
        before => match input {
            None => Phase::Closed,
            Some(event) => if is_child(element, event) {
                Phase::InChildren
            } else if before is InChildren {
                Phase::Closed
            } else {
                Phase::InAttributes
            },
        },
    }
}

/// The fragments that a step on `input` emits, where `None` is the end of the
/// input. A step that fails emits nothing.
pub open spec fn step_text<E: Element>(element: E, phase: Phase, input: Option<E::Event>) -> Seq<
    Seq<char>,
> {
    let due = opening_text(phase, element.tag());
    match opened(phase) {
        Phase::InAttributes => match input {
            None => due + seq![tag_end_text(), close_text(element.tag())],
            Some(event) => if is_child(element, event) {
                due + seq![tag_end_text()] + event_text(element, event)
            } else {
                due + event_text(element, event)
            },
        },
        Phase::InChildren => match input {
            None => seq![close_text(element.tag())],
            Some(event) => if is_child(element, event) {
                event_text(element, event)
            } else {
                Seq::empty()
            },
        },
        _ => Seq::empty(),
    }
}

/// The phase of a serializer that started with nothing emitted and has
/// taken `events` one by one.
pub open spec fn phase_after<E: Element>(element: E, events: Seq<E::Event>) -> Phase
    decreases events.len(),
{
    if events.len() == 0 {
        Phase::Opening
    } else {
        next_phase(element, phase_after(element, events.drop_last()), Some(events.last()))
    }
}

/// The fragments that a serializer has emitted when it started with nothing
/// emitted and has taken `events` one by one.
pub open spec fn emitted<E: Element>(element: E, events: Seq<E::Event>) -> Seq<Seq<char>>
    decreases events.len(),
{
    if events.len() == 0 {
        Seq::empty()
    } else {
        emitted(element, events.drop_last()) + step_text(
            element,
            phase_after(element, events.drop_last()),
            Some(events.last()),
        )
    }
}

/// Whether an attribute is out of place is decided by the events up to it:
/// in the first `count` events it is so exactly if it is so in all of them.
pub proof fn lemma_misplaced_in_prefix<E: Element>(
    element: E,
    events: Seq<E::Event>,
    count: int,
    at: int,
)
    requires
        0 <= at < count <= events.len(),
    ensures
        misplaced(element, events.take(count), at) == misplaced(element, events, at),
{
    let taken = events.take(count);
    if misplaced(element, taken, at) {
        let before = choose|before: int|
            0 <= before < at && is_child(element, #[trigger] taken[before]);
        assert(is_child(element, events[before]));
    }
    if misplaced(element, events, at) {
        let before = choose|before: int|
            0 <= before < at && is_child(element, #[trigger] events[before]);
        assert(is_child(element, taken[before]));
    }
}

/// Where a serializer stands after events whose attributes all come first:
/// still in the attributes as long as no child has arrived, in the children
/// from the first child on, and with the part of the document emitted that
/// these events account for.
pub proof fn lemma_steps_so_far<E: Element>(element: E, events: Seq<E::Event>)
    requires
        attributes_first(element, events),
    ensures
        phase_after(element, events) == if events.len() == 0 {
            Phase::Opening
        } else if has_child(element, events) {
            Phase::InChildren
        } else {
            Phase::InAttributes
        },
        emitted(element, events) == if events.len() == 0 {
            Seq::<Seq<char>>::empty()
        } else if has_child(element, events) {
            seq![open_text(element.tag())] + attributes_text(element, events) + seq![
                tag_end_text(),
            ] + children_text(element, events)
        } else {
            seq![open_text(element.tag())] + attributes_text(element, events)
        },
    decreases events.len(),
{
    if events.len() > 0 {
        let earlier = events.drop_last();
        let last = events.last();
        assert(earlier == events.take(events.len() - 1));
        assert forall|at: int| !misplaced(element, earlier, at) by {
            if 0 <= at < earlier.len() {
                lemma_misplaced_in_prefix(element, events, events.len() - 1, at);
            }
        }
        lemma_steps_so_far(element, earlier);
        if has_child(element, earlier) {
            let before = choose|i: int|
                0 <= i < earlier.len() && is_child(element, #[trigger] earlier[i]);
            assert(is_child(element, events[before]));
            assert(is_child(element, last)) by {
                if !is_child(element, last) {
                    assert(misplaced(element, events, events.len() - 1));
                }
            }
        } else {
            assert forall|i: int| 0 <= i < earlier.len() implies !is_child(element, earlier[i]) by {}
            lemma_no_children(element, earlier);
            if is_child(element, last) {
                assert(is_child(element, events[events.len() - 1]));
            } else {
                assert(!has_child(element, events)) by {
                    if has_child(element, events) {
                        let i = choose|i: int|
                            0 <= i < events.len() && is_child(element, #[trigger] events[i]);
                        assert(is_child(element, earlier[i]));
                    }
                }
            }
        }
        let open = seq![open_text(element.tag())];
        let end = seq![tag_end_text()];
        let own = event_text(element, last);
        let attributes = attributes_text(element, earlier);
        let children = children_text(element, earlier);
        if is_child(element, last) {
            assert(emitted(element, events) =~= open + attributes + end + (children + own));
        } else {
            assert(emitted(element, events) =~= open + (attributes + own));
        }
    }
}

/// A step on the event that follows events whose attributes all come first
/// refuses that event exactly if it is an attribute out of place.
pub proof fn lemma_step_rejects_misplaced<E: Element>(element: E, events: Seq<E::Event>, at: int)
    requires
        0 <= at < events.len(),
        attributes_first(element, events.take(at)),
    ensures
        rejected(element, phase_after(element, events.take(at)), Some(events[at])) is Some
            <==> misplaced(element, events, at),
        forall|earlier: int| 0 <= earlier < at ==> !misplaced(element, events, earlier),
{
    let taken = events.take(at);
    lemma_steps_so_far(element, taken);
    if has_child(element, taken) {
        let before = choose|i: int| 0 <= i < taken.len() && is_child(element, #[trigger] taken[i]);
        assert(is_child(element, events[before]));
    }
    if misplaced(element, events, at) {
        let before = choose|before: int|
            0 <= before < at && is_child(element, #[trigger] events[before]);
        assert(is_child(element, taken[before]));
    }
    assert forall|earlier: int| 0 <= earlier < at implies !misplaced(element, events, earlier) by {
        lemma_misplaced_in_prefix(element, events, at, earlier);
    }
}

/// Stepping through events whose attributes all come first, and then
/// through the end of the input, refuses nothing, emits exactly the
/// document, and leaves the serializer closed.
pub proof fn lemma_steps_make_document<E: Element>(element: E, events: Seq<E::Event>)
    requires
        attributes_first(element, events),
    ensures
        forall|at: int|
            0 <= at < events.len() ==> rejected(
                element,
                phase_after(element, #[trigger] events.take(at)),
                Some(events[at]),
            ) is None,
        emitted(element, events) + step_text(element, phase_after(element, events), None)
            == document(element, events),
        next_phase(element, phase_after(element, events), None) == Phase::Closed,
{
    lemma_steps_so_far(element, events);
    if !has_child(element, events) {
        assert forall|i: int| 0 <= i < events.len() implies !is_child(element, events[i]) by {}
        lemma_no_children(element, events);
    }
    assert(emitted(element, events) + step_text(element, phase_after(element, events), None)
        =~= document(element, events));
    assert forall|at: int| 0 <= at < events.len() implies rejected(
        element,
        phase_after(element, #[trigger] events.take(at)),
        Some(events[at]),
    ) is None by {
        assert forall|earlier: int| !misplaced(element, events.take(at), earlier) by {
            if 0 <= earlier < at {
                lemma_misplaced_in_prefix(element, events, at, earlier);
            }
        }
        lemma_step_rejects_misplaced(element, events, at);
    }
}

/// The first attribute that comes after a child is the one that the
/// serializer refuses, and it refuses it at that step.
pub proof fn lemma_first_misplaced_is_rejected<E: Element>(
    element: E,
    events: Seq<E::Event>,
    at: int,
)
    requires
        first_misplaced(element, events, at),
    ensures
        element.node_of(events[at]) is Attribute,
        rejected(element, phase_after(element, events.take(at)), Some(events[at])) == Some(
            element.node_of(events[at])->Attribute_0,
        ),
{
    assert forall|earlier: int| !misplaced(element, events.take(at), earlier) by {
        if 0 <= earlier < at {
            lemma_misplaced_in_prefix(element, events, at, earlier);
        }
    }
    lemma_step_rejects_misplaced(element, events, at);
}

} // verus!
