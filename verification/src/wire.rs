//! The wire value: what a codec writes and reads, and what a channel carries.

use vstd::prelude::*;

verus! {

/// The mathematical value of a [`WireValue`].
pub enum Wire {
    Text(Seq<char>),
    Number(i64),
    Flag(bool),
    Handle(u64),
    Sequence(Seq<Wire>),
}

/// A value on the wire: an atom, or an ordered list of wire values.
///
/// A `Handle` names a resource that is owned exclusively; the channel moves
/// the resource itself, the wire only carries its name.
#[derive(Debug, PartialEq, Eq)]
pub enum WireValue {
    Text(String),
    Number(i64),
    Flag(bool),
    Handle(u64),
    Sequence(Vec<WireValue>),
}

impl View for WireValue {
    type V = Wire;

    open spec fn view(&self) -> Wire
        decreases self,
    {
        match self {
            WireValue::Text(s) => Wire::Text(s@),
            WireValue::Number(n) => Wire::Number(*n),
            WireValue::Flag(b) => Wire::Flag(*b),
            WireValue::Handle(h) => Wire::Handle(*h),
            WireValue::Sequence(items) => Wire::Sequence(wire_seq(items@)),
        }
    }
}

/// The values of a list of wire values, in order.
pub open spec fn wire_seq(items: Seq<WireValue>) -> Seq<Wire>
    decreases items,
{
    if items.len() == 0 {
        Seq::empty()
    } else {
        wire_seq(items.drop_last()).push(items.last().view())
    }
}

/// `wire_seq` maps the list item by item.
pub proof fn lemma_wire_seq(items: Seq<WireValue>)
    ensures
        wire_seq(items).len() == items.len(),
        forall|i: int| 0 <= i < items.len() ==> #[trigger] wire_seq(items)[i] == items[i]@,
    decreases items.len(),
{
    if items.len() > 0 {
        lemma_wire_seq(items.drop_last());
        assert(wire_seq(items) == wire_seq(items.drop_last()).push(items.last()@));
    }
}

impl Clone for WireValue {
    fn clone(&self) -> (copy: Self)
        ensures
            copy@ == self@,
        decreases self,
    {
        match self {
            WireValue::Text(s) => WireValue::Text(s.clone()),
            WireValue::Number(n) => WireValue::Number(*n),
            WireValue::Flag(b) => WireValue::Flag(*b),
            WireValue::Handle(h) => WireValue::Handle(*h),
            WireValue::Sequence(items) => {
                let mut copies: Vec<WireValue> = Vec::new();
                let mut i: usize = 0;
                while i < items.len()
                    invariant
                        i <= items.len(),
                        self is Sequence,
                        self->Sequence_0 == *items,
                        copies@.len() == i,
                        wire_seq(copies@) == wire_seq(items@.take(i as int)),
                    decreases items.len() - i,
                {
                    assert(decreases_to!(*items => items[i as int]));
                    let item = items[i].clone();
                    proof {
                        assert(items@.take(i + 1).drop_last() == items@.take(i as int));
                        assert(copies@.push(item).drop_last() == copies@);
                    }
                    copies.push(item);
                    i += 1;
                }
                proof {
                    assert(items@.take(i as int) == items@);
                }
                WireValue::Sequence(copies)
            },
        }
    }
}

} // verus!
