//! Messages as values: what a codec writes and what it reads back.

use crate::wire::{Wire, WireValue};
use vstd::prelude::*;

verus! {

/// The mathematical value of a [`Value`].
pub enum ValueModel {
    Raw(Wire),
    Structured(Option<Wire>),
    Nested(MessageModel),
}

/// The mathematical value of a [`Message`].
pub struct MessageModel {
    pub variant: int,
    pub fields: Seq<ValueModel>,
}

/// The value of one field of a message.
#[derive(Debug, PartialEq, Eq)]
pub enum Value {
    /// An atom that travels as it is.
    Raw(WireValue),
    /// What the structured serializer made of the field, or `None` where it
    /// failed.
    Structured(Option<WireValue>),
    /// A message of a type with a codec of its own.
    Nested(Message),
}

/// A message: the variant it is (0 for a record) and its fields in
/// declaration order.
#[derive(Debug, PartialEq, Eq)]
pub struct Message {
    pub variant: usize,
    pub fields: Vec<Value>,
}

/// The mathematical value of a field value.
pub open spec fn value_model(value: Value) -> ValueModel
    decreases value,
{
    match value {
        Value::Raw(wire) => ValueModel::Raw(wire@),
        Value::Structured(Some(wire)) => ValueModel::Structured(Some(wire@)),
        Value::Structured(None) => ValueModel::Structured(None),
        Value::Nested(message) => ValueModel::Nested(message_model(message)),
    }
}

/// The mathematical value of a message.
pub open spec fn message_model(message: Message) -> MessageModel
    decreases message,
{
    MessageModel { variant: message.variant as int, fields: value_models(message.fields@) }
}

/// The mathematical values of a list of field values, in order.
pub open spec fn value_models(values: Seq<Value>) -> Seq<ValueModel>
    decreases values,
{
    if values.len() == 0 {
        Seq::empty()
    } else {
        value_models(values.drop_last()).push(value_model(values.last()))
    }
}

impl View for Value {
    type V = ValueModel;

    open spec fn view(&self) -> ValueModel {
        value_model(*self)
    }
}

impl View for Message {
    type V = MessageModel;

    open spec fn view(&self) -> MessageModel {
        message_model(*self)
    }
}

/// `value_models` maps the list item by item.
pub proof fn lemma_value_models(values: Seq<Value>)
    ensures
        value_models(values).len() == values.len(),
        forall|i: int| 0 <= i < values.len() ==> #[trigger] value_models(values)[i] == values[i]@,
    decreases values.len(),
{
    if values.len() > 0 {
        lemma_value_models(values.drop_last());
    }
}

impl Message {
    /// A message without fields.
    pub fn unit(variant: usize) -> (message: Message)
        ensures
            message@ == (MessageModel { variant: variant as int, fields: Seq::empty() }),
    {
        Message { variant, fields: Vec::new() }
    }

    /// A message with one field.
    pub fn single(variant: usize, value: Value) -> (message: Message)
        ensures
            message@ == (MessageModel { variant: variant as int, fields: seq![value@] }),
    {
        let mut fields: Vec<Value> = Vec::new();
        proof {
            lemma_value_models(fields@.push(value));
            assert(value_models(fields@.push(value)) =~= seq![value@]);
        }
        fields.push(value);
        Message { variant, fields }
    }
}

} // verus!
