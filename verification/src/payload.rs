//! The envelope of the request and response protocol: a message with the
//! identifier that pairs a reply with its request.

use crate::codec::{
    field_models, lemma_field_models, lemma_variant_models, positional, variant_models, Codec,
    CodecModel, FieldCodec, Policy, PolicyModel, VariantCodec, VariantModel,
};
use crate::format::written;
use crate::message::{lemma_value_models, value_models, Message, MessageModel, Value, ValueModel};
use crate::port::{Shareable, ShareableError};
use crate::theorems::lemma_written_fields_succeed;
use crate::wire::{Wire, WireValue};
use vstd::prelude::*;

verus! {

/// A message in its envelope. On the wire an envelope is a sequence of two:
/// the identifier, then the message.
#[derive(Debug, PartialEq, Eq)]
pub struct Payload<T> {
    pub id: u8,
    pub message: T,
}

impl<T: Shareable> Shareable for Payload<T> {
    open spec fn shape() -> CodecModel {
        CodecModel {
            name: "Payload"@,
            tagged: false,
            variants: seq![
                VariantModel {
                    tag: Seq::empty(),
                    named: false,
                    fields: seq![
                        positional(PolicyModel::Structured),
                        positional(PolicyModel::Nested(T::shape())),
                    ],
                },
            ],
        }
    }

    open spec fn message_of(&self) -> MessageModel {
        MessageModel {
            variant: 0,
            fields: seq![
                ValueModel::Structured(Some(Wire::Number(self.id as i64))),
                ValueModel::Nested(self.message.message_of()),
            ],
        }
    }

    proof fn shape_is_sound() {
        T::shape_is_sound();
        assert forall|value: Self, verify: bool| #[trigger]
            written(Self::shape(), verify, value.message_of()) is Ok by {
            assert(written(T::shape(), verify, value.message.message_of()) is Ok);
            lemma_written_fields_succeed(
                Self::shape().variants[0].fields,
                false,
                verify,
                value.message_of().fields,
            );
        }
        assert forall|a: Self, b: Self| #[trigger]
            a.message_of() == #[trigger] b.message_of() implies a == b by {
            assert(a.message_of().fields[0] == b.message_of().fields[0]);
            assert(a.message_of().fields[1] == b.message_of().fields[1]);
        }
    }

    fn codec() -> (codec: Codec) {
        let mut fields: Vec<FieldCodec> = Vec::new();
        fields.push(FieldCodec { name: String::new(), policy: Policy::Structured });
        fields.push(FieldCodec { name: String::new(), policy: Policy::Nested(T::codec()) });
        proof {
            lemma_field_models(fields@);
            assert(field_models(fields@) =~= seq![
                positional(PolicyModel::Structured),
                positional(PolicyModel::Nested(T::shape())),
            ]);
        }
        let mut variants: Vec<VariantCodec> = Vec::new();
        let body = VariantCodec { tag: String::new(), named: false, fields };
        variants.push(body);
        proof {
            lemma_variant_models(variants@);
            assert(variant_models(variants@) =~= Self::shape().variants);
        }
        Codec { name: "Payload".to_owned(), tagged: false, variants }
    }

    fn to_message(&self) -> (message: Message) {
        let mut fields: Vec<Value> = Vec::new();
        fields.push(Value::Structured(Some(WireValue::Number(self.id as i64))));
        fields.push(Value::Nested(self.message.to_message()));
        proof {
            lemma_value_models(fields@);
            assert(value_models(fields@) =~= self.message_of().fields);
        }
        Message { variant: 0, fields }
    }

    fn from_message(message: &Message) -> (result: Result<Self, ShareableError>) {
        proof {
            lemma_value_models(message.fields@);
        }
        if message.variant != 0 || message.fields.len() != 2 {
            return Err(ShareableError::BadPayload);
        }
        let ghost first = message.fields[0]@;
        let ghost second = message.fields[1]@;
        assert(message@.fields =~= seq![first, second]);
        let id = match &message.fields[0] {
            Value::Structured(Some(WireValue::Number(number))) => {
                if 0 <= *number && *number <= 255 {
                    Some(*number as u8)
                } else {
                    None
                }
            },
            _ => None,
        };
        let inner = match &message.fields[1] {
            Value::Nested(inner) => match T::from_message(inner) {
                Ok(value) => Some(value),
                Err(_) => None,
            },
            _ => None,
        };
        match (id, inner) {
            (Some(id), Some(inner)) => Ok(Payload { id, message: inner }),
            _ => {
                assert forall|value: Self| #[trigger] value.message_of() != message@ by {
                    assert(value.message_of().fields[0] != first || value.message_of().fields[1]
                        != second);
                }
                Err(ShareableError::BadPayload)
            },
        }
    }
}

} // verus!
