//! What the responding side says: replies to requests, and the events that
//! it pushes.

use crate::codec::{
    lemma_two_variants, lemma_variant_models, tuple_variant, unit_variant, variant_models, Codec,
    CodecModel, Policy, PolicyModel, VariantCodec,
};
use crate::format::{written, written_fields};
use crate::message::{lemma_value_models, Message, MessageModel, Value, ValueModel};
use crate::port::{Shareable, ShareableError};
use crate::wire::{Wire, WireValue};
use vstd::prelude::*;

verus! {

/// What a request was answered with where it succeeded.
#[derive(Debug, Clone, Copy, PartialEq, Eq, Structural)]
pub enum ServerMessage {
    /// Written as `Ok`.
    Okay,
}

/// Why a request failed.
#[derive(Debug, Clone, Copy, PartialEq, Eq, Structural)]
pub enum ServerError {
    Unknown,
}

/// The reply to one request.
#[derive(Debug, Clone, Copy, PartialEq, Eq, Structural)]
pub enum ServerResponse {
    /// Written as `Ok`.
    Okay(ServerMessage),
    /// Written as `Err`.
    Failed(ServerError),
}

/// What the responding side pushes unasked.
#[derive(Debug, Clone, Copy, PartialEq, Eq, Structural)]
pub enum ServerEvent {
    /// The counter's new value.
    Count(u8),
}

impl Shareable for ServerMessage {
    open spec fn shape() -> CodecModel {
        CodecModel { name: "ServerMessage"@, tagged: true, variants: seq![unit_variant("Ok"@)] }
    }

    open spec fn message_of(&self) -> MessageModel {
        MessageModel { variant: 0, fields: Seq::empty() }
    }

    proof fn shape_is_sound() {
        assert forall|value: Self, verify: bool| #[trigger]
            written(Self::shape(), verify, value.message_of()) is Ok by {
            reveal_with_fuel(written_fields, 2);
        }
    }

    fn codec() -> (codec: Codec) {
        let mut variants: Vec<VariantCodec> = Vec::new();
        variants.push(VariantCodec::unit("Ok"));
        proof {
            lemma_variant_models(variants@);
            assert(variant_models(variants@) =~= seq![unit_variant("Ok"@)]);
        }
        Codec::tagged_union("ServerMessage", variants)
    }

    fn to_message(&self) -> (message: Message) {
        Message { variant: 0, fields: Vec::new() }
    }

    fn from_message(message: &Message) -> (result: Result<Self, ShareableError>) {
        proof {
            lemma_value_models(message.fields@);
        }
        if message.variant == 0 && message.fields.len() == 0 {
            assert(message@.fields =~= Seq::<ValueModel>::empty());
            Ok(ServerMessage::Okay)
        } else {
            Err(ShareableError::BadPayload)
        }
    }
}

impl Shareable for ServerError {
    open spec fn shape() -> CodecModel {
        CodecModel { name: "ServerError"@, tagged: true, variants: seq![unit_variant("Unknown"@)] }
    }

    open spec fn message_of(&self) -> MessageModel {
        MessageModel { variant: 0, fields: Seq::empty() }
    }

    proof fn shape_is_sound() {
        assert forall|value: Self, verify: bool| #[trigger]
            written(Self::shape(), verify, value.message_of()) is Ok by {
            reveal_with_fuel(written_fields, 2);
        }
    }

    fn codec() -> (codec: Codec) {
        let mut variants: Vec<VariantCodec> = Vec::new();
        variants.push(VariantCodec::unit("Unknown"));
        proof {
            lemma_variant_models(variants@);
            assert(variant_models(variants@) =~= seq![unit_variant("Unknown"@)]);
        }
        Codec::tagged_union("ServerError", variants)
    }

    fn to_message(&self) -> (message: Message) {
        Message { variant: 0, fields: Vec::new() }
    }

    fn from_message(message: &Message) -> (result: Result<Self, ShareableError>) {
        proof {
            lemma_value_models(message.fields@);
        }
        if message.variant == 0 && message.fields.len() == 0 {
            assert(message@.fields =~= Seq::<ValueModel>::empty());
            Ok(ServerError::Unknown)
        } else {
            Err(ShareableError::BadPayload)
        }
    }
}

impl Shareable for ServerResponse {
    open spec fn shape() -> CodecModel {
        CodecModel {
            name: "ServerResponse"@,
            tagged: true,
            variants: seq![
                tuple_variant("Ok"@, PolicyModel::Nested(ServerMessage::shape())),
                tuple_variant("Err"@, PolicyModel::Nested(ServerError::shape())),
            ],
        }
    }

    open spec fn message_of(&self) -> MessageModel {
        match self {
            ServerResponse::Okay(message) => MessageModel {
                variant: 0,
                fields: seq![ValueModel::Nested(message.message_of())],
            },
            ServerResponse::Failed(error) => MessageModel {
                variant: 1,
                fields: seq![ValueModel::Nested(error.message_of())],
            },
        }
    }

    proof fn shape_is_sound() {
        reveal_strlit("Ok");
        reveal_strlit("Err");
        ServerMessage::shape_is_sound();
        ServerError::shape_is_sound();
        assert("Ok"@.len() != "Err"@.len());
        assert forall|value: Self, verify: bool| #[trigger]
            written(Self::shape(), verify, value.message_of()) is Ok by {
            reveal_with_fuel(written_fields, 2);
            match value {
                ServerResponse::Okay(message) => {
                    assert(written(ServerMessage::shape(), verify, message.message_of()) is Ok);
                },
                ServerResponse::Failed(error) => {
                    assert(written(ServerError::shape(), verify, error.message_of()) is Ok);
                },
            }
        }
        assert forall|a: Self, b: Self| #[trigger]
            a.message_of() == #[trigger] b.message_of() implies a == b by {
            assert(a.message_of().fields[0] == b.message_of().fields[0]);
        }
    }

    fn codec() -> (codec: Codec) {
        let mut variants: Vec<VariantCodec> = Vec::new();
        variants.push(VariantCodec::tuple("Ok", Policy::Nested(ServerMessage::codec())));
        variants.push(VariantCodec::tuple("Err", Policy::Nested(ServerError::codec())));
        proof {
            lemma_two_variants(variants@);
        }
        Codec::tagged_union("ServerResponse", variants)
    }

    fn to_message(&self) -> (message: Message) {
        match self {
            ServerResponse::Okay(inner) => Message::single(0, Value::Nested(inner.to_message())),
            ServerResponse::Failed(inner) => Message::single(1, Value::Nested(inner.to_message())),
        }
    }

    fn from_message(message: &Message) -> (result: Result<Self, ShareableError>) {
        proof {
            lemma_value_models(message.fields@);
        }
        if message.fields.len() != 1 {
            return Err(ShareableError::BadPayload);
        }
        let ghost first = message.fields[0]@;
        assert(message@.fields =~= seq![first]);
        let read = match &message.fields[0] {
            Value::Nested(inner) => {
                if message.variant == 0 {
                    match ServerMessage::from_message(inner) {
                        Ok(value) => Some(ServerResponse::Okay(value)),
                        Err(_) => None,
                    }
                } else if message.variant == 1 {
                    match ServerError::from_message(inner) {
                        Ok(value) => Some(ServerResponse::Failed(value)),
                        Err(_) => None,
                    }
                } else {
                    None
                }
            },
            _ => None,
        };
        match read {
            Some(value) => Ok(value),
            None => {
                assert forall|value: Self| #[trigger] value.message_of() != message@ by {
                    if value.message_of().variant == message@.variant {
                        assert(value.message_of().fields[0] != first);
                    }
                }
                Err(ShareableError::BadPayload)
            },
        }
    }
}

impl Shareable for ServerEvent {
    open spec fn shape() -> CodecModel {
        CodecModel {
            name: "ServerEvent"@,
            tagged: true,
            variants: seq![tuple_variant("Count"@, PolicyModel::Structured)],
        }
    }

    open spec fn message_of(&self) -> MessageModel {
        match self {
            ServerEvent::Count(value) => MessageModel {
                variant: 0,
                fields: seq![ValueModel::Structured(Some(Wire::Number(*value as i64)))],
            },
        }
    }

    proof fn shape_is_sound() {
        assert forall|value: Self, verify: bool| #[trigger]
            written(Self::shape(), verify, value.message_of()) is Ok by {
            reveal_with_fuel(written_fields, 2);
        }
        assert forall|a: Self, b: Self| #[trigger]
            a.message_of() == #[trigger] b.message_of() implies a == b by {
            assert(a.message_of().fields[0] == b.message_of().fields[0]);
        }
    }

    fn codec() -> (codec: Codec) {
        let mut variants: Vec<VariantCodec> = Vec::new();
        variants.push(VariantCodec::tuple("Count", Policy::Structured));
        proof {
            lemma_variant_models(variants@);
            assert(variant_models(variants@) =~= seq![
                tuple_variant("Count"@, PolicyModel::Structured),
            ]);
        }
        Codec::tagged_union("ServerEvent", variants)
    }

    fn to_message(&self) -> (message: Message) {
        match self {
            ServerEvent::Count(value) => Message::single(
                0,
                Value::Structured(Some(WireValue::Number(*value as i64))),
            ),
        }
    }

    fn from_message(message: &Message) -> (result: Result<Self, ShareableError>) {
        proof {
            lemma_value_models(message.fields@);
        }
        if message.variant != 0 || message.fields.len() != 1 {
            return Err(ShareableError::BadPayload);
        }
        let ghost first = message.fields[0]@;
        assert(message@.fields =~= seq![first]);
        let number = match &message.fields[0] {
            Value::Structured(Some(WireValue::Number(number))) => {
                if 0 <= *number && *number <= 255 {
                    Some(*number as u8)
                } else {
                    None
                }
            },
            _ => None,
        };
        match number {
            Some(value) => Ok(ServerEvent::Count(value)),
            None => {
                assert forall|value: Self| #[trigger] value.message_of() != message@ by {
                    assert(value.message_of().fields[0] != first);
                }
                Err(ShareableError::BadPayload)
            },
        }
    }
}

} // verus!
