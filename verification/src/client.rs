//! What the requesting side asks for.

use crate::codec::{
    lemma_variant_models, tuple_variant, unit_variant, variant_models, Codec, CodecModel, Policy,
    PolicyModel, VariantCodec,
};
use crate::format::{distinct_tags, written, written_fields};
use crate::message::{lemma_value_models, Message, MessageModel, Value, ValueModel};
use crate::port::{Shareable, ShareableError};
use crate::wire::{Wire, WireValue};
use vstd::prelude::*;

verus! {

/// A request. `Attach` and `WireUp` each hand a resource over to the
/// responding side: a drawing surface, and one end of a fresh pair of ports
/// for the events that the responding side will push.
#[derive(Debug, Clone, Copy, PartialEq, Eq, Structural)]
pub enum ClientMessage {
    Ping,
    Query,
    Inc,
    Dec,
    Attach(u64),
    WireUp(u64),
}

impl Shareable for ClientMessage {
    open spec fn shape() -> CodecModel {
        CodecModel {
            name: "ClientMessage"@,
            tagged: true,
            variants: seq![
                unit_variant("Ping"@),
                unit_variant("Query"@),
                unit_variant("Inc"@),
                unit_variant("Dec"@),
                tuple_variant("Attach"@, PolicyModel::Transfer),
                tuple_variant("WireUp"@, PolicyModel::Transfer),
            ],
        }
    }

    open spec fn message_of(&self) -> MessageModel {
        match self {
            ClientMessage::Ping => MessageModel { variant: 0, fields: Seq::empty() },
            ClientMessage::Query => MessageModel { variant: 1, fields: Seq::empty() },
            ClientMessage::Inc => MessageModel { variant: 2, fields: Seq::empty() },
            ClientMessage::Dec => MessageModel { variant: 3, fields: Seq::empty() },
            ClientMessage::Attach(surface) => MessageModel {
                variant: 4,
                fields: seq![ValueModel::Raw(Wire::Handle(*surface))],
            },
            ClientMessage::WireUp(port) => MessageModel {
                variant: 5,
                fields: seq![ValueModel::Raw(Wire::Handle(*port))],
            },
        }
    }

    proof fn shape_is_sound() {
        reveal_strlit("Ping");
        reveal_strlit("Query");
        reveal_strlit("Inc");
        reveal_strlit("Dec");
        reveal_strlit("Attach");
        reveal_strlit("WireUp");
        let variants = Self::shape().variants;
        assert("Inc"@[0] != "Dec"@[0]);
        assert("Attach"@[0] != "WireUp"@[0]);
        assert(distinct_tags(variants)) by {
            assert forall|i: int, j: int| 0 <= i < j < variants.len() implies (
            #[trigger] variants[i]).tag != (#[trigger] variants[j]).tag by {
                if variants[i].tag.len() == variants[j].tag.len() {
                    assert(variants[i].tag[0] != variants[j].tag[0]);
                }
            }
        }
        assert forall|value: Self, verify: bool| #[trigger]
            written(Self::shape(), verify, value.message_of()) is Ok by {
            reveal_with_fuel(written_fields, 2);
        }
        assert forall|a: Self, b: Self| #[trigger]
            a.message_of() == #[trigger] b.message_of() implies a == b by {
            if a.message_of().fields.len() > 0 {
                assert(a.message_of().fields[0] == b.message_of().fields[0]);
            }
        }
    }

    fn codec() -> (codec: Codec) {
        let mut variants: Vec<VariantCodec> = Vec::new();
        variants.push(VariantCodec::unit("Ping"));
        variants.push(VariantCodec::unit("Query"));
        variants.push(VariantCodec::unit("Inc"));
        variants.push(VariantCodec::unit("Dec"));
        variants.push(VariantCodec::tuple("Attach", Policy::Transfer));
        variants.push(VariantCodec::tuple("WireUp", Policy::Transfer));
        proof {
            lemma_variant_models(variants@);
            assert(variant_models(variants@) =~= Self::shape().variants);
        }
        Codec::tagged_union("ClientMessage", variants)
    }

    fn to_message(&self) -> (message: Message) {
        match self {
            ClientMessage::Ping => Message::unit(0),
            ClientMessage::Query => Message::unit(1),
            ClientMessage::Inc => Message::unit(2),
            ClientMessage::Dec => Message::unit(3),
            ClientMessage::Attach(surface) => Message::single(
                4,
                Value::Raw(WireValue::Handle(*surface)),
            ),
            ClientMessage::WireUp(port) => Message::single(5, Value::Raw(WireValue::Handle(*port))),
        }
    }

    fn from_message(message: &Message) -> (result: Result<Self, ShareableError>) {
        proof {
            lemma_value_models(message.fields@);
        }
        let read = if message.fields.len() == 0 {
            assert(message@.fields =~= Seq::<ValueModel>::empty());
            if message.variant == 0 {
                Some(ClientMessage::Ping)
            } else if message.variant == 1 {
                Some(ClientMessage::Query)
            } else if message.variant == 2 {
                Some(ClientMessage::Inc)
            } else if message.variant == 3 {
                Some(ClientMessage::Dec)
            } else {
                None
            }
        } else if message.fields.len() == 1 {
            assert(message@.fields =~= seq![message.fields[0]@]);
            match &message.fields[0] {
                Value::Raw(WireValue::Handle(handle)) => {
                    if message.variant == 4 {
                        Some(ClientMessage::Attach(*handle))
                    } else if message.variant == 5 {
                        Some(ClientMessage::WireUp(*handle))
                    } else {
                        None
                    }
                },
                _ => None,
            }
        } else {
            None
        };
        match read {
            Some(value) => Ok(value),
            None => {
                assert forall|value: Self| #[trigger] value.message_of() != message@ by {
                    if value.message_of().variant == message@.variant
                        && value.message_of().fields.len() == message@.fields.len()
                        && message@.fields.len() == 1 {
                        assert(value.message_of().fields[0] != message.fields[0]@);
                    }
                }
                Err(ShareableError::BadPayload)
            },
        }
    }
}

} // verus!
