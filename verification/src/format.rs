//! The wire format, stated as mathematics: what a codec writes for a
//! message, and what it reads from a wire value.

use crate::codec::{CodecModel, FieldModel, PolicyModel, VariantModel};
use crate::message::{MessageModel, ValueModel};
use crate::port::Failure;
use crate::wire::Wire;
use vstd::prelude::*;

verus! {

/// What stands before the fields: the type's name where identity is
/// verified, then the variant's tag where the type is a tagged union.
pub open spec fn head_of(codec: CodecModel, verify: bool, variant: VariantModel) -> Seq<Wire> {
    let name = if verify {
        seq![Wire::Text(codec.name)]
    } else {
        Seq::empty()
    };
    let tag = if codec.tagged {
        seq![Wire::Text(variant.tag)]
    } else {
        Seq::empty()
    };
    name + tag
}

/// What one field writes: its wire value, and the handles that it moves.
///
/// A value that is not of the kind the policy asks for is of another type; a
/// structured value whose serializer failed is a serializer failure.
pub open spec fn written_value(policy: PolicyModel, verify: bool, value: ValueModel) -> Result<
    (Wire, Seq<u64>),
    Failure,
>
    decreases value,
{
    match (policy, value) {
        (PolicyModel::Raw, ValueModel::Raw(wire)) => if wire is Sequence {
            Err(Failure::IncompatibleType)
        } else {
            Ok((wire, Seq::empty()))
        },
        (PolicyModel::Transfer, ValueModel::Raw(Wire::Handle(handle))) => Ok(
            (Wire::Handle(handle), seq![handle]),
        ),
        (PolicyModel::Structured, ValueModel::Structured(Some(wire))) => Ok((wire, Seq::empty())),
        (PolicyModel::Structured, ValueModel::Structured(None)) => Err(Failure::SerdeFailure),
        (PolicyModel::Nested(codec), ValueModel::Nested(message)) => written(
            codec,
            verify,
            message,
        ),
        _ => Err(Failure::IncompatibleType),
    }
}

/// What one field adds to the field stream: its name where the fields are
/// named, then its wire value.
pub open spec fn entry_of(field: FieldModel, named: bool, wire: Wire) -> Seq<Wire> {
    if named {
        seq![Wire::Text(field.name), wire]
    } else {
        seq![wire]
    }
}

/// What a list of fields writes, in declaration order: the field stream and
/// the handles moved, those of a nested message at the place of its field.
/// The first field that fails decides the failure. `fields` and `values` are
/// of one length.
pub open spec fn written_fields(
    fields: Seq<FieldModel>,
    named: bool,
    verify: bool,
    values: Seq<ValueModel>,
) -> Result<(Seq<Wire>, Seq<u64>), Failure>
    decreases values,
{
    if values.len() == 0 {
        Ok((Seq::empty(), Seq::empty()))
    } else {
        match written_fields(fields.drop_last(), named, verify, values.drop_last()) {
            Ok((stream, moved)) => match written_value(fields.last().policy, verify, values.last()) {
                Ok((wire, more)) => Ok((stream + entry_of(fields.last(), named, wire), moved + more)),
                Err(e) => Err(e),
            },
            Err(e) => Err(e),
        }
    }
}

/// Whether `message` has the shape of a message of `codec`: a variant that
/// the codec has, with as many fields as that variant.
pub open spec fn shaped(codec: CodecModel, message: MessageModel) -> bool {
    &&& 0 <= message.variant < codec.variants.len()
    &&& codec.tagged || message.variant == 0
    &&& message.fields.len() == codec.variants[message.variant].fields.len()
}

/// What `codec` writes for `message`: the wire value, a sequence, and the
/// transfer list.
pub open spec fn written(codec: CodecModel, verify: bool, message: MessageModel) -> Result<
    (Wire, Seq<u64>),
    Failure,
>
    decreases message,
{
    if !shaped(codec, message) {
        Err(Failure::IncompatibleType)
    } else {
        let variant = codec.variants[message.variant];
        match written_fields(variant.fields, variant.named, verify, message.fields) {
            Ok((stream, moved)) => Ok(
                (Wire::Sequence(head_of(codec, verify, variant) + stream), moved),
            ),
            Err(e) => Err(e),
        }
    }
}

/// The handles that one field hands over: its own where it is marked for
/// transfer, those of its message where it is nested, none otherwise.
pub open spec fn handles_of_value(policy: PolicyModel, value: ValueModel) -> Seq<u64>
    decreases value,
{
    match (policy, value) {
        (PolicyModel::Transfer, ValueModel::Raw(Wire::Handle(handle))) => seq![handle],
        (PolicyModel::Nested(codec), ValueModel::Nested(message)) => handles_of(codec, message),
        _ => Seq::empty(),
    }
}

/// The handles that a list of fields hands over, in declaration order.
pub open spec fn handles_of_fields(fields: Seq<FieldModel>, values: Seq<ValueModel>) -> Seq<u64>
    decreases values,
{
    if values.len() == 0 {
        Seq::empty()
    } else {
        handles_of_fields(fields.drop_last(), values.drop_last()) + handles_of_value(
            fields.last().policy,
            values.last(),
        )
    }
}

/// The handles that a message hands over: those of the fields marked for
/// transfer, in declaration order, with those of a nested message at the
/// place of its field.
pub open spec fn handles_of(codec: CodecModel, message: MessageModel) -> Seq<u64>
    decreases message,
{
    if !shaped(codec, message) {
        Seq::empty()
    } else {
        handles_of_fields(codec.variants[message.variant].fields, message.fields)
    }
}

/// How many of the fields are marked for transfer.
pub open spec fn marked(fields: Seq<FieldModel>) -> nat
    decreases fields.len(),
{
    if fields.len() == 0 {
        0
    } else {
        marked(fields.drop_last()) + if fields.last().policy is Transfer {
            1nat
        } else {
            0nat
        }
    }
}

/// Whether none of the fields is a nested message.
pub open spec fn flat(fields: Seq<FieldModel>) -> bool {
    forall|i: int| 0 <= i < fields.len() ==> !((#[trigger] fields[i]).policy is Nested)
}

/// Whether no two fields have one name.
pub open spec fn distinct_names(fields: Seq<FieldModel>) -> bool {
    forall|i: int, j: int|
        0 <= i < j < fields.len() ==> (#[trigger] fields[i]).name != (#[trigger] fields[j]).name
}

/// Whether no two variants have one tag.
pub open spec fn distinct_tags(variants: Seq<VariantModel>) -> bool {
    forall|i: int, j: int|
        0 <= i < j < variants.len() ==> (#[trigger] variants[i]).tag != (
        #[trigger] variants[j]).tag
}

/// Whether a policy is that of a type that can be defined: a nested codec
/// is well formed.
pub open spec fn well_formed_policy(policy: PolicyModel) -> bool
    decreases policy,
{
    match policy {
        PolicyModel::Nested(codec) => well_formed(codec),
        _ => true,
    }
}

/// Whether a variant is that of a type that can be defined: named fields
/// have names of their own, and each field's policy is well formed.
pub open spec fn well_formed_variant(variant: VariantModel) -> bool
    decreases variant,
{
    &&& variant.named ==> distinct_names(variant.fields)
    &&& forall|i: int|
        0 <= i < variant.fields.len() ==> well_formed_policy((#[trigger] variant.fields[i]).policy)
}

/// Whether a codec is that of a type that can be defined: a record has one
/// body, the variants of a tagged union have tags of their own, and each
/// body is well formed.
pub open spec fn well_formed(codec: CodecModel) -> bool
    decreases codec,
{
    &&& codec.tagged || codec.variants.len() == 1
    &&& codec.tagged ==> distinct_tags(codec.variants)
    &&& forall|k: int|
        0 <= k < codec.variants.len() ==> well_formed_variant(#[trigger] codec.variants[k])
}

/// The first variant whose tag is `tag`, if there is one.
pub open spec fn variant_of(variants: Seq<VariantModel>, tag: Seq<char>) -> Option<int>
    decreases variants.len(),
{
    if variants.len() == 0 {
        None
    } else {
        match variant_of(variants.drop_last(), tag) {
            Some(k) => Some(k),
            None => if variants.last().tag == tag {
                Some(variants.len() - 1)
            } else {
                None
            },
        }
    }
}

/// Among the first `pairs` pairs of name and value that start at `from`, the
/// last pair whose name is `name`, if there is one.
pub open spec fn named_at(items: Seq<Wire>, from: int, pairs: int, name: Seq<char>) -> Option<int>
    decreases pairs,
{
    if pairs <= 0 {
        None
    } else if items[from + 2 * (pairs - 1)] == Wire::Text(name) {
        Some(pairs - 1)
    } else {
        named_at(items, from, pairs - 1, name)
    }
}

/// Whether each of the `pairs` pairs that start at `from` begins with a
/// string.
pub open spec fn names_are_text(items: Seq<Wire>, from: int, pairs: int) -> bool {
    forall|k: int| 0 <= k < pairs ==> #[trigger] items[from + 2 * k] is Text
}

/// What one field reads from its wire value. A raw field takes an atom, a
/// transferred field a handle, a structured field whatever is there, and a
/// nested field what its own codec reads.
pub open spec fn read_value(policy: PolicyModel, verify: bool, wire: Wire) -> Result<
    ValueModel,
    Failure,
>
    decreases wire, 1int,
{
    match policy {
        PolicyModel::Raw => if wire is Sequence {
            Err(Failure::BadPayload)
        } else {
            Ok(ValueModel::Raw(wire))
        },
        PolicyModel::Transfer => if wire is Handle {
            Ok(ValueModel::Raw(wire))
        } else {
            Err(Failure::BadPayload)
        },
        PolicyModel::Structured => Ok(ValueModel::Structured(Some(wire))),
        PolicyModel::Nested(codec) => match read(codec, verify, wire) {
            Ok(message) => Ok(ValueModel::Nested(message)),
            Err(e) => Err(e),
        },
    }
}

/// The first `count` positional fields, read left to right from
/// `items[from..]`. The first field that fails decides the failure.
pub open spec fn read_positional(
    fields: Seq<FieldModel>,
    verify: bool,
    items: Seq<Wire>,
    from: int,
    count: int,
) -> Result<Seq<ValueModel>, Failure>
    decreases items, count,
{
    if count <= 0 {
        Ok(Seq::empty())
    } else if !(0 <= from + count - 1 < items.len()) {
        Err(Failure::BadPayload)
    } else {
        match read_positional(fields, verify, items, from, count - 1) {
            Ok(values) => match read_value(
                fields[count - 1].policy,
                verify,
                items[from + count - 1],
            ) {
                Ok(value) => Ok(values.push(value)),
                Err(e) => Err(e),
            },
            Err(e) => Err(e),
        }
    }
}

/// The first `count` named fields, each read from the value that is paired
/// with its name among the pairs in `items[from..]`, wherever that pair
/// stands. A name that no pair has is a malformed payload; the first field
/// that fails decides the failure.
pub open spec fn read_named(
    fields: Seq<FieldModel>,
    verify: bool,
    items: Seq<Wire>,
    from: int,
    count: int,
) -> Result<Seq<ValueModel>, Failure>
    decreases items, count,
{
    if count <= 0 {
        Ok(Seq::empty())
    } else {
        match read_named(fields, verify, items, from, count - 1) {
            Ok(values) => match named_at(items, from, fields.len() as int, fields[count - 1].name) {
                Some(k) => if !(0 <= from + 2 * k + 1 < items.len()) {
                    Err(Failure::BadPayload)
                } else {
                    match read_value(fields[count - 1].policy, verify, items[from + 2 * k + 1]) {
                        Ok(value) => Ok(values.push(value)),
                        Err(e) => Err(e),
                    }
                },
                None => Err(Failure::BadPayload),
            },
            Err(e) => Err(e),
        }
    }
}

/// What the fields of one variant read from `items[from..]`: exactly one
/// item for each positional field, exactly one pair for each named field.
pub open spec fn read_fields(
    fields: Seq<FieldModel>,
    named: bool,
    verify: bool,
    items: Seq<Wire>,
    from: int,
) -> Result<Seq<ValueModel>, Failure>
    decreases items, fields.len() + 1,
{
    if named {
        if items.len() - from != 2 * fields.len() || !names_are_text(
            items,
            from,
            fields.len() as int,
        ) {
            Err(Failure::BadPayload)
        } else {
            read_named(fields, verify, items, from, fields.len() as int)
        }
    } else {
        if items.len() - from != fields.len() {
            Err(Failure::BadPayload)
        } else {
            read_positional(fields, verify, items, from, fields.len() as int)
        }
    }
}

/// What `codec` reads from `wire`.
///
/// The wire value is a sequence. With `verify` it starts with the type's
/// name: a first item that is no string is a malformed payload, another
/// name an incompatible type. A tagged union then has its tag: no string is
/// a malformed payload, a string that names no variant an invalid
/// identifier. The fields follow.
pub open spec fn read(codec: CodecModel, verify: bool, wire: Wire) -> Result<MessageModel, Failure>
    decreases wire, 0int,
{
    match wire {
        Wire::Sequence(items) => {
            let from: int = if verify {
                1
            } else {
                0
            };
            if verify && (items.len() == 0 || !(items[0] is Text)) {
                Err(Failure::BadPayload)
            } else if verify && items[0]->Text_0 != codec.name {
                Err(Failure::IncompatibleType)
            } else if codec.tagged {
                if items.len() <= from || !(items[from] is Text) {
                    Err(Failure::BadPayload)
                } else {
                    let tag = items[from]->Text_0;
                    match variant_of(codec.variants, tag) {
                        Some(k) => match read_fields(
                            codec.variants[k].fields,
                            codec.variants[k].named,
                            verify,
                            items,
                            from + 1,
                        ) {
                            Ok(fields) => Ok(MessageModel { variant: k, fields }),
                            Err(e) => Err(e),
                        },
                        None => Err(Failure::InvalidIdentifier(tag)),
                    }
                }
            } else if codec.variants.len() == 0 {
                Err(Failure::BadPayload)
            } else {
                match read_fields(
                    codec.variants[0].fields,
                    codec.variants[0].named,
                    verify,
                    items,
                    from,
                ) {
                    Ok(fields) => Ok(MessageModel { variant: 0, fields }),
                    Err(e) => Err(e),
                }
            }
        },
        _ => Err(Failure::BadPayload),
    }
}

} // verus!
