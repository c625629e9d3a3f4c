//! What holds of every codec: reading gives back what was written, the
//! transfer list is the handles of the fields marked for transfer, named
//! fields may stand in any order, and foreign payloads are refused.

use crate::attrs::Field;
use crate::codec::{CodecModel, FieldModel, PolicyModel, VariantModel};
use crate::format::{
    distinct_names, entry_of, flat, handles_of, handles_of_fields, handles_of_value, head_of,
    marked, named_at, names_are_text, read, read_fields, read_named, read_positional, read_value,
    variant_of, well_formed, well_formed_policy, well_formed_variant, written, written_fields,
    written_value,
};
use crate::message::{MessageModel, ValueModel};
use crate::port::Failure;
use crate::shareable::{
    derived, derived_field, derived_fields, derived_variant, derived_variants, first_repeated_name,
    first_repeated_tag, name_repeats, tag_repeats, Data, DeriveInput, Fields, Variant,
};
use crate::wire::Wire;
use vstd::prelude::*;

verus! {

/// What the fields of a list wrote, field by field: each field's value was
/// written, and stands in the stream at the field's place, behind the
/// field's name where the fields are named.
pub proof fn lemma_written_fields_shape(
    fields: Seq<FieldModel>,
    named: bool,
    verify: bool,
    values: Seq<ValueModel>,
)
    requires
        fields.len() == values.len(),
        written_fields(fields, named, verify, values) is Ok,
    ensures
        forall|i: int|
            0 <= i < values.len() ==> (#[trigger] written_value(
                fields[i].policy,
                verify,
                values[i],
            )) is Ok,
        !named ==> written_fields(fields, named, verify, values)->Ok_0.0.len() == values.len(),
        !named ==> forall|i: int|
            0 <= i < values.len() ==> #[trigger] written_fields(
                fields,
                named,
                verify,
                values,
            )->Ok_0.0[i] == written_value(fields[i].policy, verify, values[i])->Ok_0.0,
        named ==> written_fields(fields, named, verify, values)->Ok_0.0.len() == 2 * values.len(),
        named ==> forall|i: int|
            0 <= i < values.len() ==> {
                &&& #[trigger] written_fields(fields, named, verify, values)->Ok_0.0[2 * i]
                    == Wire::Text(fields[i].name)
                &&& written_fields(fields, named, verify, values)->Ok_0.0[2 * i + 1]
                    == written_value(fields[i].policy, verify, values[i])->Ok_0.0
            },
    decreases values.len(),
{
    if values.len() > 0 {
        let n = values.len() - 1;
        lemma_written_fields_shape(fields.drop_last(), named, verify, values.drop_last());
        let before = written_fields(fields.drop_last(), named, verify, values.drop_last())->Ok_0.0;
        let last = written_value(fields.last().policy, verify, values.last())->Ok_0.0;
        let stream = written_fields(fields, named, verify, values)->Ok_0.0;
        assert(stream == before + entry_of(fields.last(), named, last));
        assert forall|i: int| 0 <= i < values.len() implies (#[trigger] written_value(
            fields[i].policy,
            verify,
            values[i],
        )) is Ok by {
            if i < n {
                assert(fields.drop_last()[i] == fields[i]);
                assert(values.drop_last()[i] == values[i]);
            }
        }
        if named {
            assert forall|i: int| 0 <= i < values.len() implies {
                &&& #[trigger] stream[2 * i] == Wire::Text(fields[i].name)
                &&& stream[2 * i + 1] == written_value(fields[i].policy, verify, values[i])->Ok_0.0
            } by {
                if i < n {
                    assert(fields.drop_last()[i] == fields[i]);
                    assert(values.drop_last()[i] == values[i]);
                    assert(stream[2 * i] == before[2 * i]);
                    assert(stream[2 * i + 1] == before[2 * i + 1]);
                }
            }
        } else {
            assert forall|i: int| 0 <= i < values.len() implies #[trigger] stream[i]
                == written_value(fields[i].policy, verify, values[i])->Ok_0.0 by {
                if i < n {
                    assert(fields.drop_last()[i] == fields[i]);
                    assert(values.drop_last()[i] == values[i]);
                    assert(stream[i] == before[i]);
                }
            }
        }
    }
}

/// Fields that are written one by one are written as a list.
pub proof fn lemma_written_fields_succeed(
    fields: Seq<FieldModel>,
    named: bool,
    verify: bool,
    values: Seq<ValueModel>,
)
    requires
        fields.len() == values.len(),
        forall|i: int|
            0 <= i < values.len() ==> (#[trigger] written_value(
                fields[i].policy,
                verify,
                values[i],
            )) is Ok,
    ensures
        written_fields(fields, named, verify, values) is Ok,
    decreases values.len(),
{
    if values.len() > 0 {
        assert forall|i: int| 0 <= i < values.len() - 1 implies (#[trigger] written_value(
            fields.drop_last()[i].policy,
            verify,
            values.drop_last()[i],
        )) is Ok by {
            assert(written_value(fields[i].policy, verify, values[i]) is Ok);
        }
        lemma_written_fields_succeed(fields.drop_last(), named, verify, values.drop_last());
        assert(written_value(fields[values.len() - 1].policy, verify, values[values.len() - 1])
            is Ok);
    }
}

/// With identity verified, what one type wrote is refused by the codec of a
/// type of another name, as an incompatible type.
pub proof fn foreign_type_is_refused(
    writer: CodecModel,
    reader: CodecModel,
    message: MessageModel,
)
    requires
        written(writer, true, message) is Ok,
        writer.name != reader.name,
    ensures
        read(reader, true, written(writer, true, message)->Ok_0.0) == Err::<MessageModel, Failure>(
            Failure::IncompatibleType,
        ),
{
    let variant = writer.variants[message.variant];
    let stream = written_fields(variant.fields, variant.named, true, message.fields)->Ok_0.0;
    let items = head_of(writer, true, variant) + stream;
    assert(items[0] == Wire::Text(writer.name));
}

/// No variant among the first `count` has the tag exactly when
/// `variant_of` finds none; what it finds is the first variant with the tag.
pub proof fn lemma_variant_of(variants: Seq<VariantModel>, tag: Seq<char>)
    ensures
        match variant_of(variants, tag) {
            Some(k) => {
                &&& 0 <= k < variants.len()
                &&& variants[k].tag == tag
                &&& forall|j: int| 0 <= j < k ==> (#[trigger] variants[j]).tag != tag
            },
            None => forall|j: int| 0 <= j < variants.len() ==> (#[trigger] variants[j]).tag != tag,
        },
    decreases variants.len(),
{
    if variants.len() > 0 {
        lemma_variant_of(variants.drop_last(), tag);
        assert forall|j: int| 0 <= j < variants.len() - 1 implies variants.drop_last()[j]
            == variants[j] by {}
        match variant_of(variants.drop_last(), tag) {
            Some(k) => {
                assert(variants.drop_last()[k] == variants[k]);
                assert forall|j: int| 0 <= j < k implies (#[trigger] variants[j]).tag != tag by {
                    assert(variants.drop_last()[j] == variants[j]);
                }
            },
            None => {
                assert forall|j: int| 0 <= j < variants.len() - 1 implies (
                #[trigger] variants[j]).tag != tag by {
                    assert(variants.drop_last()[j] == variants[j]);
                }
            },
        }
    }
}

/// A payload of a tagged union whose tag names no variant is refused as an
/// invalid identifier that carries the tag, whatever follows the tag.
pub proof fn unknown_tag_is_refused(
    codec: CodecModel,
    verify: bool,
    items: Seq<Wire>,
    tag: Seq<char>,
)
    requires
        codec.tagged,
        verify ==> items.len() > 1 && items[0] == Wire::Text(codec.name) && items[1] == Wire::Text(
            tag,
        ),
        !verify ==> items.len() > 0 && items[0] == Wire::Text(tag),
        forall|k: int| 0 <= k < codec.variants.len() ==> (#[trigger] codec.variants[k]).tag != tag,
    ensures
        read(codec, verify, Wire::Sequence(items)) == Err::<MessageModel, Failure>(
            Failure::InvalidIdentifier(tag),
        ),
{
    lemma_variant_of(codec.variants, tag);
}

/// Among pairs whose names are those of the fields, which are distinct, the
/// pair with a field's name is the pair at the field's place.
proof fn lemma_named_at_own_place(
    fields: Seq<FieldModel>,
    items: Seq<Wire>,
    from: int,
    pairs: int,
    place: int,
)
    requires
        distinct_names(fields),
        0 <= place < pairs <= fields.len(),
        0 <= from,
        from + 2 * fields.len() <= items.len(),
        forall|i: int|
            0 <= i < fields.len() ==> #[trigger] items[from + 2 * i] == Wire::Text(fields[i].name),
    ensures
        named_at(items, from, pairs, fields[place].name) == Some(place),
    decreases pairs,
{
    if pairs - 1 != place {
        assert(items[from + 2 * (pairs - 1)] == Wire::Text(fields[pairs - 1].name));
        lemma_named_at_own_place(fields, items, from, pairs - 1, place);
    } else {
        assert(items[from + 2 * place] == Wire::Text(fields[place].name));
    }
}

/// Positional fields read back, one by one, what each of them reads back.
proof fn lemma_read_positional_back(
    fields: Seq<FieldModel>,
    verify: bool,
    items: Seq<Wire>,
    from: int,
    values: Seq<ValueModel>,
    count: int,
)
    requires
        0 <= from,
        fields.len() == values.len(),
        items.len() == from + values.len(),
        0 <= count <= values.len(),
        forall|i: int|
            0 <= i < values.len() ==> #[trigger] read_value(
                fields[i].policy,
                verify,
                items[from + i],
            ) == Ok::<ValueModel, Failure>(values[i]),
    ensures
        read_positional(fields, verify, items, from, count) == Ok::<Seq<ValueModel>, Failure>(
            values.take(count),
        ),
    decreases count,
{
    if count > 0 {
        lemma_read_positional_back(fields, verify, items, from, values, count - 1);
        assert(read_value(fields[count - 1].policy, verify, items[from + (count - 1)]) == Ok::<
            ValueModel,
            Failure,
        >(values[count - 1]));
        assert(values.take(count - 1).push(values[count - 1]) == values.take(count));
    } else {
        assert(values.take(0) == Seq::<ValueModel>::empty());
    }
}

/// Named fields read back, one by one, what each of them reads back.
proof fn lemma_read_named_back(
    fields: Seq<FieldModel>,
    verify: bool,
    items: Seq<Wire>,
    from: int,
    values: Seq<ValueModel>,
    count: int,
)
    requires
        0 <= from,
        distinct_names(fields),
        fields.len() == values.len(),
        items.len() == from + 2 * values.len(),
        0 <= count <= values.len(),
        forall|i: int|
            0 <= i < fields.len() ==> #[trigger] items[from + 2 * i] == Wire::Text(fields[i].name),
        forall|i: int|
            0 <= i < values.len() ==> #[trigger] read_value(
                fields[i].policy,
                verify,
                items[from + 2 * i + 1],
            ) == Ok::<ValueModel, Failure>(values[i]),
    ensures
        read_named(fields, verify, items, from, count) == Ok::<Seq<ValueModel>, Failure>(
            values.take(count),
        ),
    decreases count,
{
    if count > 0 {
        lemma_read_named_back(fields, verify, items, from, values, count - 1);
        lemma_named_at_own_place(fields, items, from, fields.len() as int, count - 1);
        assert(read_value(fields[count - 1].policy, verify, items[from + 2 * (count - 1) + 1])
            == Ok::<ValueModel, Failure>(values[count - 1]));
        assert(values.take(count - 1).push(values[count - 1]) == values.take(count));
    } else {
        assert(values.take(0) == Seq::<ValueModel>::empty());
    }
}

/// The fields of a list read back what they wrote, behind whatever head,
/// where each of them reads back what it wrote.
proof fn lemma_fields_read_back(
    fields: Seq<FieldModel>,
    named: bool,
    verify: bool,
    values: Seq<ValueModel>,
    head: Seq<Wire>,
)
    requires
        fields.len() == values.len(),
        named ==> distinct_names(fields),
        written_fields(fields, named, verify, values) is Ok,
        forall|i: int|
            0 <= i < values.len() ==> #[trigger] read_value(
                fields[i].policy,
                verify,
                written_value(fields[i].policy, verify, values[i])->Ok_0.0,
            ) == Ok::<ValueModel, Failure>(values[i]),
    ensures
        read_fields(
            fields,
            named,
            verify,
            head + written_fields(fields, named, verify, values)->Ok_0.0,
            head.len() as int,
        ) == Ok::<Seq<ValueModel>, Failure>(values),
{
    let stream = written_fields(fields, named, verify, values)->Ok_0.0;
    let items = head + stream;
    let from = head.len() as int;
    lemma_written_fields_shape(fields, named, verify, values);
    if named {
        assert forall|i: int| 0 <= i < fields.len() implies #[trigger] items[from + 2 * i]
            == Wire::Text(fields[i].name) by {
            assert(items[from + 2 * i] == stream[2 * i]);
        }
        assert forall|i: int| 0 <= i < values.len() implies #[trigger] read_value(
            fields[i].policy,
            verify,
            items[from + 2 * i + 1],
        ) == Ok::<ValueModel, Failure>(values[i]) by {
            assert(stream[2 * i] == Wire::Text(fields[i].name));
            assert(items[from + 2 * i + 1] == stream[2 * i + 1]);
        }
        assert(names_are_text(items, from, fields.len() as int)) by {
            assert forall|k: int| 0 <= k < fields.len() implies #[trigger] items[from + 2 * k]
                is Text by {
                assert(items[from + 2 * k] == Wire::Text(fields[k].name));
            }
        }
        lemma_read_named_back(fields, verify, items, from, values, values.len() as int);
    } else {
        assert forall|i: int| 0 <= i < values.len() implies #[trigger] read_value(
            fields[i].policy,
            verify,
            items[from + i],
        ) == Ok::<ValueModel, Failure>(values[i]) by {
            assert(items[from + i] == stream[i]);
        }
        lemma_read_positional_back(fields, verify, items, from, values, values.len() as int);
    }
    assert(values.take(values.len() as int) == values);
}

/// Behind the head that a codec writes for one of its variants, the codec
/// reads that variant's fields.
proof fn lemma_read_behind_head(
    codec: CodecModel,
    verify: bool,
    place: int,
    stream: Seq<Wire>,
)
    requires
        well_formed(codec),
        0 <= place < codec.variants.len(),
        codec.tagged || place == 0,
    ensures
        read(codec, verify, Wire::Sequence(head_of(codec, verify, codec.variants[place]) + stream))
            == (match read_fields(
            codec.variants[place].fields,
            codec.variants[place].named,
            verify,
            head_of(codec, verify, codec.variants[place]) + stream,
            head_of(codec, verify, codec.variants[place]).len() as int,
        ) {
            Ok(fields) => Ok::<MessageModel, Failure>(MessageModel { variant: place, fields }),
            Err(e) => Err(e),
        }),
{
    let variant = codec.variants[place];
    let head = head_of(codec, verify, variant);
    let items = head + stream;
    if verify {
        assert(items[0] == Wire::Text(codec.name));
    }
    if codec.tagged {
        lemma_variant_of(codec.variants, variant.tag);
        assert(items[head.len() - 1] == Wire::Text(variant.tag));
    }
}

/// What one field wrote, it reads back.
pub proof fn round_trip_value(policy: PolicyModel, verify: bool, value: ValueModel)
    requires
        well_formed_policy(policy),
        written_value(policy, verify, value) is Ok,
    ensures
        read_value(policy, verify, written_value(policy, verify, value)->Ok_0.0) == Ok::<
            ValueModel,
            Failure,
        >(value),
    decreases value, 1int,
{
    match (policy, value) {
        (PolicyModel::Nested(codec), ValueModel::Nested(message)) => {
            round_trip(codec, verify, message);
        },
        _ => {},
    }
}

/// Reading what a codec wrote gives back the message that was written: for
/// every codec of a type that can be defined, with identity verified or
/// not, and every message that the codec writes.
pub proof fn round_trip(codec: CodecModel, verify: bool, message: MessageModel)
    requires
        well_formed(codec),
        written(codec, verify, message) is Ok,
    ensures
        read(codec, verify, written(codec, verify, message)->Ok_0.0) == Ok::<MessageModel, Failure>(
            message,
        ),
    decreases message, 0int,
{
    let variant = codec.variants[message.variant];
    let fields = variant.fields;
    let values = message.fields;
    let head = head_of(codec, verify, variant);
    let stream = written_fields(fields, variant.named, verify, values)->Ok_0.0;
    assert(well_formed_variant(variant));
    lemma_written_fields_shape(fields, variant.named, verify, values);
    assert forall|i: int| 0 <= i < values.len() implies #[trigger] read_value(
        fields[i].policy,
        verify,
        written_value(fields[i].policy, verify, values[i])->Ok_0.0,
    ) == Ok::<ValueModel, Failure>(values[i]) by {
        assert(well_formed_policy(fields[i].policy));
        assert(written_value(fields[i].policy, verify, values[i]) is Ok);
        round_trip_value(fields[i].policy, verify, values[i]);
    }
    lemma_fields_read_back(fields, variant.named, verify, values, head);
    lemma_read_behind_head(codec, verify, message.variant, stream);
}

/// The transfer list of one field is the handles that it hands over.
pub proof fn transfer_list_of_value(policy: PolicyModel, verify: bool, value: ValueModel)
    requires
        written_value(policy, verify, value) is Ok,
    ensures
        written_value(policy, verify, value)->Ok_0.1 == handles_of_value(policy, value),
    decreases value, 1int,
{
    match (policy, value) {
        (PolicyModel::Nested(codec), ValueModel::Nested(message)) => {
            transfer_list(codec, verify, message);
        },
        _ => {},
    }
}

/// The transfer list of a list of fields is the handles that they hand
/// over, in declaration order.
pub proof fn transfer_list_of_fields(
    fields: Seq<FieldModel>,
    named: bool,
    verify: bool,
    values: Seq<ValueModel>,
)
    requires
        fields.len() == values.len(),
        written_fields(fields, named, verify, values) is Ok,
    ensures
        written_fields(fields, named, verify, values)->Ok_0.1 == handles_of_fields(fields, values),
    decreases values, 2int,
{
    if values.len() > 0 {
        transfer_list_of_fields(fields.drop_last(), named, verify, values.drop_last());
        transfer_list_of_value(fields.last().policy, verify, values.last());
    }
}

/// The transfer list that a codec writes is exactly the handles of the
/// fields marked for transfer, in declaration order, those of a nested
/// message at the place of its field; it is the same with identity
/// verified or not, and for named fields as for positional ones.
pub proof fn transfer_list(codec: CodecModel, verify: bool, message: MessageModel)
    requires
        written(codec, verify, message) is Ok,
    ensures
        written(codec, verify, message)->Ok_0.1 == handles_of(codec, message),
    decreases message, 3int,
{
    let variant = codec.variants[message.variant];
    transfer_list_of_fields(variant.fields, variant.named, verify, message.fields);
}

/// Fields without a nested message hand over one handle for each field
/// that is marked for transfer.
pub proof fn transfer_count(
    fields: Seq<FieldModel>,
    named: bool,
    verify: bool,
    values: Seq<ValueModel>,
)
    requires
        fields.len() == values.len(),
        flat(fields),
        written_fields(fields, named, verify, values) is Ok,
    ensures
        written_fields(fields, named, verify, values)->Ok_0.1.len() == marked(fields),
    decreases values.len(),
{
    if values.len() > 0 {
        assert forall|i: int| 0 <= i < fields.drop_last().len() implies !((
        #[trigger] fields.drop_last()[i]).policy is Nested) by {
            assert(fields.drop_last()[i] == fields[i]);
        }
        transfer_count(fields.drop_last(), named, verify, values.drop_last());
        let policy = fields.last().policy;
        assert(!(fields[fields.len() - 1].policy is Nested));
        let more = written_value(policy, verify, values.last())->Ok_0.1;
        assert(written_value(policy, verify, values.last()) is Ok);
        assert(more.len() == if policy is Transfer {
            1nat
        } else {
            0nat
        });
    }
}

/// The name of pair `k` among the pairs that start at `from`.
pub open spec fn pair_name(items: Seq<Wire>, from: int, k: int) -> Wire {
    items[from + 2 * k]
}

/// The value of pair `k` among the pairs that start at `from`.
pub open spec fn pair_value(items: Seq<Wire>, from: int, k: int) -> Wire {
    items[from + 2 * k + 1]
}

/// Whether the `pairs` pairs of `b` that start at `from` are those of `a` in
/// another order: pair `i` of `b` is pair `to[i]` of `a`, and pair `i` of
/// `a` is pair `back[i]` of `b`.
pub open spec fn rearranged(
    a: Seq<Wire>,
    b: Seq<Wire>,
    from: int,
    pairs: int,
    to: Seq<int>,
    back: Seq<int>,
) -> bool {
    &&& to.len() == pairs
    &&& back.len() == pairs
    &&& forall|i: int| 0 <= i < pairs ==> 0 <= #[trigger] to[i] < pairs && back[to[i]] == i
    &&& forall|i: int| 0 <= i < pairs ==> 0 <= #[trigger] back[i] < pairs && to[back[i]] == i
    &&& forall|i: int|
        0 <= i < pairs ==> #[trigger] pair_name(b, from, i) == pair_name(a, from, to[i])
            && pair_value(b, from, i) == pair_value(a, from, to[i])
}

/// Whether the `pairs` pairs that start at `from` have names of their own.
pub open spec fn distinct_pairs(items: Seq<Wire>, from: int, pairs: int) -> bool {
    forall|i: int, j: int|
        0 <= i < j < pairs ==> #[trigger] pair_name(items, from, i) != #[trigger] pair_name(
            items,
            from,
            j,
        )
}

/// What `named_at` finds is the last pair with the name, and it finds none
/// only where no pair has the name.
proof fn lemma_named_at(items: Seq<Wire>, from: int, pairs: int, name: Seq<char>)
    ensures
        match named_at(items, from, pairs, name) {
            Some(k) => {
                &&& 0 <= k < pairs
                &&& pair_name(items, from, k) == Wire::Text(name)
                &&& forall|j: int|
                    k < j < pairs ==> #[trigger] pair_name(items, from, j) != Wire::Text(name)
            },
            None => forall|j: int|
                0 <= j < pairs ==> #[trigger] pair_name(items, from, j) != Wire::Text(name),
        },
    decreases pairs,
{
    if pairs > 0 {
        lemma_named_at(items, from, pairs - 1, name);
        assert(pair_name(items, from, pairs - 1) == items[from + 2 * (pairs - 1)]);
    }
}

/// In pairs rearranged, a name is found with the same value, or in neither.
proof fn lemma_named_at_rearranged(
    a: Seq<Wire>,
    b: Seq<Wire>,
    from: int,
    pairs: int,
    to: Seq<int>,
    back: Seq<int>,
    name: Seq<char>,
)
    requires
        rearranged(a, b, from, pairs, to, back),
        distinct_pairs(a, from, pairs),
    ensures
        named_at(a, from, pairs, name) is Some <==> named_at(b, from, pairs, name) is Some,
        named_at(a, from, pairs, name) is Some ==> pair_value(
            b,
            from,
            named_at(b, from, pairs, name)->Some_0,
        ) == pair_value(a, from, named_at(a, from, pairs, name)->Some_0),
{
    lemma_named_at(a, from, pairs, name);
    lemma_named_at(b, from, pairs, name);
    match named_at(a, from, pairs, name) {
        Some(i) => {
            let j = back[i];
            assert(to[j] == i);
            assert(pair_name(b, from, j) == pair_name(a, from, to[j]));
            match named_at(b, from, pairs, name) {
                Some(k) => {
                    assert(pair_name(b, from, k) == pair_name(a, from, to[k]));
                    let i2 = to[k];
                    if i2 != i {
                        if i2 < i {
                            assert(pair_name(a, from, i2) != pair_name(a, from, i));
                        } else {
                            assert(pair_name(a, from, i) != pair_name(a, from, i2));
                        }
                    }
                },
                None => {},
            }
        },
        None => {
            match named_at(b, from, pairs, name) {
                Some(k) => {
                    assert(pair_name(b, from, k) == pair_name(a, from, to[k]));
                },
                None => {},
            }
        },
    }
}

/// Named fields read the same from pairs rearranged, field by field.
proof fn lemma_read_named_rearranged(
    fields: Seq<FieldModel>,
    verify: bool,
    a: Seq<Wire>,
    b: Seq<Wire>,
    from: int,
    to: Seq<int>,
    back: Seq<int>,
    count: int,
)
    requires
        0 <= from,
        a.len() == b.len(),
        a.len() == from + 2 * fields.len(),
        rearranged(a, b, from, fields.len() as int, to, back),
        distinct_pairs(a, from, fields.len() as int),
        0 <= count <= fields.len(),
    ensures
        read_named(fields, verify, b, from, count) == read_named(fields, verify, a, from, count),
    decreases count,
{
    if count > 0 {
        lemma_read_named_rearranged(fields, verify, a, b, from, to, back, count - 1);
        let name = fields[count - 1].name;
        let pairs = fields.len() as int;
        lemma_named_at_rearranged(a, b, from, pairs, to, back, name);
        lemma_named_at(a, from, pairs, name);
        lemma_named_at(b, from, pairs, name);
        match named_at(a, from, pairs, name) {
            Some(i) => {
                let k = named_at(b, from, pairs, name)->Some_0;
                assert(pair_value(b, from, k) == b[from + 2 * k + 1]);
                assert(pair_value(a, from, i) == a[from + 2 * i + 1]);
            },
            None => {},
        }
    }
}

/// Named fields do not depend on the order of their pairs: where the pairs
/// of one payload are those of another in another order, and no name stands
/// twice, the fields read the same from both, value for value and failure
/// for failure.
pub proof fn named_fields_in_any_order(
    fields: Seq<FieldModel>,
    verify: bool,
    a: Seq<Wire>,
    b: Seq<Wire>,
    from: int,
    to: Seq<int>,
    back: Seq<int>,
)
    requires
        0 <= from,
        a.len() == b.len(),
        rearranged(a, b, from, fields.len() as int, to, back),
        distinct_pairs(a, from, fields.len() as int),
    ensures
        read_fields(fields, true, verify, b, from) == read_fields(fields, true, verify, a, from),
{
    let pairs = fields.len() as int;
    if a.len() - from == 2 * fields.len() {
        if names_are_text(a, from, pairs) {
            assert forall|k: int| 0 <= k < pairs implies #[trigger] b[from + 2 * k] is Text by {
                assert(pair_name(b, from, k) == pair_name(a, from, to[k]));
                assert(a[from + 2 * to[k]] is Text);
            }
            lemma_read_named_rearranged(fields, verify, a, b, from, to, back, pairs);
        } else {
            let k = choose|k: int| 0 <= k < pairs && !(#[trigger] a[from + 2 * k] is Text);
            let j = back[k];
            assert(to[j] == k);
            assert(pair_name(b, from, j) == pair_name(a, from, to[j]));
            assert(!(b[from + 2 * j] is Text));
        }
    }
}

/// A record with named fields reads the same from a payload whose pairs
/// stand in another order than the one in which they were declared.
pub proof fn record_in_any_order(
    codec: CodecModel,
    verify: bool,
    a: Seq<Wire>,
    b: Seq<Wire>,
    to: Seq<int>,
    back: Seq<int>,
)
    requires
        !codec.tagged,
        codec.variants.len() == 1,
        codec.variants[0].named,
        a.len() == b.len(),
        verify ==> a.len() > 0 && a[0] == b[0],
        rearranged(
            a,
            b,
            if verify {
                1
            } else {
                0
            },
            codec.variants[0].fields.len() as int,
            to,
            back,
        ),
        distinct_pairs(
            a,
            if verify {
                1
            } else {
                0
            },
            codec.variants[0].fields.len() as int,
        ),
    ensures
        read(codec, verify, Wire::Sequence(b)) == read(codec, verify, Wire::Sequence(a)),
{
    let from: int = if verify {
        1
    } else {
        0
    };
    named_fields_in_any_order(codec.variants[0].fields, verify, a, b, from, to, back);
}

/// A record with named fields is read back from what was written for it
/// with the pairs in any other order: reading succeeds, and gives the
/// message that was written.
pub proof fn rearranged_record_reads_back(
    codec: CodecModel,
    verify: bool,
    message: MessageModel,
    b: Seq<Wire>,
    to: Seq<int>,
    back: Seq<int>,
)
    requires
        well_formed(codec),
        !codec.tagged,
        codec.variants[0].named,
        written(codec, verify, message) is Ok,
        written(codec, verify, message)->Ok_0.0 is Sequence,
        ({
            let a = written(codec, verify, message)->Ok_0.0->Sequence_0;
            let from: int = if verify {
                1
            } else {
                0
            };
            &&& a.len() == b.len()
            &&& verify ==> a[0] == b[0]
            &&& rearranged(a, b, from, codec.variants[0].fields.len() as int, to, back)
        }),
    ensures
        read(codec, verify, Wire::Sequence(b)) == Ok::<MessageModel, Failure>(message),
{
    let a = written(codec, verify, message)->Ok_0.0->Sequence_0;
    let from: int = if verify {
        1
    } else {
        0
    };
    let variant = codec.variants[0];
    let fields = variant.fields;
    let stream = written_fields(fields, true, verify, message.fields)->Ok_0.0;
    assert(well_formed_variant(variant));
    lemma_written_fields_shape(fields, true, verify, message.fields);
    assert(a == head_of(codec, verify, variant) + stream);
    assert forall|i: int, j: int| 0 <= i < j < fields.len() implies #[trigger] pair_name(
        a,
        from,
        i,
    ) != #[trigger] pair_name(a, from, j) by {
        assert(a[from + 2 * i] == stream[2 * i]);
        assert(a[from + 2 * j] == stream[2 * j]);
        assert(fields[i].name != fields[j].name);
    }
    round_trip(codec, verify, message);
    record_in_any_order(codec, verify, a, b, to, back);
}

/// The fields of a body, in declaration order.
pub open spec fn fields_of(fields: Fields) -> Seq<Field> {
    match fields {
        Fields::Named(list) => list@,
        Fields::Unnamed(list) => list@,
        Fields::Unit => Seq::empty(),
    }
}

/// Whether the codecs that the fields bring along are well formed.
pub open spec fn bring_well_formed(fields: Seq<Field>) -> bool {
    forall|i: int|
        0 <= i < fields.len() ==> ((#[trigger] fields[i]).codec matches Some(codec)
            ==> well_formed(codec@))
}

/// Whether the codecs that a definition brings along for its fields are
/// well formed.
pub open spec fn brings_well_formed(input: DeriveInput) -> bool {
    match input.data {
        Data::Struct(fields) => bring_well_formed(fields_of(fields)),
        Data::Enum(variants) => forall|k: int|
            0 <= k < variants@.len() ==> bring_well_formed(
                fields_of((#[trigger] variants@[k]).fields),
            ),
        Data::Union => true,
    }
}

/// Where no field repeats a name, the names are distinct.
proof fn lemma_no_repeated_name(fields: Seq<FieldModel>, count: int)
    requires
        0 <= count <= fields.len(),
        first_repeated_name(fields, count) is None,
    ensures
        forall|i: int, j: int|
            0 <= i < j < count ==> (#[trigger] fields[i]).name != (#[trigger] fields[j]).name,
    decreases count,
{
    if count > 0 {
        lemma_no_repeated_name(fields, count - 1);
        assert(!name_repeats(fields, count - 1));
    }
}

/// Where no variant repeats a tag, the tags are distinct.
proof fn lemma_no_repeated_tag(variants: Seq<VariantModel>, count: int)
    requires
        0 <= count <= variants.len(),
        first_repeated_tag(variants, count) is None,
    ensures
        forall|i: int, j: int|
            0 <= i < j < count ==> (#[trigger] variants[i]).tag != (#[trigger] variants[j]).tag,
    decreases count,
{
    if count > 0 {
        lemma_no_repeated_tag(variants, count - 1);
        assert(!tag_repeats(variants, count - 1));
    }
}

/// Fields derived from fields that bring well-formed codecs have
/// well-formed policies.
proof fn lemma_derived_fields_well_formed(fields: Seq<Field>, variant: int, count: int)
    requires
        0 <= count <= fields.len(),
        bring_well_formed(fields),
        derived_fields(fields, variant, count) is Ok,
    ensures
        derived_fields(fields, variant, count)->Ok_0.len() == count,
        forall|i: int|
            0 <= i < count ==> well_formed_policy(
                (#[trigger] derived_fields(fields, variant, count)->Ok_0[i]).policy,
            ),
    decreases count,
{
    if count > 0 {
        lemma_derived_fields_well_formed(fields, variant, count - 1);
        let before = derived_fields(fields, variant, count - 1)->Ok_0;
        let last = derived_field(fields[count - 1], variant, count - 1)->Ok_0;
        assert(derived_fields(fields, variant, count)->Ok_0 == before.push(last));
        assert(fields[count - 1].codec matches Some(codec) ==> well_formed(codec@));
        assert(well_formed_policy(last.policy));
    }
}

/// A body derived from fields that bring well-formed codecs is well formed.
proof fn lemma_derived_variant_well_formed(tag: Seq<char>, fields: Fields, variant: int)
    requires
        bring_well_formed(fields_of(fields)),
        derived_variant(tag, fields, variant) is Ok,
    ensures
        well_formed_variant(derived_variant(tag, fields, variant)->Ok_0),
{
    match fields {
        Fields::Named(list) => {
            lemma_derived_fields_well_formed(list@, variant, list@.len() as int);
            let models = derived_fields(list@, variant, list@.len() as int)->Ok_0;
            lemma_no_repeated_name(models, models.len() as int);
        },
        Fields::Unnamed(list) => {
            lemma_derived_fields_well_formed(list@, variant, list@.len() as int);
        },
        Fields::Unit => {},
    }
}

/// Variants derived from fields that bring well-formed codecs are well
/// formed.
proof fn lemma_derived_variants_well_formed(variants: Seq<Variant>, count: int)
    requires
        0 <= count <= variants.len(),
        forall|k: int|
            0 <= k < variants.len() ==> bring_well_formed(
                fields_of((#[trigger] variants[k]).fields),
            ),
        derived_variants(variants, count) is Ok,
    ensures
        derived_variants(variants, count)->Ok_0.len() == count,
        forall|k: int|
            0 <= k < count ==> well_formed_variant(
                #[trigger] derived_variants(variants, count)->Ok_0[k],
            ),
    decreases count,
{
    if count > 0 {
        lemma_derived_variants_well_formed(variants, count - 1);
        let before = derived_variants(variants, count - 1)->Ok_0;
        let last = derived_variant(
            variants[count - 1].ident@,
            variants[count - 1].fields,
            count - 1,
        )->Ok_0;
        assert(derived_variants(variants, count)->Ok_0 == before.push(last));
        lemma_derived_variant_well_formed(
            variants[count - 1].ident@,
            variants[count - 1].fields,
            count - 1,
        );
    }
}

/// Every codec that is derived is well formed, where the codecs that the
/// definition brings along for its fields are: so reading gives back what
/// was written for every derived codec.
pub proof fn derived_is_well_formed(input: DeriveInput)
    requires
        brings_well_formed(input),
        derived(input) is Ok,
    ensures
        well_formed(derived(input)->Ok_0),
{
    match input.data {
        Data::Struct(fields) => {
            lemma_derived_variant_well_formed(Seq::empty(), fields, 0);
        },
        Data::Enum(variants) => {
            lemma_derived_variants_well_formed(variants@, variants@.len() as int);
            let models = derived_variants(variants@, variants@.len() as int)->Ok_0;
            lemma_no_repeated_tag(models, models.len() as int);
        },
        Data::Union => {},
    }
}

} // verus!
