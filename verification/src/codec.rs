//! Codecs: the description of a message type, and the two functions that
//! it drives, one writing a message to the wire and one reading it back.

use crate::format::{
    entry_of, head_of, named_at, names_are_text, read, read_fields, read_named, read_positional,
    read_value, variant_of, written, written_fields, written_value,
};
use crate::message::{lemma_value_models, value_models, Message, MessageModel, Value, ValueModel};
use crate::port::{Failure, ShareableError};
use crate::wire::{lemma_wire_seq, wire_seq, Wire, WireValue};
use vstd::prelude::*;

verus! {

/// The mathematical value of a [`Policy`].
pub enum PolicyModel {
    Raw,
    Transfer,
    Structured,
    Nested(CodecModel),
}

/// The mathematical value of a [`FieldCodec`].
pub struct FieldModel {
    pub name: Seq<char>,
    pub policy: PolicyModel,
}

/// The mathematical value of a [`VariantCodec`].
pub struct VariantModel {
    pub tag: Seq<char>,
    pub named: bool,
    pub fields: Seq<FieldModel>,
}

/// The mathematical value of a [`Codec`].
pub struct CodecModel {
    pub name: Seq<char>,
    pub tagged: bool,
    pub variants: Seq<VariantModel>,
}

/// How one field travels.
#[derive(Debug, PartialEq, Eq)]
pub enum Policy {
    /// An atom, embedded as it is.
    Raw,
    /// A resource handle, embedded and also put on the transfer list.
    Transfer,
    /// Whatever the structured serializer made of the field.
    Structured,
    /// A message of its own, written and read by the codec given.
    Nested(Codec),
}

/// One field of a codec. `name` is empty where the fields are positional.
#[derive(Debug, PartialEq, Eq)]
pub struct FieldCodec {
    pub name: String,
    pub policy: Policy,
}

/// The fields of a record, or of one variant of a tagged union.
#[derive(Debug, PartialEq, Eq)]
pub struct VariantCodec {
    /// The variant's name; empty for a record.
    pub tag: String,
    /// Whether the fields are written with their names.
    pub named: bool,
    pub fields: Vec<FieldCodec>,
}

/// The codec of one message type.
///
/// A record has `tagged == false` and one entry in `variants`; a tagged union
/// has `tagged == true` and one entry for each variant.
#[derive(Debug, PartialEq, Eq)]
pub struct Codec {
    /// The type's name, written first where identity is verified.
    pub name: String,
    pub tagged: bool,
    pub variants: Vec<VariantCodec>,
}

/// The mathematical value of a policy.
pub open spec fn policy_model(policy: Policy) -> PolicyModel
    decreases policy,
{
    match policy {
        Policy::Raw => PolicyModel::Raw,
        Policy::Transfer => PolicyModel::Transfer,
        Policy::Structured => PolicyModel::Structured,
        Policy::Nested(codec) => PolicyModel::Nested(codec_model(codec)),
    }
}

/// The mathematical value of a field's codec.
pub open spec fn field_model(field: FieldCodec) -> FieldModel
    decreases field,
{
    FieldModel { name: field.name@, policy: policy_model(field.policy) }
}

/// The mathematical values of a list of fields, in order.
pub open spec fn field_models(fields: Seq<FieldCodec>) -> Seq<FieldModel>
    decreases fields,
{
    if fields.len() == 0 {
        Seq::empty()
    } else {
        field_models(fields.drop_last()).push(field_model(fields.last()))
    }
}

/// The mathematical value of a variant's codec.
pub open spec fn variant_model(variant: VariantCodec) -> VariantModel
    decreases variant,
{
    VariantModel { tag: variant.tag@, named: variant.named, fields: field_models(variant.fields@) }
}

/// The mathematical values of a list of variants, in order.
pub open spec fn variant_models(variants: Seq<VariantCodec>) -> Seq<VariantModel>
    decreases variants,
{
    if variants.len() == 0 {
        Seq::empty()
    } else {
        variant_models(variants.drop_last()).push(variant_model(variants.last()))
    }
}

/// The mathematical value of a codec.
pub open spec fn codec_model(codec: Codec) -> CodecModel
    decreases codec,
{
    CodecModel { name: codec.name@, tagged: codec.tagged, variants: variant_models(codec.variants@) }
}

impl View for Codec {
    type V = CodecModel;

    open spec fn view(&self) -> CodecModel {
        codec_model(*self)
    }
}

impl View for VariantCodec {
    type V = VariantModel;

    open spec fn view(&self) -> VariantModel {
        variant_model(*self)
    }
}

impl View for FieldCodec {
    type V = FieldModel;

    open spec fn view(&self) -> FieldModel {
        field_model(*self)
    }
}

impl View for Policy {
    type V = PolicyModel;

    open spec fn view(&self) -> PolicyModel {
        policy_model(*self)
    }
}

/// A positional field with the policy given.
pub open spec fn positional(policy: PolicyModel) -> FieldModel {
    FieldModel { name: Seq::empty(), policy }
}

/// A variant without fields.
pub open spec fn unit_variant(tag: Seq<char>) -> VariantModel {
    VariantModel { tag, named: false, fields: Seq::empty() }
}

/// A variant with one positional field.
pub open spec fn tuple_variant(tag: Seq<char>, policy: PolicyModel) -> VariantModel {
    VariantModel { tag, named: false, fields: seq![positional(policy)] }
}

impl VariantCodec {
    /// A variant without fields.
    pub fn unit(tag: &str) -> (variant: VariantCodec)
        ensures
            variant@ == unit_variant(tag@),
    {
        VariantCodec { tag: tag.to_owned(), named: false, fields: Vec::new() }
    }

    /// A variant with one positional field.
    pub fn tuple(tag: &str, policy: Policy) -> (variant: VariantCodec)
        ensures
            variant@ == tuple_variant(tag@, policy@),
    {
        let mut fields: Vec<FieldCodec> = Vec::new();
        let field = FieldCodec { name: String::new(), policy };
        proof {
            lemma_field_models(fields@.push(field));
            assert(field_models(fields@.push(field)) =~= seq![positional(policy@)]);
        }
        fields.push(field);
        VariantCodec { tag: tag.to_owned(), named: false, fields }
    }
}

impl Codec {
    /// The codec of a tagged union with the variants given.
    pub fn tagged_union(name: &str, variants: Vec<VariantCodec>) -> (codec: Codec)
        ensures
            codec@ == (CodecModel {
                name: name@,
                tagged: true,
                variants: variant_models(variants@),
            }),
    {
        Codec { name: name.to_owned(), tagged: true, variants }
    }
}

/// The models of a list of two variants.
pub proof fn lemma_two_variants(variants: Seq<VariantCodec>)
    requires
        variants.len() == 2,
    ensures
        variant_models(variants) == seq![variants[0]@, variants[1]@],
{
    lemma_variant_models(variants);
    assert(variant_models(variants) =~= seq![variants[0]@, variants[1]@]);
}

/// `field_models` maps the list item by item.
pub proof fn lemma_field_models(fields: Seq<FieldCodec>)
    ensures
        field_models(fields).len() == fields.len(),
        forall|i: int| 0 <= i < fields.len() ==> #[trigger] field_models(fields)[i] == fields[i]@,
    decreases fields.len(),
{
    if fields.len() > 0 {
        lemma_field_models(fields.drop_last());
    }
}

/// `variant_models` maps the list item by item.
pub proof fn lemma_variant_models(variants: Seq<VariantCodec>)
    ensures
        variant_models(variants).len() == variants.len(),
        forall|i: int|
            0 <= i < variants.len() ==> #[trigger] variant_models(variants)[i] == variants[i]@,
    decreases variants.len(),
{
    if variants.len() > 0 {
        lemma_variant_models(variants.drop_last());
    }
}

/// Appending one field to a list of fields appends its model.
pub proof fn lemma_field_models_push(fields: Seq<FieldCodec>, field: FieldCodec)
    ensures
        field_models(fields.push(field)) == field_models(fields).push(field@),
{
    assert(fields.push(field).drop_last() == fields);
}

/// Appending one variant to a list of variants appends its model.
pub proof fn lemma_variant_models_push(variants: Seq<VariantCodec>, variant: VariantCodec)
    ensures
        variant_models(variants.push(variant)) == variant_models(variants).push(variant@),
{
    assert(variants.push(variant).drop_last() == variants);
}

fn copy_field(field: &FieldCodec) -> (copy: FieldCodec)
    ensures
        copy@ == field@,
    decreases field,
{
    let policy = match &field.policy {
        Policy::Raw => Policy::Raw,
        Policy::Transfer => Policy::Transfer,
        Policy::Structured => Policy::Structured,
        Policy::Nested(codec) => Policy::Nested(copy_codec(codec)),
    };
    FieldCodec { name: field.name.clone(), policy }
}

fn copy_fields(fields: &Vec<FieldCodec>) -> (copies: Vec<FieldCodec>)
    ensures
        field_models(copies@) == field_models(fields@),
    decreases fields,
{
    let mut copies: Vec<FieldCodec> = Vec::new();
    let mut i: usize = 0;
    while i < fields.len()
        invariant
            i <= fields.len(),
            field_models(copies@) == field_models(fields@.take(i as int)),
        decreases fields.len() - i,
    {
        assert(decreases_to!(*fields => fields[i as int]));
        let copy = copy_field(&fields[i]);
        proof {
            lemma_field_models_push(copies@, copy);
            assert(fields@.take(i + 1).drop_last() == fields@.take(i as int));
        }
        copies.push(copy);
        i += 1;
    }
    proof {
        assert(fields@.take(i as int) == fields@);
    }
    copies
}

fn copy_variant(variant: &VariantCodec) -> (copy: VariantCodec)
    ensures
        copy@ == variant@,
    decreases variant,
{
    VariantCodec {
        tag: variant.tag.clone(),
        named: variant.named,
        fields: copy_fields(&variant.fields),
    }
}

fn copy_codec(codec: &Codec) -> (copy: Codec)
    ensures
        copy@ == codec@,
    decreases codec,
{
    let mut variants: Vec<VariantCodec> = Vec::new();
    let mut i: usize = 0;
    while i < codec.variants.len()
        invariant
            i <= codec.variants.len(),
            variant_models(variants@) == variant_models(codec.variants@.take(i as int)),
        decreases codec.variants.len() - i,
    {
        assert(decreases_to!(codec.variants => codec.variants[i as int]));
        let copy = copy_variant(&codec.variants[i]);
        proof {
            lemma_variant_models_push(variants@, copy);
            assert(codec.variants@.take(i + 1).drop_last() == codec.variants@.take(i as int));
        }
        variants.push(copy);
        i += 1;
    }
    proof {
        assert(codec.variants@.take(i as int) == codec.variants@);
    }
    Codec { name: codec.name.clone(), tagged: codec.tagged, variants }
}

impl Clone for Codec {
    fn clone(&self) -> (copy: Self)
        ensures
            copy@ == self@,
    {
        copy_codec(self)
    }
}

/// The mathematical value of what writing returned.
pub open spec fn wrote(result: Result<(WireValue, Vec<u64>), ShareableError>) -> Result<
    (Wire, Seq<u64>),
    Failure,
> {
    match result {
        Ok((wire, moved)) => Ok((wire@, moved@)),
        Err(e) => Err(e@),
    }
}

/// The mathematical value of what writing a list of fields returned.
pub open spec fn wrote_fields(
    result: Result<(Vec<WireValue>, Vec<u64>), ShareableError>,
) -> Result<(Seq<Wire>, Seq<u64>), Failure> {
    match result {
        Ok((stream, moved)) => Ok((wire_seq(stream@), moved@)),
        Err(e) => Err(e@),
    }
}

/// Writing one more field extends what the fields before it wrote.
proof fn lemma_written_fields_step(
    fields: Seq<FieldModel>,
    named: bool,
    verify: bool,
    values: Seq<ValueModel>,
    i: int,
)
    requires
        0 <= i < values.len(),
        fields.len() == values.len(),
    ensures
        written_fields(fields.take(i + 1), named, verify, values.take(i + 1)) == (match written_fields(
            fields.take(i),
            named,
            verify,
            values.take(i),
        ) {
            Ok((stream, moved)) => match written_value(fields[i].policy, verify, values[i]) {
                Ok((wire, more)) => Ok((stream + entry_of(fields[i], named, wire), moved + more)),
                Err(e) => Err(e),
            },
            Err(e) => Err(e),
        }),
{
    assert(fields.take(i + 1).drop_last() == fields.take(i));
    assert(values.take(i + 1).drop_last() == values.take(i));
}

/// A failure among the first fields is the failure of the whole list.
proof fn lemma_written_fields_failure(
    fields: Seq<FieldModel>,
    named: bool,
    verify: bool,
    values: Seq<ValueModel>,
    i: int,
)
    requires
        0 <= i <= values.len(),
        fields.len() == values.len(),
        written_fields(fields.take(i), named, verify, values.take(i)) is Err,
    ensures
        written_fields(fields, named, verify, values) == written_fields(
            fields.take(i),
            named,
            verify,
            values.take(i),
        ),
    decreases values.len() - i,
{
    if i < values.len() {
        lemma_written_fields_step(fields, named, verify, values, i);
        lemma_written_fields_failure(fields, named, verify, values, i + 1);
    } else {
        assert(fields.take(i) == fields);
        assert(values.take(i) == values);
    }
}

/// Appending one item to a list of wire values appends its value.
proof fn lemma_wire_seq_push(items: Seq<WireValue>, item: WireValue)
    ensures
        wire_seq(items.push(item)) == wire_seq(items).push(item@),
{
    assert(items.push(item).drop_last() == items);
}

/// Writes one field: its wire value and the handles that it moves.
fn write_field(policy: &Policy, verify: bool, value: &Value) -> (result: Result<
    (WireValue, Vec<u64>),
    ShareableError,
>)
    ensures
        wrote(result) == written_value(policy@, verify, value@),
    decreases value,
{
    match policy {
        Policy::Raw => match value {
            Value::Raw(wire) => match wire {
                WireValue::Sequence(_) => Err(ShareableError::IncompatibleType),
                _ => Ok((wire.clone(), Vec::new())),
            },
            _ => Err(ShareableError::IncompatibleType),
        },
        Policy::Transfer => match value {
            Value::Raw(WireValue::Handle(handle)) => {
                let mut moved: Vec<u64> = Vec::new();
                moved.push(*handle);
                assert(moved@ == seq![*handle]);
                Ok((WireValue::Handle(*handle), moved))
            },
            _ => Err(ShareableError::IncompatibleType),
        },
        Policy::Structured => match value {
            Value::Structured(Some(wire)) => Ok((wire.clone(), Vec::new())),
            Value::Structured(None) => Err(ShareableError::SerdeFailure),
            _ => Err(ShareableError::IncompatibleType),
        },
        Policy::Nested(codec) => match value {
            Value::Nested(message) => codec.encode(message, verify),
            _ => Err(ShareableError::IncompatibleType),
        },
    }
}

/// Writes the fields of one variant in declaration order.
fn write_fields(fields: &Vec<FieldCodec>, named: bool, verify: bool, values: &Vec<Value>) -> (result:
    Result<(Vec<WireValue>, Vec<u64>), ShareableError>)
    requires
        fields.len() == values.len(),
    ensures
        wrote_fields(result) == written_fields(
            field_models(fields@),
            named,
            verify,
            value_models(values@),
        ),
    decreases values,
{
    let ghost specs = field_models(fields@);
    let ghost models = value_models(values@);
    proof {
        lemma_field_models(fields@);
        lemma_value_models(values@);
    }
    let mut stream: Vec<WireValue> = Vec::new();
    let mut moved: Vec<u64> = Vec::new();
    let mut i: usize = 0;
    while i < values.len()
        invariant
            i <= values.len(),
            fields.len() == values.len(),
            specs == field_models(fields@),
            models == value_models(values@),
            specs.len() == fields.len(),
            models.len() == values.len(),
            forall|k: int| 0 <= k < fields.len() ==> #[trigger] specs[k] == fields[k]@,
            forall|k: int| 0 <= k < values.len() ==> #[trigger] models[k] == values[k]@,
            written_fields(specs.take(i as int), named, verify, models.take(i as int)) == Ok::<
                (Seq<Wire>, Seq<u64>),
                Failure,
            >((wire_seq(stream@), moved@)),
        decreases values.len() - i,
    {
        proof {
            lemma_written_fields_step(specs, named, verify, models, i as int);
            assert(decreases_to!(*values => values[i as int]));
        }
        match write_field(&fields[i].policy, verify, &values[i]) {
            Ok((wire, more)) => {
                let ghost before = stream@;
                if named {
                    let name = WireValue::Text(fields[i].name.clone());
                    proof {
                        lemma_wire_seq_push(stream@, name);
                    }
                    stream.push(name);
                }
                proof {
                    lemma_wire_seq_push(stream@, wire);
                    assert(wire_seq(stream@.push(wire)) == wire_seq(before) + entry_of(
                        specs[i as int],
                        named,
                        wire@,
                    ));
                }
                stream.push(wire);
                let mut more = more;
                moved.append(&mut more);
                i += 1;
            },
            Err(e) => {
                proof {
                    lemma_written_fields_failure(specs, named, verify, models, i + 1);
                }
                return Err(e);
            },
        }
    }
    proof {
        assert(specs.take(i as int) == specs);
        assert(models.take(i as int) == models);
    }
    Ok((stream, moved))
}

/// The mathematical value of what reading a message returned.
pub open spec fn got(result: Result<Message, ShareableError>) -> Result<MessageModel, Failure> {
    match result {
        Ok(message) => Ok(message@),
        Err(e) => Err(e@),
    }
}

/// The mathematical value of what reading one field returned.
pub open spec fn got_value(result: Result<Value, ShareableError>) -> Result<ValueModel, Failure> {
    match result {
        Ok(value) => Ok(value@),
        Err(e) => Err(e@),
    }
}

/// The mathematical value of what reading a list of fields returned.
pub open spec fn got_fields(result: Result<Vec<Value>, ShareableError>) -> Result<
    Seq<ValueModel>,
    Failure,
> {
    match result {
        Ok(values) => Ok(value_models(values@)),
        Err(e) => Err(e@),
    }
}

/// A failure among the first positional fields is the failure of them all.
proof fn lemma_read_positional_failure(
    fields: Seq<FieldModel>,
    verify: bool,
    items: Seq<Wire>,
    from: int,
    count: int,
    more: int,
)
    requires
        0 <= count <= more,
        0 <= from,
        from + more <= items.len(),
        read_positional(fields, verify, items, from, count) is Err,
    ensures
        read_positional(fields, verify, items, from, more) == read_positional(
            fields,
            verify,
            items,
            from,
            count,
        ),
    decreases more - count,
{
    if count < more {
        lemma_read_positional_failure(fields, verify, items, from, count, more - 1);
    }
}

/// A failure among the first named fields is the failure of them all.
proof fn lemma_read_named_failure(
    fields: Seq<FieldModel>,
    verify: bool,
    items: Seq<Wire>,
    from: int,
    count: int,
    more: int,
)
    requires
        0 <= count <= more,
        read_named(fields, verify, items, from, count) is Err,
    ensures
        read_named(fields, verify, items, from, more) == read_named(
            fields,
            verify,
            items,
            from,
            count,
        ),
    decreases more - count,
{
    if count < more {
        lemma_read_named_failure(fields, verify, items, from, count, more - 1);
    }
}

/// A variant found among the first variants is the one found among all.
proof fn lemma_variant_found(variants: Seq<VariantModel>, tag: Seq<char>, count: int)
    requires
        0 <= count <= variants.len(),
        variant_of(variants.take(count), tag) is Some,
    ensures
        variant_of(variants, tag) == variant_of(variants.take(count), tag),
    decreases variants.len() - count,
{
    if count < variants.len() {
        assert(variants.take(count + 1).drop_last() == variants.take(count));
        lemma_variant_found(variants, tag, count + 1);
    } else {
        assert(variants.take(count) == variants);
    }
}

/// Appending one value to a list of values appends its model.
proof fn lemma_value_models_push(values: Seq<Value>, value: Value)
    ensures
        value_models(values.push(value)) == value_models(values).push(value@),
{
    assert(values.push(value).drop_last() == values);
}

/// Reads one field from its wire value.
fn read_field(policy: &Policy, verify: bool, wire: &WireValue) -> (result: Result<
    Value,
    ShareableError,
>)
    ensures
        got_value(result) == read_value(policy@, verify, wire@),
    decreases wire, 1int,
{
    match policy {
        Policy::Raw => match wire {
            WireValue::Sequence(_) => Err(ShareableError::BadPayload),
            _ => Ok(Value::Raw(wire.clone())),
        },
        Policy::Transfer => match wire {
            WireValue::Handle(handle) => Ok(Value::Raw(WireValue::Handle(*handle))),
            _ => Err(ShareableError::BadPayload),
        },
        Policy::Structured => Ok(Value::Structured(Some(wire.clone()))),
        Policy::Nested(codec) => match codec.decode(wire, verify) {
            Ok(message) => Ok(Value::Nested(message)),
            Err(e) => Err(e),
        },
    }
}

/// Reads positional fields left to right from `items[from..]`.
fn read_fields_unnamed(
    fields: &Vec<FieldCodec>,
    verify: bool,
    items: &Vec<WireValue>,
    from: usize,
) -> (result: Result<Vec<Value>, ShareableError>)
    requires
        from <= items.len(),
    ensures
        got_fields(result) == read_fields(
            field_models(fields@),
            false,
            verify,
            wire_seq(items@),
            from as int,
        ),
    decreases items, 2int,
{
    let ghost specs = field_models(fields@);
    let ghost wires = wire_seq(items@);
    proof {
        lemma_field_models(fields@);
        lemma_wire_seq(items@);
    }
    if items.len() - from != fields.len() {
        return Err(ShareableError::BadPayload);
    }
    let mut values: Vec<Value> = Vec::new();
    let mut count: usize = 0;
    while count < fields.len()
        invariant
            count <= fields.len(),
            from + fields.len() == items.len(),
            specs == field_models(fields@),
            wires == wire_seq(items@),
            specs.len() == fields.len(),
            wires.len() == items.len(),
            forall|k: int| 0 <= k < fields.len() ==> #[trigger] specs[k] == fields[k]@,
            forall|k: int| 0 <= k < items.len() ==> #[trigger] wires[k] == items[k]@,
            read_positional(specs, verify, wires, from as int, count as int) == Ok::<
                Seq<ValueModel>,
                Failure,
            >(value_models(values@)),
        decreases fields.len() - count,
    {
        proof {
            assert(decreases_to!(*items => items[from + count]));
        }
        match read_field(&fields[count].policy, verify, &items[from + count]) {
            Ok(value) => {
                proof {
                    lemma_value_models_push(values@, value);
                }
                values.push(value);
                count += 1;
            },
            Err(e) => {
                proof {
                    lemma_read_positional_failure(
                        specs,
                        verify,
                        wires,
                        from as int,
                        count + 1,
                        fields.len() as int,
                    );
                }
                return Err(e);
            },
        }
    }
    Ok(values)
}

/// Among the `pairs` pairs in `items[from..]`, finds the last one whose name
/// is `name`.
fn find_name(items: &Vec<WireValue>, from: usize, pairs: usize, name: &String) -> (found: Option<
    usize,
>)
    requires
        from + 2 * pairs <= items.len(),
    ensures
        match found {
            Some(k) => named_at(wire_seq(items@), from as int, pairs as int, name@) == Some(
                k as int,
            ) && k < pairs,
            None => named_at(wire_seq(items@), from as int, pairs as int, name@) is None,
        },
{
    let ghost wires = wire_seq(items@);
    proof {
        lemma_wire_seq(items@);
    }
    let mut k: usize = pairs;
    while k > 0
        invariant
            k <= pairs,
            from + 2 * pairs <= items.len(),
            wires == wire_seq(items@),
            wires.len() == items.len(),
            forall|j: int| 0 <= j < items.len() ==> #[trigger] wires[j] == items[j]@,
            named_at(wires, from as int, pairs as int, name@) == named_at(
                wires,
                from as int,
                k as int,
                name@,
            ),
        decreases k,
    {
        let same = match &items[from + 2 * (k - 1)] {
            WireValue::Text(text) => *text == *name,
            _ => false,
        };
        assert(same == (wires[from + 2 * (k - 1)] == Wire::Text(name@)));
        if same {
            return Some(k - 1);
        }
        k -= 1;
    }
    None
}

/// Reads named fields from the pairs in `items[from..]`, each from the pair
/// that has its name.
fn read_fields_named(
    fields: &Vec<FieldCodec>,
    verify: bool,
    items: &Vec<WireValue>,
    from: usize,
) -> (result: Result<Vec<Value>, ShareableError>)
    requires
        from <= items.len(),
    ensures
        got_fields(result) == read_fields(
            field_models(fields@),
            true,
            verify,
            wire_seq(items@),
            from as int,
        ),
    decreases items, 2int,
{
    let ghost specs = field_models(fields@);
    let ghost wires = wire_seq(items@);
    proof {
        lemma_field_models(fields@);
        lemma_wire_seq(items@);
    }
    let room = items.len() - from;
    if room % 2 != 0 || room / 2 != fields.len() {
        return Err(ShareableError::BadPayload);
    }
    let pairs = fields.len();
    let mut k: usize = 0;
    while k < pairs
        invariant
            k <= pairs,
            pairs == fields.len(),
            from + 2 * pairs == items.len(),
            wires == wire_seq(items@),
            wires.len() == items.len(),
            forall|j: int| 0 <= j < items.len() ==> #[trigger] wires[j] == items[j]@,
            names_are_text(wires, from as int, k as int),
        decreases pairs - k,
    {
        match &items[from + 2 * k] {
            WireValue::Text(_) => {},
            _ => {
                assert(!(wires[from + 2 * k] is Text));
                return Err(ShareableError::BadPayload);
            },
        }
        k += 1;
    }
    let mut values: Vec<Value> = Vec::new();
    let mut count: usize = 0;
    while count < fields.len()
        invariant
            count <= fields.len(),
            pairs == fields.len(),
            from + 2 * pairs == items.len(),
            specs == field_models(fields@),
            wires == wire_seq(items@),
            specs.len() == fields.len(),
            wires.len() == items.len(),
            forall|k: int| 0 <= k < fields.len() ==> #[trigger] specs[k] == fields[k]@,
            forall|k: int| 0 <= k < items.len() ==> #[trigger] wires[k] == items[k]@,
            names_are_text(wires, from as int, pairs as int),
            read_named(specs, verify, wires, from as int, count as int) == Ok::<
                Seq<ValueModel>,
                Failure,
            >(value_models(values@)),
        decreases fields.len() - count,
    {
        let read = match find_name(items, from, pairs, &fields[count].name) {
            Some(k) => {
                proof {
                    assert(decreases_to!(*items => items[from + 2 * k + 1]));
                }
                read_field(&fields[count].policy, verify, &items[from + 2 * k + 1])
            },
            None => Err(ShareableError::BadPayload),
        };
        match read {
            Ok(value) => {
                proof {
                    lemma_value_models_push(values@, value);
                }
                values.push(value);
                count += 1;
            },
            Err(e) => {
                proof {
                    lemma_read_named_failure(
                        specs,
                        verify,
                        wires,
                        from as int,
                        count + 1,
                        fields.len() as int,
                    );
                }
                return Err(e);
            },
        }
    }
    Ok(values)
}

/// Reads the fields of one variant from `items[from..]`.
fn read_variant(variant: &VariantCodec, verify: bool, items: &Vec<WireValue>, from: usize) -> (result:
    Result<Vec<Value>, ShareableError>)
    requires
        from <= items.len(),
    ensures
        got_fields(result) == read_fields(
            variant@.fields,
            variant@.named,
            verify,
            wire_seq(items@),
            from as int,
        ),
    decreases items, 3int,
{
    if variant.named {
        read_fields_named(&variant.fields, verify, items, from)
    } else {
        read_fields_unnamed(&variant.fields, verify, items, from)
    }
}

/// Finds the first variant whose tag is `tag`.
fn find_variant(variants: &Vec<VariantCodec>, tag: &String) -> (found: Option<usize>)
    ensures
        match found {
            Some(k) => variant_of(variant_models(variants@), tag@) == Some(k as int) && k
                < variants.len(),
            None => variant_of(variant_models(variants@), tag@) is None,
        },
{
    let ghost models = variant_models(variants@);
    proof {
        lemma_variant_models(variants@);
    }
    let mut i: usize = 0;
    while i < variants.len()
        invariant
            i <= variants.len(),
            models == variant_models(variants@),
            models.len() == variants.len(),
            forall|k: int| 0 <= k < variants.len() ==> #[trigger] models[k] == variants[k]@,
            variant_of(models.take(i as int), tag@) is None,
        decreases variants.len() - i,
    {
        proof {
            assert(models.take(i + 1).drop_last() == models.take(i as int));
        }
        if variants[i].tag == *tag {
            proof {
                lemma_variant_found(models, tag@, i + 1);
            }
            return Some(i);
        }
        i += 1;
    }
    proof {
        assert(models.take(i as int) == models);
    }
    None
}

/// Reads a record: the fields of its one variant.
fn read_shareable_struct(codec: &Codec, verify: bool, items: &Vec<WireValue>, from: usize) -> (result:
    Result<Message, ShareableError>)
    requires
        from <= items.len(),
        !codec.tagged,
    ensures
        got(result) == (if codec@.variants.len() == 0 {
            Err(Failure::BadPayload)
        } else {
            match read_fields(
                codec@.variants[0].fields,
                codec@.variants[0].named,
                verify,
                wire_seq(items@),
                from as int,
            ) {
                Ok(fields) => Ok(MessageModel { variant: 0, fields }),
                Err(e) => Err(e),
            }
        }),
    decreases items, 4int,
{
    proof {
        lemma_variant_models(codec.variants@);
    }
    if codec.variants.len() == 0 {
        return Err(ShareableError::BadPayload);
    }
    match read_variant(&codec.variants[0], verify, items, from) {
        Ok(fields) => Ok(Message { variant: 0, fields }),
        Err(e) => Err(e),
    }
}

/// Reads a tagged union: the tag at `items[from]`, then the fields of the
/// variant that it names.
fn read_shareable_enum(codec: &Codec, verify: bool, items: &Vec<WireValue>, from: usize) -> (result:
    Result<Message, ShareableError>)
    requires
        from <= items.len(),
        codec.tagged,
    ensures
        got(result) == (if items.len() <= from || !(wire_seq(items@)[from as int] is Text) {
            Err(Failure::BadPayload)
        } else {
            let tag = wire_seq(items@)[from as int]->Text_0;
            match variant_of(codec@.variants, tag) {
                Some(k) => match read_fields(
                    codec@.variants[k].fields,
                    codec@.variants[k].named,
                    verify,
                    wire_seq(items@),
                    from + 1,
                ) {
                    Ok(fields) => Ok(MessageModel { variant: k, fields }),
                    Err(e) => Err(e),
                },
                None => Err(Failure::InvalidIdentifier(tag)),
            }
        }),
    decreases items, 4int,
{
    proof {
        lemma_variant_models(codec.variants@);
        lemma_wire_seq(items@);
    }
    if items.len() <= from {
        return Err(ShareableError::BadPayload);
    }
    match &items[from] {
        WireValue::Text(tag) => match find_variant(&codec.variants, tag) {
            Some(k) => match read_variant(&codec.variants[k], verify, items, from + 1) {
                Ok(fields) => Ok(Message { variant: k, fields }),
                Err(e) => Err(e),
            },
            None => Err(ShareableError::InvalidIdentifier(tag.clone())),
        },
        _ => Err(ShareableError::BadPayload),
    }
}

impl Codec {
    /// Reads a message of this codec's type from `wire`.
    ///
    /// Named fields are found by their names, so their pairs may stand in
    /// any order; positional fields are taken left to right. Nothing is
    /// coerced: a payload of the wrong arity, with a missing name, or with
    /// something other than a string where a name or tag is due, gives
    /// `BadPayload`; a tag that names no variant gives `InvalidIdentifier`
    /// with the tag; with `verify`, the name of another type gives
    /// `IncompatibleType`. What a nested codec reports is passed on
    /// unchanged.
    pub fn decode(&self, wire: &WireValue, verify: bool) -> (result: Result<Message, ShareableError>)
        ensures
            got(result) == read(self@, verify, wire@),
        decreases wire, 0int,
    {
        match wire {
            WireValue::Sequence(items) => {
                proof {
                    lemma_wire_seq(items@);
                }
                let mut from: usize = 0;
                if verify {
                    if items.len() == 0 {
                        return Err(ShareableError::BadPayload);
                    }
                    match &items[0] {
                        WireValue::Text(name) => {
                            if !(*name == self.name) {
                                return Err(ShareableError::IncompatibleType);
                            }
                        },
                        _ => {
                            return Err(ShareableError::BadPayload);
                        },
                    }
                    from = 1;
                }
                if self.tagged {
                    read_shareable_enum(self, verify, items, from)
                } else {
                    read_shareable_struct(self, verify, items, from)
                }
            },
            _ => Err(ShareableError::BadPayload),
        }
    }

    /// Writes `message` to the wire: the wire value, a sequence, and the
    /// transfer list.
    ///
    /// With `verify`, every message starts with the name of its type. A
    /// tagged union then writes the variant's name, and the fields follow in
    /// declaration order, each named field behind its name. The transfer
    /// list holds the handles of the fields marked for transfer in the order
    /// in which they are written, those of a nested message included.
    ///
    /// A message that is not of this codec's type gives `IncompatibleType`,
    /// a structured field that could not be serialized `SerdeFailure`.
    pub fn encode(&self, message: &Message, verify: bool) -> (result: Result<
        (WireValue, Vec<u64>),
        ShareableError,
    >)
        ensures
            wrote(result) == written(self@, verify, message@),
        decreases message,
    {
        proof {
            lemma_variant_models(self.variants@);
        }
        if message.variant >= self.variants.len() {
            return Err(ShareableError::IncompatibleType);
        }
        if !self.tagged && message.variant != 0 {
            return Err(ShareableError::IncompatibleType);
        }
        let variant = &self.variants[message.variant];
        proof {
            lemma_field_models(variant.fields@);
            lemma_value_models(message.fields@);
        }
        if message.fields.len() != variant.fields.len() {
            return Err(ShareableError::IncompatibleType);
        }
        let mut payload: Vec<WireValue> = Vec::new();
        if verify {
            payload.push(WireValue::Text(self.name.clone()));
        }
        if self.tagged {
            payload.push(WireValue::Text(variant.tag.clone()));
        }
        proof {
            lemma_wire_seq(payload@);
            assert(wire_seq(payload@) == head_of(self@, verify, variant@));
        }
        match write_fields(&variant.fields, variant.named, verify, &message.fields) {
            Ok((stream, moved)) => {
                let ghost head = payload@;
                let ghost items = stream@;
                let mut stream = stream;
                payload.append(&mut stream);
                proof {
                    lemma_wire_seq(head);
                    lemma_wire_seq(items);
                    lemma_wire_seq(payload@);
                    assert(wire_seq(payload@) == wire_seq(head) + wire_seq(items));
                }
                Ok((WireValue::Sequence(payload), moved))
            },
            Err(e) => Err(e),
        }
    }
}

} // verus!
