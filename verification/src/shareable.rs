//! Deriving codecs: from the definition of a message type, with the
//! attributes on its fields, to the codec of that type.

use crate::attrs::{attributes_of, metas_of, parse_attributes, AttrError, Field, Repr};
use crate::codec::{
    field_models, lemma_field_models, lemma_field_models_push, lemma_variant_models,
    lemma_variant_models_push, variant_models, Codec, CodecModel, FieldCodec, FieldModel, Policy,
    PolicyModel, VariantCodec, VariantModel,
};
use vstd::prelude::*;

verus! {
/// The fields of a record or of a variant, as the definition gives them.
#[derive(Debug, PartialEq, Eq)]
pub enum Fields {
    Named(Vec<Field>),
    Unnamed(Vec<Field>),
    Unit,
}

/// One variant of a tagged union, as the definition gives it.
#[derive(Debug, PartialEq, Eq)]
pub struct Variant {
    pub ident: String,
    pub fields: Fields,
}

/// What kind of type a definition declares.
#[derive(Debug, PartialEq, Eq)]
pub enum Data {
    Struct(Fields),
    Enum(Vec<Variant>),
    Union,
}

/// The definition of a message type: its name and its shape.
#[derive(Debug, PartialEq, Eq)]
pub struct DeriveInput {
    pub ident: String,
    pub data: Data,
}

/// Why no codec could be derived from a definition.
#[derive(Debug, Clone, Copy, PartialEq, Eq, Structural)]
pub enum DeriveError {
    /// The definition is a union.
    UnsupportedUnion,
    /// The attributes of field `field` of variant `variant` were refused
    /// (`variant` is 0 for a record).
    Attribute { variant: usize, field: usize, error: AttrError },
    /// Field `field` of variant `variant` is to be written by the codec of
    /// its type, and that type has none.
    NotShareable { variant: usize, field: usize },
    /// Field `field` of variant `variant` has the name of a field before it.
    DuplicateField { variant: usize, field: usize },
    /// Variant `variant` has the name of a variant before it.
    DuplicateVariant { variant: usize },
}

impl DeriveError {
    /// What the refusal says.
    pub open spec fn text(self) -> Seq<char> {
        match self {
            DeriveError::UnsupportedUnion => "unions are not supported by derive(Shareable)"@,
            DeriveError::Attribute { error, .. } => error.kind.text(),
            DeriveError::NotShareable { .. } => "the field's type is not shareable"@,
            DeriveError::DuplicateField { .. } => "the field's name is already defined"@,
            DeriveError::DuplicateVariant { .. } => "the variant's name is already defined"@,
        }
    }

    /// What the refusal says.
    pub fn message(&self) -> (message: &'static str)
        ensures
            message@ == self.text(),
    {
        match self {
            DeriveError::UnsupportedUnion => "unions are not supported by derive(Shareable)",
            DeriveError::Attribute { variant: _, field: _, error } => error.kind.message(),
            DeriveError::NotShareable { .. } => "the field's type is not shareable",
            DeriveError::DuplicateField { .. } => "the field's name is already defined",
            DeriveError::DuplicateVariant { .. } => "the variant's name is already defined",
        }
    }
}

/// Whether the field at `at` has the name of a field before it.
pub open spec fn name_repeats(fields: Seq<FieldModel>, at: int) -> bool {
    exists|i: int| 0 <= i < at && (#[trigger] fields[i]).name == fields[at].name
}

/// The first of the first `count` fields that has the name of a field
/// before it.
pub open spec fn first_repeated_name(fields: Seq<FieldModel>, count: int) -> Option<int>
    decreases count,
{
    if count <= 0 {
        None
    } else {
        match first_repeated_name(fields, count - 1) {
            Some(j) => Some(j),
            None => if name_repeats(fields, count - 1) {
                Some(count - 1)
            } else {
                None
            },
        }
    }
}

/// Whether the variant at `at` has the name of a variant before it.
pub open spec fn tag_repeats(variants: Seq<VariantModel>, at: int) -> bool {
    exists|i: int| 0 <= i < at && (#[trigger] variants[i]).tag == variants[at].tag
}

/// The first of the first `count` variants that has the name of a variant
/// before it.
pub open spec fn first_repeated_tag(variants: Seq<VariantModel>, count: int) -> Option<int>
    decreases count,
{
    if count <= 0 {
        None
    } else {
        match first_repeated_tag(variants, count - 1) {
            Some(k) => Some(k),
            None => if tag_repeats(variants, count - 1) {
                Some(count - 1)
            } else {
                None
            },
        }
    }
}

/// The codec of one field, as its definition declares it.
pub open spec fn derived_field(field: Field, variant: int, index: int) -> Result<
    FieldModel,
    DeriveError,
> {
    let name = match field.ident {
        Some(ident) => ident@,
        None => Seq::empty(),
    };
    match attributes_of(metas_of(field.attrs@)) {
        Ok(attributes) => match attributes.repr {
            Repr::Raw => Ok(
                FieldModel {
                    name,
                    policy: if attributes.transfer {
                        PolicyModel::Transfer
                    } else {
                        PolicyModel::Raw
                    },
                },
            ),
            Repr::Serde => Ok(FieldModel { name, policy: PolicyModel::Structured }),
            Repr::Shareable => match field.codec {
                Some(codec) => Ok(FieldModel { name, policy: PolicyModel::Nested(codec@) }),
                None => Err(
                    DeriveError::NotShareable { variant: variant as usize, field: index as usize },
                ),
            },
        },
        Err(error) => Err(
            DeriveError::Attribute { variant: variant as usize, field: index as usize, error },
        ),
    }
}

/// The codecs of the first `count` fields, in declaration order. The first
/// field that is refused decides the refusal.
pub open spec fn derived_fields(fields: Seq<Field>, variant: int, count: int) -> Result<
    Seq<FieldModel>,
    DeriveError,
>
    decreases count,
{
    if count <= 0 {
        Ok(Seq::empty())
    } else {
        match derived_fields(fields, variant, count - 1) {
            Ok(models) => match derived_field(fields[count - 1], variant, count - 1) {
                Ok(model) => Ok(models.push(model)),
                Err(e) => Err(e),
            },
            Err(e) => Err(e),
        }
    }
}

/// The codec of a record's body or of a variant's.
pub open spec fn derived_variant(tag: Seq<char>, fields: Fields, variant: int) -> Result<
    VariantModel,
    DeriveError,
> {
    match fields {
        Fields::Named(list) => match derived_fields(list@, variant, list@.len() as int) {
            Ok(models) => match first_repeated_name(models, models.len() as int) {
                Some(j) => Err(
                    DeriveError::DuplicateField { variant: variant as usize, field: j as usize },
                ),
                None => Ok(VariantModel { tag, named: true, fields: models }),
            },
            Err(e) => Err(e),
        },
        Fields::Unnamed(list) => match derived_fields(list@, variant, list@.len() as int) {
            Ok(models) => Ok(VariantModel { tag, named: false, fields: models }),
            Err(e) => Err(e),
        },
        Fields::Unit => Ok(VariantModel { tag, named: false, fields: Seq::empty() }),
    }
}

/// The codecs of the first `count` variants, in declaration order.
pub open spec fn derived_variants(variants: Seq<Variant>, count: int) -> Result<
    Seq<VariantModel>,
    DeriveError,
>
    decreases count,
{
    if count <= 0 {
        Ok(Seq::empty())
    } else {
        match derived_variants(variants, count - 1) {
            Ok(models) => match derived_variant(
                variants[count - 1].ident@,
                variants[count - 1].fields,
                count - 1,
            ) {
                Ok(model) => Ok(models.push(model)),
                Err(e) => Err(e),
            },
            Err(e) => Err(e),
        }
    }
}

/// The codec that a definition declares: one body for a record, one tagged
/// variant for each variant of a tagged union, none for a union. Named
/// fields of one body have names of their own, and so have the variants.
pub open spec fn derived(input: DeriveInput) -> Result<CodecModel, DeriveError> {
    match input.data {
        Data::Struct(fields) => match derived_variant(Seq::empty(), fields, 0) {
            Ok(body) => Ok(CodecModel { name: input.ident@, tagged: false, variants: seq![body] }),
            Err(e) => Err(e),
        },
        Data::Enum(variants) => match derived_variants(variants@, variants@.len() as int) {
            Ok(models) => match first_repeated_tag(models, models.len() as int) {
                Some(k) => Err(DeriveError::DuplicateVariant { variant: k as usize }),
                None => Ok(CodecModel { name: input.ident@, tagged: true, variants: models }),
            },
            Err(e) => Err(e),
        },
        Data::Union => Err(DeriveError::UnsupportedUnion),
    }
}

/// A refusal among the first fields is the refusal of them all.
proof fn lemma_derived_fields_refusal(fields: Seq<Field>, variant: int, count: int, more: int)
    requires
        count <= more,
        derived_fields(fields, variant, count) is Err,
    ensures
        derived_fields(fields, variant, more) == derived_fields(fields, variant, count),
    decreases more - count,
{
    if count < more {
        lemma_derived_fields_refusal(fields, variant, count, more - 1);
    }
}

/// A refusal among the first variants is the refusal of them all.
proof fn lemma_derived_variants_refusal(variants: Seq<Variant>, count: int, more: int)
    requires
        count <= more,
        derived_variants(variants, count) is Err,
    ensures
        derived_variants(variants, more) == derived_variants(variants, count),
    decreases more - count,
{
    if count < more {
        lemma_derived_variants_refusal(variants, count, more - 1);
    }
}

/// Derives the codec of one field from its attributes.
fn derive_field(field: &Field, variant: usize, index: usize) -> (result: Result<
    FieldCodec,
    DeriveError,
>)
    ensures
        match result {
            Ok(codec) => derived_field(*field, variant as int, index as int) == Ok::<
                FieldModel,
                DeriveError,
            >(codec@),
            Err(e) => derived_field(*field, variant as int, index as int) == Err::<
                FieldModel,
                DeriveError,
            >(e),
        },
{
    let name = match &field.ident {
        Some(ident) => ident.clone(),
        None => String::new(),
    };
    match parse_attributes(field) {
        Ok(attributes) => match attributes.repr {
            Repr::Raw => {
                if attributes.transfer {
                    Ok(FieldCodec { name, policy: Policy::Transfer })
                } else {
                    Ok(FieldCodec { name, policy: Policy::Raw })
                }
            },
            Repr::Serde => Ok(FieldCodec { name, policy: Policy::Structured }),
            Repr::Shareable => match &field.codec {
                Some(codec) => Ok(FieldCodec { name, policy: Policy::Nested(codec.clone()) }),
                None => Err(DeriveError::NotShareable { variant, field: index }),
            },
        },
        Err(error) => Err(DeriveError::Attribute { variant, field: index, error }),
    }
}

/// Derives the codecs of a list of fields, in declaration order.
fn derive_fields(fields: &Vec<Field>, variant: usize) -> (result: Result<
    Vec<FieldCodec>,
    DeriveError,
>)
    ensures
        match result {
            Ok(codecs) => derived_fields(fields@, variant as int, fields@.len() as int) == Ok::<
                Seq<FieldModel>,
                DeriveError,
            >(field_models(codecs@)),
            Err(e) => derived_fields(fields@, variant as int, fields@.len() as int) == Err::<
                Seq<FieldModel>,
                DeriveError,
            >(e),
        },
{
    let mut codecs: Vec<FieldCodec> = Vec::new();
    let mut i: usize = 0;
    while i < fields.len()
        invariant
            i <= fields.len(),
            derived_fields(fields@, variant as int, i as int) == Ok::<
                Seq<FieldModel>,
                DeriveError,
            >(field_models(codecs@)),
        decreases fields.len() - i,
    {
        match derive_field(&fields[i], variant, i) {
            Ok(codec) => {
                proof {
                    lemma_field_models_push(codecs@, codec);
                }
                codecs.push(codec);
                i += 1;
            },
            Err(e) => {
                proof {
                    lemma_derived_fields_refusal(
                        fields@,
                        variant as int,
                        i + 1,
                        fields@.len() as int,
                    );
                }
                return Err(e);
            },
        }
    }
    Ok(codecs)
}

/// Finds the first field that has the name of a field before it.
fn repeated_name(fields: &Vec<FieldCodec>) -> (found: Option<usize>)
    ensures
        match found {
            Some(j) => first_repeated_name(field_models(fields@), fields@.len() as int) == Some(
                j as int,
            ) && j < fields.len(),
            None => first_repeated_name(field_models(fields@), fields@.len() as int) is None,
        },
{
    let ghost models = field_models(fields@);
    proof {
        lemma_field_models(fields@);
    }
    let mut j: usize = 0;
    while j < fields.len()
        invariant
            j <= fields.len(),
            models == field_models(fields@),
            models.len() == fields.len(),
            forall|k: int| 0 <= k < fields.len() ==> #[trigger] models[k] == fields[k]@,
            first_repeated_name(models, j as int) is None,
        decreases fields.len() - j,
    {
        let mut i: usize = 0;
        while i < j
            invariant
                i <= j,
                j < fields.len(),
                models == field_models(fields@),
                first_repeated_name(models, j as int) is None,
                models.len() == fields.len(),
                forall|k: int| 0 <= k < fields.len() ==> #[trigger] models[k] == fields[k]@,
                forall|k: int| 0 <= k < i ==> (#[trigger] models[k]).name != models[j as int].name,
            decreases j - i,
        {
            if fields[i].name == fields[j].name {
                proof {
                    assert(models[i as int].name == models[j as int].name);
                    assert(name_repeats(models, j as int));
                    lemma_repeated_name_stays(models, j + 1, fields.len() as int);
                }
                return Some(j);
            }
            i += 1;
        }
        assert(!name_repeats(models, j as int));
        j += 1;
    }
    None
}

/// Finds the first variant that has the name of a variant before it.
fn repeated_tag(variants: &Vec<VariantCodec>) -> (found: Option<usize>)
    ensures
        match found {
            Some(j) => first_repeated_tag(variant_models(variants@), variants@.len() as int)
                == Some(j as int) && j < variants.len(),
            None => first_repeated_tag(variant_models(variants@), variants@.len() as int) is None,
        },
{
    let ghost models = variant_models(variants@);
    proof {
        lemma_variant_models(variants@);
    }
    let mut j: usize = 0;
    while j < variants.len()
        invariant
            j <= variants.len(),
            models == variant_models(variants@),
            models.len() == variants.len(),
            forall|k: int| 0 <= k < variants.len() ==> #[trigger] models[k] == variants[k]@,
            first_repeated_tag(models, j as int) is None,
        decreases variants.len() - j,
    {
        let mut i: usize = 0;
        while i < j
            invariant
                i <= j,
                j < variants.len(),
                models == variant_models(variants@),
                first_repeated_tag(models, j as int) is None,
                models.len() == variants.len(),
                forall|k: int| 0 <= k < variants.len() ==> #[trigger] models[k] == variants[k]@,
                forall|k: int| 0 <= k < i ==> (#[trigger] models[k]).tag != models[j as int].tag,
            decreases j - i,
        {
            if variants[i].tag == variants[j].tag {
                proof {
                    assert(models[i as int].tag == models[j as int].tag);
                    assert(tag_repeats(models, j as int));
                    lemma_repeated_tag_stays(models, j + 1, variants.len() as int);
                }
                return Some(j);
            }
            i += 1;
        }
        assert(!tag_repeats(models, j as int));
        j += 1;
    }
    None
}

/// A repeated name found among the first fields is the first among all.
proof fn lemma_repeated_name_stays(fields: Seq<FieldModel>, count: int, more: int)
    requires
        count <= more,
        first_repeated_name(fields, count) is Some,
    ensures
        first_repeated_name(fields, more) == first_repeated_name(fields, count),
    decreases more - count,
{
    if count < more {
        lemma_repeated_name_stays(fields, count, more - 1);
    }
}

/// A repeated tag found among the first variants is the first among all.
proof fn lemma_repeated_tag_stays(variants: Seq<VariantModel>, count: int, more: int)
    requires
        count <= more,
        first_repeated_tag(variants, count) is Some,
    ensures
        first_repeated_tag(variants, more) == first_repeated_tag(variants, count),
    decreases more - count,
{
    if count < more {
        lemma_repeated_tag_stays(variants, count, more - 1);
    }
}

/// Derives the codec of a record's body or of a variant's.
fn derive_variant(tag: String, fields: &Fields, variant: usize) -> (result: Result<
    VariantCodec,
    DeriveError,
>)
    ensures
        match result {
            Ok(codec) => derived_variant(tag@, *fields, variant as int) == Ok::<
                VariantModel,
                DeriveError,
            >(codec@),
            Err(e) => derived_variant(tag@, *fields, variant as int) == Err::<
                VariantModel,
                DeriveError,
            >(e),
        },
{
    match fields {
        Fields::Named(list) => match derive_fields(list, variant) {
            Ok(codecs) => {
                proof {
                    lemma_field_models(codecs@);
                }
                match repeated_name(&codecs) {
                    Some(j) => Err(DeriveError::DuplicateField { variant, field: j }),
                    None => Ok(VariantCodec { tag, named: true, fields: codecs }),
                }
            },
            Err(e) => Err(e),
        },
        Fields::Unnamed(list) => match derive_fields(list, variant) {
            Ok(codecs) => Ok(VariantCodec { tag, named: false, fields: codecs }),
            Err(e) => Err(e),
        },
        Fields::Unit => Ok(VariantCodec { tag, named: false, fields: Vec::new() }),
    }
}

/// Derives the codec of a message type from its definition.
///
/// A record gets one body, a tagged union one tagged variant for each of
/// its variants; the fields keep their declaration order, and each field's
/// policy is what its attributes declare. A union is refused, and so is a
/// field whose attributes are refused, which covers `transfer` on a field
/// that is not raw, and a field that is to be written by the codec of its
/// type where that type has none. Fields are examined variant by variant in
/// declaration order, the names of a body's fields once its fields are
/// derived, the names of the variants at the end; the first refusal is
/// returned.
pub fn expand_derive_shareable(ast: &DeriveInput) -> (result: Result<Codec, DeriveError>)
    ensures
        match result {
            Ok(codec) => derived(*ast) == Ok::<CodecModel, DeriveError>(codec@),
            Err(e) => derived(*ast) == Err::<CodecModel, DeriveError>(e),
        },
{
    match &ast.data {
        Data::Struct(fields) => match derive_variant(String::new(), fields, 0) {
            Ok(body) => {
                let mut variants: Vec<VariantCodec> = Vec::new();
                proof {
                    lemma_variant_models_push(variants@, body);
                    assert(variant_models(variants@.push(body)) == seq![body@]);
                }
                variants.push(body);
                Ok(Codec { name: ast.ident.clone(), tagged: false, variants })
            },
            Err(e) => Err(e),
        },
        Data::Enum(list) => {
            let mut variants: Vec<VariantCodec> = Vec::new();
            let mut i: usize = 0;
            while i < list.len()
                invariant
                    i <= list.len(),
                    ast.data is Enum,
                    ast.data->Enum_0 == *list,
                    derived_variants(list@, i as int) == Ok::<Seq<VariantModel>, DeriveError>(
                        variant_models(variants@),
                    ),
                decreases list.len() - i,
            {
                match derive_variant(list[i].ident.clone(), &list[i].fields, i) {
                    Ok(codec) => {
                        proof {
                            lemma_variant_models_push(variants@, codec);
                        }
                        variants.push(codec);
                        i += 1;
                    },
                    Err(e) => {
                        proof {
                            lemma_derived_variants_refusal(list@, i + 1, list@.len() as int);
                        }
                        return Err(e);
                    },
                }
            }
            proof {
                lemma_variant_models(variants@);
            }
            match repeated_tag(&variants) {
                Some(k) => Err(DeriveError::DuplicateVariant { variant: k }),
                None => Ok(Codec { name: ast.ident.clone(), tagged: true, variants }),
            }
        },
        Data::Union => Err(DeriveError::UnsupportedUnion),
    }
}

} // verus!
