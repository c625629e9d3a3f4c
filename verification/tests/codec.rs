use atlas::attrs::{AttrError, AttrErrorKind, Field, Meta, Token};
use atlas::message::{Message, Value};
use atlas::port::ShareableError;
use atlas::codec::Codec;
use atlas::shareable::{
    expand_derive_shareable, Data, DeriveError, DeriveInput, Fields, Variant,
};
use atlas::wire::WireValue;

fn text(s: &str) -> String {
    s.to_string()
}

fn word(s: &str) -> WireValue {
    WireValue::Text(text(s))
}

fn canvas(handle: u64) -> WireValue {
    WireValue::Handle(handle)
}

fn shareable(repr: &str, transfer: bool) -> Vec<Meta> {
    let mut tokens = vec![
        Token::Ident(text("repr")),
        Token::Punct('='),
        Token::Literal(format!("\"{}\"", repr)),
    ];
    if transfer {
        tokens.push(Token::Punct(','));
        tokens.push(Token::Ident(text("transfer")));
    }
    vec![Meta::List { ident: Some(text("shareable")), tokens }]
}

fn raw(name: Option<&str>) -> Field {
    Field { ident: name.map(text), attrs: shareable("raw", false), codec: None }
}

fn moved(name: Option<&str>) -> Field {
    Field { ident: name.map(text), attrs: shareable("raw", true), codec: None }
}

fn serde(name: Option<&str>) -> Field {
    Field { ident: name.map(text), attrs: shareable("serde", false), codec: None }
}

fn inner(name: Option<&str>, codec: Codec) -> Field {
    Field { ident: name.map(text), attrs: vec![], codec: Some(codec) }
}

fn record(name: &str, fields: Fields) -> Codec {
    expand_derive_shareable(&DeriveInput { ident: text(name), data: Data::Struct(fields) })
        .unwrap()
}

fn union(name: &str, variants: Vec<(&str, Fields)>) -> Codec {
    let variants =
        variants.into_iter().map(|(ident, fields)| Variant { ident: text(ident), fields }).collect();
    expand_derive_shareable(&DeriveInput { ident: text(name), data: Data::Enum(variants) })
        .unwrap()
}

fn message(variant: usize, fields: Vec<Value>) -> Message {
    Message { variant, fields }
}

fn number(n: i64) -> Value {
    Value::Structured(Some(WireValue::Number(n)))
}

fn string(s: &str) -> Value {
    Value::Structured(Some(word(s)))
}

fn plain_enum_codec() -> Codec {
    union("PlainEnum", vec![("Ping", Fields::Unit)])
}

fn plain_struct_codec() -> Codec {
    record("PlainStruct", Fields::Unit)
}

fn child_codec() -> Codec {
    record("Child", Fields::Named(vec![serde(Some("id"))]))
}

fn child_transfer_codec() -> Codec {
    record("ChildTransfer", Fields::Named(vec![serde(Some("id")), moved(Some("canvas"))]))
}

fn parent_transfer_codec() -> Codec {
    union(
        "ParentTransfer",
        vec![
            ("Ping", Fields::Unit),
            ("Attach", Fields::Unnamed(vec![inner(None, child_transfer_codec())])),
            (
                "Transfer",
                Fields::Unnamed(vec![inner(None, child_transfer_codec()), moved(None)]),
            ),
        ],
    )
}

#[test]
fn plain_enum() {
    let codec = plain_enum_codec();
    let (data, transfer) = codec.encode(&message(0, vec![]), true).unwrap();
    assert_eq!(data, WireValue::Sequence(vec![word("PlainEnum"), word("Ping")]));
    let recovered = codec.decode(&data, true);

    assert!(recovered.is_ok());
    assert_eq!(recovered.unwrap(), message(0, vec![]));
    assert!(transfer.is_empty());
}

#[test]
fn invalid_ident() {
    let payload = WireValue::Sequence(vec![word("PlainEnum"), word("invalid")]);

    let recovered = plain_enum_codec().decode(&payload, true);
    assert!(recovered.is_err());
    assert_eq!(recovered, Err(ShareableError::InvalidIdentifier(text("invalid"))));
}

fn tuple_enum_codec() -> Codec {
    union(
        "TupleEnum",
        vec![
            ("Ping", Fields::Unit),
            ("Attach", Fields::Unnamed(vec![raw(None)])),
            ("Wrap", Fields::Unnamed(vec![raw(None), raw(None)])),
        ],
    )
}

#[test]
fn value_enum() {
    let codec = tuple_enum_codec();
    let value = message(1, vec![Value::Raw(canvas(1))]);
    let (data, transfer) = codec.encode(&value, true).unwrap();
    assert_eq!(data, WireValue::Sequence(vec![word("TupleEnum"), word("Attach"), canvas(1)]));
    let recovered = codec.decode(&data, true);

    assert!(recovered.is_ok());
    assert_eq!(recovered.unwrap(), value);
    assert!(transfer.is_empty());
}

#[test]
fn struct_enum() {
    let codec = union(
        "StructEnum",
        vec![("Wrap", Fields::Named(vec![raw(Some("server")), raw(Some("surface"))]))],
    );
    let value = message(0, vec![Value::Raw(canvas(1)), Value::Raw(canvas(2))]);
    let (data, transfer) = codec.encode(&value, true).unwrap();
    assert_eq!(
        data,
        WireValue::Sequence(vec![
            word("StructEnum"),
            word("Wrap"),
            word("server"),
            canvas(1),
            word("surface"),
            canvas(2),
        ])
    );
    let recovered = codec.decode(&data, true);

    assert!(recovered.is_ok());
    assert_eq!(recovered.unwrap(), value);
    assert!(transfer.is_empty());
}

fn attr_enum_codec() -> Codec {
    union(
        "AttrEnum",
        vec![
            ("Draw", Fields::Unnamed(vec![moved(None)])),
            ("Wrap", Fields::Named(vec![raw(Some("server")), moved(Some("surface"))])),
        ],
    )
}

#[test]
fn attr_enum_tuple() {
    let (_, transfer) =
        attr_enum_codec().encode(&message(0, vec![Value::Raw(canvas(1))]), true).unwrap();

    assert!(!transfer.is_empty());
    assert_eq!(transfer[0], 1);
    assert_eq!(transfer.len(), 1);
}

#[test]
fn attr_enum_struct() {
    let value = message(1, vec![Value::Raw(canvas(1)), Value::Raw(canvas(2))]);
    let (_, transfer) = attr_enum_codec().encode(&value, true).unwrap();

    assert!(!transfer.is_empty());
    assert_eq!(transfer[0], 2);
    assert_eq!(transfer.len(), 1);
}

#[test]
fn plain_struct() {
    let codec = plain_struct_codec();
    let (data, transfer) = codec.encode(&message(0, vec![]), true).unwrap();
    assert_eq!(data, WireValue::Sequence(vec![word("PlainStruct")]));
    let recovered = codec.decode(&data, true);

    assert!(recovered.is_ok());
    assert_eq!(recovered.unwrap(), message(0, vec![]));
    assert!(transfer.is_empty());
}

#[test]
fn tuple_struct() {
    let codec = record("TupleStruct", Fields::Unnamed(vec![raw(None)]));
    let value = message(0, vec![Value::Raw(canvas(1))]);
    let (data, transfer) = codec.encode(&value, true).unwrap();
    let recovered = codec.decode(&data, true);

    assert!(recovered.is_ok());
    assert_eq!(recovered.unwrap(), value);
    assert!(transfer.is_empty());
}

#[test]
fn struct_struct() {
    let codec =
        record("StructStruct", Fields::Named(vec![raw(Some("worker")), raw(Some("canvas"))]));
    let value = message(0, vec![Value::Raw(canvas(1)), Value::Raw(canvas(2))]);
    let (data, transfer) = codec.encode(&value, true).unwrap();
    let recovered = codec.decode(&data, true);

    assert!(recovered.is_ok());
    assert_eq!(recovered.unwrap(), value);
    assert!(transfer.is_empty());
}

#[test]
fn attr_tuple_struct() {
    let codec = record("AttrTupleStruct", Fields::Unnamed(vec![moved(None)]));
    let (_, transfer) = codec.encode(&message(0, vec![Value::Raw(canvas(1))]), true).unwrap();

    assert!(!transfer.is_empty());
    assert_eq!(transfer, vec![1]);
}

#[test]
fn attr_struct_struct() {
    let codec = record(
        "AttrStructStruct",
        Fields::Named(vec![raw(Some("worker")), moved(Some("canvas"))]),
    );
    let value = message(0, vec![Value::Raw(canvas(1)), Value::Raw(canvas(2))]);
    let (_, transfer) = codec.encode(&value, true).unwrap();

    assert!(!transfer.is_empty());
    assert_eq!(transfer, vec![2]);
}

#[test]
fn serde_tuple_enum() {
    let codec = union(
        "SerdeTupleEnum",
        vec![("Message", Fields::Unnamed(vec![serde(None), serde(None)])), ("Ping", Fields::Unit)],
    );
    let value = message(0, vec![string("voxelstack.me"), number(314)]);
    let (data, transfer) = codec.encode(&value, true).unwrap();
    let recovered = codec.decode(&data, true);

    assert!(recovered.is_ok());
    assert_eq!(recovered.unwrap(), value);
    assert!(transfer.is_empty());
}

#[test]
fn serde_struct_enum() {
    let codec = union(
        "SerdeStructEnum",
        vec![
            ("Message", Fields::Named(vec![serde(Some("key")), serde(Some("value"))])),
            ("Ping", Fields::Unit),
        ],
    );
    let value = message(0, vec![string("voxelstack.me"), number(314)]);
    let (data, transfer) = codec.encode(&value, true).unwrap();
    let recovered = codec.decode(&data, true);

    assert!(recovered.is_ok());
    assert_eq!(recovered.unwrap(), value);
    assert!(transfer.is_empty());
}

#[test]
fn serde_tuple_struct() {
    let codec =
        record("SerdeTupleStruct", Fields::Unnamed(vec![serde(None), serde(None), raw(None)]));
    let value = message(0, vec![string("voxelstack.me"), number(314), Value::Raw(canvas(1))]);
    let (data, transfer) = codec.encode(&value, true).unwrap();
    let recovered = codec.decode(&data, true);

    assert!(recovered.is_ok());
    assert_eq!(recovered.unwrap(), value);
    assert!(transfer.is_empty());
}

#[test]
fn serde_struct_struct() {
    let codec = record(
        "SerdeStructStruct",
        Fields::Named(vec![serde(Some("key")), serde(Some("value"))]),
    );
    let value = message(0, vec![string("voxelstack.me"), number(314)]);
    let (data, transfer) = codec.encode(&value, true).unwrap();
    assert_eq!(
        data,
        WireValue::Sequence(vec![
            word("SerdeStructStruct"),
            word("key"),
            word("voxelstack.me"),
            word("value"),
            WireValue::Number(314),
        ])
    );
    let recovered = codec.decode(&data, true);

    assert!(recovered.is_ok());
    assert_eq!(recovered.unwrap(), value);
    assert!(transfer.is_empty());
}

#[test]
fn generic() {
    let codec = record("Generic", Fields::Named(vec![raw(Some("value"))]));
    let value = message(0, vec![Value::Raw(canvas(1))]);
    let (data, transfer) = codec.encode(&value, true).unwrap();
    let recovered = codec.decode(&data, true);

    assert!(recovered.is_ok());
    assert_eq!(recovered.unwrap(), value);
    assert!(transfer.is_empty());
}

#[test]
fn nested() {
    let codec = union(
        "Parent",
        vec![("Ping", Fields::Unit), ("Attach", Fields::Unnamed(vec![inner(None, child_codec())]))],
    );
    let value = message(1, vec![Value::Nested(message(0, vec![string("surface")]))]);
    let (data, _) = codec.encode(&value, true).unwrap();
    assert_eq!(
        data,
        WireValue::Sequence(vec![
            word("Parent"),
            word("Attach"),
            WireValue::Sequence(vec![word("Child"), word("id"), word("surface")]),
        ])
    );
    let recovered = codec.decode(&data, true);

    assert!(recovered.is_ok());
    assert_eq!(recovered.unwrap(), value);
}

#[test]
fn nested_transfer() {
    let codec = parent_transfer_codec();
    let value =
        message(1, vec![Value::Nested(message(0, vec![string("surface"), Value::Raw(canvas(1))]))]);
    let (data, transfer) = codec.encode(&value, true).unwrap();
    let recovered = codec.decode(&data, true);

    assert!(recovered.is_ok());
    assert_eq!(recovered.unwrap(), value);
    assert!(!transfer.is_empty());
    assert_eq!(transfer[0], 1);
}

#[test]
fn nested_transfer_multiple() {
    let codec = parent_transfer_codec();
    let value = message(
        2,
        vec![
            Value::Nested(message(0, vec![string("surface"), Value::Raw(canvas(1))])),
            Value::Raw(canvas(2)),
        ],
    );
    let (data, transfer) = codec.encode(&value, true).unwrap();
    let recovered = codec.decode(&data, true);

    assert!(recovered.is_ok());
    assert_eq!(recovered.unwrap(), value);
    assert!(!transfer.is_empty());
    assert_eq!(transfer[0], 1);
    assert_eq!(transfer[1], 2);
    assert_eq!(transfer.len(), 2);
}

#[test]
fn nested_generic() {
    let codec =
        record("ParentGeneric", Fields::Named(vec![inner(Some("value"), child_codec())]));
    let value = message(0, vec![Value::Nested(message(0, vec![string("surface")]))]);
    let (data, transfer) = codec.encode(&value, true).unwrap();
    let recovered = codec.decode(&data, true);

    assert!(recovered.is_ok());
    assert_eq!(recovered.unwrap(), value);
    assert!(transfer.is_empty());
}

#[test]
fn incompatible_type() {
    let (data, _) = plain_enum_codec().encode(&message(0, vec![]), true).unwrap();
    let recovered = plain_struct_codec().decode(&data, true);

    assert!(recovered.is_err());
    assert_eq!(recovered, Err(ShareableError::IncompatibleType));
}

#[test]
fn identity_is_not_written_by_default() {
    let codec = tuple_enum_codec();
    let value = message(2, vec![Value::Raw(canvas(1)), Value::Raw(WireValue::Flag(true))]);
    let (data, _) = codec.encode(&value, false).unwrap();
    assert_eq!(
        data,
        WireValue::Sequence(vec![word("Wrap"), canvas(1), WireValue::Flag(true)])
    );
    assert_eq!(codec.decode(&data, false), Ok(value));
    assert_eq!(plain_struct_codec().decode(&WireValue::Sequence(vec![]), false), Ok(message(0, vec![])));
}

#[test]
fn named_pairs_in_any_order() {
    let codec = record(
        "Triple",
        Fields::Named(vec![serde(Some("a")), raw(Some("b")), inner(Some("c"), child_codec())]),
    );
    let value = message(
        0,
        vec![number(1), Value::Raw(canvas(2)), Value::Nested(message(0, vec![string("x")]))],
    );
    let child = WireValue::Sequence(vec![word("id"), word("x")]);
    let (canonical, _) = codec.encode(&value, false).unwrap();
    assert_eq!(
        canonical,
        WireValue::Sequence(vec![
            word("a"),
            WireValue::Number(1),
            word("b"),
            canvas(2),
            word("c"),
            child.clone(),
        ])
    );
    let permuted = WireValue::Sequence(vec![
        word("c"),
        child,
        word("a"),
        WireValue::Number(1),
        word("b"),
        canvas(2),
    ]);
    assert_eq!(codec.decode(&permuted, false), codec.decode(&canonical, false));
    assert_eq!(codec.decode(&permuted, false), Ok(value));
}

#[test]
fn unknown_tag_carries_the_tag() {
    let payload = WireValue::Sequence(vec![word("Nope"), canvas(1)]);
    assert_eq!(
        tuple_enum_codec().decode(&payload, false),
        Err(ShareableError::InvalidIdentifier(text("Nope")))
    );
}

#[test]
fn malformed_payloads() {
    let codec = tuple_enum_codec();
    let bad = Err(ShareableError::BadPayload);
    // Not a sequence.
    assert_eq!(codec.decode(&word("Ping"), false), bad);
    // No tag at all, and a tag that is no string.
    assert_eq!(codec.decode(&WireValue::Sequence(vec![]), false), bad);
    assert_eq!(codec.decode(&WireValue::Sequence(vec![WireValue::Number(1)]), false), bad);
    // Too few and too many positional items.
    assert_eq!(codec.decode(&WireValue::Sequence(vec![word("Attach")]), false), bad);
    assert_eq!(
        codec.decode(&WireValue::Sequence(vec![word("Attach"), canvas(1), canvas(2)]), false),
        bad
    );
    assert_eq!(codec.decode(&WireValue::Sequence(vec![word("Ping"), canvas(1)]), false), bad);
    // A sequence where an atom is due.
    assert_eq!(
        codec.decode(
            &WireValue::Sequence(vec![word("Attach"), WireValue::Sequence(vec![])]),
            false
        ),
        bad
    );
    // With identity verified, the name is due first.
    assert_eq!(codec.decode(&WireValue::Sequence(vec![]), true), bad);
    assert_eq!(codec.decode(&WireValue::Sequence(vec![canvas(1), word("Ping")]), true), bad);
    assert_eq!(codec.decode(&WireValue::Sequence(vec![word("TupleEnum")]), true), bad);
}

#[test]
fn malformed_named_payloads() {
    let codec =
        record("StructStruct", Fields::Named(vec![raw(Some("worker")), moved(Some("canvas"))]));
    let bad = Err(ShareableError::BadPayload);
    let items = |items: Vec<WireValue>| WireValue::Sequence(items);
    // A missing name, twice the same name, a name that is no string, an odd count.
    assert_eq!(
        codec.decode(&items(vec![word("worker"), canvas(1), word("other"), canvas(2)]), false),
        bad
    );
    assert_eq!(
        codec.decode(&items(vec![word("worker"), canvas(1), word("worker"), canvas(2)]), false),
        bad
    );
    assert_eq!(
        codec.decode(&items(vec![word("worker"), canvas(1), canvas(3), canvas(2)]), false),
        bad
    );
    assert_eq!(codec.decode(&items(vec![word("worker"), canvas(1), word("canvas")]), false), bad);
    assert_eq!(codec.decode(&items(vec![word("worker"), canvas(1)]), false), bad);
    // A field marked for transfer takes a handle and nothing else.
    assert_eq!(
        codec.decode(&items(vec![word("worker"), canvas(1), word("canvas"), word("x")]), false),
        bad
    );
    assert_eq!(
        codec.decode(&items(vec![word("canvas"), canvas(2), word("worker"), word("x")]), false),
        Ok(message(0, vec![Value::Raw(word("x")), Value::Raw(canvas(2))]))
    );
}

#[test]
fn nested_failures_are_passed_on() {
    let codec = union(
        "Parent",
        vec![("Attach", Fields::Unnamed(vec![inner(None, tuple_enum_codec())]))],
    );
    let payload =
        WireValue::Sequence(vec![word("Attach"), WireValue::Sequence(vec![word("Nope")])]);
    assert_eq!(
        codec.decode(&payload, false),
        Err(ShareableError::InvalidIdentifier(text("Nope")))
    );
    let payload = WireValue::Sequence(vec![
        word("Parent"),
        word("Attach"),
        WireValue::Sequence(vec![word("Other"), word("Ping")]),
    ]);
    assert_eq!(codec.decode(&payload, true), Err(ShareableError::IncompatibleType));
}

#[test]
fn values_of_another_type_are_not_written() {
    let codec = tuple_enum_codec();
    let wrong = Err(ShareableError::IncompatibleType);
    assert_eq!(codec.encode(&message(3, vec![]), false), wrong);
    assert_eq!(codec.encode(&message(1, vec![]), false), wrong);
    assert_eq!(codec.encode(&message(1, vec![number(1)]), false), wrong);
    assert_eq!(
        codec.encode(&message(1, vec![Value::Raw(WireValue::Sequence(vec![]))]), false),
        wrong
    );
    assert_eq!(plain_struct_codec().encode(&message(1, vec![]), false), wrong);
    let marked = record("Marked", Fields::Unnamed(vec![moved(None)]));
    assert_eq!(marked.encode(&message(0, vec![Value::Raw(word("x"))]), false), wrong);
}

#[test]
fn serializer_failure_is_reported() {
    let codec = record("One", Fields::Unnamed(vec![raw(None), serde(None)]));
    let value = message(0, vec![Value::Raw(canvas(1)), Value::Structured(None)]);
    assert_eq!(codec.encode(&value, false), Err(ShareableError::SerdeFailure));
}

#[test]
fn unions_are_refused() {
    let input = DeriveInput { ident: text("U"), data: Data::Union };
    assert_eq!(expand_derive_shareable(&input), Err(DeriveError::UnsupportedUnion));
}

#[test]
fn fields_without_a_codec_are_refused() {
    let field = Field { ident: None, attrs: vec![], codec: None };
    let input = DeriveInput {
        ident: text("E"),
        data: Data::Enum(vec![
            Variant { ident: text("A"), fields: Fields::Unit },
            Variant { ident: text("B"), fields: Fields::Unnamed(vec![raw(None), field]) },
        ]),
    };
    assert_eq!(
        expand_derive_shareable(&input),
        Err(DeriveError::NotShareable { variant: 1, field: 1 })
    );
}

#[test]
fn refused_attributes_stop_the_derivation() {
    let input = DeriveInput {
        ident: text("E"),
        data: Data::Enum(vec![
            Variant { ident: text("A"), fields: Fields::Unnamed(vec![raw(None)]) },
            Variant {
                ident: text("B"),
                fields: Fields::Named(vec![raw(Some("x")), transfer_on_nested(), serde(Some("z"))]),
            },
            Variant { ident: text("C"), fields: Fields::Unnamed(vec![moved_serde()]) },
        ]),
    };
    assert_eq!(
        expand_derive_shareable(&input),
        Err(DeriveError::Attribute {
            variant: 1,
            field: 1,
            error: AttrError { kind: AttrErrorKind::TransferNotRaw, attr: 0, token: Some(0) },
        })
    );
    let input = DeriveInput {
        ident: text("S"),
        data: Data::Struct(Fields::Unnamed(vec![raw(None), moved_serde()])),
    };
    assert_eq!(
        expand_derive_shareable(&input),
        Err(DeriveError::Attribute {
            variant: 0,
            field: 1,
            error: AttrError { kind: AttrErrorKind::TransferNotRaw, attr: 0, token: Some(4) },
        })
    );
    assert_eq!(
        expand_derive_shareable(&input).unwrap_err().message(),
        "invalid attribute, only repr = \"raw\" fields can be transferred"
    );
}

/// A field marked for transfer that is to be written by its type's codec.
fn transfer_on_nested() -> Field {
    Field {
        ident: Some(text("y")),
        attrs: vec![Meta::List {
            ident: Some(text("shareable")),
            tokens: vec![Token::Ident(text("transfer"))],
        }],
        codec: Some(child_codec()),
    }
}

/// A field marked for transfer that goes through the structured serializer.
fn moved_serde() -> Field {
    Field { ident: None, attrs: shareable("serde", true), codec: None }
}

#[test]
fn repeated_names_are_refused() {
    let input = DeriveInput {
        ident: text("S"),
        data: Data::Struct(Fields::Named(vec![
            raw(Some("a")),
            raw(Some("b")),
            raw(Some("a")),
            raw(Some("b")),
        ])),
    };
    assert_eq!(
        expand_derive_shareable(&input),
        Err(DeriveError::DuplicateField { variant: 0, field: 2 })
    );
    let input = DeriveInput {
        ident: text("E"),
        data: Data::Enum(vec![
            Variant { ident: text("A"), fields: Fields::Unit },
            Variant { ident: text("B"), fields: Fields::Unit },
            Variant { ident: text("A"), fields: Fields::Unit },
        ]),
    };
    assert_eq!(expand_derive_shareable(&input), Err(DeriveError::DuplicateVariant { variant: 2 }));
}
