use atlas::attrs::{
    parse_attributes, AttrError, AttrErrorKind, Attributes, Field, Meta, Repr, Token,
};

fn text(s: &str) -> String {
    s.to_string()
}

fn ident(s: &str) -> Token {
    Token::Ident(text(s))
}

fn lit(s: &str) -> Token {
    Token::Literal(text(s))
}

fn list(tokens: Vec<Token>) -> Meta {
    Meta::List { ident: Some(text("shareable")), tokens }
}

fn field(attrs: Vec<Meta>) -> Field {
    Field { ident: None, attrs, codec: None }
}

fn refused(kind: AttrErrorKind, attr: usize, token: Option<usize>) -> Result<Attributes, AttrError> {
    Err(AttrError { kind, attr, token })
}

#[test]
fn no_attribute_means_shareable() {
    assert_eq!(
        parse_attributes(&field(vec![])),
        Ok(Attributes { repr: Repr::Shareable, transfer: false })
    );
    assert_eq!(
        parse_attributes(&field(vec![list(vec![])])),
        Ok(Attributes { repr: Repr::Shareable, transfer: false })
    );
}

#[test]
fn the_three_representations() {
    for (literal, repr) in [
        ("\"raw\"", Repr::Raw),
        ("\"serde\"", Repr::Serde),
        ("\"shareable\"", Repr::Shareable),
    ] {
        let attrs = vec![list(vec![ident("repr"), Token::Punct('='), lit(literal)])];
        assert_eq!(parse_attributes(&field(attrs)), Ok(Attributes { repr, transfer: false }));
    }
}

#[test]
fn raw_fields_can_be_transferred() {
    let expected = Ok(Attributes { repr: Repr::Raw, transfer: true });
    let one = vec![list(vec![
        ident("repr"),
        Token::Punct('='),
        lit("\"raw\""),
        Token::Punct(','),
        ident("transfer"),
    ])];
    assert_eq!(parse_attributes(&field(one)), expected);
    let reversed = vec![list(vec![
        ident("transfer"),
        Token::Punct(','),
        ident("repr"),
        Token::Punct('='),
        lit("\"raw\""),
    ])];
    assert_eq!(parse_attributes(&field(reversed)), expected);
    let two = vec![
        list(vec![ident("transfer")]),
        list(vec![ident("repr"), Token::Punct('='), lit("\"raw\""), Token::Punct(',')]),
    ];
    assert_eq!(parse_attributes(&field(two)), expected);
}

#[test]
fn only_raw_fields_can_be_transferred() {
    let serde = vec![list(vec![
        ident("repr"),
        Token::Punct('='),
        lit("\"serde\""),
        Token::Punct(','),
        ident("transfer"),
    ])];
    assert_eq!(parse_attributes(&field(serde)), refused(AttrErrorKind::TransferNotRaw, 0, Some(4)));
    let default = vec![list(vec![]), list(vec![ident("transfer")])];
    assert_eq!(
        parse_attributes(&field(default)),
        refused(AttrErrorKind::TransferNotRaw, 1, Some(0))
    );
}

#[test]
fn attributes_of_another_form() {
    assert_eq!(
        parse_attributes(&field(vec![Meta::Path])),
        refused(AttrErrorKind::InvalidFormat, 0, None)
    );
    assert_eq!(
        parse_attributes(&field(vec![list(vec![]), Meta::NameValue])),
        refused(AttrErrorKind::InvalidFormat, 1, None)
    );
    let other = Meta::List { ident: Some(text("serde")), tokens: vec![] };
    assert_eq!(parse_attributes(&field(vec![other])), refused(AttrErrorKind::InvalidFormat, 0, None));
    let path = Meta::List { ident: None, tokens: vec![] };
    assert_eq!(parse_attributes(&field(vec![path])), refused(AttrErrorKind::InvalidFormat, 0, None));
}

#[test]
fn tokens_out_of_place() {
    let one = |tokens: Vec<Token>| parse_attributes(&field(vec![list(tokens)]));
    assert_eq!(one(vec![ident("other")]), refused(AttrErrorKind::InvalidAttr, 0, Some(0)));
    assert_eq!(one(vec![Token::Punct(';')]), refused(AttrErrorKind::InvalidToken, 0, Some(0)));
    assert_eq!(
        one(vec![ident("transfer"), lit("1")]),
        refused(AttrErrorKind::InvalidToken, 0, Some(1))
    );
    assert_eq!(one(vec![Token::Group]), refused(AttrErrorKind::InvalidToken, 0, Some(0)));
    assert_eq!(
        one(vec![ident("transfer"), Token::Punct(','), ident("transfer")]),
        refused(AttrErrorKind::DuplicatedAttr, 0, Some(2))
    );
    assert_eq!(
        one(vec![
            ident("repr"),
            Token::Punct('='),
            lit("\"raw\""),
            ident("repr"),
            Token::Punct('='),
            lit("\"raw\""),
        ]),
        refused(AttrErrorKind::DuplicatedAttr, 0, Some(3))
    );
}

#[test]
fn representations_cut_short_or_unknown() {
    let one = |tokens: Vec<Token>| parse_attributes(&field(vec![list(tokens)]));
    assert_eq!(one(vec![ident("repr")]), refused(AttrErrorKind::InvalidReprEnd, 0, Some(0)));
    assert_eq!(
        one(vec![Token::Punct(','), ident("repr"), Token::Punct('=')]),
        refused(AttrErrorKind::InvalidReprEnd, 0, Some(1))
    );
    assert_eq!(
        one(vec![ident("repr"), Token::Punct(':'), lit("\"raw\"")]),
        refused(AttrErrorKind::InvalidSeparator, 0, Some(1))
    );
    assert_eq!(
        one(vec![ident("repr"), ident("raw")]),
        refused(AttrErrorKind::InvalidSeparator, 0, Some(1))
    );
    assert_eq!(
        one(vec![ident("repr"), Token::Punct('='), lit("\"json\"")]),
        refused(AttrErrorKind::InvalidRepr, 0, Some(2))
    );
    assert_eq!(
        one(vec![ident("repr"), Token::Punct('='), lit("raw")]),
        refused(AttrErrorKind::InvalidRepr, 0, Some(2))
    );
    assert_eq!(
        one(vec![ident("repr"), Token::Punct('='), ident("raw")]),
        refused(AttrErrorKind::InvalidRepr, 0, Some(2))
    );
}

#[test]
fn the_first_refusal_is_returned() {
    let attrs = vec![
        list(vec![ident("transfer")]),
        list(vec![ident("other")]),
        Meta::Path,
    ];
    assert_eq!(parse_attributes(&field(attrs)), refused(AttrErrorKind::InvalidAttr, 1, Some(0)));
}

#[test]
fn what_refusals_say() {
    assert_eq!(
        AttrErrorKind::TransferNotRaw.message(),
        "invalid attribute, only repr = \"raw\" fields can be transferred"
    );
    assert_eq!(AttrErrorKind::InvalidSeparator.message(), "unexpected token, expected: =");
    assert_eq!(
        AttrErrorKind::DuplicatedAttr.message(),
        "unexpected attribute, attribute is already defined"
    );
}
