//! Field attributes: the `shareable(...)` annotations that set how one field
//! of a message type travels.

use crate::codec::Codec;
use vstd::prelude::*;

verus! {

/// How a field is represented on the wire.
#[derive(Debug, Clone, Copy, PartialEq, Eq, Structural)]
pub enum Repr {
    /// The field's value is an atom and is passed through as it is.
    Raw,
    /// The field goes through the structured serializer.
    Serde,
    /// The field's type has a codec of its own, which is applied in turn.
    Shareable,
}

/// The policy of one field, as its attributes declare it.
#[derive(Debug, Clone, Copy, PartialEq, Eq, Structural)]
pub struct Attributes {
    pub repr: Repr,
    pub transfer: bool,
}

/// One token of an attribute's argument list.
#[derive(Debug, PartialEq, Eq)]
pub enum Token {
    Ident(String),
    Punct(char),
    /// A literal as it is written in the source, quotes included.
    Literal(String),
    /// A delimited group of further tokens.
    Group,
}

/// The mathematical value of a [`Token`].
pub enum TokenModel {
    Ident(Seq<char>),
    Punct(char),
    Literal(Seq<char>),
    Group,
}

impl View for Token {
    type V = TokenModel;

    open spec fn view(&self) -> TokenModel {
        match self {
            Token::Ident(s) => TokenModel::Ident(s@),
            Token::Punct(c) => TokenModel::Punct(*c),
            Token::Literal(s) => TokenModel::Literal(s@),
            Token::Group => TokenModel::Group,
        }
    }
}

/// One attribute on a field, by its form.
#[derive(Debug, PartialEq, Eq)]
pub enum Meta {
    /// A bare path: `#[shareable]`.
    Path,
    /// A path with arguments in parentheses: `#[shareable(...)]`. `ident` is
    /// the path where it is a single identifier.
    List { ident: Option<String>, tokens: Vec<Token> },
    /// A path with a value: `#[shareable = ...]`.
    NameValue,
}

/// The mathematical value of a [`Meta`].
pub enum MetaModel {
    Path,
    List { ident: Option<Seq<char>>, tokens: Seq<TokenModel> },
    NameValue,
}

impl View for Meta {
    type V = MetaModel;

    open spec fn view(&self) -> MetaModel {
        match self {
            Meta::Path => MetaModel::Path,
            Meta::List { ident, tokens } => MetaModel::List {
                ident: match ident {
                    Some(s) => Some(s@),
                    None => None,
                },
                tokens: tokens_of(tokens@),
            },
            Meta::NameValue => MetaModel::NameValue,
        }
    }
}

/// One field of a message type, as its definition gives it.
#[derive(Debug, PartialEq, Eq)]
pub struct Field {
    /// The field's name; `None` for a positional field.
    pub ident: Option<String>,
    /// The attributes written on the field, in order.
    pub attrs: Vec<Meta>,
    /// The codec of the field's type, where that type is a message type.
    pub codec: Option<Codec>,
}

/// The values of a list of tokens, in order.
pub open spec fn tokens_of(tokens: Seq<Token>) -> Seq<TokenModel> {
    tokens.map_values(|t: Token| t@)
}

/// The values of a list of attributes, in order.
pub open spec fn metas_of(attrs: Seq<Meta>) -> Seq<MetaModel> {
    attrs.map_values(|m: Meta| m@)
}

/// Why a field's attributes were refused.
#[derive(Debug, Clone, Copy, PartialEq, Eq, Structural)]
pub enum AttrErrorKind {
    /// The attribute is not of the form `#[shareable(...)]`.
    InvalidFormat,
    /// A token that is neither an identifier nor a comma.
    InvalidToken,
    /// An identifier other than `repr` and `transfer`.
    InvalidAttr,
    /// The argument list ends inside `repr = "..."`.
    InvalidReprEnd,
    /// `repr` is not followed by `=`.
    InvalidSeparator,
    /// The value of `repr` is not one of the three known literals.
    InvalidRepr,
    /// `repr` or `transfer` is given twice.
    DuplicatedAttr,
    /// `transfer` on a field whose representation is not raw.
    TransferNotRaw,
}

impl AttrErrorKind {
    /// What a refusal of this kind says.
    pub open spec fn text(self) -> Seq<char> {
        match self {
            AttrErrorKind::InvalidFormat =>
                "unexpected token, expected attribute arguments in parentheses: #[shareable(...)]"@,
            AttrErrorKind::InvalidToken =>
                "unexpected token, expected comma separated list of ident = lit or ident"@,
            AttrErrorKind::InvalidAttr => "unexpected attribute, expected ident: repr or transfer"@,
            AttrErrorKind::InvalidReprEnd =>
                "unexpected end of attribute definition, expected: repr = \"repr\""@,
            AttrErrorKind::InvalidSeparator => "unexpected token, expected: ="@,
            AttrErrorKind::InvalidRepr =>
                "invalid repr, expected literal: \"raw\", \"serde\", or \"shareable\""@,
            AttrErrorKind::DuplicatedAttr => "unexpected attribute, attribute is already defined"@,
            AttrErrorKind::TransferNotRaw =>
                "invalid attribute, only repr = \"raw\" fields can be transferred"@,
        }
    }

    /// What a refusal of this kind says.
    pub fn message(&self) -> (message: &'static str)
        ensures
            message@ == self.text(),
    {
        match self {
            AttrErrorKind::InvalidFormat =>
                "unexpected token, expected attribute arguments in parentheses: #[shareable(...)]",
            AttrErrorKind::InvalidToken =>
                "unexpected token, expected comma separated list of ident = lit or ident",
            AttrErrorKind::InvalidAttr => "unexpected attribute, expected ident: repr or transfer",
            AttrErrorKind::InvalidReprEnd =>
                "unexpected end of attribute definition, expected: repr = \"repr\"",
            AttrErrorKind::InvalidSeparator => "unexpected token, expected: =",
            AttrErrorKind::InvalidRepr =>
                "invalid repr, expected literal: \"raw\", \"serde\", or \"shareable\"",
            AttrErrorKind::DuplicatedAttr => "unexpected attribute, attribute is already defined",
            AttrErrorKind::TransferNotRaw =>
                "invalid attribute, only repr = \"raw\" fields can be transferred",
        }
    }
}

/// A refusal, with the place it points at: the attribute's index on the field
/// and, inside an argument list, the token's index.
#[derive(Debug, Clone, Copy, PartialEq, Eq, Structural)]
pub struct AttrError {
    pub kind: AttrErrorKind,
    pub attr: usize,
    pub token: Option<usize>,
}

/// What has been read of a field's attributes so far: the representation, and
/// the place of `transfer` where it was seen.
#[derive(Debug, Clone, Copy)]
pub struct Seen {
    pub repr: Option<Repr>,
    pub transfer: Option<(usize, usize)>,
}

pub open spec fn refusal(kind: AttrErrorKind, attr: int, token: int) -> AttrError {
    AttrError { kind, attr: attr as usize, token: Some(token as usize) }
}

/// The representation that the literal `text` names.
pub open spec fn repr_of_literal(text: Seq<char>) -> Option<Repr> {
    if text == "\"raw\""@ {
        Some(Repr::Raw)
    } else if text == "\"serde\""@ {
        Some(Repr::Serde)
    } else if text == "\"shareable\""@ {
        Some(Repr::Shareable)
    } else {
        None
    }
}

/// The value of `repr = "..."`, where `tokens[at]` is the identifier `repr`.
pub open spec fn repr_at(tokens: Seq<TokenModel>, attr: int, at: int) -> Result<Repr, AttrError> {
    if at + 1 >= tokens.len() {
        Err(refusal(AttrErrorKind::InvalidReprEnd, attr, at))
    } else if tokens[at + 1] != TokenModel::Punct('=') {
        Err(refusal(AttrErrorKind::InvalidSeparator, attr, at + 1))
    } else if at + 2 >= tokens.len() {
        Err(refusal(AttrErrorKind::InvalidReprEnd, attr, at))
    } else {
        match tokens[at + 2] {
            TokenModel::Literal(text) => match repr_of_literal(text) {
                Some(repr) => Ok(repr),
                None => Err(refusal(AttrErrorKind::InvalidRepr, attr, at + 2)),
            },
            _ => Err(refusal(AttrErrorKind::InvalidRepr, attr, at + 2)),
        }
    }
}

/// Reading the argument list `tokens` of attribute `attr` from index `at` on,
/// with `seen` read before.
pub open spec fn scan_tokens(tokens: Seq<TokenModel>, attr: int, at: int, seen: Seen) -> Result<
    Seen,
    AttrError,
>
    decreases tokens.len() - at,
{
    if at >= tokens.len() {
        Ok(seen)
    } else {
        match tokens[at] {
            TokenModel::Ident(word) => {
                if word == "transfer"@ {
                    if seen.transfer is Some {
                        Err(refusal(AttrErrorKind::DuplicatedAttr, attr, at))
                    } else {
                        scan_tokens(
                            tokens,
                            attr,
                            at + 1,
                            Seen { repr: seen.repr, transfer: Some((attr as usize, at as usize)) },
                        )
                    }
                } else if word == "repr"@ {
                    if seen.repr is Some {
                        Err(refusal(AttrErrorKind::DuplicatedAttr, attr, at))
                    } else {
                        match repr_at(tokens, attr, at) {
                            Ok(repr) => scan_tokens(
                                tokens,
                                attr,
                                at + 3,
                                Seen { repr: Some(repr), transfer: seen.transfer },
                            ),
                            Err(e) => Err(e),
                        }
                    }
                } else {
                    Err(refusal(AttrErrorKind::InvalidAttr, attr, at))
                }
            },
            TokenModel::Punct(c) => {
                if c == ',' {
                    scan_tokens(tokens, attr, at + 1, seen)
                } else {
                    Err(refusal(AttrErrorKind::InvalidToken, attr, at))
                }
            },
            _ => Err(refusal(AttrErrorKind::InvalidToken, attr, at)),
        }
    }
}

/// Reading attribute number `attr`, with `seen` read from those before it.
pub open spec fn scan_meta(meta: MetaModel, attr: int, seen: Seen) -> Result<Seen, AttrError> {
    match meta {
        MetaModel::List { ident, tokens } => {
            if ident == Some("shareable"@) {
                scan_tokens(tokens, attr, 0, seen)
            } else {
                Err(AttrError { kind: AttrErrorKind::InvalidFormat, attr: attr as usize, token: None })
            }
        },
        _ => Err(AttrError { kind: AttrErrorKind::InvalidFormat, attr: attr as usize, token: None }),
    }
}

/// Reading the first `count` attributes in order; the first refusal ends it.
pub open spec fn scan_metas(metas: Seq<MetaModel>, count: int) -> Result<Seen, AttrError>
    decreases count,
{
    if count <= 0 {
        Ok(Seen { repr: None, transfer: None })
    } else {
        match scan_metas(metas, count - 1) {
            Ok(seen) => scan_meta(metas[count - 1], count - 1, seen),
            Err(e) => Err(e),
        }
    }
}

/// The policy that a list of attributes declares: the representation
/// defaults to `Shareable`, and `transfer` wants `Raw`.
pub open spec fn attributes_of(metas: Seq<MetaModel>) -> Result<Attributes, AttrError> {
    match scan_metas(metas, metas.len() as int) {
        Ok(seen) => {
            let repr = match seen.repr {
                Some(repr) => repr,
                None => Repr::Shareable,
            };
            match seen.transfer {
                Some((attr, token)) => if repr == Repr::Raw {
                    Ok(Attributes { repr, transfer: true })
                } else {
                    Err(AttrError { kind: AttrErrorKind::TransferNotRaw, attr, token: Some(token) })
                },
                None => Ok(Attributes { repr, transfer: false }),
            }
        },
        Err(e) => Err(e),
    }
}

fn same_text(text: &String, word: &str) -> (same: bool)
    ensures
        same == (text@ == word@),
{
    let owned = word.to_owned();
    *text == owned
}

fn parse_repr(tokens: &Vec<Token>, attr: usize, at: usize) -> (parsed: Result<Repr, AttrError>)
    requires
        at < tokens.len(),
    ensures
        parsed == repr_at(tokens_of(tokens@), attr as int, at as int),
{
    if at + 1 >= tokens.len() {
        return Err(AttrError { kind: AttrErrorKind::InvalidReprEnd, attr, token: Some(at) });
    }
    let valid_separator = match &tokens[at + 1] {
        Token::Punct(c) => *c == '=',
        _ => false,
    };
    if !valid_separator {
        return Err(
            AttrError { kind: AttrErrorKind::InvalidSeparator, attr, token: Some(at + 1) },
        );
    }
    if at + 2 >= tokens.len() {
        return Err(AttrError { kind: AttrErrorKind::InvalidReprEnd, attr, token: Some(at) });
    }
    match &tokens[at + 2] {
        Token::Literal(text) => {
            if same_text(text, "\"raw\"") {
                Ok(Repr::Raw)
            } else if same_text(text, "\"serde\"") {
                Ok(Repr::Serde)
            } else if same_text(text, "\"shareable\"") {
                Ok(Repr::Shareable)
            } else {
                Err(AttrError { kind: AttrErrorKind::InvalidRepr, attr, token: Some(at + 2) })
            }
        },
        _ => Err(AttrError { kind: AttrErrorKind::InvalidRepr, attr, token: Some(at + 2) }),
    }
}

fn parse_list(tokens: &Vec<Token>, attr: usize, before: Seen) -> (read: Result<Seen, AttrError>)
    ensures
        read == scan_tokens(tokens_of(tokens@), attr as int, 0, before),
{
    let mut seen = before;
    let mut at: usize = 0;
    while at < tokens.len()
        invariant
            at <= tokens.len(),
            scan_tokens(tokens_of(tokens@), attr as int, at as int, seen) == scan_tokens(
                tokens_of(tokens@),
                attr as int,
                0,
                before,
            ),
        decreases tokens.len() - at,
    {
        match &tokens[at] {
            Token::Ident(word) => {
                if same_text(word, "transfer") {
                    if seen.transfer.is_some() {
                        return Err(
                            AttrError {
                                kind: AttrErrorKind::DuplicatedAttr,
                                attr,
                                token: Some(at),
                            },
                        );
                    }
                    seen = Seen { repr: seen.repr, transfer: Some((attr, at)) };
                    at += 1;
                } else if same_text(word, "repr") {
                    if seen.repr.is_some() {
                        return Err(
                            AttrError {
                                kind: AttrErrorKind::DuplicatedAttr,
                                attr,
                                token: Some(at),
                            },
                        );
                    }
                    match parse_repr(tokens, attr, at) {
                        Ok(repr) => {
                            seen = Seen { repr: Some(repr), transfer: seen.transfer };
                            at += 3;
                        },
                        Err(e) => {
                            return Err(e);
                        },
                    }
                } else {
                    return Err(
                        AttrError { kind: AttrErrorKind::InvalidAttr, attr, token: Some(at) },
                    );
                }
            },
            Token::Punct(c) => {
                if *c != ',' {
                    return Err(
                        AttrError { kind: AttrErrorKind::InvalidToken, attr, token: Some(at) },
                    );
                }
                at += 1;
            },
            _ => {
                return Err(
                    AttrError { kind: AttrErrorKind::InvalidToken, attr, token: Some(at) },
                );
            },
        }
    }
    Ok(seen)
}

/// Reads the attributes of `field` into its policy.
///
/// The attributes are read in order and share one state, so `repr` and
/// `transfer` may stand in one attribute or in two; the first refusal is
/// returned.
pub fn parse_attributes(field: &Field) -> (parsed: Result<Attributes, AttrError>)
    ensures
        parsed == attributes_of(metas_of(field.attrs@)),
{
    let ghost metas = metas_of(field.attrs@);
    let mut seen = Seen { repr: None, transfer: None };
    let mut attr: usize = 0;
    while attr < field.attrs.len()
        invariant
            attr <= field.attrs.len(),
            metas == metas_of(field.attrs@),
            scan_metas(metas, attr as int) == Ok::<Seen, AttrError>(seen),
        decreases field.attrs.len() - attr,
    {
        let read = match &field.attrs[attr] {
            Meta::List { ident, tokens } => {
                let shareable = match ident {
                    Some(name) => same_text(name, "shareable"),
                    None => false,
                };
                if shareable {
                    parse_list(tokens, attr, seen)
                } else {
                    Err(AttrError { kind: AttrErrorKind::InvalidFormat, attr, token: None })
                }
            },
            _ => Err(AttrError { kind: AttrErrorKind::InvalidFormat, attr, token: None }),
        };
        assert(read == scan_meta(metas[attr as int], attr as int, seen));
        match read {
            Ok(next) => {
                seen = next;
                attr += 1;
            },
            Err(e) => {
                proof {
                    lemma_refusal_stays(metas, attr + 1, metas.len() as int);
                }
                return Err(e);
            },
        }
    }
    let repr = match seen.repr {
        Some(repr) => repr,
        None => Repr::Shareable,
    };
    match seen.transfer {
        Some((attr, token)) => {
            if repr == Repr::Raw {
                Ok(Attributes { repr, transfer: true })
            } else {
                Err(AttrError { kind: AttrErrorKind::TransferNotRaw, attr, token: Some(token) })
            }
        },
        None => Ok(Attributes { repr, transfer: false }),
    }
}

/// Once reading a prefix of the attributes has been refused, reading more of
/// them gives the same refusal.
proof fn lemma_refusal_stays(metas: Seq<MetaModel>, count: int, more: int)
    requires
        count <= more,
        scan_metas(metas, count) is Err,
    ensures
        scan_metas(metas, more) == scan_metas(metas, count),
    decreases more - count,
{
    if count < more {
        lemma_refusal_stays(metas, count, more - 1);
    }
}

} // verus!
