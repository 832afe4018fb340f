//! Structural analysis: a recursive-descent parser over a pre-filtered
//! token vector that extracts entity and architecture declarations and
//! skips everything it does not recognize.

use crate::lexer::{
    ok_tokens, spec_token_stream, views_of, Lexer, Span, Token, TokenKind, TokenModel,
};
use crate::strutil::{parse_i64_or_zero, spec_parse_i64_or_zero};
use vstd::prelude::*;
use vstd::string::{StrSliceExecFns, StringExecFns};

verus! {

/// The direction of a declared port.
#[derive(Debug, Clone, Copy, PartialEq, Eq, Structural)]
pub enum PortDirection {
    In,
    Out,
    Inout,
    Buffer,
}

/// Ghost model of a type reference.
pub enum TypeModel {
    StdLogic,
    StdLogicVector { high: int, low: int },
    Integer,
    Boolean,
    Other(Seq<char>),
}

/// A simplified VHDL type reference; `Other` covers any identifier used as
/// a type name.
#[derive(Debug, PartialEq)]
pub enum VhdlType {
    StdLogic,
    StdLogicVector { high: i64, low: i64 },
    Integer,
    Boolean,
    Other(String),
}

impl View for VhdlType {
    type V = TypeModel;

    open spec fn view(&self) -> TypeModel {
        match self {
            VhdlType::StdLogic => TypeModel::StdLogic,
            VhdlType::StdLogicVector { high, low } => TypeModel::StdLogicVector {
                high: *high as int,
                low: *low as int,
            },
            VhdlType::Integer => TypeModel::Integer,
            VhdlType::Boolean => TypeModel::Boolean,
            VhdlType::Other(name) => TypeModel::Other(name@),
        }
    }
}

impl Clone for VhdlType {
    fn clone(&self) -> (r: Self)
        ensures
            r@ == self@,
    {
        match self {
            VhdlType::StdLogic => VhdlType::StdLogic,
            VhdlType::StdLogicVector { high, low } => VhdlType::StdLogicVector {
                high: *high,
                low: *low,
            },
            VhdlType::Integer => VhdlType::Integer,
            VhdlType::Boolean => VhdlType::Boolean,
            VhdlType::Other(name) => VhdlType::Other(name.clone()),
        }
    }
}

/// Ghost model of a port definition.
pub struct PortModel {
    pub name: Seq<char>,
    pub direction: PortDirection,
    pub typ: TypeModel,
    pub start: int,
    pub end: int,
}

/// One declared port of an entity.
#[derive(Debug, PartialEq)]
pub struct PortDef {
    pub name: String,
    pub direction: PortDirection,
    pub vhdl_type: VhdlType,
    pub span: Span,
}

impl View for PortDef {
    type V = PortModel;

    open spec fn view(&self) -> PortModel {
        PortModel {
            name: self.name@,
            direction: self.direction,
            typ: self.vhdl_type@,
            start: self.span.start as int,
            end: self.span.end as int,
        }
    }
}

/// Ghost model of a signal definition.
pub struct SigModel {
    pub name: Seq<char>,
    pub typ: TypeModel,
    pub default_value: Option<Seq<char>>,
    pub start: int,
    pub end: int,
}

/// One signal declared in an architecture's declarative part.
#[derive(Debug, PartialEq)]
pub struct SignalDef {
    pub name: String,
    pub vhdl_type: VhdlType,
    pub default_value: Option<String>,
    pub span: Span,
}

impl View for SignalDef {
    type V = SigModel;

    open spec fn view(&self) -> SigModel {
        SigModel {
            name: self.name@,
            typ: self.vhdl_type@,
            default_value: match &self.default_value {
                Some(v) => Some(v@),
                None => None,
            },
            start: self.span.start as int,
            end: self.span.end as int,
        }
    }
}

/// Ghost model of an entity definition.
pub struct EntityModel {
    pub name: Seq<char>,
    pub ports: Seq<PortModel>,
    pub start: int,
    pub end: int,
}

/// One entity declaration: its name and its ports, in declaration order.
#[derive(Debug, PartialEq)]
pub struct EntityDef {
    pub name: String,
    pub ports: Vec<PortDef>,
    pub span: Span,
}

impl View for EntityDef {
    type V = EntityModel;

    open spec fn view(&self) -> EntityModel {
        EntityModel {
            name: self.name@,
            ports: port_views(self.ports@),
            start: self.span.start as int,
            end: self.span.end as int,
        }
    }
}

/// Ghost model of an architecture definition.
pub struct ArchModel {
    pub name: Seq<char>,
    pub entity_name: Seq<char>,
    pub signals: Seq<SigModel>,
    pub start: int,
    pub end: int,
}

/// One architecture declaration: its name, the entity name it refers to
/// (a soft reference, never validated), and its declared signals.
#[derive(Debug, PartialEq)]
pub struct ArchitectureDef {
    pub name: String,
    pub entity_name: String,
    pub signals: Vec<SignalDef>,
    pub span: Span,
}

impl View for ArchitectureDef {
    type V = ArchModel;

    open spec fn view(&self) -> ArchModel {
        ArchModel {
            name: self.name@,
            entity_name: self.entity_name@,
            signals: sig_views(self.signals@),
            start: self.span.start as int,
            end: self.span.end as int,
        }
    }
}

/// Ghost model of a whole analysis result.
pub struct ResultModel {
    pub entities: Seq<EntityModel>,
    pub architectures: Seq<ArchModel>,
}

/// The complete output of one analysis run: entities and architectures as
/// independent top-level lists, in source order.
#[derive(Debug, PartialEq)]
pub struct AnalyzeResult {
    pub entities: Vec<EntityDef>,
    pub architectures: Vec<ArchitectureDef>,
}

impl View for AnalyzeResult {
    type V = ResultModel;

    open spec fn view(&self) -> ResultModel {
        ResultModel {
            entities: entity_views(self.entities@),
            architectures: arch_views(self.architectures@),
        }
    }
}

/// Ghost model of an analysis error.
pub struct AnalyzeErrModel {
    pub msg: Seq<char>,
    pub start: int,
    pub end: int,
}

/// An error raised on a grammar mismatch; the first one aborts the whole
/// analysis.
#[derive(Debug, Clone, PartialEq)]
pub struct AnalyzeError {
    pub message: String,
    pub span: Span,
}

impl View for AnalyzeError {
    type V = AnalyzeErrModel;

    open spec fn view(&self) -> AnalyzeErrModel {
        AnalyzeErrModel {
            msg: self.message@,
            start: self.span.start as int,
            end: self.span.end as int,
        }
    }
}

impl AnalyzeError {
    pub fn new(message: String, span: Span) -> (e: AnalyzeError)
        ensures
            e.message == message,
            e.span == span,
    {
        AnalyzeError { message, span }
    }
}

/// The sentinel token handed out when the cursor runs past the end of the
/// token vector.
pub fn eof_token() -> (t: Token)
    ensures
        t.kind == TokenKind::Eof,
        t.span.start == 0,
        t.span.end == 0,
        t.text@ == Seq::<char>::empty(),
{
    Token::new(TokenKind::Eof, Span::new(0, 0), String::new())
}

/// The kind of the token at `p`, or `Eof` past the end.
pub open spec fn kind_at(toks: Seq<TokenModel>, p: int) -> TokenKind {
    if 0 <= p < toks.len() {
        toks[p].kind
    } else {
        TokenKind::Eof
    }
}

/// The text of the token at `p`, or the empty text past the end.
pub open spec fn text_at(toks: Seq<TokenModel>, p: int) -> Seq<char> {
    if 0 <= p < toks.len() {
        toks[p].text
    } else {
        Seq::empty()
    }
}

/// The span start of the token at `p`, or zero past the end.
pub open spec fn start_at(toks: Seq<TokenModel>, p: int) -> int {
    if 0 <= p < toks.len() {
        toks[p].start
    } else {
        0
    }
}

/// The span end of the token at `p`, or zero past the end.
pub open spec fn end_at(toks: Seq<TokenModel>, p: int) -> int {
    if 0 <= p < toks.len() {
        toks[p].end
    } else {
        0
    }
}

/// The cursor position after one advance: one further, capped at the end.
pub open spec fn adv(toks: Seq<TokenModel>, p: int) -> int {
    if p < toks.len() {
        p + 1
    } else {
        p
    }
}

/// The name a token kind is written with in error messages.
pub open spec fn spec_kind_name(k: TokenKind) -> Seq<char> {
    match k {
        TokenKind::Identifier => "Identifier"@,
        TokenKind::Number => "Number"@,
        TokenKind::BitStringLiteral => "BitStringLiteral"@,
        TokenKind::CharacterLiteral => "CharacterLiteral"@,
        TokenKind::StringLiteral => "StringLiteral"@,
        TokenKind::Entity => "Entity"@,
        TokenKind::Architecture => "Architecture"@,
        TokenKind::Port => "Port"@,
        TokenKind::Signal => "Signal"@,
        TokenKind::Process => "Process"@,
        TokenKind::Begin => "Begin"@,
        TokenKind::End => "End"@,
        TokenKind::If => "If"@,
        TokenKind::Then => "Then"@,
        TokenKind::Else => "Else"@,
        TokenKind::Elsif => "Elsif"@,
        TokenKind::Case => "Case"@,
        TokenKind::When => "When"@,
        TokenKind::Is => "Is"@,
        TokenKind::Of => "Of"@,
        TokenKind::Others => "Others"@,
        TokenKind::Library => "Library"@,
        TokenKind::Use => "Use"@,
        TokenKind::In => "In"@,
        TokenKind::Out => "Out"@,
        TokenKind::Inout => "Inout"@,
        TokenKind::Buffer => "Buffer"@,
        TokenKind::Generic => "Generic"@,
        TokenKind::MapKw => "MapKw"@,
        TokenKind::Component => "Component"@,
        TokenKind::To => "To"@,
        TokenKind::Downto => "Downto"@,
        TokenKind::StdLogic => "StdLogic"@,
        TokenKind::StdLogicVector => "StdLogicVector"@,
        TokenKind::Integer => "Integer"@,
        TokenKind::Boolean => "Boolean"@,
        TokenKind::Assignment => "Assignment"@,
        TokenKind::Association => "Association"@,
        TokenKind::Eq => "Eq"@,
        TokenKind::Neq => "Neq"@,
        TokenKind::Lt => "Lt"@,
        TokenKind::Lte => "Lte"@,
        TokenKind::Gt => "Gt"@,
        TokenKind::Gte => "Gte"@,
        TokenKind::Plus => "Plus"@,
        TokenKind::Minus => "Minus"@,
        TokenKind::Star => "Star"@,
        TokenKind::Slash => "Slash"@,
        TokenKind::Power => "Power"@,
        TokenKind::Ampersand => "Ampersand"@,
        TokenKind::And => "And"@,
        TokenKind::Or => "Or"@,
        TokenKind::Not => "Not"@,
        TokenKind::Xor => "Xor"@,
        TokenKind::Nand => "Nand"@,
        TokenKind::Nor => "Nor"@,
        TokenKind::LeftParen => "LeftParen"@,
        TokenKind::RightParen => "RightParen"@,
        TokenKind::Semicolon => "Semicolon"@,
        TokenKind::Colon => "Colon"@,
        TokenKind::Comma => "Comma"@,
        TokenKind::Dot => "Dot"@,
        TokenKind::Apostrophe => "Apostrophe"@,
        TokenKind::Comment => "Comment"@,
        TokenKind::Eof => "Eof"@,
        TokenKind::Unknown => "Unknown"@,
    }
}

/// The message of an `expect` mismatch: it embeds the wanted kind, the
/// found kind, and the found text.
pub open spec fn expect_err_msg(want: TokenKind, found: TokenKind, text: Seq<char>) -> Seq<char> {
    "expected "@ + spec_kind_name(want) + ", found "@ + spec_kind_name(found) + " '"@ + text
        + "'"@
}

/// The message of an unrecognized port direction.
pub open spec fn dir_err_msg(text: Seq<char>) -> Seq<char> {
    "expected port direction, found '"@ + text + "'"@
}

/// The message of an unrecognized type shape.
pub open spec fn type_err_msg(text: Seq<char>) -> Seq<char> {
    "expected type, found '"@ + text + "'"@
}

/// What `expect` does: consume the current token when it has the wanted
/// kind, and fail with a message over its span otherwise.
pub open spec fn spec_expect(toks: Seq<TokenModel>, p: int, want: TokenKind) -> Result<
    int,
    AnalyzeErrModel,
> {
    if kind_at(toks, p) == want {
        Ok(adv(toks, p))
    } else {
        Err(
            AnalyzeErrModel {
                msg: expect_err_msg(want, kind_at(toks, p), text_at(toks, p)),
                start: start_at(toks, p),
                end: end_at(toks, p),
            },
        )
    }
}

proof fn lemma_expect_bounds(toks: Seq<TokenModel>, p: int, want: TokenKind)
    requires
        0 <= p <= toks.len(),
        want != TokenKind::Eof,
    ensures
        spec_expect(toks, p, want) matches Ok(q) ==> q == p + 1 && p < toks.len(),
{
}

/// The position where a scan for any of the given kinds stops: the first
/// position at or after `p` holding one of them or the end of the stream.
pub open spec fn spec_skip_until(toks: Seq<TokenModel>, p: int, ks: Seq<TokenKind>) -> int
    decreases toks.len() - p,
    when 0 <= p <= toks.len()
{
    if kind_at(toks, p) == TokenKind::Eof || ks.contains(kind_at(toks, p)) {
        p
    } else {
        spec_skip_until(toks, p + 1, ks)
    }
}

proof fn lemma_skip_until_bounds(toks: Seq<TokenModel>, p: int, ks: Seq<TokenKind>)
    requires
        0 <= p <= toks.len(),
    ensures
        p <= spec_skip_until(toks, p, ks) <= toks.len(),
    decreases toks.len() - p,
{
    if !(kind_at(toks, p) == TokenKind::Eof || ks.contains(kind_at(toks, p))) {
        lemma_skip_until_bounds(toks, p + 1, ks);
    }
}

/// The position after scanning for `end architecture`: the body is skipped
/// until an `End` token directly followed by an `Architecture` token, then
/// through the next semicolon; with no such pair the scan runs to the end.
pub open spec fn spec_arch_skip(toks: Seq<TokenModel>, p: int) -> int
    decreases toks.len() - p,
    when 0 <= p <= toks.len()
{
    if kind_at(toks, p) == TokenKind::Eof {
        p
    } else if kind_at(toks, p) == TokenKind::End && kind_at(toks, p + 1)
        == TokenKind::Architecture {
        adv(toks, spec_skip_until(toks, p, seq![TokenKind::Semicolon]))
    } else {
        spec_arch_skip(toks, p + 1)
    }
}

proof fn lemma_arch_skip_bounds(toks: Seq<TokenModel>, p: int)
    requires
        0 <= p <= toks.len(),
    ensures
        p <= spec_arch_skip(toks, p) <= toks.len(),
    decreases toks.len() - p,
{
    if kind_at(toks, p) == TokenKind::Eof {
    } else if kind_at(toks, p) == TokenKind::End && kind_at(toks, p + 1)
        == TokenKind::Architecture {
        lemma_skip_until_bounds(toks, p, seq![TokenKind::Semicolon]);
    } else {
        lemma_arch_skip_bounds(toks, p + 1);
    }
}

/// What `parse_direction` yields: one of the four direction keywords, or
/// an error naming the found text.
pub open spec fn spec_parse_direction(toks: Seq<TokenModel>, p: int) -> Result<
    (PortDirection, int),
    AnalyzeErrModel,
> {
    match kind_at(toks, p) {
        TokenKind::In => Ok((PortDirection::In, adv(toks, p))),
        TokenKind::Out => Ok((PortDirection::Out, adv(toks, p))),
        TokenKind::Inout => Ok((PortDirection::Inout, adv(toks, p))),
        TokenKind::Buffer => Ok((PortDirection::Buffer, adv(toks, p))),
        _ => Err(
            AnalyzeErrModel {
                msg: dir_err_msg(text_at(toks, p)),
                start: start_at(toks, p),
                end: end_at(toks, p),
            },
        ),
    }
}

proof fn lemma_direction_bounds(toks: Seq<TokenModel>, p: int)
    requires
        0 <= p <= toks.len(),
    ensures
        spec_parse_direction(toks, p) matches Ok(r) ==> r.1 == p + 1 && p < toks.len(),
{
}

/// What `parse_type` yields: the recognized type keywords, a vector type
/// with an optional positional range whose malformed bounds fall back to
/// zero, an identifier as an `Other` type, or an error.
pub open spec fn spec_parse_type(toks: Seq<TokenModel>, p: int) -> Result<
    (TypeModel, int),
    AnalyzeErrModel,
> {
    match kind_at(toks, p) {
        TokenKind::StdLogic => Ok((TypeModel::StdLogic, adv(toks, p))),
        TokenKind::Integer => Ok((TypeModel::Integer, adv(toks, p))),
        TokenKind::Boolean => Ok((TypeModel::Boolean, adv(toks, p))),
        TokenKind::Identifier => Ok((TypeModel::Other(text_at(toks, p)), adv(toks, p))),
        TokenKind::StdLogicVector => {
            let p1 = adv(toks, p);
            if kind_at(toks, p1) == TokenKind::LeftParen {
                let p2 = adv(toks, p1);
                match spec_expect(toks, p2, TokenKind::Number) {
                    Ok(p3) => {
                        let high = spec_parse_i64_or_zero(text_at(toks, p2));
                        let p4 = if kind_at(toks, p3) == TokenKind::Downto || kind_at(toks, p3)
                            == TokenKind::To {
                            adv(toks, p3)
                        } else {
                            p3
                        };
                        match spec_expect(toks, p4, TokenKind::Number) {
                            Ok(p5) => {
                                let low = spec_parse_i64_or_zero(text_at(toks, p4));
                                match spec_expect(toks, p5, TokenKind::RightParen) {
                                    Ok(p6) => Ok(
                                        (TypeModel::StdLogicVector { high, low }, p6),
                                    ),
                                    Err(e) => Err(e),
                                }
                            },
                            Err(e) => Err(e),
                        }
                    },
                    Err(e) => Err(e),
                }
            } else {
                Ok((TypeModel::StdLogicVector { high: 0, low: 0 }, p1))
            }
        },
        _ => Err(
            AnalyzeErrModel {
                msg: type_err_msg(text_at(toks, p)),
                start: start_at(toks, p),
                end: end_at(toks, p),
            },
        ),
    }
}

proof fn lemma_type_bounds(toks: Seq<TokenModel>, p: int)
    requires
        0 <= p <= toks.len(),
    ensures
        spec_parse_type(toks, p) matches Ok(r) ==> p < r.1 <= toks.len(),
{
    lemma_expect_bounds(toks, p, TokenKind::Number);
    if kind_at(toks, p) == TokenKind::StdLogicVector {
        let p1 = adv(toks, p);
        if kind_at(toks, p1) == TokenKind::LeftParen {
            let p2 = adv(toks, p1);
            lemma_expect_bounds(toks, p2, TokenKind::Number);
            match spec_expect(toks, p2, TokenKind::Number) {
                Ok(p3) => {
                    let p4 = if kind_at(toks, p3) == TokenKind::Downto || kind_at(toks, p3)
                        == TokenKind::To {
                        adv(toks, p3)
                    } else {
                        p3
                    };
                    lemma_expect_bounds(toks, p4, TokenKind::Number);
                    match spec_expect(toks, p4, TokenKind::Number) {
                        Ok(p5) => {
                            lemma_expect_bounds(toks, p5, TokenKind::RightParen);
                        },
                        Err(_) => {},
                    }
                },
                Err(_) => {},
            }
        }
    }
}

/// The names of one comma-separated group after its first: each `,` must
/// be followed by an identifier, whose raw text is taken.
pub open spec fn spec_more_names(toks: Seq<TokenModel>, p: int) -> Result<
    (Seq<Seq<char>>, int),
    AnalyzeErrModel,
>
    decreases toks.len() - p,
    when 0 <= p <= toks.len()
{
    if kind_at(toks, p) != TokenKind::Comma {
        Ok((Seq::empty(), p))
    } else {
        let p1 = adv(toks, p);
        match spec_expect(toks, p1, TokenKind::Identifier) {
            Ok(p2) => match spec_more_names(toks, p2) {
                Ok(r) => Ok((seq![text_at(toks, p1)] + r.0, r.1)),
                Err(e) => Err(e),
            },
            Err(e) => Err(e),
        }
    }
}

proof fn lemma_more_names_bounds(toks: Seq<TokenModel>, p: int)
    requires
        0 <= p <= toks.len(),
    ensures
        spec_more_names(toks, p) matches Ok(r) ==> p <= r.1 <= toks.len(),
    decreases toks.len() - p,
{
    if kind_at(toks, p) == TokenKind::Comma {
        let p1 = adv(toks, p);
        lemma_expect_bounds(toks, p1, TokenKind::Identifier);
        match spec_expect(toks, p1, TokenKind::Identifier) {
            Ok(p2) => {
                lemma_more_names_bounds(toks, p2);
            },
            Err(_) => {},
        }
    }
}

/// The names of one comma-separated port group, as captured from the
/// identifier tokens.
pub open spec fn spec_parse_names(toks: Seq<TokenModel>, p: int) -> Result<
    (Seq<Seq<char>>, int),
    AnalyzeErrModel,
> {
    match spec_expect(toks, p, TokenKind::Identifier) {
        Ok(p1) => match spec_more_names(toks, p1) {
            Ok(r) => Ok((seq![text_at(toks, p)] + r.0, r.1)),
            Err(e) => Err(e),
        },
        Err(e) => Err(e),
    }
}

proof fn lemma_names_bounds(toks: Seq<TokenModel>, p: int)
    requires
        0 <= p <= toks.len(),
    ensures
        spec_parse_names(toks, p) matches Ok(r) ==> p < r.1 <= toks.len() && r.0.len() >= 1,
{
    lemma_expect_bounds(toks, p, TokenKind::Identifier);
    match spec_expect(toks, p, TokenKind::Identifier) {
        Ok(p1) => {
            lemma_more_names_bounds(toks, p1);
        },
        Err(_) => {},
    }
}

/// What `parse_port_group` yields: a group of names sharing one direction,
/// one type, and the span of the group's first token.
pub open spec fn spec_parse_port_group(toks: Seq<TokenModel>, p: int) -> Result<
    (Seq<PortModel>, int),
    AnalyzeErrModel,
> {
    let gs = start_at(toks, p);
    let ge = end_at(toks, p);
    match spec_parse_names(toks, p) {
        Ok((names, p1)) => match spec_expect(toks, p1, TokenKind::Colon) {
            Ok(p2) => match spec_parse_direction(toks, p2) {
                Ok((d, p3)) => match spec_parse_type(toks, p3) {
                    Ok((t, p4)) => Ok(
                        (
                            names.map_values(
                                |n: Seq<char>| PortModel {
                                    name: n,
                                    direction: d,
                                    typ: t,
                                    start: gs,
                                    end: ge,
                                },
                            ),
                            p4,
                        ),
                    ),
                    Err(e) => Err(e),
                },
                Err(e) => Err(e),
            },
            Err(e) => Err(e),
        },
        Err(e) => Err(e),
    }
}

proof fn lemma_group_bounds(toks: Seq<TokenModel>, p: int)
    requires
        0 <= p <= toks.len(),
    ensures
        spec_parse_port_group(toks, p) matches Ok(r) ==> p < r.1 <= toks.len(),
{
    lemma_names_bounds(toks, p);
    match spec_parse_names(toks, p) {
        Ok((names, p1)) => {
            lemma_expect_bounds(toks, p1, TokenKind::Colon);
            match spec_expect(toks, p1, TokenKind::Colon) {
                Ok(p2) => {
                    lemma_direction_bounds(toks, p2);
                    match spec_parse_direction(toks, p2) {
                        Ok((d, p3)) => {
                            lemma_type_bounds(toks, p3);
                        },
                        Err(_) => {},
                    }
                },
                Err(_) => {},
            }
        },
        Err(_) => {},
    }
}

/// What `parse_port_list` yields: port groups separated by semicolons,
/// with a trailing semicolon before the closing parenthesis tolerated.
pub open spec fn spec_parse_port_list(toks: Seq<TokenModel>, p: int) -> Result<
    (Seq<PortModel>, int),
    AnalyzeErrModel,
>
    decreases toks.len() - p,
    when 0 <= p <= toks.len()
    via spec_parse_port_list_dec
{
    if kind_at(toks, p) == TokenKind::RightParen || kind_at(toks, p) == TokenKind::Eof {
        Ok((Seq::empty(), p))
    } else {
        match spec_parse_port_group(toks, p) {
            Ok((g, q)) => {
                let q2 = if kind_at(toks, q) == TokenKind::Semicolon {
                    adv(toks, q)
                } else {
                    q
                };
                match spec_parse_port_list(toks, q2) {
                    Ok((rest, r)) => Ok((g + rest, r)),
                    Err(e) => Err(e),
                }
            },
            Err(e) => Err(e),
        }
    }
}

#[via_fn]
proof fn spec_parse_port_list_dec(toks: Seq<TokenModel>, p: int) {
    lemma_group_bounds(toks, p);
}

proof fn lemma_port_list_bounds(toks: Seq<TokenModel>, p: int)
    requires
        0 <= p <= toks.len(),
    ensures
        spec_parse_port_list(toks, p) matches Ok(r) ==> p <= r.1 <= toks.len(),
    decreases toks.len() - p,
{
    if !(kind_at(toks, p) == TokenKind::RightParen || kind_at(toks, p) == TokenKind::Eof) {
        lemma_group_bounds(toks, p);
        match spec_parse_port_group(toks, p) {
            Ok((g, q)) => {
                let q2 = if kind_at(toks, q) == TokenKind::Semicolon {
                    adv(toks, q)
                } else {
                    q
                };
                lemma_port_list_bounds(toks, q2);
            },
            Err(_) => {},
        }
    }
}

/// What the optional port clause of an entity yields.
pub open spec fn spec_entity_ports(toks: Seq<TokenModel>, p: int) -> Result<
    (Seq<PortModel>, int),
    AnalyzeErrModel,
> {
    if kind_at(toks, p) == TokenKind::Port {
        let p1 = adv(toks, p);
        match spec_expect(toks, p1, TokenKind::LeftParen) {
            Ok(p2) => match spec_parse_port_list(toks, p2) {
                Ok((ports, q)) => match spec_expect(toks, q, TokenKind::RightParen) {
                    Ok(q1) => match spec_expect(toks, q1, TokenKind::Semicolon) {
                        Ok(q2) => Ok((ports, q2)),
                        Err(e) => Err(e),
                    },
                    Err(e) => Err(e),
                },
                Err(e) => Err(e),
            },
            Err(e) => Err(e),
        }
    } else {
        Ok((Seq::empty(), p))
    }
}

proof fn lemma_entity_ports_bounds(toks: Seq<TokenModel>, p: int)
    requires
        0 <= p <= toks.len(),
    ensures
        spec_entity_ports(toks, p) matches Ok(r) ==> p <= r.1 <= toks.len(),
{
    if kind_at(toks, p) == TokenKind::Port {
        let p1 = adv(toks, p);
        lemma_expect_bounds(toks, p1, TokenKind::LeftParen);
        match spec_expect(toks, p1, TokenKind::LeftParen) {
            Ok(p2) => {
                lemma_port_list_bounds(toks, p2);
                match spec_parse_port_list(toks, p2) {
                    Ok((ports, q)) => {
                        lemma_expect_bounds(toks, q, TokenKind::RightParen);
                        match spec_expect(toks, q, TokenKind::RightParen) {
                            Ok(q1) => {
                                lemma_expect_bounds(toks, q1, TokenKind::Semicolon);
                            },
                            Err(_) => {},
                        }
                    },
                    Err(_) => {},
                }
            },
            Err(_) => {},
        }
    }
}

/// What `parse_entity` yields: the entity's name as captured from the
/// identifier token, its ports,
/// and a span from the `entity` keyword through the closing semicolon; the
/// closing clause itself is only scanned to the next semicolon, never
/// grammar-checked.
///
/// When no semicolon remains, the span end is taken from the
/// out-of-range sentinel and is zero, so such a span does not contain its
/// ports' spans; a deliberate best-effort tolerance.
pub open spec fn spec_parse_entity(toks: Seq<TokenModel>, p: int) -> Result<
    (EntityModel, int),
    AnalyzeErrModel,
> {
    let est = start_at(toks, p);
    match spec_expect(toks, p, TokenKind::Entity) {
        Ok(p1) => match spec_expect(toks, p1, TokenKind::Identifier) {
            Ok(p2) => match spec_expect(toks, p2, TokenKind::Is) {
                Ok(p3) => match spec_entity_ports(toks, p3) {
                    Ok((ports, q)) => {
                        let q2 = spec_skip_until(toks, q, seq![TokenKind::Semicolon]);
                        Ok(
                            (
                                EntityModel {
                                    name: text_at(toks, p1),
                                    ports,
                                    start: est,
                                    end: end_at(toks, q2),
                                },
                                adv(toks, q2),
                            ),
                        )
                    },
                    Err(e) => Err(e),
                },
                Err(e) => Err(e),
            },
            Err(e) => Err(e),
        },
        Err(e) => Err(e),
    }
}

proof fn lemma_entity_bounds(toks: Seq<TokenModel>, p: int)
    requires
        0 <= p <= toks.len(),
    ensures
        spec_parse_entity(toks, p) matches Ok(r) ==> p < r.1 <= toks.len(),
{
    lemma_expect_bounds(toks, p, TokenKind::Entity);
    match spec_expect(toks, p, TokenKind::Entity) {
        Ok(p1) => {
            lemma_expect_bounds(toks, p1, TokenKind::Identifier);
            match spec_expect(toks, p1, TokenKind::Identifier) {
                Ok(p2) => {
                    lemma_expect_bounds(toks, p2, TokenKind::Is);
                    match spec_expect(toks, p2, TokenKind::Is) {
                        Ok(p3) => {
                            lemma_entity_ports_bounds(toks, p3);
                            match spec_entity_ports(toks, p3) {
                                Ok(r) => {
                                    lemma_skip_until_bounds(toks, r.1, seq![TokenKind::Semicolon]);
                                },
                                Err(_) => {},
                            }
                        },
                        Err(_) => {},
                    }
                },
                Err(_) => {},
            }
        },
        Err(_) => {},
    }
}

/// The space-joined raw texts of the tokens from `p` up to the next
/// semicolon or the end of the stream.
pub open spec fn spec_default_text(toks: Seq<TokenModel>, p: int) -> Seq<char>
    decreases toks.len() - p,
    when 0 <= p <= toks.len()
{
    if kind_at(toks, p) == TokenKind::Semicolon || kind_at(toks, p) == TokenKind::Eof {
        Seq::empty()
    } else if kind_at(toks, p + 1) == TokenKind::Semicolon || kind_at(toks, p + 1)
        == TokenKind::Eof {
        text_at(toks, p)
    } else {
        text_at(toks, p) + " "@ + spec_default_text(toks, p + 1)
    }
}

/// What `parse_signal_decl` yields: the signal's name as captured from
/// the identifier token, its
/// type, and its raw default-value text when an initializer is present.
pub open spec fn spec_parse_signal(toks: Seq<TokenModel>, p: int) -> Result<
    (SigModel, int),
    AnalyzeErrModel,
> {
    let sst = start_at(toks, p);
    match spec_expect(toks, p, TokenKind::Signal) {
        Ok(p1) => match spec_expect(toks, p1, TokenKind::Identifier) {
            Ok(p2) => match spec_expect(toks, p2, TokenKind::Colon) {
                Ok(p3) => match spec_parse_type(toks, p3) {
                    Ok((t, q)) => {
                        let dv = if kind_at(toks, q) == TokenKind::Assignment {
                            Some(spec_default_text(toks, adv(toks, q)))
                        } else {
                            None
                        };
                        let q2 = if kind_at(toks, q) == TokenKind::Assignment {
                            spec_skip_until(toks, adv(toks, q), seq![TokenKind::Semicolon])
                        } else {
                            q
                        };
                        match spec_expect(toks, q2, TokenKind::Semicolon) {
                            Ok(q3) => Ok(
                                (
                                    SigModel {
                                        name: text_at(toks, p1),
                                        typ: t,
                                        default_value: dv,
                                        start: sst,
                                        end: end_at(toks, q2),
                                    },
                                    q3,
                                ),
                            ),
                            Err(e) => Err(e),
                        }
                    },
                    Err(e) => Err(e),
                },
                Err(e) => Err(e),
            },
            Err(e) => Err(e),
        },
        Err(e) => Err(e),
    }
}

proof fn lemma_signal_bounds(toks: Seq<TokenModel>, p: int)
    requires
        0 <= p <= toks.len(),
    ensures
        spec_parse_signal(toks, p) matches Ok(r) ==> p < r.1 <= toks.len(),
{
    lemma_expect_bounds(toks, p, TokenKind::Signal);
    match spec_expect(toks, p, TokenKind::Signal) {
        Ok(p1) => {
            lemma_expect_bounds(toks, p1, TokenKind::Identifier);
            match spec_expect(toks, p1, TokenKind::Identifier) {
                Ok(p2) => {
                    lemma_expect_bounds(toks, p2, TokenKind::Colon);
                    match spec_expect(toks, p2, TokenKind::Colon) {
                        Ok(p3) => {
                            lemma_type_bounds(toks, p3);
                            match spec_parse_type(toks, p3) {
                                Ok((t, q)) => {
                                    if kind_at(toks, q) == TokenKind::Assignment {
                                        lemma_skip_until_bounds(
                                            toks,
                                            adv(toks, q),
                                            seq![TokenKind::Semicolon],
                                        );
                                    }
                                    let q2 = if kind_at(toks, q) == TokenKind::Assignment {
                                        spec_skip_until(
                                            toks,
                                            adv(toks, q),
                                            seq![TokenKind::Semicolon],
                                        )
                                    } else {
                                        q
                                    };
                                    lemma_expect_bounds(toks, q2, TokenKind::Semicolon);
                                },
                                Err(_) => {},
                            }
                        },
                        Err(_) => {},
                    }
                },
                Err(_) => {},
            }
        },
        Err(_) => {},
    }
}

/// What scanning an architecture's declarative part yields: every
/// `signal` declaration before `begin`, with everything else skipped one
/// token at a time.
pub open spec fn spec_parse_decls(toks: Seq<TokenModel>, p: int) -> Result<
    (Seq<SigModel>, int),
    AnalyzeErrModel,
>
    decreases toks.len() - p,
    when 0 <= p <= toks.len()
    via spec_parse_decls_dec
{
    if kind_at(toks, p) == TokenKind::Begin || kind_at(toks, p) == TokenKind::Eof {
        Ok((Seq::empty(), p))
    } else if kind_at(toks, p) == TokenKind::Signal {
        match spec_parse_signal(toks, p) {
            Ok((sig, q)) => match spec_parse_decls(toks, q) {
                Ok((rest, r)) => Ok((seq![sig] + rest, r)),
                Err(e) => Err(e),
            },
            Err(e) => Err(e),
        }
    } else {
        spec_parse_decls(toks, p + 1)
    }
}

#[via_fn]
proof fn spec_parse_decls_dec(toks: Seq<TokenModel>, p: int) {
    lemma_signal_bounds(toks, p);
}

proof fn lemma_decls_bounds(toks: Seq<TokenModel>, p: int)
    requires
        0 <= p <= toks.len(),
    ensures
        spec_parse_decls(toks, p) matches Ok(r) ==> p <= r.1 <= toks.len(),
    decreases toks.len() - p,
{
    if kind_at(toks, p) == TokenKind::Begin || kind_at(toks, p) == TokenKind::Eof {
    } else if kind_at(toks, p) == TokenKind::Signal {
        lemma_signal_bounds(toks, p);
        match spec_parse_signal(toks, p) {
            Ok((sig, q)) => {
                lemma_decls_bounds(toks, q);
            },
            Err(_) => {},
        }
    } else {
        lemma_decls_bounds(toks, p + 1);
    }
}

/// What `parse_architecture` yields: the architecture's name and the
/// entity name it refers to, both as captured from the identifier tokens
/// (the reference is never validated against the
/// declared entities), and its signals; the statement body is skipped.
///
/// When no `end architecture` pair is found, the span is derived from the
/// last consumed token, best-effort, and with an empty stream it falls
/// back to the sentinel span; no error is raised either way.
pub open spec fn spec_parse_arch(toks: Seq<TokenModel>, p: int) -> Result<
    (ArchModel, int),
    AnalyzeErrModel,
> {
    let ast = start_at(toks, p);
    match spec_expect(toks, p, TokenKind::Architecture) {
        Ok(p1) => match spec_expect(toks, p1, TokenKind::Identifier) {
            Ok(p2) => match spec_expect(toks, p2, TokenKind::Of) {
                Ok(p3) => match spec_expect(toks, p3, TokenKind::Identifier) {
                    Ok(p4) => match spec_expect(toks, p4, TokenKind::Is) {
                        Ok(p5) => match spec_parse_decls(toks, p5) {
                            Ok((signals, q)) => {
                                let q2 = spec_arch_skip(toks, q);
                                let ep = if q2 >= 1 {
                                    q2 - 1
                                } else {
                                    0
                                };
                                let e_end = if 0 <= ep < toks.len() {
                                    toks[ep].end
                                } else {
                                    end_at(toks, p)
                                };
                                Ok(
                                    (
                                        ArchModel {
                                            name: text_at(toks, p1),
                                            entity_name: text_at(toks, p3),
                                            signals,
                                            start: ast,
                                            end: e_end,
                                        },
                                        q2,
                                    ),
                                )
                            },
                            Err(e) => Err(e),
                        },
                        Err(e) => Err(e),
                    },
                    Err(e) => Err(e),
                },
                Err(e) => Err(e),
            },
            Err(e) => Err(e),
        },
        Err(e) => Err(e),
    }
}

proof fn lemma_arch_bounds(toks: Seq<TokenModel>, p: int)
    requires
        0 <= p <= toks.len(),
    ensures
        spec_parse_arch(toks, p) matches Ok(r) ==> p < r.1 <= toks.len(),
{
    lemma_expect_bounds(toks, p, TokenKind::Architecture);
    match spec_expect(toks, p, TokenKind::Architecture) {
        Ok(p1) => {
            lemma_expect_bounds(toks, p1, TokenKind::Identifier);
            match spec_expect(toks, p1, TokenKind::Identifier) {
                Ok(p2) => {
                    lemma_expect_bounds(toks, p2, TokenKind::Of);
                    match spec_expect(toks, p2, TokenKind::Of) {
                        Ok(p3) => {
                            lemma_expect_bounds(toks, p3, TokenKind::Identifier);
                            match spec_expect(toks, p3, TokenKind::Identifier) {
                                Ok(p4) => {
                                    lemma_expect_bounds(toks, p4, TokenKind::Is);
                                    match spec_expect(toks, p4, TokenKind::Is) {
                                        Ok(p5) => {
                                            lemma_decls_bounds(toks, p5);
                                            match spec_parse_decls(toks, p5) {
                                                Ok(r) => {
                                                    lemma_arch_skip_bounds(toks, r.1);
                                                },
                                                Err(_) => {},
                                            }
                                        },
                                        Err(_) => {},
                                    }
                                },
                                Err(_) => {},
                            }
                        },
                        Err(_) => {},
                    }
                },
                Err(_) => {},
            }
        },
        Err(_) => {},
    }
}

/// What one whole analysis run yields from position `p`: every entity and
/// every architecture in source order, with unrecognized top-level tokens
/// skipped silently, or the first grammar error.
pub open spec fn spec_analyze(toks: Seq<TokenModel>, p: int) -> Result<
    ResultModel,
    AnalyzeErrModel,
>
    decreases toks.len() - p,
    when 0 <= p <= toks.len()
    via spec_analyze_dec
{
    if kind_at(toks, p) == TokenKind::Eof {
        Ok(ResultModel { entities: Seq::empty(), architectures: Seq::empty() })
    } else if kind_at(toks, p) == TokenKind::Entity {
        match spec_parse_entity(toks, p) {
            Ok((ent, q)) => match spec_analyze(toks, q) {
                Ok(m) => Ok(
                    ResultModel {
                        entities: seq![ent] + m.entities,
                        architectures: m.architectures,
                    },
                ),
                Err(e) => Err(e),
            },
            Err(e) => Err(e),
        }
    } else if kind_at(toks, p) == TokenKind::Architecture {
        match spec_parse_arch(toks, p) {
            Ok((arch, q)) => match spec_analyze(toks, q) {
                Ok(m) => Ok(
                    ResultModel {
                        entities: m.entities,
                        architectures: seq![arch] + m.architectures,
                    },
                ),
                Err(e) => Err(e),
            },
            Err(e) => Err(e),
        }
    } else {
        spec_analyze(toks, p + 1)
    }
}

#[via_fn]
proof fn spec_analyze_dec(toks: Seq<TokenModel>, p: int) {
    lemma_entity_bounds(toks, p);
    lemma_arch_bounds(toks, p);
}

/// Whether the analyzer keeps a token: comments and end-of-stream markers
/// are removed before parsing.
pub open spec fn keep_tok(t: TokenModel) -> bool {
    t.kind != TokenKind::Comment && t.kind != TokenKind::Eof
}

/// The token models that survive the analyzer's input filter, in order.
pub open spec fn filter_models(ms: Seq<TokenModel>) -> Seq<TokenModel>
    decreases ms.len(),
{
    if ms.len() == 0 {
        Seq::empty()
    } else {
        filter_models(ms.drop_last()) + (if keep_tok(ms.last()) {
            seq![ms.last()]
        } else {
            Seq::empty()
        })
    }
}

/// The views of a sequence of owned strings.
pub open spec fn strs_of(ss: Seq<String>) -> Seq<Seq<char>> {
    ss.map_values(|s: String| s@)
}

/// The models of a sequence of entity definitions.
pub open spec fn entity_views(es: Seq<EntityDef>) -> Seq<EntityModel> {
    es.map_values(|e: EntityDef| e@)
}

/// The models of a sequence of architecture definitions.
pub open spec fn arch_views(archs: Seq<ArchitectureDef>) -> Seq<ArchModel> {
    archs.map_values(|a: ArchitectureDef| a@)
}

/// The space-and-text continuation of a default value already begun.
pub open spec fn spec_default_tail(toks: Seq<TokenModel>, p: int) -> Seq<char>
    decreases toks.len() - p,
    when 0 <= p <= toks.len()
{
    if kind_at(toks, p) == TokenKind::Semicolon || kind_at(toks, p) == TokenKind::Eof {
        Seq::empty()
    } else {
        " "@ + text_at(toks, p) + spec_default_tail(toks, p + 1)
    }
}

proof fn lemma_default_text_tail(toks: Seq<TokenModel>, p: int)
    requires
        0 <= p <= toks.len(),
        !(kind_at(toks, p) == TokenKind::Semicolon || kind_at(toks, p) == TokenKind::Eof),
    ensures
        spec_default_text(toks, p) == text_at(toks, p) + spec_default_tail(toks, p + 1),
    decreases toks.len() - p,
{
    if kind_at(toks, p + 1) == TokenKind::Semicolon || kind_at(toks, p + 1) == TokenKind::Eof {
        assert(spec_default_tail(toks, p + 1) =~= Seq::<char>::empty());
        assert(text_at(toks, p) + Seq::<char>::empty() =~= text_at(toks, p));
    } else {
        lemma_default_text_tail(toks, p + 1);
        assert(text_at(toks, p) + (" "@ + text_at(toks, p + 1) + spec_default_tail(toks, p + 2))
            =~= text_at(toks, p) + " "@ + (text_at(toks, p + 1) + spec_default_tail(toks, p + 2)));
    }
}

/// The models of a sequence of port definitions.
pub open spec fn port_views(ps: Seq<PortDef>) -> Seq<PortModel> {
    ps.map_values(|p: PortDef| p@)
}

/// The models of a sequence of signal definitions.
pub open spec fn sig_views(ss: Seq<SignalDef>) -> Seq<SigModel> {
    ss.map_values(|s: SignalDef| s@)
}

/// The name a token kind is printed with in error messages.
pub fn kind_name(k: TokenKind) -> (r: &'static str)
    ensures
        r@ == spec_kind_name(k),
{
    match k {
        TokenKind::Identifier => "Identifier",
        TokenKind::Number => "Number",
        TokenKind::BitStringLiteral => "BitStringLiteral",
        TokenKind::CharacterLiteral => "CharacterLiteral",
        TokenKind::StringLiteral => "StringLiteral",
        TokenKind::Entity => "Entity",
        TokenKind::Architecture => "Architecture",
        TokenKind::Port => "Port",
        TokenKind::Signal => "Signal",
        TokenKind::Process => "Process",
        TokenKind::Begin => "Begin",
        TokenKind::End => "End",
        TokenKind::If => "If",
        TokenKind::Then => "Then",
        TokenKind::Else => "Else",
        TokenKind::Elsif => "Elsif",
        TokenKind::Case => "Case",
        TokenKind::When => "When",
        TokenKind::Is => "Is",
        TokenKind::Of => "Of",
        TokenKind::Others => "Others",
        TokenKind::Library => "Library",
        TokenKind::Use => "Use",
        TokenKind::In => "In",
        TokenKind::Out => "Out",
        TokenKind::Inout => "Inout",
        TokenKind::Buffer => "Buffer",
        TokenKind::Generic => "Generic",
        TokenKind::MapKw => "MapKw",
        TokenKind::Component => "Component",
        TokenKind::To => "To",
        TokenKind::Downto => "Downto",
        TokenKind::StdLogic => "StdLogic",
        TokenKind::StdLogicVector => "StdLogicVector",
        TokenKind::Integer => "Integer",
        TokenKind::Boolean => "Boolean",
        TokenKind::Assignment => "Assignment",
        TokenKind::Association => "Association",
        TokenKind::Eq => "Eq",
        TokenKind::Neq => "Neq",
        TokenKind::Lt => "Lt",
        TokenKind::Lte => "Lte",
        TokenKind::Gt => "Gt",
        TokenKind::Gte => "Gte",
        TokenKind::Plus => "Plus",
        TokenKind::Minus => "Minus",
        TokenKind::Star => "Star",
        TokenKind::Slash => "Slash",
        TokenKind::Power => "Power",
        TokenKind::Ampersand => "Ampersand",
        TokenKind::And => "And",
        TokenKind::Or => "Or",
        TokenKind::Not => "Not",
        TokenKind::Xor => "Xor",
        TokenKind::Nand => "Nand",
        TokenKind::Nor => "Nor",
        TokenKind::LeftParen => "LeftParen",
        TokenKind::RightParen => "RightParen",
        TokenKind::Semicolon => "Semicolon",
        TokenKind::Colon => "Colon",
        TokenKind::Comma => "Comma",
        TokenKind::Dot => "Dot",
        TokenKind::Apostrophe => "Apostrophe",
        TokenKind::Comment => "Comment",
        TokenKind::Eof => "Eof",
        TokenKind::Unknown => "Unknown",
    }
}

fn expect_error(want: TokenKind, found: &Token) -> (e: AnalyzeError)
    ensures
        e.message@ == expect_err_msg(want, found.kind, found.text@),
        e.span == found.span,
{
    let mut msg = String::from_str("expected ");
    msg.append(kind_name(want));
    msg.append(", found ");
    msg.append(kind_name(found.kind));
    msg.append(" '");
    msg.append(found.text.as_str());
    msg.append("'");
    AnalyzeError::new(msg, found.span)
}

fn direction_error(found: &Token) -> (e: AnalyzeError)
    ensures
        e.message@ == dir_err_msg(found.text@),
        e.span == found.span,
{
    let mut msg = String::from_str("expected port direction, found '");
    msg.append(found.text.as_str());
    msg.append("'");
    AnalyzeError::new(msg, found.span)
}

fn type_error(found: &Token) -> (e: AnalyzeError)
    ensures
        e.message@ == type_err_msg(found.text@),
        e.span == found.span,
{
    let mut msg = String::from_str("expected type, found '");
    msg.append(found.text.as_str());
    msg.append("'");
    AnalyzeError::new(msg, found.span)
}

fn kinds_contain(ks: &[TokenKind], k: TokenKind) -> (r: bool)
    ensures
        r == ks@.contains(k),
{
    let mut i: usize = 0;
    while i < ks.len()
        invariant
            0 <= i <= ks@.len(),
            forall|j: int| 0 <= j < i ==> ks@[j] != k,
        decreases ks@.len() - i,
    {
        if ks[i] == k {
            return true;
        }
        i = i + 1;
    }
    false
}

/// The structural analyzer: a position-indexed cursor over a pre-filtered
/// token vector that drives the recursive-descent parse.
pub struct Analyzer {
    tokens: Vec<Token>,
    pos: usize,
}

impl Analyzer {
    /// The models of the tokens the analyzer parses.
    pub closed spec fn toks(self) -> Seq<TokenModel> {
        views_of(self.tokens@)
    }

    /// The cursor position.
    pub closed spec fn at(self) -> int {
        self.pos as int
    }

    /// The cursor never stands past the end of the token vector.
    pub closed spec fn wf(self) -> bool {
        self.pos as int <= self.tokens@.len()
    }

    /// Makes an analyzer over the given tokens, with comments and
    /// end-of-stream markers removed.
    pub fn new(tokens: Vec<Token>) -> (a: Analyzer)
        ensures
            a.wf(),
            a.at() == 0,
            a.toks() == filter_models(views_of(tokens@)),
    {
        let ghost vs = views_of(tokens@);
        let mut kept: Vec<Token> = Vec::new();
        let mut i: usize = 0;
        while i < tokens.len()
            invariant
                0 <= i <= tokens@.len(),
                vs == views_of(tokens@),
                views_of(kept@) == filter_models(vs.take(i as int)),
            decreases tokens@.len() - i,
        {
            let keep = match tokens[i].kind {
                TokenKind::Comment => false,
                TokenKind::Eof => false,
                _ => true,
            };
            proof {
                assert(vs.take(i + 1).drop_last() =~= vs.take(i as int));
                assert(vs.take(i + 1).last() == vs[i as int]);
                assert(vs[i as int] == tokens@[i as int]@);
            }
            if keep {
                let t = (&tokens[i]).clone();
                proof {
                    assert(views_of(kept@.push(t)) =~= views_of(kept@).push(t@));
                    assert(filter_models(vs.take(i + 1)) =~= filter_models(vs.take(i as int))
                        + seq![vs[i as int]]);
                    assert(views_of(kept@).push(t@) =~= views_of(kept@) + seq![vs[i as int]]);
                }
                kept.push(t);
            } else {
                proof {
                    assert(filter_models(vs.take(i + 1)) =~= filter_models(vs.take(i as int)));
                }
            }
            i = i + 1;
        }
        proof {
            assert(vs.take(tokens@.len() as int) =~= vs);
        }
        Analyzer { tokens: kept, pos: 0 }
    }

    /// The token under the cursor, or the end-of-stream sentinel past the
    /// end.
    fn current(&self) -> (t: Token)
        requires
            self.wf(),
        ensures
            t.kind == kind_at(self.toks(), self.at()),
            t.text@ == text_at(self.toks(), self.at()),
            t.span.start as int == start_at(self.toks(), self.at()),
            t.span.end as int == end_at(self.toks(), self.at()),
    {
        if self.pos < self.tokens.len() {
            (&self.tokens[self.pos]).clone()
        } else {
            eof_token()
        }
    }

    /// The token `offset` places past the cursor, or the sentinel.
    fn peek(&self, offset: usize) -> (t: Token)
        requires
            self.wf(),
        ensures
            t.kind == kind_at(self.toks(), self.at() + offset),
            t.text@ == text_at(self.toks(), self.at() + offset),
    {
        let n = self.tokens.len();
        if offset < n && self.pos < n - offset {
            (&self.tokens[self.pos + offset]).clone()
        } else {
            eof_token()
        }
    }

    /// Moves the cursor one token forward, stopping at the end.
    fn advance(&mut self)
        requires
            old(self).wf(),
        ensures
            final(self).wf(),
            final(self).toks() == old(self).toks(),
            final(self).at() == adv(old(self).toks(), old(self).at()),
    {
        if self.pos < self.tokens.len() {
            self.pos = self.pos + 1;
        }
    }

    /// Consumes the current token when it has the wanted kind, and fails
    /// with a message naming both kinds and the found text otherwise.
    fn expect(&mut self, kind: TokenKind) -> (r: Result<Token, AnalyzeError>)
        requires
            old(self).wf(),
        ensures
            final(self).wf(),
            final(self).toks() == old(self).toks(),
            match r {
                Ok(t) => spec_expect(old(self).toks(), old(self).at(), kind) matches Ok(q)
                    && final(self).at() == q && t.kind == kind_at(old(self).toks(), old(self).at())
                    && t.text@ == text_at(old(self).toks(), old(self).at()) && t.span.start as int
                    == start_at(old(self).toks(), old(self).at()) && t.span.end as int == end_at(
                    old(self).toks(),
                    old(self).at(),
                ),
                Err(e) => spec_expect(old(self).toks(), old(self).at(), kind) matches Err(em)
                    && e@ == em && final(self).at() == old(self).at(),
            },
    {
        let token = self.current();
        if token.kind == kind {
            self.advance();
            Ok(token)
        } else {
            Err(expect_error(kind, &token))
        }
    }

    /// Consumes the current token when it has the given kind; reports
    /// whether it did.
    fn eat(&mut self, kind: TokenKind) -> (r: bool)
        requires
            old(self).wf(),
        ensures
            final(self).wf(),
            final(self).toks() == old(self).toks(),
            r == (kind_at(old(self).toks(), old(self).at()) == kind),
            final(self).at() == if r {
                adv(old(self).toks(), old(self).at())
            } else {
                old(self).at()
            },
    {
        let token = self.current();
        if token.kind == kind {
            self.advance();
            true
        } else {
            false
        }
    }

    /// Skips forward until the current token is one of the given kinds or
    /// the stream ends.
    fn skip_until(&mut self, kinds: &[TokenKind])
        requires
            old(self).wf(),
        ensures
            final(self).wf(),
            final(self).toks() == old(self).toks(),
            final(self).at() == spec_skip_until(old(self).toks(), old(self).at(), kinds@),
    {
        let ghost toks = self.toks();
        let ghost p0 = self.at();
        loop
            invariant
                toks == old(self).toks(),
                p0 == old(self).at(),
                self.wf(),
                self.toks() == toks,
                0 <= self.at() <= toks.len(),
                spec_skip_until(toks, p0, kinds@) == spec_skip_until(toks, self.at(), kinds@),
            decreases toks.len() - self.at(),
        {
            let token = self.current();
            if let TokenKind::Eof = token.kind {
                return ;
            }
            if kinds_contain(kinds, token.kind) {
                return ;
            }
            self.advance();
        }
    }

    /// Parses one port direction: `in`, `out`, `inout` or `buffer`;
    /// anything else is rejected with an error naming the found text.
    fn parse_direction(&mut self) -> (r: Result<PortDirection, AnalyzeError>)
        requires
            old(self).wf(),
        ensures
            final(self).wf(),
            final(self).toks() == old(self).toks(),
            match r {
                Ok(d) => spec_parse_direction(old(self).toks(), old(self).at()) matches Ok(dm)
                    && d == dm.0 && final(self).at() == dm.1,
                Err(e) => spec_parse_direction(old(self).toks(), old(self).at()) matches Err(em)
                    && e@ == em && final(self).at() == old(self).at(),
            },
    {
        let token = self.current();
        match token.kind {
            TokenKind::In => {
                self.advance();
                Ok(PortDirection::In)
            },
            TokenKind::Out => {
                self.advance();
                Ok(PortDirection::Out)
            },
            TokenKind::Inout => {
                self.advance();
                Ok(PortDirection::Inout)
            },
            TokenKind::Buffer => {
                self.advance();
                Ok(PortDirection::Buffer)
            },
            _ => Err(direction_error(&token)),
        }
    }

    /// Parses one type reference, shared by ports and signals. Vector
    /// bounds are taken positionally, and malformed bounds fall back to
    /// zero rather than raising an error.
    fn parse_type(&mut self) -> (r: Result<VhdlType, AnalyzeError>)
        requires
            old(self).wf(),
        ensures
            final(self).wf(),
            final(self).toks() == old(self).toks(),
            match r {
                Ok(t) => spec_parse_type(old(self).toks(), old(self).at()) matches Ok(tm) && t@
                    == tm.0 && final(self).at() == tm.1,
                Err(e) => spec_parse_type(old(self).toks(), old(self).at()) matches Err(em) && e@
                    == em && (kind_at(old(self).toks(), old(self).at())
                    != TokenKind::StdLogicVector ==> final(self).at() == old(self).at()),
            },
    {
        let token = self.current();
        match token.kind {
            TokenKind::StdLogic => {
                self.advance();
                Ok(VhdlType::StdLogic)
            },
            TokenKind::StdLogicVector => {
                self.advance();
                let open = self.current();
                if let TokenKind::LeftParen = open.kind {
                    self.advance();
                    let high_tok = match self.expect(TokenKind::Number) {
                        Ok(t) => t,
                        Err(e) => {
                            return Err(e);
                        },
                    };
                    let high = parse_i64_or_zero(high_tok.text.as_str());
                    let bound = self.current();
                    match bound.kind {
                        TokenKind::Downto => {
                            self.advance();
                        },
                        TokenKind::To => {
                            self.advance();
                        },
                        _ => {},
                    }
                    let low_tok = match self.expect(TokenKind::Number) {
                        Ok(t) => t,
                        Err(e) => {
                            return Err(e);
                        },
                    };
                    let low = parse_i64_or_zero(low_tok.text.as_str());
                    match self.expect(TokenKind::RightParen) {
                        Ok(_) => Ok(VhdlType::StdLogicVector { high, low }),
                        Err(e) => Err(e),
                    }
                } else {
                    Ok(VhdlType::StdLogicVector { high: 0, low: 0 })
                }
            },
            TokenKind::Integer => {
                self.advance();
                Ok(VhdlType::Integer)
            },
            TokenKind::Boolean => {
                self.advance();
                Ok(VhdlType::Boolean)
            },
            TokenKind::Identifier => {
                self.advance();
                Ok(VhdlType::Other(token.text))
            },
            _ => Err(type_error(&token)),
        }
    }

    /// Parses one comma-separated port group, `name {, name} : direction
    /// type`, expanding it into one `PortDef` per name; all of them share
    /// the direction, the type, and the span of the group's first token.
    fn parse_port_group(&mut self) -> (r: Result<Vec<PortDef>, AnalyzeError>)
        requires
            old(self).wf(),
        ensures
            final(self).wf(),
            final(self).toks() == old(self).toks(),
            match r {
                Ok(ports) => spec_parse_port_group(old(self).toks(), old(self).at()) matches Ok(pm)
                    && port_views(ports@) == pm.0 && final(self).at() == pm.1,
                Err(e) => spec_parse_port_group(old(self).toks(), old(self).at()) matches Err(em)
                    && e@ == em,
            },
    {
        let ghost toks = self.toks();
        let ghost p0 = self.at();
        let span = self.current().span;
        let mut names: Vec<String> = Vec::new();
        let first = match self.expect(TokenKind::Identifier) {
            Ok(t) => t,
            Err(e) => {
                return Err(e);
            },
        };
        names.push(first.text);
        proof {
            assert(strs_of(names@) =~= seq![text_at(toks, p0)]);
        }
        loop
            invariant
                toks == old(self).toks(),
                p0 == old(self).at(),
                self.wf(),
                self.toks() == toks,
                0 <= self.at() <= toks.len(),
                match spec_more_names(toks, self.at()) {
                    Ok(r2) => spec_parse_names(toks, p0) matches Ok(rr) && rr.0 == strs_of(names@)
                        + r2.0 && rr.1 == r2.1,
                    Err(e) => spec_parse_names(toks, p0) matches Err(e2) && e2 == e,
                },
            ensures
                self.wf(),
                self.toks() == toks,
                0 <= self.at() <= toks.len(),
                spec_parse_names(toks, p0) matches Ok(rr) && rr.0 == strs_of(names@) && rr.1
                    == self.at(),
            decreases toks.len() - self.at(),
        {
            let ghost i = self.at();
            if !self.eat(TokenKind::Comma) {
                proof {
                    assert(spec_more_names(toks, self.at()) == Ok::<_, AnalyzeErrModel>((
                        Seq::<Seq<char>>::empty(),
                        self.at(),
                    )));
                    assert(strs_of(names@) + Seq::<Seq<char>>::empty() =~= strs_of(names@));
                }
                break ;
            }
            let more = match self.expect(TokenKind::Identifier) {
                Ok(t) => t,
                Err(e) => {
                    return Err(e);
                },
            };
            let ghost names_before = names@;
            names.push(more.text);
            proof {
                assert(strs_of(names@) =~= strs_of(names_before).push(text_at(toks, i + 1)));
                assert(strs_of(names_before) + (seq![text_at(toks, i + 1)] + spec_more_names(
                    toks,
                    self.at(),
                )->Ok_0.0) =~= strs_of(names@) + spec_more_names(toks, self.at())->Ok_0.0);
            }
        }
        match self.expect(TokenKind::Colon) {
            Ok(_) => {},
            Err(e) => {
                return Err(e);
            },
        }
        let direction = match self.parse_direction() {
            Ok(d) => d,
            Err(e) => {
                return Err(e);
            },
        };
        let vhdl_type = match self.parse_type() {
            Ok(t) => t,
            Err(e) => {
                return Err(e);
            },
        };
        let ghost nm = strs_of(names@);
        let mut ports: Vec<PortDef> = Vec::new();
        let mut i: usize = 0;
        while i < names.len()
            invariant
                0 <= i <= names@.len(),
                nm == strs_of(names@),
                ports@.len() == i,
                forall|k: int|
                    0 <= k < i ==> ports@[k]@ == (PortModel {
                        name: nm[k],
                        direction: direction,
                        typ: vhdl_type@,
                        start: span.start as int,
                        end: span.end as int,
                    }),
            decreases names@.len() - i,
        {
            ports.push(
                PortDef {
                    name: (&names[i]).clone(),
                    direction,
                    vhdl_type: vhdl_type.clone(),
                    span,
                },
            );
            i = i + 1;
        }
        proof {
            let pm0 = spec_parse_port_group(toks, p0)->Ok_0.0;
            assert(port_views(ports@) =~= pm0);
        }
        Ok(ports)
    }

    /// Parses the ports inside a port clause's parentheses: one group
    /// after another, with a trailing semicolon before the closing
    /// parenthesis tolerated.
    fn parse_port_list(&mut self) -> (r: Result<Vec<PortDef>, AnalyzeError>)
        requires
            old(self).wf(),
        ensures
            final(self).wf(),
            final(self).toks() == old(self).toks(),
            match r {
                Ok(ports) => spec_parse_port_list(old(self).toks(), old(self).at()) matches Ok(pm)
                    && port_views(ports@) == pm.0 && final(self).at() == pm.1,
                Err(e) => spec_parse_port_list(old(self).toks(), old(self).at()) matches Err(em)
                    && e@ == em,
            },
    {
        let ghost toks = self.toks();
        let ghost p0 = self.at();
        let mut ports: Vec<PortDef> = Vec::new();
        loop
            invariant
                toks == old(self).toks(),
                p0 == old(self).at(),
                self.wf(),
                self.toks() == toks,
                0 <= self.at() <= toks.len(),
                match spec_parse_port_list(toks, self.at()) {
                    Ok(r2) => spec_parse_port_list(toks, p0) matches Ok(rr) && rr.0 == port_views(
                        ports@,
                    ) + r2.0 && rr.1 == r2.1,
                    Err(e) => spec_parse_port_list(toks, p0) matches Err(e2) && e2 == e,
                },
            ensures
                self.wf(),
                self.toks() == toks,
                0 <= self.at() <= toks.len(),
                spec_parse_port_list(toks, p0) matches Ok(rr) && rr.0 == port_views(ports@)
                    && rr.1 == self.at(),
            decreases toks.len() - self.at(),
        {
            let ghost i = self.at();
            let token = self.current();
            match token.kind {
                TokenKind::RightParen => {
                    proof {
                        assert(port_views(ports@) + Seq::<PortModel>::empty() =~= port_views(
                            ports@,
                        ));
                    }
                    break ;
                },
                TokenKind::Eof => {
                    proof {
                        assert(port_views(ports@) + Seq::<PortModel>::empty() =~= port_views(
                            ports@,
                        ));
                    }
                    break ;
                },
                _ => {},
            }
            proof {
                lemma_group_bounds(toks, i);
            }
            let mut group = match self.parse_port_group() {
                Ok(g) => g,
                Err(e) => {
                    return Err(e);
                },
            };
            let ghost ports_before = ports@;
            let ghost gm = port_views(group@);
            ports.append(&mut group);
            let _ = self.eat(TokenKind::Semicolon);
            proof {
                assert(port_views(ports@) =~= port_views(ports_before) + gm);
                match spec_parse_port_list(toks, self.at()) {
                    Ok(r2) => {
                        assert(port_views(ports_before) + (gm + r2.0) =~= port_views(ports@)
                            + r2.0);
                    },
                    Err(_) => {},
                }
            }
        }
        Ok(ports)
    }

    /// Collects the raw token texts of an initializer, space-joined, up to
    /// but not including the terminating semicolon.
    fn parse_default_value(&mut self) -> (r: String)
        requires
            old(self).wf(),
        ensures
            final(self).wf(),
            final(self).toks() == old(self).toks(),
            r@ == spec_default_text(old(self).toks(), old(self).at()),
            final(self).at() == spec_skip_until(
                old(self).toks(),
                old(self).at(),
                seq![TokenKind::Semicolon],
            ),
    {
        let ghost toks = self.toks();
        let ghost p0 = self.at();
        proof {
            assert(seq![TokenKind::Semicolon][0] == TokenKind::Semicolon);
        }
        let first = self.current();
        match first.kind {
            TokenKind::Semicolon => {
                return String::new();
            },
            TokenKind::Eof => {
                return String::new();
            },
            _ => {},
        }
        proof {
            lemma_default_text_tail(toks, p0);
        }
        let mut out = first.text;
        self.advance();
        loop
            invariant
                toks == old(self).toks(),
                p0 == old(self).at(),
                0 <= p0 <= toks.len(),
                self.wf(),
                self.toks() == toks,
                0 <= self.at() <= toks.len(),
                seq![TokenKind::Semicolon].contains(TokenKind::Semicolon),
                out@ + spec_default_tail(toks, self.at()) == spec_default_text(toks, p0),
                spec_skip_until(toks, p0, seq![TokenKind::Semicolon]) == spec_skip_until(
                    toks,
                    self.at(),
                    seq![TokenKind::Semicolon],
                ),
            ensures
                self.wf(),
                self.toks() == toks,
                out@ == spec_default_text(toks, p0),
                self.at() == spec_skip_until(toks, p0, seq![TokenKind::Semicolon]),
            decreases toks.len() - self.at(),
        {
            let ghost i = self.at();
            let t = self.current();
            match t.kind {
                TokenKind::Semicolon => {
                    proof {
                        assert(spec_default_tail(toks, i) =~= Seq::<char>::empty());
                        assert(out@ + Seq::<char>::empty() =~= out@);
                    }
                    break ;
                },
                TokenKind::Eof => {
                    proof {
                        assert(spec_default_tail(toks, i) =~= Seq::<char>::empty());
                        assert(out@ + Seq::<char>::empty() =~= out@);
                    }
                    break ;
                },
                _ => {},
            }
            let ghost out_before = out@;
            out.append(" ");
            out.append(t.text.as_str());
            self.advance();
            proof {
                assert(spec_default_tail(toks, i) == " "@ + text_at(toks, i) + spec_default_tail(
                    toks,
                    i + 1,
                ));
                assert(out_before + (" "@ + text_at(toks, i) + spec_default_tail(toks, i + 1))
                    =~= (out_before + " "@ + text_at(toks, i)) + spec_default_tail(toks, i + 1));
            }
        }
        out
    }

    /// Parses one signal declaration, `signal name : type [:= default] ;`,
    /// capturing the raw initializer text when one is present.
    fn parse_signal_decl(&mut self) -> (r: Result<SignalDef, AnalyzeError>)
        requires
            old(self).wf(),
        ensures
            final(self).wf(),
            final(self).toks() == old(self).toks(),
            match r {
                Ok(s) => spec_parse_signal(old(self).toks(), old(self).at()) matches Ok(sm) && s@
                    == sm.0 && final(self).at() == sm.1,
                Err(e) => spec_parse_signal(old(self).toks(), old(self).at()) matches Err(em)
                    && e@ == em,
            },
    {
        let start = self.current().span;
        match self.expect(TokenKind::Signal) {
            Ok(_) => {},
            Err(e) => {
                return Err(e);
            },
        }
        let name_tok = match self.expect(TokenKind::Identifier) {
            Ok(t) => t,
            Err(e) => {
                return Err(e);
            },
        };
        let name = name_tok.text;
        match self.expect(TokenKind::Colon) {
            Ok(_) => {},
            Err(e) => {
                return Err(e);
            },
        }
        let vhdl_type = match self.parse_type() {
            Ok(t) => t,
            Err(e) => {
                return Err(e);
            },
        };
        let cur = self.current();
        let default_value = if let TokenKind::Assignment = cur.kind {
            self.advance();
            Some(self.parse_default_value())
        } else {
            None
        };
        let end = self.current().span;
        match self.expect(TokenKind::Semicolon) {
            Ok(_) => Ok(
                SignalDef {
                    name,
                    vhdl_type,
                    default_value,
                    span: Span::new(start.start, end.end),
                },
            ),
            Err(e) => Err(e),
        }
    }

    /// Parses one entity declaration. The closing clause is not
    /// grammar-checked: everything up to and including the next semicolon
    /// is treated as the entity's closing boilerplate.
    fn parse_entity(&mut self) -> (r: Result<EntityDef, AnalyzeError>)
        requires
            old(self).wf(),
        ensures
            final(self).wf(),
            final(self).toks() == old(self).toks(),
            match r {
                Ok(e) => spec_parse_entity(old(self).toks(), old(self).at()) matches Ok(em) && e@
                    == em.0 && final(self).at() == em.1,
                Err(e) => spec_parse_entity(old(self).toks(), old(self).at()) matches Err(em)
                    && e@ == em,
            },
    {
        let ghost toks = self.toks();
        let ghost p0 = self.at();
        let start = self.current().span;
        match self.expect(TokenKind::Entity) {
            Ok(_) => {},
            Err(e) => {
                return Err(e);
            },
        }
        let name_tok = match self.expect(TokenKind::Identifier) {
            Ok(t) => t,
            Err(e) => {
                return Err(e);
            },
        };
        let name = name_tok.text;
        match self.expect(TokenKind::Is) {
            Ok(_) => {},
            Err(e) => {
                return Err(e);
            },
        }
        let mut ports: Vec<PortDef> = Vec::new();
        let cur = self.current();
        if let TokenKind::Port = cur.kind {
            self.advance();
            match self.expect(TokenKind::LeftParen) {
                Ok(_) => {},
                Err(e) => {
                    return Err(e);
                },
            }
            ports = match self.parse_port_list() {
                Ok(ps) => ps,
                Err(e) => {
                    return Err(e);
                },
            };
            match self.expect(TokenKind::RightParen) {
                Ok(_) => {},
                Err(e) => {
                    return Err(e);
                },
            }
            match self.expect(TokenKind::Semicolon) {
                Ok(_) => {},
                Err(e) => {
                    return Err(e);
                },
            }
        } else {
            proof {
                assert(port_views(ports@) =~= Seq::<PortModel>::empty());
            }
        }
        let ks: [TokenKind; 1] = [TokenKind::Semicolon];
        proof {
            assert(ks@ =~= seq![TokenKind::Semicolon]);
        }
        self.skip_until(&ks);
        let end = self.current().span;
        self.advance();
        Ok(EntityDef { name, ports, span: Span::new(start.start, end.end) })
    }

    /// Skips the statement body of an architecture: scans for an `end`
    /// token directly followed by `architecture`, then through the next
    /// semicolon; with no such pair the scan runs to the end of the
    /// stream.
    fn skip_until_end_architecture(&mut self)
        requires
            old(self).wf(),
        ensures
            final(self).wf(),
            final(self).toks() == old(self).toks(),
            final(self).at() == spec_arch_skip(old(self).toks(), old(self).at()),
    {
        let ghost toks = self.toks();
        let ghost p0 = self.at();
        loop
            invariant_except_break
                spec_arch_skip(toks, p0) == spec_arch_skip(toks, self.at()),
            invariant
                toks == old(self).toks(),
                p0 == old(self).at(),
                0 <= p0 <= toks.len(),
                self.wf(),
                self.toks() == toks,
                0 <= self.at() <= toks.len(),
            ensures
                self.wf(),
                self.toks() == toks,
                self.at() == spec_arch_skip(toks, p0),
            decreases toks.len() - self.at(),
        {
            let ghost i = self.at();
            let cur = self.current();
            if let TokenKind::Eof = cur.kind {
                break ;
            }
            let nxt = self.peek(1);
            if cur.kind == TokenKind::End && nxt.kind == TokenKind::Architecture {
                let ks: [TokenKind; 1] = [TokenKind::Semicolon];
                proof {
                    assert(ks@ =~= seq![TokenKind::Semicolon]);
                }
                self.skip_until(&ks);
                self.advance();
                proof {
                    assert(spec_arch_skip(toks, i) == adv(
                        toks,
                        spec_skip_until(toks, i, seq![TokenKind::Semicolon]),
                    ));
                }
                break ;
            }
            self.advance();
        }
    }

    /// Parses one architecture declaration: its declarative part is
    /// scanned for signal declarations, and the statement body after
    /// `begin` is skipped without being parsed.
    #[verifier::rlimit(100)]
    fn parse_architecture(&mut self) -> (r: Result<ArchitectureDef, AnalyzeError>)
        requires
            old(self).wf(),
        ensures
            final(self).wf(),
            final(self).toks() == old(self).toks(),
            match r {
                Ok(a) => spec_parse_arch(old(self).toks(), old(self).at()) matches Ok(am) && a@
                    == am.0 && final(self).at() == am.1,
                Err(e) => spec_parse_arch(old(self).toks(), old(self).at()) matches Err(em) && e@
                    == em,
            },
    {
        let ghost toks = self.toks();
        let ghost p0 = self.at();
        let start = self.current().span;
        match self.expect(TokenKind::Architecture) {
            Ok(_) => {},
            Err(e) => {
                return Err(e);
            },
        }
        let name_tok = match self.expect(TokenKind::Identifier) {
            Ok(t) => t,
            Err(e) => {
                return Err(e);
            },
        };
        let arch_name = name_tok.text;
        match self.expect(TokenKind::Of) {
            Ok(_) => {},
            Err(e) => {
                return Err(e);
            },
        }
        let ent_tok = match self.expect(TokenKind::Identifier) {
            Ok(t) => t,
            Err(e) => {
                return Err(e);
            },
        };
        let entity_name = ent_tok.text;
        match self.expect(TokenKind::Is) {
            Ok(_) => {},
            Err(e) => {
                return Err(e);
            },
        }
        let ghost p5 = self.at();
        let mut signals: Vec<SignalDef> = Vec::new();
        loop
            invariant
                toks == old(self).toks(),
                p0 == old(self).at(),
                0 <= p5 <= toks.len(),
                p5 <= self.at(),
                match spec_parse_decls(toks, p5) {
                    Err(e2) => spec_parse_arch(toks, p0) == Result::<
                        (ArchModel, int),
                        AnalyzeErrModel,
                    >::Err(e2),
                    Ok(_) => true,
                },
                self.wf(),
                self.toks() == toks,
                0 <= self.at() <= toks.len(),
                match spec_parse_decls(toks, self.at()) {
                    Ok(r2) => spec_parse_decls(toks, p5) matches Ok(rr) && rr.0 == sig_views(
                        signals@,
                    ) + r2.0 && rr.1 == r2.1,
                    Err(e) => spec_parse_decls(toks, p5) matches Err(e2) && e2 == e,
                },
            ensures
                self.wf(),
                self.toks() == toks,
                0 <= self.at() <= toks.len(),
                spec_parse_decls(toks, p5) matches Ok(rr) && rr.0 == sig_views(signals@) && rr.1
                    == self.at(),
            decreases toks.len() - self.at(),
        {
            let ghost i = self.at();
            let cur = self.current();
            match cur.kind {
                TokenKind::Begin => {
                    proof {
                        assert(sig_views(signals@) + Seq::<SigModel>::empty() =~= sig_views(
                            signals@,
                        ));
                    }
                    break ;
                },
                TokenKind::Eof => {
                    proof {
                        assert(sig_views(signals@) + Seq::<SigModel>::empty() =~= sig_views(
                            signals@,
                        ));
                    }
                    break ;
                },
                TokenKind::Signal => {
                    proof {
                        lemma_signal_bounds(toks, i);
                    }
                    let sig = match self.parse_signal_decl() {
                        Ok(s) => s,
                        Err(e) => {
                            proof {
                                assert(spec_parse_decls(toks, i) == Result::<
                                    (Seq<SigModel>, int),
                                    AnalyzeErrModel,
                                >::Err(e@));
                                assert(spec_parse_decls(toks, p5) == Result::<
                                    (Seq<SigModel>, int),
                                    AnalyzeErrModel,
                                >::Err(e@));
                            }
                            return Err(e);
                        },
                    };
                    let ghost signals_before = signals@;
                    signals.push(sig);
                    proof {
                        assert(sig_views(signals@) =~= sig_views(signals_before).push(sig@));
                        match spec_parse_decls(toks, self.at()) {
                            Ok(r2) => {
                                assert(sig_views(signals_before) + (seq![sig@] + r2.0)
                                    =~= sig_views(signals@) + r2.0);
                            },
                            Err(_) => {},
                        }
                    }
                },
                _ => {
                    self.advance();
                },
            }
        }
        let ghost q = self.at();
        self.skip_until_end_architecture();
        let end_pos = if self.pos >= 1 {
            self.pos - 1
        } else {
            0
        };
        let end = if end_pos < self.tokens.len() {
            self.tokens[end_pos].span
        } else {
            start
        };
        Ok(
            ArchitectureDef {
                name: arch_name,
                entity_name,
                signals,
                span: Span::new(start.start, end.end),
            },
        )
    }

    /// Runs the whole analysis: entities and architectures are collected
    /// in source order, anything else at the top level is skipped one
    /// token at a time, and the first grammar error aborts the run.
    #[verifier::rlimit(100)]
    pub fn analyze(&mut self) -> (r: Result<AnalyzeResult, AnalyzeError>)
        requires
            old(self).wf(),
        ensures
            final(self).wf(),
            final(self).toks() == old(self).toks(),
            match r {
                Ok(res) => spec_analyze(old(self).toks(), old(self).at()) matches Ok(m) && res@
                    .entities == m.entities && res@.architectures == m.architectures && kind_at(
                    old(self).toks(),
                    final(self).at(),
                ) == TokenKind::Eof,
                Err(e) => spec_analyze(old(self).toks(), old(self).at()) matches Err(em) && e@
                    == em,
            },
    {
        let ghost toks = self.toks();
        let ghost p0 = self.at();
        let mut entities: Vec<EntityDef> = Vec::new();
        let mut architectures: Vec<ArchitectureDef> = Vec::new();
        loop
            invariant
                toks == old(self).toks(),
                p0 == old(self).at(),
                self.wf(),
                self.toks() == toks,
                0 <= self.at() <= toks.len(),
                match spec_analyze(toks, self.at()) {
                    Ok(m) => spec_analyze(toks, p0) matches Ok(m0) && m0.entities == entity_views(
                        entities@,
                    ) + m.entities && m0.architectures == arch_views(architectures@)
                        + m.architectures,
                    Err(e) => spec_analyze(toks, p0) matches Err(e0) && e0 == e,
                },
            ensures
                self.wf(),
                self.toks() == toks,
                kind_at(toks, self.at()) == TokenKind::Eof,
                spec_analyze(toks, p0) matches Ok(m0) && m0.entities == entity_views(entities@)
                    && m0.architectures == arch_views(architectures@),
            decreases toks.len() - self.at(),
        {
            let ghost i = self.at();
            let cur = self.current();
            match cur.kind {
                TokenKind::Eof => {
                    proof {
                        assert(entity_views(entities@) + Seq::<EntityModel>::empty()
                            =~= entity_views(entities@));
                        assert(arch_views(architectures@) + Seq::<ArchModel>::empty()
                            =~= arch_views(architectures@));
                    }
                    break ;
                },
                TokenKind::Entity => {
                    proof {
                        lemma_entity_bounds(toks, i);
                    }
                    let ent = match self.parse_entity() {
                        Ok(e) => e,
                        Err(e) => {
                            return Err(e);
                        },
                    };
                    let ghost entities_before = entities@;
                    entities.push(ent);
                    proof {
                        assert(entity_views(entities@) =~= entity_views(entities_before).push(
                            ent@,
                        ));
                        match spec_analyze(toks, self.at()) {
                            Ok(m) => {
                                assert(entity_views(entities_before) + (seq![ent@] + m.entities)
                                    =~= entity_views(entities@) + m.entities);
                            },
                            Err(_) => {},
                        }
                    }
                },
                TokenKind::Architecture => {
                    proof {
                        lemma_arch_bounds(toks, i);
                    }
                    let arch = match self.parse_architecture() {
                        Ok(a) => a,
                        Err(e) => {
                            return Err(e);
                        },
                    };
                    let ghost archs_before = architectures@;
                    architectures.push(arch);
                    proof {
                        assert(arch_views(architectures@) =~= arch_views(archs_before).push(
                            arch@,
                        ));
                        match spec_analyze(toks, self.at()) {
                            Ok(m) => {
                                assert(arch_views(archs_before) + (seq![arch@] + m.architectures)
                                    =~= arch_views(architectures@) + m.architectures);
                            },
                            Err(_) => {},
                        }
                    }
                },
                _ => {
                    self.advance();
                },
            }
        }
        Ok(AnalyzeResult { entities, architectures })
    }
}

/// What analyzing a raw source string yields: the source is lexed with
/// erroring tokens silently discarded, comments and the end marker are
/// filtered out, and the remaining tokens are parsed.
pub open spec fn spec_analyze_vhdl(s: Seq<char>) -> Result<ResultModel, AnalyzeErrModel> {
    spec_analyze(filter_models(ok_tokens(spec_token_stream(s, 0))), 0)
}

/// Whether an executable analysis outcome realizes a modelled one.
pub open spec fn analyze_outcome_matches(
    r: Result<AnalyzeResult, AnalyzeError>,
    m: Result<ResultModel, AnalyzeErrModel>,
) -> bool {
    match r {
        Ok(res) => m matches Ok(mm) && res@.entities == mm.entities && res@.architectures
            == mm.architectures,
        Err(e) => m matches Err(em) && e@ == em,
    }
}

/// Analysis is deterministic: the outcome is a function of the source
/// text alone, so two runs over the same text yield structurally equal
/// results, or the same error.
pub proof fn lemma_analysis_deterministic(
    r1: Result<AnalyzeResult, AnalyzeError>,
    r2: Result<AnalyzeResult, AnalyzeError>,
    s: Seq<char>,
)
    requires
        analyze_outcome_matches(r1, spec_analyze_vhdl(s)),
        analyze_outcome_matches(r2, spec_analyze_vhdl(s)),
    ensures
        match (r1, r2) {
            (Ok(a), Ok(b)) => a@.entities == b@.entities && a@.architectures == b@.architectures,
            (Err(a), Err(b)) => a@ == b@,
            _ => false,
        },
{
}

/// A port group of `N` comma-separated names expands into exactly `N`
/// ports, one per name in order, all sharing one direction, one type, and
/// the span of the group's first token.
pub proof fn lemma_port_group_expansion(toks: Seq<TokenModel>, p: int)
    requires
        0 <= p <= toks.len(),
        spec_parse_port_group(toks, p) is Ok,
    ensures
        spec_parse_names(toks, p) is Ok,
        ({
            let ports = spec_parse_port_group(toks, p)->Ok_0.0;
            let names = spec_parse_names(toks, p)->Ok_0.0;
            &&& ports.len() == names.len()
            &&& forall|k: int| 0 <= k < ports.len() ==> (#[trigger] ports[k]).name == names[k]
            &&& forall|k: int|
                0 <= k < ports.len() ==> (#[trigger] ports[k]).direction == ports[0].direction
                    && ports[k].typ == ports[0].typ && ports[k].start == start_at(toks, p)
                    && ports[k].end == end_at(toks, p)
        }),
{
}

/// An unrecognized direction token is rejected: parsing a direction
/// fails exactly when the current token is none of the four direction
/// keywords, and each keyword yields its own direction.
pub proof fn lemma_direction_rejects_unknown(toks: Seq<TokenModel>, p: int)
    ensures
        spec_parse_direction(toks, p) is Err <==> !(kind_at(toks, p) == TokenKind::In || kind_at(
            toks,
            p,
        ) == TokenKind::Out || kind_at(toks, p) == TokenKind::Inout || kind_at(toks, p)
            == TokenKind::Buffer),
        kind_at(toks, p) == TokenKind::In ==> spec_parse_direction(toks, p)->Ok_0.0
            == PortDirection::In,
        kind_at(toks, p) == TokenKind::Out ==> spec_parse_direction(toks, p)->Ok_0.0
            == PortDirection::Out,
        kind_at(toks, p) == TokenKind::Inout ==> spec_parse_direction(toks, p)->Ok_0.0
            == PortDirection::Inout,
        kind_at(toks, p) == TokenKind::Buffer ==> spec_parse_direction(toks, p)->Ok_0.0
            == PortDirection::Buffer,
{
}

/// Analyzes a raw source string: the convenience entry point that lexes
/// (discarding any tokens that fail to lex) and then parses.
pub fn analyze_vhdl(source: &str) -> (r: Result<AnalyzeResult, AnalyzeError>)
    ensures
        analyze_outcome_matches(r, spec_analyze_vhdl(source@)),
{
    let mut lexer = Lexer::new(source);
    let tokens = lexer.tokenize_lossy();
    let mut analyzer = Analyzer::new(tokens);
    analyzer.analyze()
}

} // verus!
