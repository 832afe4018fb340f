//! Lexical analysis: turns VHDL source text into a stream of tokens.
//!
//! Spans are half-open byte ranges into the original source, so positions
//! advance by each character's UTF-8 width, not by one per character.

use vstd::prelude::*;
use vstd::string::{StrSliceExecFns, StringExecFns, StringSliceAdditionalSpecFns};
use vstd::utf8::{encode_scalar, encode_utf8};

verus! {

/// The kind of a lexed token: identifiers, literals, the case-insensitive
/// keyword set, operators, delimiters, and the special `Comment`, `Eof` and
/// `Unknown` kinds.
#[derive(Debug, Clone, Copy, PartialEq, Eq, Structural)]
pub enum TokenKind {
    Identifier,
    Number,
    BitStringLiteral,
    CharacterLiteral,
    StringLiteral,
    Entity,
    Architecture,
    Port,
    Signal,
    Process,
    Begin,
    End,
    If,
    Then,
    Else,
    Elsif,
    Case,
    When,
    Is,
    Of,
    Others,
    Library,
    Use,
    In,
    Out,
    Inout,
    Buffer,
    Generic,
    MapKw,
    Component,
    To,
    Downto,
    StdLogic,
    StdLogicVector,
    Integer,
    Boolean,
    Assignment,
    Association,
    Eq,
    Neq,
    Lt,
    Lte,
    Gt,
    Gte,
    Plus,
    Minus,
    Star,
    Slash,
    Power,
    Ampersand,
    And,
    Or,
    Not,
    Xor,
    Nand,
    Nor,
    LeftParen,
    RightParen,
    Semicolon,
    Colon,
    Comma,
    Dot,
    Apostrophe,
    Comment,
    Eof,
    Unknown,
}

/// A half-open byte range into the original source text.
#[derive(Debug, Clone, Copy, PartialEq, Eq, Structural)]
pub struct Span {
    pub start: usize,
    pub end: usize,
}

impl Span {
    pub fn new(start: usize, end: usize) -> (s: Span)
        ensures
            s.start == start,
            s.end == end,
    {
        Span { start, end }
    }

    pub fn len(&self) -> (n: usize)
        requires
            self.start <= self.end,
        ensures
            n == self.end - self.start,
    {
        self.end - self.start
    }

    pub fn is_empty(&self) -> (b: bool)
        requires
            self.start <= self.end,
        ensures
            b == (self.end == self.start),
    {
        self.len() == 0
    }
}

/// Ghost model of a token: its kind, its byte span, and its text.
pub struct TokenModel {
    pub kind: TokenKind,
    pub start: int,
    pub end: int,
    pub text: Seq<char>,
}

/// One lexed token.
#[derive(Debug, PartialEq)]
pub struct Token {
    pub kind: TokenKind,
    pub span: Span,
    pub text: String,
}

impl View for Token {
    type V = TokenModel;

    open spec fn view(&self) -> TokenModel {
        TokenModel {
            kind: self.kind,
            start: self.span.start as int,
            end: self.span.end as int,
            text: self.text@,
        }
    }
}

impl Clone for Token {
    fn clone(&self) -> (r: Self)
        ensures
            r == *self,
    {
        Token { kind: self.kind, span: self.span, text: self.text.clone() }
    }
}

impl Token {
    pub fn new(kind: TokenKind, span: Span, text: String) -> (t: Token)
        ensures
            t.kind == kind,
            t.span == span,
            t.text == text,
    {
        Token { kind, span, text }
    }
}

/// Ghost model of a lexical error: its message and its byte span.
pub struct LexErrModel {
    pub msg: Seq<char>,
    pub start: int,
    pub end: int,
}

/// An error raised while lexing a single token.
#[derive(Debug, Clone, PartialEq)]
pub struct LexError {
    pub message: String,
    pub span: Span,
}

impl View for LexError {
    type V = LexErrModel;

    open spec fn view(&self) -> LexErrModel {
        LexErrModel {
            msg: self.message@,
            start: self.span.start as int,
            end: self.span.end as int,
        }
    }
}

impl LexError {
    pub fn new(message: String, span: Span) -> (e: LexError)
        ensures
            e.message == message,
            e.span == span,
    {
        LexError { message, span }
    }
}

/// Number of bytes the UTF-8 encoding of `c` occupies.
pub open spec fn char_utf8_len(c: char) -> int {
    if (c as u32) < 0x80 {
        1
    } else if (c as u32) < 0x800 {
        2
    } else if (c as u32) < 0x10000 {
        3
    } else {
        4
    }
}

proof fn lemma_char_utf8_len(c: char)
    ensures
        char_utf8_len(c) == encode_scalar(c as u32).len(),
        1 <= char_utf8_len(c) <= 4,
{
}

/// Byte offset of the character at index `i`, that is, the total UTF-8
/// width of the first `i` characters of `s`.
pub open spec fn byte_pos(s: Seq<char>, i: int) -> int
    decreases i,
{
    if i <= 0 {
        0
    } else {
        byte_pos(s, i - 1) + char_utf8_len(s[i - 1])
    }
}

proof fn lemma_byte_pos_bounds(s: Seq<char>, i: int, j: int)
    requires
        0 <= i <= j <= s.len(),
    ensures
        byte_pos(s, i) <= byte_pos(s, j),
        i <= byte_pos(s, i),
    decreases j,
{
    if j > 0 {
        if i == j {
            lemma_byte_pos_bounds(s, if i - 1 >= 0 { i - 1 } else { 0 }, j - 1);
        }
        if i < j {
            lemma_byte_pos_bounds(s, i, j - 1);
            lemma_char_utf8_len(s[j - 1]);
        }
    }
}

/// The byte width of a whole character sequence equals the length of its
/// UTF-8 encoding as vstd defines it.
proof fn lemma_byte_pos_total(s: Seq<char>)
    ensures
        byte_pos(s, s.len() as int) == encode_utf8(s).len(),
    decreases s.len(),
{
    if s.len() > 0 {
        let t = s.drop_last();
        assert(s =~= t.push(s.last()));
        lemma_byte_pos_total(t);
        lemma_byte_pos_prefix_agree(s, t, t.len() as int);
        lemma_encode_utf8_push(t, s.last());
        lemma_char_utf8_len(s.last());
    }
}

proof fn lemma_byte_pos_prefix_agree(a: Seq<char>, b: Seq<char>, i: int)
    requires
        0 <= i <= a.len(),
        i <= b.len(),
        forall|k: int| 0 <= k < i ==> a[k] == b[k],
    ensures
        byte_pos(a, i) == byte_pos(b, i),
    decreases i,
{
    if i > 0 {
        lemma_byte_pos_prefix_agree(a, b, i - 1);
    }
}

proof fn lemma_encode_utf8_push(s: Seq<char>, c: char)
    ensures
        encode_utf8(s.push(c)).len() == encode_utf8(s).len() + encode_scalar(c as u32).len(),
    decreases s.len(),
{
    let p = s.push(c);
    assert(p.len() == s.len() + 1);
    if s.len() == 0 {
        assert(p.drop_first() =~= Seq::<char>::empty());
        assert(p[0] == c);
        assert(encode_utf8(p) == encode_scalar(c as u32) + encode_utf8(Seq::<char>::empty()));
    } else {
        assert(p.drop_first() =~= s.drop_first().push(c));
        lemma_encode_utf8_push(s.drop_first(), c);
        assert(p[0] == s[0]);
        assert(encode_utf8(p) == encode_scalar(p[0] as u32) + encode_utf8(p.drop_first()));
        assert(encode_utf8(s) == encode_scalar(s[0] as u32) + encode_utf8(s.drop_first()));
    }
}

/// Executable UTF-8 width of a character.
fn char_width(c: char) -> (n: usize)
    ensures
        n == char_utf8_len(c),
{
    let u = c as u32;
    if u < 0x80 {
        1
    } else if u < 0x800 {
        2
    } else if u < 0x10000 {
        3
    } else {
        4
    }
}

/// Whether `c` has the Unicode white-space property.
pub uninterp spec fn is_ws_char(c: char) -> bool;

/// Whether `c` has the Unicode alphabetic property.
pub uninterp spec fn is_alpha_char(c: char) -> bool;

/// Whether `c` is Unicode alphanumeric.
pub uninterp spec fn is_alnum_char(c: char) -> bool;

/// Relies on char::is_whitespace: true exactly for characters with the
/// Unicode White_Space property, a function of the character alone.
#[verifier::external_body]
fn char_is_ws(c: char) -> (r: bool)
    ensures
        r == is_ws_char(c),
{
    c.is_whitespace()
}

/// Relies on char::is_alphabetic: true exactly for characters with the
/// Unicode Alphabetic property, a function of the character alone.
#[verifier::external_body]
fn char_is_alpha(c: char) -> (r: bool)
    ensures
        r == is_alpha_char(c),
{
    c.is_alphabetic()
}

/// Relies on char::is_alphanumeric: true exactly for Unicode alphanumeric
/// characters, a function of the character alone.
#[verifier::external_body]
fn char_is_alnum(c: char) -> (r: bool)
    ensures
        r == is_alnum_char(c),
{
    c.is_alphanumeric()
}

/// An ASCII decimal digit.
pub open spec fn is_dec_digit(c: char) -> bool {
    48 <= (c as u32) <= 57
}

fn char_is_digit(c: char) -> (r: bool)
    ensures
        r == is_dec_digit(c),
{
    let u = c as u32;
    48 <= u && u <= 57
}

/// A character that continues an identifier once one has started:
/// alphanumerics and underscores. Alphabetic characters are listed
/// explicitly so that the character that starts an identifier always
/// continues it; nothing here assumes how the two Unicode classes relate.
pub open spec fn ident_cont(c: char) -> bool {
    is_alnum_char(c) || is_alpha_char(c) || c == '_'
}

/// A character that continues a numeric literal: digits, `.`, `_`, and the
/// lowercase exponent marker.
pub open spec fn num_cont(c: char) -> bool {
    is_dec_digit(c) || c == '.' || c == '_' || c == 'e'
}

fn char_ident_cont(c: char) -> (r: bool)
    ensures
        r == ident_cont(c),
{
    char_is_alnum(c) || char_is_alpha(c) || c == '_'
}

fn char_num_cont(c: char) -> (r: bool)
    ensures
        r == num_cont(c),
{
    char_is_digit(c) || c == '.' || c == '_' || c == 'e'
}

/// First index at or after `i` whose character is not whitespace.
pub open spec fn ws_end(s: Seq<char>, i: int) -> int
    decreases s.len() - i,
    when 0 <= i <= s.len()
{
    if i == s.len() || !is_ws_char(s[i]) {
        i
    } else {
        ws_end(s, i + 1)
    }
}

/// First index at or after `i` whose character does not continue an
/// identifier.
pub open spec fn ident_end(s: Seq<char>, i: int) -> int
    decreases s.len() - i,
    when 0 <= i <= s.len()
{
    if i == s.len() || !ident_cont(s[i]) {
        i
    } else {
        ident_end(s, i + 1)
    }
}

/// First index at or after `i` whose character does not continue a numeric
/// literal.
pub open spec fn num_end(s: Seq<char>, i: int) -> int
    decreases s.len() - i,
    when 0 <= i <= s.len()
{
    if i == s.len() || !num_cont(s[i]) {
        i
    } else {
        num_end(s, i + 1)
    }
}

/// First index at or after `i` holding a newline, or the end of input.
pub open spec fn line_end(s: Seq<char>, i: int) -> int
    decreases s.len() - i,
    when 0 <= i <= s.len()
{
    if i == s.len() || s[i] == '\n' {
        i
    } else {
        line_end(s, i + 1)
    }
}

/// Index just past the first double quote at or after `i`, if any.
pub open spec fn str_close(s: Seq<char>, i: int) -> Option<int>
    decreases s.len() - i,
    when 0 <= i <= s.len()
{
    if i == s.len() {
        None
    } else if s[i] == '"' {
        Some(i + 1)
    } else {
        str_close(s, i + 1)
    }
}

proof fn lemma_ws_end_bounds(s: Seq<char>, i: int)
    requires
        0 <= i <= s.len(),
    ensures
        i <= ws_end(s, i) <= s.len(),
    decreases s.len() - i,
{
    if !(i == s.len() || !is_ws_char(s[i])) {
        lemma_ws_end_bounds(s, i + 1);
    }
}

proof fn lemma_ident_end_bounds(s: Seq<char>, i: int)
    requires
        0 <= i <= s.len(),
    ensures
        i <= ident_end(s, i) <= s.len(),
    decreases s.len() - i,
{
    if !(i == s.len() || !ident_cont(s[i])) {
        lemma_ident_end_bounds(s, i + 1);
    }
}

proof fn lemma_num_end_bounds(s: Seq<char>, i: int)
    requires
        0 <= i <= s.len(),
    ensures
        i <= num_end(s, i) <= s.len(),
    decreases s.len() - i,
{
    if !(i == s.len() || !num_cont(s[i])) {
        lemma_num_end_bounds(s, i + 1);
    }
}

proof fn lemma_line_end_bounds(s: Seq<char>, i: int)
    requires
        0 <= i <= s.len(),
    ensures
        i <= line_end(s, i) <= s.len(),
    decreases s.len() - i,
{
    if !(i == s.len() || s[i] == '\n') {
        lemma_line_end_bounds(s, i + 1);
    }
}

proof fn lemma_str_close_bounds(s: Seq<char>, i: int)
    requires
        0 <= i <= s.len(),
    ensures
        str_close(s, i) matches Some(m) ==> i < m <= s.len(),
    decreases s.len() - i,
{
    if i < s.len() && s[i] != '"' {
        lemma_str_close_bounds(s, i + 1);
    }
}

/// The token kind of a recognized two-character symbol.
pub open spec fn two_char_symbol(a: char, b: char) -> Option<TokenKind> {
    if a == ':' && b == '=' {
        Some(TokenKind::Assignment)
    } else if a == '=' && b == '>' {
        Some(TokenKind::Association)
    } else if a == '/' && b == '=' {
        Some(TokenKind::Neq)
    } else if a == '<' && b == '=' {
        Some(TokenKind::Lte)
    } else if a == '>' && b == '=' {
        Some(TokenKind::Gte)
    } else if a == '*' && b == '*' {
        Some(TokenKind::Power)
    } else {
        None
    }
}

/// The token kind of a recognized one-character symbol.
pub open spec fn one_char_symbol(a: char) -> Option<TokenKind> {
    if a == ':' {
        Some(TokenKind::Colon)
    } else if a == '=' {
        Some(TokenKind::Eq)
    } else if a == '<' {
        Some(TokenKind::Lt)
    } else if a == '>' {
        Some(TokenKind::Gt)
    } else if a == '+' {
        Some(TokenKind::Plus)
    } else if a == '-' {
        Some(TokenKind::Minus)
    } else if a == '*' {
        Some(TokenKind::Star)
    } else if a == '/' {
        Some(TokenKind::Slash)
    } else if a == '&' {
        Some(TokenKind::Ampersand)
    } else if a == '(' {
        Some(TokenKind::LeftParen)
    } else if a == ')' {
        Some(TokenKind::RightParen)
    } else if a == ';' {
        Some(TokenKind::Semicolon)
    } else if a == ',' {
        Some(TokenKind::Comma)
    } else if a == '.' {
        Some(TokenKind::Dot)
    } else {
        None
    }
}

/// ASCII case folding of one character.
pub open spec fn lower_char(c: char) -> char {
    if 65 <= (c as u32) <= 90 {
        ((c as u32) + 32) as char
    } else {
        c
    }
}

/// ASCII case folding of a character sequence.
pub open spec fn lower_seq(t: Seq<char>) -> Seq<char> {
    t.map_values(|c: char| lower_char(c))
}

/// The keyword kind that a stretch of identifier text lexes to, or
/// `Identifier` when its case-folded form matches no keyword.
pub open spec fn keyword_kind(t: Seq<char>) -> TokenKind {
    let l = lower_seq(t);
    if l == "entity"@ {
        TokenKind::Entity
    } else if l == "architecture"@ {
        TokenKind::Architecture
    } else if l == "port"@ {
        TokenKind::Port
    } else if l == "signal"@ {
        TokenKind::Signal
    } else if l == "process"@ {
        TokenKind::Process
    } else if l == "begin"@ {
        TokenKind::Begin
    } else if l == "end"@ {
        TokenKind::End
    } else if l == "if"@ {
        TokenKind::If
    } else if l == "then"@ {
        TokenKind::Then
    } else if l == "else"@ {
        TokenKind::Else
    } else if l == "elsif"@ {
        TokenKind::Elsif
    } else if l == "case"@ {
        TokenKind::Case
    } else if l == "when"@ {
        TokenKind::When
    } else if l == "is"@ {
        TokenKind::Is
    } else if l == "of"@ {
        TokenKind::Of
    } else if l == "others"@ {
        TokenKind::Others
    } else if l == "library"@ {
        TokenKind::Library
    } else if l == "use"@ {
        TokenKind::Use
    } else if l == "in"@ {
        TokenKind::In
    } else if l == "out"@ {
        TokenKind::Out
    } else if l == "inout"@ {
        TokenKind::Inout
    } else if l == "buffer"@ {
        TokenKind::Buffer
    } else if l == "generic"@ {
        TokenKind::Generic
    } else if l == "map"@ {
        TokenKind::MapKw
    } else if l == "component"@ {
        TokenKind::Component
    } else if l == "to"@ {
        TokenKind::To
    } else if l == "downto"@ {
        TokenKind::Downto
    } else if l == "std_logic"@ {
        TokenKind::StdLogic
    } else if l == "std_logic_vector"@ {
        TokenKind::StdLogicVector
    } else if l == "integer"@ {
        TokenKind::Integer
    } else if l == "boolean"@ {
        TokenKind::Boolean
    } else if l == "and"@ {
        TokenKind::And
    } else if l == "or"@ {
        TokenKind::Or
    } else if l == "not"@ {
        TokenKind::Not
    } else if l == "xor"@ {
        TokenKind::Xor
    } else if l == "nand"@ {
        TokenKind::Nand
    } else if l == "nor"@ {
        TokenKind::Nor
    } else {
        TokenKind::Identifier
    }
}

/// Keyword recognition is insensitive to ASCII case: two texts with the
/// same case-folded form lex to the same token kind.
pub proof fn lemma_keyword_case_insensitive(a: Seq<char>, b: Seq<char>)
    requires
        lower_seq(a) == lower_seq(b),
    ensures
        keyword_kind(a) == keyword_kind(b),
{
}

/// Executable ASCII case folding of one character.
pub fn to_lower_char(c: char) -> (r: char)
    ensures
        r == lower_char(c),
{
    match c {
        'A' => 'a',
        'B' => 'b',
        'C' => 'c',
        'D' => 'd',
        'E' => 'e',
        'F' => 'f',
        'G' => 'g',
        'H' => 'h',
        'I' => 'i',
        'J' => 'j',
        'K' => 'k',
        'L' => 'l',
        'M' => 'm',
        'N' => 'n',
        'O' => 'o',
        'P' => 'p',
        'Q' => 'q',
        'R' => 'r',
        'S' => 's',
        'T' => 't',
        'U' => 'u',
        'V' => 'v',
        'W' => 'w',
        'X' => 'x',
        'Y' => 'y',
        'Z' => 'z',
        _ => c,
    }
}

/// Whether the ASCII-folded form of `text` equals `lit`.
fn folded_eq(text: &str, n: usize, lit: &str) -> (r: bool)
    requires
        n == text@.len(),
    ensures
        r == (lower_seq(text@) == lit@),
{
    let m = lit.unicode_len();
    if n != m {
        proof {
            assert(lower_seq(text@).len() == text@.len());
        }
        return false;
    }
    let mut i: usize = 0;
    while i < n
        invariant
            0 <= i <= n,
            n == text@.len(),
            n == lit@.len(),
            forall|k: int| 0 <= k < i ==> lower_char(text@[k]) == lit@[k],
        decreases n - i,
    {
        let c = to_lower_char(text.get_char(i));
        let d = lit.get_char(i);
        if c != d {
            proof {
                assert(lower_seq(text@)[i as int] == lower_char(text@[i as int]));
            }
            return false;
        }
        i = i + 1;
    }
    proof {
        assert(lower_seq(text@) =~= lit@);
    }
    true
}

/// Classifies a stretch of identifier text as a keyword or a plain
/// identifier, matching case-insensitively.
pub fn keyword_or_identifier(text: &str) -> (k: TokenKind)
    ensures
        k == keyword_kind(text@),
{
    let n = text.unicode_len();
    if folded_eq(text, n, "entity") {
        TokenKind::Entity
    } else if folded_eq(text, n, "architecture") {
        TokenKind::Architecture
    } else if folded_eq(text, n, "port") {
        TokenKind::Port
    } else if folded_eq(text, n, "signal") {
        TokenKind::Signal
    } else if folded_eq(text, n, "process") {
        TokenKind::Process
    } else if folded_eq(text, n, "begin") {
        TokenKind::Begin
    } else if folded_eq(text, n, "end") {
        TokenKind::End
    } else if folded_eq(text, n, "if") {
        TokenKind::If
    } else if folded_eq(text, n, "then") {
        TokenKind::Then
    } else if folded_eq(text, n, "else") {
        TokenKind::Else
    } else if folded_eq(text, n, "elsif") {
        TokenKind::Elsif
    } else if folded_eq(text, n, "case") {
        TokenKind::Case
    } else if folded_eq(text, n, "when") {
        TokenKind::When
    } else if folded_eq(text, n, "is") {
        TokenKind::Is
    } else if folded_eq(text, n, "of") {
        TokenKind::Of
    } else if folded_eq(text, n, "others") {
        TokenKind::Others
    } else if folded_eq(text, n, "library") {
        TokenKind::Library
    } else if folded_eq(text, n, "use") {
        TokenKind::Use
    } else if folded_eq(text, n, "in") {
        TokenKind::In
    } else if folded_eq(text, n, "out") {
        TokenKind::Out
    } else if folded_eq(text, n, "inout") {
        TokenKind::Inout
    } else if folded_eq(text, n, "buffer") {
        TokenKind::Buffer
    } else if folded_eq(text, n, "generic") {
        TokenKind::Generic
    } else if folded_eq(text, n, "map") {
        TokenKind::MapKw
    } else if folded_eq(text, n, "component") {
        TokenKind::Component
    } else if folded_eq(text, n, "to") {
        TokenKind::To
    } else if folded_eq(text, n, "downto") {
        TokenKind::Downto
    } else if folded_eq(text, n, "std_logic") {
        TokenKind::StdLogic
    } else if folded_eq(text, n, "std_logic_vector") {
        TokenKind::StdLogicVector
    } else if folded_eq(text, n, "integer") {
        TokenKind::Integer
    } else if folded_eq(text, n, "boolean") {
        TokenKind::Boolean
    } else if folded_eq(text, n, "and") {
        TokenKind::And
    } else if folded_eq(text, n, "or") {
        TokenKind::Or
    } else if folded_eq(text, n, "not") {
        TokenKind::Not
    } else if folded_eq(text, n, "xor") {
        TokenKind::Xor
    } else if folded_eq(text, n, "nand") {
        TokenKind::Nand
    } else if folded_eq(text, n, "nor") {
        TokenKind::Nor
    } else {
        TokenKind::Identifier
    }
}

/// A two-character symbol starting at `j`, or a one-character symbol, with
/// the number of characters it spans.
pub open spec fn sym_at(s: Seq<char>, j: int) -> Option<(TokenKind, int)> {
    if j + 1 < s.len() && two_char_symbol(s[j], s[j + 1]) is Some {
        Some((two_char_symbol(s[j], s[j + 1])->Some_0, 2))
    } else if one_char_symbol(s[j]) is Some {
        Some((one_char_symbol(s[j])->Some_0, 1))
    } else {
        None
    }
}

/// The outcome of lexing one token: the token or error produced, and the
/// character index where lexing continues.
pub struct LexStep {
    pub out: Result<TokenModel, LexErrModel>,
    pub next: int,
}

/// What `next_token` produces from character index `i` of source `s`:
/// whitespace is skipped, then the next construct is classified by its
/// first character.
pub open spec fn spec_next(s: Seq<char>, i: int) -> LexStep
    recommends
        0 <= i <= s.len(),
{
    let j = ws_end(s, i);
    if j == s.len() {
        LexStep {
            out: Ok(
                TokenModel {
                    kind: TokenKind::Eof,
                    start: byte_pos(s, j),
                    end: byte_pos(s, j),
                    text: Seq::empty(),
                },
            ),
            next: j,
        }
    } else {
        let c = s[j];
        if is_alpha_char(c) || c == '_' {
            let k = ident_end(s, j);
            LexStep {
                out: Ok(
                    TokenModel {
                        kind: keyword_kind(s.subrange(j, k)),
                        start: byte_pos(s, j),
                        end: byte_pos(s, k),
                        text: s.subrange(j, k),
                    },
                ),
                next: k,
            }
        } else if is_dec_digit(c) {
            let k = num_end(s, j);
            LexStep {
                out: Ok(
                    TokenModel {
                        kind: TokenKind::Number,
                        start: byte_pos(s, j),
                        end: byte_pos(s, k),
                        text: s.subrange(j, k),
                    },
                ),
                next: k,
            }
        } else if c == '"' {
            match str_close(s, j + 1) {
                Some(m) => LexStep {
                    out: Ok(
                        TokenModel {
                            kind: TokenKind::StringLiteral,
                            start: byte_pos(s, j),
                            end: byte_pos(s, m),
                            text: s.subrange(j, m),
                        },
                    ),
                    next: m,
                },
                None => LexStep {
                    out: Err(
                        LexErrModel {
                            msg: "unclosed string literal"@,
                            start: byte_pos(s, j),
                            end: byte_pos(s, s.len() as int),
                        },
                    ),
                    next: s.len() as int,
                },
            }
        } else if c == '\'' {
            if j + 2 < s.len() && s[j + 2] == '\'' {
                LexStep {
                    out: Ok(
                        TokenModel {
                            kind: TokenKind::CharacterLiteral,
                            start: byte_pos(s, j),
                            end: byte_pos(s, j + 3),
                            text: s.subrange(j, j + 3),
                        },
                    ),
                    next: j + 3,
                }
            } else {
                let stop = if j + 1 < s.len() {
                    j + 2
                } else {
                    j + 1
                };
                LexStep {
                    out: Err(
                        LexErrModel {
                            msg: "invalid character literal"@,
                            start: byte_pos(s, j),
                            end: byte_pos(s, stop),
                        },
                    ),
                    next: stop,
                }
            }
        } else if c == '-' && j + 1 < s.len() && s[j + 1] == '-' {
            let k = line_end(s, j + 2);
            LexStep {
                out: Ok(
                    TokenModel {
                        kind: TokenKind::Comment,
                        start: byte_pos(s, j),
                        end: byte_pos(s, k),
                        text: s.subrange(j + 2, k),
                    },
                ),
                next: k,
            }
        } else {
            match sym_at(s, j) {
                Some(kn) => LexStep {
                    out: Ok(
                        TokenModel {
                            kind: kn.0,
                            start: byte_pos(s, j),
                            end: byte_pos(s, j + kn.1),
                            text: s.subrange(j, j + kn.1),
                        },
                    ),
                    next: j + kn.1,
                },
                None => LexStep {
                    out: Err(
                        LexErrModel {
                            msg: "unexpected character: '"@ + s.subrange(j, j + 1) + "'"@,
                            start: byte_pos(s, j),
                            end: byte_pos(s, j + 1),
                        },
                    ),
                    next: j + 1,
                },
            }
        }
    }
}

/// Whether an executable lexing outcome realizes a modelled one.
pub open spec fn lex_out_matches(r: Result<Token, LexError>, m: Result<TokenModel, LexErrModel>) -> bool {
    match r {
        Ok(t) => m matches Ok(tm) && t.kind == tm.kind && t.span.start == tm.start && t.span.end
            == tm.end && t.text@ == tm.text,
        Err(e) => m matches Err(em) && e.message@ == em.msg && e.span.start == em.start
            && e.span.end == em.end,
    }
}

/// The lexer: a cursor over the source text that hands out one token per
/// call, tracking both the character index and the byte offset.
pub struct Lexer<'a> {
    source: &'a str,
    chars: Vec<char>,
    idx: usize,
    position: usize,
}

impl<'a> Lexer<'a> {
    /// The source text being lexed.
    pub closed spec fn src(self) -> Seq<char> {
        self.source@
    }

    /// The character index the cursor stands at.
    pub closed spec fn at(self) -> int {
        self.idx as int
    }

    /// Internal consistency: the cached character vector mirrors the
    /// source, the cursor is in range, and the byte offset agrees with the
    /// character index.
    pub closed spec fn wf(self) -> bool {
        &&& self.chars@ == self.source@
        &&& self.idx as int <= self.source@.len()
        &&& self.position == byte_pos(self.source@, self.idx as int)
        &&& byte_pos(self.source@, self.source@.len() as int) <= usize::MAX
    }

    /// Makes a lexer standing at the start of `source`.
    pub fn new(source: &'a str) -> (l: Lexer<'a>)
        ensures
            l.wf(),
            l.src() == source@,
            l.at() == 0,
    {
        let n = source.unicode_len();
        let mut chars: Vec<char> = Vec::new();
        let mut i: usize = 0;
        while i < n
            invariant
                0 <= i <= n,
                n == source@.len(),
                chars@.len() == i,
                forall|k: int| 0 <= k < i ==> chars@[k] == source@[k],
            decreases n - i,
        {
            let c = source.get_char(i);
            chars.push(c);
            i = i + 1;
        }
        proof {
            assert(chars@ =~= source@);
            let bs = source.spec_bytes();
            lemma_byte_pos_total(source@);
        }
        let bytes = source.as_bytes();
        let total = bytes.len();
        proof {
            assert(total == source.spec_bytes().len());
            assert(byte_pos(source@, source@.len() as int) <= usize::MAX);
        }
        Lexer { source, chars, idx: 0, position: 0 }
    }

    /// Consumes one character, advancing the byte offset by its width.
    fn step(&mut self)
        requires
            old(self).wf(),
            old(self).at() < old(self).src().len(),
        ensures
            final(self).wf(),
            final(self).src() == old(self).src(),
            final(self).at() == old(self).at() + 1,
    {
        let c = self.chars[self.idx];
        proof {
            let s = self.source@;
            let i = self.idx as int;
            lemma_byte_pos_bounds(s, i + 1, s.len() as int);
            assert(byte_pos(s, i + 1) == byte_pos(s, i) + char_utf8_len(s[i]));
        }
        self.position = self.position + char_width(c);
        self.idx = self.idx + 1;
    }

    /// Skips leading whitespace.
    fn skip_ws(&mut self)
        requires
            old(self).wf(),
        ensures
            final(self).wf(),
            final(self).src() == old(self).src(),
            final(self).at() == ws_end(old(self).src(), old(self).at()),
    {
        while self.idx < self.chars.len() && char_is_ws(self.chars[self.idx])
            invariant
                self.wf(),
                self.src() == old(self).src(),
                old(self).at() <= self.at() <= self.src().len(),
                ws_end(old(self).src(), old(self).at()) == ws_end(self.src(), self.at()),
            decreases self.src().len() - self.at(),
        {
            self.step();
        }
    }

    /// Consumes the longest stretch of identifier characters.
    fn run_ident(&mut self)
        requires
            old(self).wf(),
        ensures
            final(self).wf(),
            final(self).src() == old(self).src(),
            final(self).at() == ident_end(old(self).src(), old(self).at()),
    {
        while self.idx < self.chars.len() && char_ident_cont(self.chars[self.idx])
            invariant
                self.wf(),
                self.src() == old(self).src(),
                old(self).at() <= self.at() <= self.src().len(),
                ident_end(old(self).src(), old(self).at()) == ident_end(self.src(), self.at()),
            decreases self.src().len() - self.at(),
        {
            self.step();
        }
    }

    /// Consumes the longest stretch of numeric-literal characters.
    fn run_num(&mut self)
        requires
            old(self).wf(),
        ensures
            final(self).wf(),
            final(self).src() == old(self).src(),
            final(self).at() == num_end(old(self).src(), old(self).at()),
    {
        while self.idx < self.chars.len() && char_num_cont(self.chars[self.idx])
            invariant
                self.wf(),
                self.src() == old(self).src(),
                old(self).at() <= self.at() <= self.src().len(),
                num_end(old(self).src(), old(self).at()) == num_end(self.src(), self.at()),
            decreases self.src().len() - self.at(),
        {
            self.step();
        }
    }

    /// Consumes up to, but not including, the next newline.
    fn run_line(&mut self)
        requires
            old(self).wf(),
        ensures
            final(self).wf(),
            final(self).src() == old(self).src(),
            final(self).at() == line_end(old(self).src(), old(self).at()),
    {
        while self.idx < self.chars.len() && self.chars[self.idx] != '\n'
            invariant
                self.wf(),
                self.src() == old(self).src(),
                old(self).at() <= self.at() <= self.src().len(),
                line_end(old(self).src(), old(self).at()) == line_end(self.src(), self.at()),
            decreases self.src().len() - self.at(),
        {
            self.step();
        }
    }

    /// Consumes through the next double quote; reports whether one was
    /// found before the end of input.
    fn run_string(&mut self) -> (found: bool)
        requires
            old(self).wf(),
        ensures
            final(self).wf(),
            final(self).src() == old(self).src(),
            match str_close(old(self).src(), old(self).at()) {
                Some(m) => found && final(self).at() == m,
                None => !found && final(self).at() == final(self).src().len(),
            },
    {
        while self.idx < self.chars.len()
            invariant
                self.wf(),
                self.src() == old(self).src(),
                old(self).at() <= self.at() <= self.src().len(),
                str_close(old(self).src(), old(self).at()) == str_close(self.src(), self.at()),
            decreases self.src().len() - self.at(),
        {
            let c = self.chars[self.idx];
            self.step();
            if c == '"' {
                return true;
            }
        }
        false
    }

    /// Recognizes a one- or two-character symbol at the cursor, returning
    /// its kind and how many characters it spans.
    fn try_symbol(&self, ch: char) -> (r: Option<(TokenKind, usize)>)
        requires
            self.wf(),
            self.at() < self.src().len(),
            ch == self.src()[self.at()],
        ensures
            match r {
                Some(p) => sym_at(self.src(), self.at()) == Some((p.0, p.1 as int)),
                None => sym_at(self.src(), self.at()) is None,
            },
    {
        let n = self.chars.len();
        if self.idx + 1 < n {
            let next = self.chars[self.idx + 1];
            let two = if ch == ':' && next == '=' {
                Some(TokenKind::Assignment)
            } else if ch == '=' && next == '>' {
                Some(TokenKind::Association)
            } else if ch == '/' && next == '=' {
                Some(TokenKind::Neq)
            } else if ch == '<' && next == '=' {
                Some(TokenKind::Lte)
            } else if ch == '>' && next == '=' {
                Some(TokenKind::Gte)
            } else if ch == '*' && next == '*' {
                Some(TokenKind::Power)
            } else {
                None
            };
            if let Some(kind) = two {
                return Some((kind, 2));
            }
        }
        let one = if ch == ':' {
            Some(TokenKind::Colon)
        } else if ch == '=' {
            Some(TokenKind::Eq)
        } else if ch == '<' {
            Some(TokenKind::Lt)
        } else if ch == '>' {
            Some(TokenKind::Gt)
        } else if ch == '+' {
            Some(TokenKind::Plus)
        } else if ch == '-' {
            Some(TokenKind::Minus)
        } else if ch == '*' {
            Some(TokenKind::Star)
        } else if ch == '/' {
            Some(TokenKind::Slash)
        } else if ch == '&' {
            Some(TokenKind::Ampersand)
        } else if ch == '(' {
            Some(TokenKind::LeftParen)
        } else if ch == ')' {
            Some(TokenKind::RightParen)
        } else if ch == ';' {
            Some(TokenKind::Semicolon)
        } else if ch == ',' {
            Some(TokenKind::Comma)
        } else if ch == '.' {
            Some(TokenKind::Dot)
        } else {
            None
        };
        match one {
            Some(kind) => Some((kind, 1)),
            None => None,
        }
    }

    /// Copies the text of the characters `[from, to)` out of the source.
    fn text_of(&self, from: usize, to: usize) -> (t: String)
        requires
            self.wf(),
            from <= to <= self.src().len(),
        ensures
            t@ == self.src().subrange(from as int, to as int),
    {
        self.source.substring_char(from, to).to_owned()
    }

    /// Lexes one token. Skips leading whitespace, then classifies the next
    /// construct by its first character; makes forward progress even on
    /// error, and yields an `Eof` token at the end of input.
    pub fn next_token(&mut self) -> (r: Result<Token, LexError>)
        requires
            old(self).wf(),
        ensures
            final(self).wf(),
            final(self).src() == old(self).src(),
            final(self).at() == spec_next(old(self).src(), old(self).at()).next,
            lex_out_matches(r, spec_next(old(self).src(), old(self).at()).out),
    {
        self.skip_ws();
        let ghost s = self.src();
        let ghost j = self.at();
        proof {
            lemma_ws_end_bounds(s, old(self).at());
        }
        let start_b = self.position;
        let from = self.idx;
        if self.idx == self.chars.len() {
            return Ok(Token::new(TokenKind::Eof, Span::new(start_b, start_b), String::new()));
        }
        let c = self.chars[self.idx];
        if char_is_alpha(c) || c == '_' {
            self.run_ident();
            proof {
                lemma_ident_end_bounds(s, j);
            }
            let text = self.text_of(from, self.idx);
            let kind = keyword_or_identifier(text.as_str());
            return Ok(Token::new(kind, Span::new(start_b, self.position), text));
        }
        if char_is_digit(c) {
            self.run_num();
            proof {
                lemma_num_end_bounds(s, j);
            }
            let text = self.text_of(from, self.idx);
            return Ok(Token::new(TokenKind::Number, Span::new(start_b, self.position), text));
        }
        if c == '"' {
            self.step();
            let found = self.run_string();
            proof {
                lemma_str_close_bounds(s, j + 1);
            }
            if found {
                let text = self.text_of(from, self.idx);
                return Ok(
                    Token::new(TokenKind::StringLiteral, Span::new(start_b, self.position), text),
                );
            }
            return Err(
                LexError::new(
                    String::from_str("unclosed string literal"),
                    Span::new(start_b, self.position),
                ),
            );
        }
        if c == '\'' {
            self.step();
            if self.idx < self.chars.len() {
                self.step();
                if self.idx < self.chars.len() && self.chars[self.idx] == '\'' {
                    self.step();
                    let text = self.text_of(from, self.idx);
                    return Ok(
                        Token::new(
                            TokenKind::CharacterLiteral,
                            Span::new(start_b, self.position),
                            text,
                        ),
                    );
                }
            }
            return Err(
                LexError::new(
                    String::from_str("invalid character literal"),
                    Span::new(start_b, self.position),
                ),
            );
        }
        if c == '-' && self.idx + 1 < self.chars.len() && self.chars[self.idx + 1] == '-' {
            self.step();
            self.step();
            let body_from = self.idx;
            self.run_line();
            proof {
                lemma_line_end_bounds(s, j + 2);
            }
            let text = self.text_of(body_from, self.idx);
            return Ok(Token::new(TokenKind::Comment, Span::new(start_b, self.position), text));
        }
        match self.try_symbol(c) {
            Some((kind, width)) => {
                self.step();
                if width == 2 {
                    self.step();
                }
                let text = self.text_of(from, self.idx);
                Ok(Token::new(kind, Span::new(start_b, self.position), text))
            },
            None => {
                self.step();
                let mut msg = String::from_str("unexpected character: '");
                msg.append(self.source.substring_char(from, self.idx));
                msg.append("'");
                Err(LexError::new(msg, Span::new(start_b, self.position)))
            },
        }
    }
}

/// Lexing one token never moves the cursor backwards, and moves it
/// strictly forwards unless it produced the end-of-input token.
pub proof fn lemma_next_progress(s: Seq<char>, i: int)
    requires
        0 <= i <= s.len(),
    ensures
        i <= spec_next(s, i).next <= s.len(),
        spec_next(s, i).out matches Ok(t) && t.kind == TokenKind::Eof || spec_next(s, i).next > i,
{
    lemma_ws_end_bounds(s, i);
    let j = ws_end(s, i);
    if j < s.len() {
        let c = s[j];
        lemma_ident_end_bounds(s, j);
        lemma_num_end_bounds(s, j);
        if is_alpha_char(c) || c == '_' {
            assert(ident_end(s, j) == ident_end(s, j + 1) || ident_end(s, j) == j);
            assert(ident_cont(c));
            lemma_ident_end_bounds(s, j + 1);
        } else if is_dec_digit(c) {
            assert(num_cont(c));
            lemma_num_end_bounds(s, j + 1);
        } else if c == '"' {
            lemma_str_close_bounds(s, j + 1);
        } else if c == '\'' {
        } else if c == '-' && j + 1 < s.len() && s[j + 1] == '-' {
            lemma_line_end_bounds(s, j + 2);
        } else {
        }
    }
}

/// The stream of outcomes that repeated calls of `next_token` produce from
/// index `i`, up to but not including the end-of-input token.
pub open spec fn spec_token_stream(s: Seq<char>, i: int) -> Seq<Result<TokenModel, LexErrModel>>
    decreases s.len() - i,
    when 0 <= i <= s.len()
    via spec_token_stream_dec
{
    let st = spec_next(s, i);
    match st.out {
        Ok(t) => {
            if t.kind == TokenKind::Eof {
                Seq::empty()
            } else {
                seq![Result::<TokenModel, LexErrModel>::Ok(t)] + spec_token_stream(s, st.next)
            }
        },
        Err(e) => seq![Result::<TokenModel, LexErrModel>::Err(e)] + spec_token_stream(s, st.next),
    }
}

#[via_fn]
proof fn spec_token_stream_dec(s: Seq<char>, i: int) {
    lemma_next_progress(s, i);
}

/// The tokens of a stream of outcomes, with the errors dropped.
pub open spec fn ok_tokens(l: Seq<Result<TokenModel, LexErrModel>>) -> Seq<TokenModel>
    decreases l.len(),
{
    if l.len() == 0 {
        Seq::empty()
    } else {
        (match l[0] {
            Ok(t) => seq![t],
            Err(_) => Seq::empty(),
        }) + ok_tokens(l.drop_first())
    }
}

/// What lexing a whole source yields when the first error aborts: either
/// every token before the end of input, or the first error.
pub open spec fn spec_tokens_strict(s: Seq<char>, i: int) -> Result<Seq<TokenModel>, LexErrModel>
    decreases s.len() - i,
    when 0 <= i <= s.len()
    via spec_tokens_strict_dec
{
    let st = spec_next(s, i);
    match st.out {
        Ok(t) => {
            if t.kind == TokenKind::Eof {
                Ok(Seq::empty())
            } else {
                match spec_tokens_strict(s, st.next) {
                    Ok(rest) => Ok(seq![t] + rest),
                    Err(e) => Err(e),
                }
            }
        },
        Err(e) => Err(e),
    }
}

#[via_fn]
proof fn spec_tokens_strict_dec(s: Seq<char>, i: int) {
    lemma_next_progress(s, i);
}

/// The token models of an executable token vector.
pub open spec fn views_of(ts: Seq<Token>) -> Seq<TokenModel> {
    ts.map_values(|t: Token| t@)
}

proof fn lemma_views_push(ts: Seq<Token>, t: Token)
    ensures
        views_of(ts.push(t)) =~= views_of(ts).push(t@),
{
}

proof fn lemma_ok_tokens_cons(x: Result<TokenModel, LexErrModel>, l: Seq<
    Result<TokenModel, LexErrModel>,
>)
    ensures
        ok_tokens(seq![x] + l) == (match x {
            Ok(t) => seq![t],
            Err(_) => Seq::<TokenModel>::empty(),
        }) + ok_tokens(l),
{
    assert((seq![x] + l).drop_first() =~= l);
    assert((seq![x] + l)[0] == x);
}

impl<'a> Lexer<'a> {
    /// Lexes the whole remaining input. The first lexical error aborts and
    /// is returned; otherwise every token before the end of input is
    /// collected, in order.
    pub fn tokenize(&mut self) -> (r: Result<Vec<Token>, LexError>)
        requires
            old(self).wf(),
        ensures
            final(self).wf(),
            final(self).src() == old(self).src(),
            match r {
                Ok(ts) => spec_tokens_strict(old(self).src(), old(self).at()) matches Ok(ms)
                    && views_of(ts@) == ms,
                Err(e) => spec_tokens_strict(old(self).src(), old(self).at()) matches Err(em)
                    && e@ == em,
            },
    {
        let ghost s = self.src();
        let ghost i0 = self.at();
        let mut out: Vec<Token> = Vec::new();
        loop
            invariant
                s == old(self).src(),
                i0 == old(self).at(),
                self.wf(),
                self.src() == s,
                0 <= self.at() <= s.len(),
                spec_tokens_strict(s, i0) matches Ok(ms) ==> (spec_tokens_strict(s, self.at())
                    matches Ok(rest) && ms == views_of(out@) + rest),
                spec_tokens_strict(s, i0) matches Err(em) ==> (spec_tokens_strict(s, self.at())
                    matches Err(em2) && em == em2),
            decreases s.len() - self.at(),
        {
            let ghost i = self.at();
            proof {
                lemma_next_progress(s, i);
            }
            match self.next_token() {
                Ok(t) => {
                    if let TokenKind::Eof = t.kind {
                        proof {
                            assert(spec_tokens_strict(s, i) matches Ok(ms) && ms
                                == Seq::<TokenModel>::empty());
                            if spec_tokens_strict(s, i0) is Ok {
                                assert(views_of(out@) + Seq::<TokenModel>::empty() =~= views_of(
                                    out@,
                                ));
                            }
                        }
                        return Ok(out);
                    }
                    proof {
                        let st = spec_next(s, i);
                        let tm = st.out->Ok_0;
                        if spec_tokens_strict(s, st.next) is Ok {
                            let rest = spec_tokens_strict(s, st.next)->Ok_0;
                            assert(spec_tokens_strict(s, i)->Ok_0 == seq![tm] + rest);
                            lemma_views_push(out@, t);
                            assert(views_of(out@) + (seq![tm] + rest) =~= views_of(out@.push(t))
                                + rest);
                        }
                    }
                    out.push(t);
                },
                Err(e) => {
                    return Err(e);
                },
            }
        }
    }

    /// Lexes the whole remaining input, silently discarding erroring
    /// tokens; lexing continues after each error.
    pub fn tokenize_lossy(&mut self) -> (ts: Vec<Token>)
        requires
            old(self).wf(),
        ensures
            final(self).wf(),
            final(self).src() == old(self).src(),
            views_of(ts@) == ok_tokens(spec_token_stream(old(self).src(), old(self).at())),
    {
        let ghost s = self.src();
        let ghost i0 = self.at();
        let mut out: Vec<Token> = Vec::new();
        loop
            invariant
                s == old(self).src(),
                i0 == old(self).at(),
                self.wf(),
                self.src() == s,
                0 <= self.at() <= s.len(),
                ok_tokens(spec_token_stream(s, i0)) == views_of(out@) + ok_tokens(
                    spec_token_stream(s, self.at()),
                ),
            decreases s.len() - self.at(),
        {
            let ghost i = self.at();
            proof {
                lemma_next_progress(s, i);
            }
            match self.next_token() {
                Ok(t) => {
                    if let TokenKind::Eof = t.kind {
                        proof {
                            assert(spec_token_stream(s, i) =~= Seq::<
                                Result<TokenModel, LexErrModel>,
                            >::empty());
                            assert(views_of(out@) + ok_tokens(spec_token_stream(s, i)) =~= views_of(
                                out@,
                            ));
                        }
                        return out;
                    }
                    proof {
                        let st = spec_next(s, i);
                        let tm = st.out->Ok_0;
                        lemma_ok_tokens_cons(Ok(tm), spec_token_stream(s, st.next));
                        lemma_views_push(out@, t);
                        assert(views_of(out@) + (seq![tm] + ok_tokens(spec_token_stream(s, st.next)))
                            =~= views_of(out@.push(t)) + ok_tokens(spec_token_stream(s, st.next)));
                    }
                    out.push(t);
                },
                Err(e) => {
                    proof {
                        let st = spec_next(s, i);
                        let em = st.out->Err_0;
                        lemma_ok_tokens_cons(Err(em), spec_token_stream(s, st.next));
                        assert(views_of(out@) + (Seq::<TokenModel>::empty() + ok_tokens(
                            spec_token_stream(s, st.next),
                        )) =~= views_of(out@) + ok_tokens(spec_token_stream(s, st.next)));
                    }
                },
            }
        }
    }
}

} // verus!
