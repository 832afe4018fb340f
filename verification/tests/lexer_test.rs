use vig::lexer::{Lexer, TokenKind};

#[test]
fn test_vhdl_keywords() {
    let source = "entity architecture begin end signal";
    let mut lexer = Lexer::new(source);

    assert_eq!(lexer.next_token().unwrap().kind, TokenKind::Entity);
    assert_eq!(lexer.next_token().unwrap().kind, TokenKind::Architecture);
    assert_eq!(lexer.next_token().unwrap().kind, TokenKind::Begin);
    assert_eq!(lexer.next_token().unwrap().kind, TokenKind::End);
    assert_eq!(lexer.next_token().unwrap().kind, TokenKind::Signal);
}

#[test]
fn test_case_insensitive() {
    let source = "ENTITY Entity entity";
    let mut lexer = Lexer::new(source);

    assert_eq!(lexer.next_token().unwrap().kind, TokenKind::Entity);
    assert_eq!(lexer.next_token().unwrap().kind, TokenKind::Entity);
    assert_eq!(lexer.next_token().unwrap().kind, TokenKind::Entity);
}

#[test]
fn test_operators() {
    let source = ":= => <= >= /= **";
    let mut lexer = Lexer::new(source);

    assert_eq!(lexer.next_token().unwrap().kind, TokenKind::Assignment);
    assert_eq!(lexer.next_token().unwrap().kind, TokenKind::Association);
    assert_eq!(lexer.next_token().unwrap().kind, TokenKind::Lte);
    assert_eq!(lexer.next_token().unwrap().kind, TokenKind::Gte);
    assert_eq!(lexer.next_token().unwrap().kind, TokenKind::Neq);
    assert_eq!(lexer.next_token().unwrap().kind, TokenKind::Power);
}

#[test]
fn test_comment() {
    let source = "signal -- this is a comment\nport";
    let mut lexer = Lexer::new(source);

    assert_eq!(lexer.next_token().unwrap().kind, TokenKind::Signal);
    assert_eq!(lexer.next_token().unwrap().kind, TokenKind::Comment);
    assert_eq!(lexer.next_token().unwrap().kind, TokenKind::Port);
}

#[test]
fn test_character_literal() {
    let source = "'0' '1' 'X'";
    let mut lexer = Lexer::new(source);

    let token1 = lexer.next_token().unwrap();
    assert_eq!(token1.kind, TokenKind::CharacterLiteral);
    assert_eq!(token1.text, "'0'");

    let token2 = lexer.next_token().unwrap();
    assert_eq!(token2.kind, TokenKind::CharacterLiteral);
    assert_eq!(token2.text, "'1'");

    let token3 = lexer.next_token().unwrap();
    assert_eq!(token3.kind, TokenKind::CharacterLiteral);
    assert_eq!(token3.text, "'X'");
}

#[test]
fn test_string_literal() {
    let source = r#""hello" "std_logic""#;
    let mut lexer = Lexer::new(source);

    let token1 = lexer.next_token().unwrap();
    assert_eq!(token1.kind, TokenKind::StringLiteral);
    assert_eq!(token1.text, r#""hello""#);

    let token2 = lexer.next_token().unwrap();
    assert_eq!(token2.kind, TokenKind::StringLiteral);
    assert_eq!(token2.text, r#""std_logic""#);
}

#[test]
fn test_simple_entity() {
    let source = r#"
entity test is
    port (
        clk : in std_logic;
        data : out std_logic_vector
    );
end entity;
        "#;

    let mut lexer = Lexer::new(source);
    let tokens = lexer.tokenize().unwrap();

    assert_eq!(tokens[0].kind, TokenKind::Entity);
    assert_eq!(tokens[1].kind, TokenKind::Identifier);
    assert_eq!(tokens[1].text, "test");
    assert_eq!(tokens[2].kind, TokenKind::Is);
    assert_eq!(tokens[3].kind, TokenKind::Port);
}

#[test]
fn test_signal_assignment() {
    let source = "signal_name <= '1';";
    let mut lexer = Lexer::new(source);

    assert_eq!(lexer.next_token().unwrap().kind, TokenKind::Identifier);
    assert_eq!(lexer.next_token().unwrap().kind, TokenKind::Lte);
    assert_eq!(lexer.next_token().unwrap().kind, TokenKind::CharacterLiteral);
    assert_eq!(lexer.next_token().unwrap().kind, TokenKind::Semicolon);
}

#[test]
fn test_logical_operators() {
    let source = "a and b or not c";
    let mut lexer = Lexer::new(source);

    assert_eq!(lexer.next_token().unwrap().kind, TokenKind::Identifier);
    assert_eq!(lexer.next_token().unwrap().kind, TokenKind::And);
    assert_eq!(lexer.next_token().unwrap().kind, TokenKind::Identifier);
    assert_eq!(lexer.next_token().unwrap().kind, TokenKind::Or);
    assert_eq!(lexer.next_token().unwrap().kind, TokenKind::Not);
    assert_eq!(lexer.next_token().unwrap().kind, TokenKind::Identifier);
}

#[test]
fn test_eof_token_at_end() {
    let mut lexer = Lexer::new("entity");
    assert_eq!(lexer.next_token().unwrap().kind, TokenKind::Entity);
    let eof = lexer.next_token().unwrap();
    assert_eq!(eof.kind, TokenKind::Eof);
    assert_eq!(eof.span.start, 6);
    assert_eq!(eof.span.end, 6);
    assert_eq!(eof.text, "");
}

#[test]
fn test_spans_are_byte_offsets() {
    // A two-byte character before the keyword shifts its span by two.
    let source = "\u{00e9} entity";
    let mut lexer = Lexer::new(source);
    let first = lexer.next_token().unwrap();
    assert_eq!(first.kind, TokenKind::Identifier);
    assert_eq!(first.span.start, 0);
    assert_eq!(first.span.end, 2);
    let kw = lexer.next_token().unwrap();
    assert_eq!(kw.kind, TokenKind::Entity);
    assert_eq!(kw.span.start, 3);
    assert_eq!(kw.span.end, 9);
}

#[test]
fn test_unclosed_string_literal_error() {
    let mut lexer = Lexer::new("\"never closed");
    let err = lexer.next_token().unwrap_err();
    assert_eq!(err.message, "unclosed string literal");
    assert_eq!(err.span.start, 0);
    assert_eq!(err.span.end, 13);
}

#[test]
fn test_invalid_character_literal_error() {
    let mut lexer = Lexer::new("'ab'");
    let err = lexer.next_token().unwrap_err();
    assert_eq!(err.message, "invalid character literal");
    assert_eq!(err.span.start, 0);
    assert_eq!(err.span.end, 2);
}

#[test]
fn test_unexpected_character_error_and_progress() {
    let mut lexer = Lexer::new("@entity");
    let err = lexer.next_token().unwrap_err();
    assert_eq!(err.message, "unexpected character: '@'");
    assert_eq!(err.span.start, 0);
    assert_eq!(err.span.end, 1);
    // Forward progress is guaranteed even on error.
    assert_eq!(lexer.next_token().unwrap().kind, TokenKind::Entity);
}

#[test]
fn test_comment_token_body_and_span() {
    let mut lexer = Lexer::new("-- note\nentity");
    let c = lexer.next_token().unwrap();
    assert_eq!(c.kind, TokenKind::Comment);
    assert_eq!(c.text, " note");
    assert_eq!(c.span.start, 0);
    assert_eq!(c.span.end, 7);
}

#[test]
fn test_number_token_is_not_validated() {
    // Malformed numeric text is still returned as a Number token.
    let mut lexer = Lexer::new("1_2.3e4x");
    let n = lexer.next_token().unwrap();
    assert_eq!(n.kind, TokenKind::Number);
    assert_eq!(n.text, "1_2.3e4");
    assert_eq!(lexer.next_token().unwrap().kind, TokenKind::Identifier);
}

#[test]
fn test_tokenize_lossy_skips_errors() {
    let mut lexer = Lexer::new("entity @ end");
    let tokens = lexer.tokenize_lossy();
    let kinds: Vec<TokenKind> = tokens.iter().map(|t| t.kind).collect();
    assert_eq!(kinds, vec![TokenKind::Entity, TokenKind::End]);
}
