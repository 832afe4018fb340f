use vig::lexer::{Lexer, TokenKind};

// The same counter design the analyzer integration tests use, seen here
// through the lexer alone.
const COUNTER_SOURCE: &str = "\
-- simple 8-bit counter
library ieee;
use ieee.std_logic_1164.all;
use ieee.numeric_std.all;

entity counter is
    port (
        clk : in std_logic;
        reset : in std_logic;
        count : out std_logic_vector(7 downto 0)
    );
end entity counter;

architecture behavioral of counter is
    signal counter_value : integer := 0;
begin
    process(clk, reset)
    begin
        if reset = '1' then
            counter_value <= 0;
        elsif rising_edge(clk) then
            if counter_value = 255 then
                counter_value <= 0;
            else
                counter_value <= counter_value + 1;
            end if;
        end if;
    end process;
    count <= std_logic_vector(to_unsigned(counter_value, 8));
end architecture behavioral;
";

fn lex_counter() -> Vec<(TokenKind, String)> {
    let mut lexer = Lexer::new(COUNTER_SOURCE);
    let tokens = lexer.tokenize().expect("unexpected lex error");
    tokens.into_iter().map(|t| (t.kind, t.text)).collect()
}

#[test]
fn test_counter_vhd_tokens_not_empty() {
    let tokens = lex_counter();
    assert!(!tokens.is_empty(), "token stream is empty");
}

#[test]
fn test_counter_vhd_starts_with_comment() {
    let tokens = lex_counter();
    assert_eq!(tokens[0].0, TokenKind::Comment);
}

#[test]
fn test_counter_vhd_entity_structure() {
    let tokens = lex_counter();
    let kinds: Vec<&TokenKind> = tokens.iter().map(|(k, _)| k).collect();

    // library ieee;
    assert_eq!(kinds[1], &TokenKind::Library);
    assert_eq!(kinds[3], &TokenKind::Semicolon);

    // use ieee.std_logic_1164.all;
    assert_eq!(kinds[4], &TokenKind::Use);

    // entity counter is
    let entity_pos = kinds.iter().position(|k| **k == TokenKind::Entity).unwrap();
    assert_eq!(kinds[entity_pos + 1], &TokenKind::Identifier); // counter
    assert_eq!(kinds[entity_pos + 2], &TokenKind::Is);
}

#[test]
fn test_counter_vhd_port_declarations() {
    let tokens = lex_counter();
    let kinds: Vec<&TokenKind> = tokens.iter().map(|(k, _)| k).collect();

    assert!(kinds.contains(&&TokenKind::Port));

    assert!(kinds.contains(&&TokenKind::In));
    assert!(kinds.contains(&&TokenKind::Out));

    assert!(kinds.contains(&&TokenKind::StdLogic));
    assert!(kinds.contains(&&TokenKind::StdLogicVector));
}

#[test]
fn test_counter_vhd_architecture() {
    let tokens = lex_counter();
    let kinds: Vec<&TokenKind> = tokens.iter().map(|(k, _)| k).collect();

    assert!(kinds.contains(&&TokenKind::Architecture));

    assert!(kinds.contains(&&TokenKind::Signal));
    assert!(kinds.contains(&&TokenKind::Process));
    assert!(kinds.contains(&&TokenKind::Begin));
}

#[test]
fn test_counter_vhd_control_flow() {
    let tokens = lex_counter();
    let kinds: Vec<&TokenKind> = tokens.iter().map(|(k, _)| k).collect();

    assert!(kinds.contains(&&TokenKind::If));
    assert!(kinds.contains(&&TokenKind::Then));
    assert!(kinds.contains(&&TokenKind::Elsif));
}

#[test]
fn test_counter_vhd_operators() {
    let tokens = lex_counter();
    let kinds: Vec<&TokenKind> = tokens.iter().map(|(k, _)| k).collect();

    assert!(kinds.contains(&&TokenKind::Lte));
    assert!(kinds.contains(&&TokenKind::Plus));
    assert!(kinds.contains(&&TokenKind::Eq));
}

#[test]
fn test_counter_vhd_character_literal() {
    let tokens = lex_counter();

    let char_literals: Vec<&String> = tokens
        .iter()
        .filter(|(k, _)| *k == TokenKind::CharacterLiteral)
        .map(|(_, t)| t)
        .collect();

    assert!(!char_literals.is_empty());
    assert!(char_literals.contains(&&"'1'".to_string()));
}

#[test]
fn test_counter_vhd_no_errors() {
    let mut lexer = Lexer::new(COUNTER_SOURCE);
    loop {
        let result = lexer.next_token();
        assert!(result.is_ok(), "lex error: {:?}", result.err());
        if result.unwrap().kind == TokenKind::Eof {
            break;
        }
    }
}

#[test]
fn test_counter_vhd_downto() {
    let tokens = lex_counter();
    let kinds: Vec<&TokenKind> = tokens.iter().map(|(k, _)| k).collect();

    assert!(kinds.contains(&&TokenKind::Downto));
}
