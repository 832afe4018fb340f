use vig::analyzer::{analyze_vhdl, AnalyzeResult, PortDirection, VhdlType};

// The counter design used across the integration tests: one entity with a
// clock, a reset and an 8-bit count output, and one architecture holding a
// single integer signal.
const COUNTER_SOURCE: &str = "\
-- simple 8-bit counter
library ieee;
use ieee.std_logic_1164.all;
use ieee.numeric_std.all;

entity counter is
    port (
        clk : in std_logic;
        reset : in std_logic;
        count : out std_logic_vector(7 downto 0)
    );
end entity counter;

architecture behavioral of counter is
    signal counter_value : integer := 0;
begin
    process(clk, reset)
    begin
        if reset = '1' then
            counter_value <= 0;
        elsif rising_edge(clk) then
            if counter_value = 255 then
                counter_value <= 0;
            else
                counter_value <= counter_value + 1;
            end if;
        end if;
    end process;
    count <= std_logic_vector(to_unsigned(counter_value, 8));
end architecture behavioral;
";

fn analyze_counter() -> AnalyzeResult {
    analyze_vhdl(COUNTER_SOURCE).expect("analysis failed")
}

#[test]
fn test_counter_entity_found() {
    let result = analyze_counter();
    assert_eq!(result.entities.len(), 1);
    assert_eq!(result.entities[0].name, "counter");
}

#[test]
fn test_counter_entity_port_count() {
    let result = analyze_counter();
    assert_eq!(result.entities[0].ports.len(), 3);
}

#[test]
fn test_counter_entity_port_details() {
    let result = analyze_counter();
    let ports = &result.entities[0].ports;

    // clk : in std_logic
    assert_eq!(ports[0].name, "clk");
    assert_eq!(ports[0].direction, PortDirection::In);
    assert_eq!(ports[0].vhdl_type, VhdlType::StdLogic);

    // reset : in std_logic
    assert_eq!(ports[1].name, "reset");
    assert_eq!(ports[1].direction, PortDirection::In);
    assert_eq!(ports[1].vhdl_type, VhdlType::StdLogic);

    // count : out std_logic_vector(7 downto 0)
    assert_eq!(ports[2].name, "count");
    assert_eq!(ports[2].direction, PortDirection::Out);
    assert_eq!(
        ports[2].vhdl_type,
        VhdlType::StdLogicVector { high: 7, low: 0 }
    );
}

#[test]
fn test_counter_architecture_found() {
    let result = analyze_counter();
    assert_eq!(result.architectures.len(), 1);
    assert_eq!(result.architectures[0].name, "behavioral");
    assert_eq!(result.architectures[0].entity_name, "counter");
}

#[test]
fn test_counter_architecture_signal() {
    let result = analyze_counter();
    let signals = &result.architectures[0].signals;

    assert_eq!(signals.len(), 1);
    assert_eq!(signals[0].name, "counter_value");
    assert_eq!(signals[0].vhdl_type, VhdlType::Integer);
    assert_eq!(signals[0].default_value, Some("0".to_string()));
}

#[test]
fn test_entity_architecture_mapping() {
    let result = analyze_counter();
    assert_eq!(result.entities[0].name, result.architectures[0].entity_name);
}

#[test]
fn test_empty_entity() {
    let source = "entity empty_ent is\nend entity empty_ent;";
    let result = analyze_vhdl(source).unwrap();
    assert_eq!(result.entities.len(), 1);
    assert_eq!(result.entities[0].name, "empty_ent");
    assert!(result.entities[0].ports.is_empty());
}

#[test]
fn test_signal_without_default() {
    let source = r#"
        architecture rtl of foo is
            signal bar : std_logic;
        begin
        end architecture rtl;
    "#;
    let result = analyze_vhdl(source).unwrap();
    let sig = &result.architectures[0].signals[0];
    assert_eq!(sig.name, "bar");
    assert_eq!(sig.vhdl_type, VhdlType::StdLogic);
    assert_eq!(sig.default_value, None);
}

#[test]
fn test_multiple_entities() {
    let source = r#"
        entity a is
            port ( x : in std_logic );
        end entity a;
        entity b is
            port ( y : out integer );
        end entity b;
    "#;
    let result = analyze_vhdl(source).unwrap();
    assert_eq!(result.entities.len(), 2);
    assert_eq!(result.entities[0].name, "a");
    assert_eq!(result.entities[1].name, "b");
}

#[test]
fn test_case_insensitivity() {
    // Keyword matching is case-insensitive; the captured identifier text
    // keeps its casing.
    let source = "ENTITY MyEnt IS\nEND ENTITY MyEnt;";
    let result = analyze_vhdl(source).unwrap();
    assert_eq!(result.entities[0].name, "MyEnt");
}

#[test]
fn test_port_group_expansion() {
    let source = "entity g is\nport ( a, b, c : in std_logic );\nend entity g;";
    let result = analyze_vhdl(source).unwrap();
    let ports = &result.entities[0].ports;
    assert_eq!(ports.len(), 3);
    assert_eq!(ports[0].name, "a");
    assert_eq!(ports[1].name, "b");
    assert_eq!(ports[2].name, "c");
    for p in ports {
        assert_eq!(p.direction, PortDirection::In);
        assert_eq!(p.vhdl_type, VhdlType::StdLogic);
        assert_eq!(p.span, ports[0].span);
    }
}

#[test]
fn test_vector_range_downto_and_to() {
    let source = "entity v is\nport ( d : in std_logic_vector(7 downto 0); u : in std_logic_vector(0 to 7) );\nend entity v;";
    let result = analyze_vhdl(source).unwrap();
    let ports = &result.entities[0].ports;
    // Bounds are taken positionally; `to` does not reorder them.
    assert_eq!(ports[0].vhdl_type, VhdlType::StdLogicVector { high: 7, low: 0 });
    assert_eq!(ports[1].vhdl_type, VhdlType::StdLogicVector { high: 0, low: 7 });
}

#[test]
fn test_vector_without_range_defaults_to_zero() {
    let source = "entity v is\nport ( d : in std_logic_vector );\nend entity v;";
    let result = analyze_vhdl(source).unwrap();
    assert_eq!(
        result.entities[0].ports[0].vhdl_type,
        VhdlType::StdLogicVector { high: 0, low: 0 }
    );
}

#[test]
fn test_vector_bound_overflow_defaults_to_zero() {
    // A bound that does not fit in an i64 falls back to zero.
    let source = "entity v is\nport ( d : in std_logic_vector(99999999999999999999 downto 0) );\nend entity v;";
    let result = analyze_vhdl(source).unwrap();
    assert_eq!(
        result.entities[0].ports[0].vhdl_type,
        VhdlType::StdLogicVector { high: 0, low: 0 }
    );
}

#[test]
fn test_signal_default_value_joined_with_spaces() {
    let source = "\
architecture rtl of foo is
    signal s : std_logic_vector(3 downto 0) := ( others => '0' );
begin
end architecture rtl;
";
    let result = analyze_vhdl(source).unwrap();
    let sig = &result.architectures[0].signals[0];
    assert_eq!(sig.default_value, Some("( others => '0' )".to_string()));
}

#[test]
fn test_malformed_direction_rejected() {
    let source = "entity e is\nport ( x : inout2 std_logic );\nend entity e;";
    let err = analyze_vhdl(source).unwrap_err();
    assert_eq!(err.message, "expected port direction, found 'inout2'");
}

#[test]
fn test_expect_error_message() {
    // `entity` must be followed by an identifier.
    let source = "entity ; end;";
    let err = analyze_vhdl(source).unwrap_err();
    assert_eq!(err.message, "expected Identifier, found Semicolon ';'");
}

#[test]
fn test_type_error_message() {
    let source = "entity e is\nport ( x : in ; );\nend entity e;";
    let err = analyze_vhdl(source).unwrap_err();
    assert_eq!(err.message, "expected type, found ';'");
}

#[test]
fn test_architecture_soft_entity_link() {
    // An architecture naming a nonexistent entity parses successfully; the
    // reference is never validated.
    let source = "\
architecture rtl of missing_entity is
begin
end architecture rtl;
";
    let result = analyze_vhdl(source).unwrap();
    assert!(result.entities.is_empty());
    assert_eq!(result.architectures.len(), 1);
    assert_eq!(result.architectures[0].entity_name, "missing_entity");
}

#[test]
fn test_analysis_is_deterministic() {
    let first = analyze_vhdl(COUNTER_SOURCE).unwrap();
    let second = analyze_vhdl(COUNTER_SOURCE).unwrap();
    assert_eq!(first, second);
}

#[test]
fn test_unrecognized_top_level_tokens_skipped() {
    let source = "library ieee; use ieee.std_logic_1164.all;\nentity e is\nend entity e;";
    let result = analyze_vhdl(source).unwrap();
    assert_eq!(result.entities.len(), 1);
    assert_eq!(result.entities[0].name, "e");
}

#[test]
fn test_lex_errors_swallowed_by_convenience_entry() {
    // Erroring tokens are discarded before parsing.
    let source = "entity @ e is\nend entity e;";
    let result = analyze_vhdl(source).unwrap();
    assert_eq!(result.entities.len(), 1);
    assert_eq!(result.entities[0].name, "e");
}

#[test]
fn test_architecture_without_closing_pair_tolerated() {
    // With no `end architecture` pair the scan runs to the end of the
    // stream; no error is raised.
    let source = "architecture a of b is\nsignal s : boolean;\nbegin\n";
    let result = analyze_vhdl(source).unwrap();
    assert_eq!(result.architectures.len(), 1);
    assert_eq!(result.architectures[0].name, "a");
    assert_eq!(result.architectures[0].signals.len(), 1);
    assert_eq!(result.architectures[0].signals[0].vhdl_type, VhdlType::Boolean);
}

#[test]
fn test_trailing_semicolon_in_port_list_tolerated() {
    let source = "entity e is\nport ( x : in std_logic; );\nend entity e;";
    let result = analyze_vhdl(source).unwrap();
    assert_eq!(result.entities[0].ports.len(), 1);
}
