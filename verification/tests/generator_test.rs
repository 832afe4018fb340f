use vig::analyzer::analyze_vhdl;
use vig::generator::{generate_testbench, TbConfig};

const COUNTER_SOURCE: &str = "\
-- simple 8-bit counter
library ieee;
use ieee.std_logic_1164.all;

entity counter is
    port (
        clk : in std_logic;
        reset : in std_logic;
        count : out std_logic_vector(7 downto 0)
    );
end entity counter;
";

fn counter_tb() -> String {
    let result = analyze_vhdl(COUNTER_SOURCE).expect("analysis failed");
    let config = TbConfig::default();
    generate_testbench(&result.entities[0], &config)
}

#[test]
fn test_empty_entity_tb() {
    let source = "entity empty is\nend entity empty;";
    let result = analyze_vhdl(source).unwrap();
    let config = TbConfig::default();
    let tb = generate_testbench(&result.entities[0], &config);
    assert!(tb.contains("entity empty_tb is"));
    // With no clock and no reset port, neither process is generated.
    assert!(!tb.contains("clk_process"));
    assert!(!tb.contains("reset <="));
}

#[test]
fn test_counter_tb_entity_name() {
    let tb = counter_tb();
    assert!(tb.contains("entity counter_tb is"));
    assert!(tb.contains("end entity counter_tb;"));
}

#[test]
fn test_counter_tb_component_declaration() {
    let tb = counter_tb();
    assert!(tb.contains("component counter is"));
    assert!(tb.contains("clk : in std_logic"));
    assert!(tb.contains("reset : in std_logic"));
    assert!(tb.contains("count : out std_logic_vector(7 downto 0)"));
    assert!(tb.contains("end component counter;"));
}

#[test]
fn test_counter_tb_signal_declarations() {
    let tb = counter_tb();
    assert!(tb.contains("signal clk : std_logic := '0';"));
    assert!(tb.contains("signal reset : std_logic := '0';"));
    assert!(tb.contains("signal count : std_logic_vector(7 downto 0) := (others => '0');"));
}

#[test]
fn test_counter_tb_dut_instance() {
    let tb = counter_tb();
    assert!(tb.contains("uut: counter"));
    assert!(tb.contains("port map"));
    assert!(tb.contains("clk => clk"));
    assert!(tb.contains("reset => reset"));
    assert!(tb.contains("count => count"));
}

#[test]
fn test_counter_tb_clock_process() {
    let tb = counter_tb();
    assert!(tb.contains("clk_process: process"));
    assert!(tb.contains("clk <= '0'"));
    assert!(tb.contains("clk <= '1'"));
    assert!(tb.contains("wait for 5 ns;"));
}

#[test]
fn test_counter_tb_reset_sequence() {
    let tb = counter_tb();
    assert!(tb.contains("reset <= '1';"));
    assert!(tb.contains("reset <= '0';"));
}

#[test]
fn test_counter_tb_stimulus_process() {
    let tb = counter_tb();
    assert!(tb.contains("stim_process: process"));
    assert!(tb.contains("assert false report \"Simulation finished\""));
    assert!(tb.contains("wait;"));
}

#[test]
fn test_counter_tb_library_declarations() {
    let tb = counter_tb();
    assert!(tb.contains("library ieee;"));
    assert!(tb.contains("use ieee.std_logic_1164.all;"));
    assert!(tb.contains("use ieee.numeric_std.all;"));
}

#[test]
fn test_custom_clock_period() {
    let result = analyze_vhdl(COUNTER_SOURCE).unwrap();
    let config = TbConfig {
        clock_period_ns: 20,
    };
    let tb = generate_testbench(&result.entities[0], &config);
    assert!(tb.contains("wait for 10 ns;"));
    assert!(tb.contains("周期 20 ns"));
}

#[test]
fn test_input_hints_for_remaining_inputs() {
    let source = "\
entity uart is
    port (
        clk : in std_logic;
        rst : in std_logic;
        tx_start : in std_logic;
        tx_data : in std_logic_vector(7 downto 0);
        tx_out : out std_logic
    );
end entity uart;
";
    let result = analyze_vhdl(source).unwrap();
    let tb = generate_testbench(&result.entities[0], &TbConfig::default());
    assert!(tb.contains("-- tx_start <= '0';"));
    assert!(tb.contains("-- tx_data <= (others => '0');"));
    // The clock and reset ports do not get hints.
    assert!(!tb.contains("-- clk <= "));
    assert!(!tb.contains("-- rst <= "));
}

#[test]
fn test_user_defined_type_rendered_by_name() {
    let source = "\
entity e is
    port (
        state : out my_state_type
    );
end entity e;
";
    let result = analyze_vhdl(source).unwrap();
    let tb = generate_testbench(&result.entities[0], &TbConfig::default());
    assert!(tb.contains("state : out my_state_type"));
    assert!(tb.contains("signal state : my_state_type := '0';"));
}
