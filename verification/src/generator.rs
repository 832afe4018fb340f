//! Testbench generation: renders a simulation harness for one parsed
//! entity as VHDL text. A pure, deterministic text-rendering function of
//! the entity model and a clock-period configuration.

use crate::analyzer::{
    port_views, EntityDef, EntityModel, PortDef, PortDirection, PortModel, TypeModel, VhdlType,
};
use crate::lexer::lower_seq;
use crate::strutil::{dec_str, i64_to_string, int_str, to_lower_string, u64_to_string};
use vstd::prelude::*;
use vstd::string::{StrSliceExecFns, StringExecFns};

verus! {

/// Configuration for testbench generation.
pub struct TbConfig {
    /// Clock period in nanoseconds.
    pub clock_period_ns: u64,
}

impl Default for TbConfig {
    fn default() -> (c: TbConfig)
        ensures
            c.clock_period_ns == 10,
    {
        TbConfig { clock_period_ns: 10 }
    }
}

/// The VHDL text of a type reference.
pub open spec fn spec_type_text(t: TypeModel) -> Seq<char> {
    match t {
        TypeModel::StdLogic => "std_logic"@,
        TypeModel::StdLogicVector { high, low } => "std_logic_vector("@ + int_str(high)
            + " downto "@ + int_str(low) + ")"@,
        TypeModel::Integer => "integer"@,
        TypeModel::Boolean => "boolean"@,
        TypeModel::Other(name) => name,
    }
}

/// The default initializer literal a type gets in generated signal
/// declarations.
pub open spec fn spec_type_default(t: TypeModel) -> Seq<char> {
    match t {
        TypeModel::StdLogic => "'0'"@,
        TypeModel::StdLogicVector { high, low } => "(others => '0')"@,
        TypeModel::Integer => "0"@,
        TypeModel::Boolean => "false"@,
        TypeModel::Other(name) => "'0'"@,
    }
}

/// The VHDL spelling of a port direction.
pub open spec fn spec_dir_text(d: PortDirection) -> Seq<char> {
    match d {
        PortDirection::In => "in"@,
        PortDirection::Out => "out"@,
        PortDirection::Inout => "inout"@,
        PortDirection::Buffer => "buffer"@,
    }
}

/// Whether `sub` occurs contiguously inside `s`.
pub open spec fn contains_sub(s: Seq<char>, sub: Seq<char>) -> bool {
    exists|i: int| 0 <= i && i + sub.len() <= s.len() && #[trigger] s.subrange(i, i + sub.len())
        == sub
}

/// A clock port: an input whose name contains `clk`, case-insensitively.
pub open spec fn is_clock_port(p: PortModel) -> bool {
    p.direction == PortDirection::In && contains_sub(lower_seq(p.name), "clk"@)
}

/// A reset port: an input whose name contains `rst` or `reset`,
/// case-insensitively.
pub open spec fn is_reset_port(p: PortModel) -> bool {
    p.direction == PortDirection::In && (contains_sub(lower_seq(p.name), "rst"@) || contains_sub(
        lower_seq(p.name),
        "reset"@,
    ))
}

/// The name of the first clock port at or after `i`, if any.
pub open spec fn spec_find_clock_from(ps: Seq<PortModel>, i: int) -> Option<Seq<char>>
    decreases ps.len() - i,
    when 0 <= i <= ps.len()
{
    if i == ps.len() {
        None
    } else if is_clock_port(ps[i]) {
        Some(ps[i].name)
    } else {
        spec_find_clock_from(ps, i + 1)
    }
}

/// The name of the first reset port at or after `i`, if any.
pub open spec fn spec_find_reset_from(ps: Seq<PortModel>, i: int) -> Option<Seq<char>>
    decreases ps.len() - i,
    when 0 <= i <= ps.len()
{
    if i == ps.len() {
        None
    } else if is_reset_port(ps[i]) {
        Some(ps[i].name)
    } else {
        spec_find_reset_from(ps, i + 1)
    }
}

/// One line of a generated component port list.
pub open spec fn spec_component_line(p: PortModel, last: bool) -> Seq<char> {
    "            "@ + p.name + " : "@ + spec_dir_text(p.direction) + " "@ + spec_type_text(p.typ)
        + (if last {
        ""@
    } else {
        ";"@
    }) + "\n"@
}

/// The lines of a generated component port list from index `i` on.
pub open spec fn spec_component_lines(ps: Seq<PortModel>, i: int) -> Seq<char>
    decreases ps.len() - i,
    when 0 <= i <= ps.len()
{
    if i == ps.len() {
        Seq::empty()
    } else {
        spec_component_line(ps[i], i + 1 == ps.len()) + spec_component_lines(ps, i + 1)
    }
}

/// The generated component declaration of an entity.
pub open spec fn spec_component(e: EntityModel) -> Seq<char> {
    if e.ports.len() > 0 {
        "    component "@ + e.name + " is\n"@ + "        port (\n"@ + spec_component_lines(
            e.ports,
            0,
        ) + "        );\n"@ + "    end component "@ + e.name + ";\n"@
    } else {
        "    component "@ + e.name + " is\n"@ + "    end component "@ + e.name + ";\n"@
    }
}

/// One generated signal declaration.
pub open spec fn spec_signal_line(p: PortModel) -> Seq<char> {
    "    signal "@ + p.name + " : "@ + spec_type_text(p.typ) + " := "@ + spec_type_default(p.typ)
        + ";\n"@
}

/// The generated signal declarations from index `i` on.
pub open spec fn spec_signal_lines(ps: Seq<PortModel>, i: int) -> Seq<char>
    decreases ps.len() - i,
    when 0 <= i <= ps.len()
{
    if i == ps.len() {
        Seq::empty()
    } else {
        spec_signal_line(ps[i]) + spec_signal_lines(ps, i + 1)
    }
}

/// One line of a generated port map.
pub open spec fn spec_dut_line(p: PortModel, last: bool) -> Seq<char> {
    "            "@ + p.name + " => "@ + p.name + (if last {
        ""@
    } else {
        ","@
    }) + "\n"@
}

/// The lines of a generated port map from index `i` on.
pub open spec fn spec_dut_lines(ps: Seq<PortModel>, i: int) -> Seq<char>
    decreases ps.len() - i,
    when 0 <= i <= ps.len()
{
    if i == ps.len() {
        Seq::empty()
    } else {
        spec_dut_line(ps[i], i + 1 == ps.len()) + spec_dut_lines(ps, i + 1)
    }
}

/// The generated device-under-test instantiation.
pub open spec fn spec_dut(e: EntityModel) -> Seq<char> {
    if e.ports.len() > 0 {
        "    uut: "@ + e.name + "\n"@ + "        port map (\n"@ + spec_dut_lines(e.ports, 0)
            + "        );\n"@
    } else {
        "    uut: "@ + e.name + "\n"@ + "    ;\n"@
    }
}

/// The generated clock-toggling process.
pub open spec fn spec_clock_process(clk: Seq<char>, period: int) -> Seq<char> {
    "    -- クロック生成 (周期 "@ + dec_str(period) + " ns)\n"@
        + "    clk_process: process\n"@ + "    begin\n"@ + "        "@ + clk + " <= '0';\n"@
        + "        wait for "@ + dec_str(period / 2) + " ns;\n"@ + "        "@ + clk
        + " <= '1';\n"@ + "        wait for "@ + dec_str(period / 2) + " ns;\n"@
        + "    end process clk_process;\n"@
}

/// A port that gets a commented-out stimulus hint: an input or inout port
/// that is neither the chosen clock nor the chosen reset.
pub open spec fn hint_port(p: PortModel, clk: Option<Seq<char>>, rst: Option<Seq<char>>) -> bool {
    (p.direction == PortDirection::In || p.direction == PortDirection::Inout) && Some(p.name)
        != clk && Some(p.name) != rst
}

/// The commented-out stimulus hint lines from index `i` on.
pub open spec fn spec_hint_lines(
    ps: Seq<PortModel>,
    i: int,
    clk: Option<Seq<char>>,
    rst: Option<Seq<char>>,
) -> Seq<char>
    decreases ps.len() - i,
    when 0 <= i <= ps.len()
{
    if i == ps.len() {
        Seq::empty()
    } else if hint_port(ps[i], clk, rst) {
        ("        -- "@ + ps[i].name + " <= "@ + spec_type_default(ps[i].typ) + ";\n"@)
            + spec_hint_lines(ps, i + 1, clk, rst)
    } else {
        spec_hint_lines(ps, i + 1, clk, rst)
    }
}

/// The generated reset pulse, present when a reset port was found.
pub open spec fn spec_reset_block(rst: Option<Seq<char>>, period: int) -> Seq<char> {
    match rst {
        Some(r) => "        -- リセット\n"@ + "        "@ + r + " <= '1';\n"@ + "        wait for "@
            + dec_str(period * 2) + " ns;\n"@ + "        "@ + r + " <= '0';\n"@
            + "        wait for "@ + dec_str(period * 2) + " ns;\n"@ + "\n"@,
        None => ""@,
    }
}

/// The generated stimulus hint block, present when any port qualifies.
pub open spec fn spec_hint_block(
    ps: Seq<PortModel>,
    clk: Option<Seq<char>>,
    rst: Option<Seq<char>>,
    period: int,
) -> Seq<char> {
    if exists|k: int| 0 <= k < ps.len() && hint_port(ps[k], clk, rst) {
        "        -- 入力信号の例:\n"@ + spec_hint_lines(ps, 0, clk, rst)
            + "        -- wait for "@ + dec_str(period) + " ns;\n"@ + "\n"@
    } else {
        ""@
    }
}

/// The generated stimulus process.
pub open spec fn spec_stimulus(
    ps: Seq<PortModel>,
    clk: Option<Seq<char>>,
    rst: Option<Seq<char>>,
    period: int,
) -> Seq<char> {
    "    -- テストシナリオ\n"@ + "    stim_process: process\n"@ + "    begin\n"@
        + spec_reset_block(rst, period) + "        -- TODO: テストパターンを記述\n"@
        + "        wait for "@ + dec_str(period * 10) + " ns;\n"@ + "\n"@ + spec_hint_block(
        ps,
        clk,
        rst,
        period,
    ) + "        -- シミュレーション終了\n"@
        + "        assert false report \"Simulation finished\" severity note;\n"@
        + "        wait;\n"@ + "    end process stim_process;\n"@
}

/// The whole generated testbench text for one entity: library headers, an
/// empty testbench entity, the component declaration, one signal per
/// port, the device-under-test instantiation, a clock process when a
/// clock port exists, and the stimulus process.
pub open spec fn spec_testbench(e: EntityModel, period: int) -> Seq<char> {
    let clk = spec_find_clock_from(e.ports, 0);
    let rst = spec_find_reset_from(e.ports, 0);
    "library ieee;\n"@ + "use ieee.std_logic_1164.all;\n"@ + "use ieee.numeric_std.all;\n"@
        + "\n"@ + "entity "@ + e.name + "_tb"@ + " is\n"@ + "end entity "@ + e.name + "_tb"@
        + ";\n"@ + "\n"@ + "architecture testbench of "@ + e.name + "_tb"@ + " is\n"@ + "\n"@
        + spec_component(e) + "\n"@ + spec_signal_lines(e.ports, 0) + "\n"@ + "begin\n"@ + "\n"@
        + spec_dut(e) + "\n"@ + (match clk {
        Some(c) => spec_clock_process(c, period) + "\n"@,
        None => ""@,
    }) + spec_stimulus(e.ports, clk, rst, period) + "\n"@
        + "end architecture testbench;\n"@
}

/// The spec view of an optional owned string.
pub open spec fn opt_str_view(o: Option<String>) -> Option<Seq<char>> {
    match o {
        Some(s) => Some(s@),
        None => None,
    }
}

/// The VHDL text of a type reference.
fn type_to_vhdl(vhdl_type: &VhdlType) -> (r: String)
    ensures
        r@ == spec_type_text(vhdl_type@),
{
    match vhdl_type {
        VhdlType::StdLogic => String::from_str("std_logic"),
        VhdlType::StdLogicVector { high, low } => {
            let mut s = String::from_str("std_logic_vector(");
            let h = i64_to_string(*high);
            s.append(h.as_str());
            s.append(" downto ");
            let l = i64_to_string(*low);
            s.append(l.as_str());
            s.append(")");
            s
        },
        VhdlType::Integer => String::from_str("integer"),
        VhdlType::Boolean => String::from_str("boolean"),
        VhdlType::Other(name) => name.clone(),
    }
}

/// The default initializer literal of a type.
fn type_default_value(vhdl_type: &VhdlType) -> (r: String)
    ensures
        r@ == spec_type_default(vhdl_type@),
{
    match vhdl_type {
        VhdlType::StdLogic => String::from_str("'0'"),
        VhdlType::StdLogicVector { high, low } => String::from_str("(others => '0')"),
        VhdlType::Integer => String::from_str("0"),
        VhdlType::Boolean => String::from_str("false"),
        VhdlType::Other(name) => String::from_str("'0'"),
    }
}

fn dir_text(d: PortDirection) -> (r: &'static str)
    ensures
        r@ == spec_dir_text(d),
{
    match d {
        PortDirection::In => "in",
        PortDirection::Out => "out",
        PortDirection::Inout => "inout",
        PortDirection::Buffer => "buffer",
    }
}

fn string_eq(a: &String, b: &String) -> (r: bool)
    ensures
        r == (a@ == b@),
{
    a.eq(b)
}

/// Whether `needle` occurs contiguously inside `hay`.
fn contains_str(hay: &str, needle: &str) -> (r: bool)
    ensures
        r == contains_sub(hay@, needle@),
{
    let n = hay.unicode_len();
    let m = needle.unicode_len();
    if m > n {
        return false;
    }
    let mut i: usize = 0;
    while i <= n - m
        invariant
            m <= n,
            n == hay@.len(),
            m == needle@.len(),
            0 <= i <= n - m + 1,
            forall|k: int| 0 <= k < i ==> #[trigger] hay@.subrange(k, k + m) != needle@,
        decreases n - m + 1 - i,
    {
        let mut j: usize = 0;
        while j < m && hay.get_char(i + j) == needle.get_char(j)
            invariant
                0 <= j <= m,
                i + m <= n,
                n == hay@.len(),
                m == needle@.len(),
                forall|l: int| 0 <= l < j ==> hay@[i + l] == needle@[l],
            decreases m - j,
        {
            j = j + 1;
        }
        if j == m {
            proof {
                assert(hay@.subrange(i as int, i + m) =~= needle@);
            }
            return true;
        }
        proof {
            assert(hay@.subrange(i as int, i + m) != needle@) by {
                if hay@.subrange(i as int, i + m) == needle@ {
                    assert(hay@.subrange(i as int, i + m)[j as int] == needle@[j as int]);
                }
            }
        }
        i = i + 1;
    }
    proof {
        if contains_sub(hay@, needle@) {
            let w = choose|k: int|
                0 <= k && k + needle@.len() <= hay@.len() && #[trigger] hay@.subrange(
                    k,
                    k + needle@.len(),
                ) == needle@;
            assert(hay@.subrange(w, w + m) != needle@);
        }
    }
    false
}

/// Whether the case-folded form of `name` contains `pat`.
fn lower_contains(name: &str, pat: &str) -> (r: bool)
    ensures
        r == contains_sub(lower_seq(name@), pat@),
{
    let low = to_lower_string(name);
    contains_str(low.as_str(), pat)
}

fn is_input(d: PortDirection) -> (r: bool)
    ensures
        r == (d == PortDirection::In),
{
    match d {
        PortDirection::In => true,
        _ => false,
    }
}

/// The name of the first input port whose name contains `clk`,
/// case-insensitively.
fn find_clock_port(ports: &Vec<PortDef>) -> (r: Option<String>)
    ensures
        match r {
            Some(name) => spec_find_clock_from(port_views(ports@), 0) == Some(name@),
            None => spec_find_clock_from(port_views(ports@), 0) is None,
        },
{
    let ghost pm = port_views(ports@);
    let mut i: usize = 0;
    while i < ports.len()
        invariant
            0 <= i <= pm.len(),
            pm == port_views(ports@),
            spec_find_clock_from(pm, 0) == spec_find_clock_from(pm, i as int),
        decreases pm.len() - i,
    {
        let p = &ports[i];
        if is_input(p.direction) && lower_contains(p.name.as_str(), "clk") {
            proof {
                assert(is_clock_port(pm[i as int]));
            }
            return Some(p.name.clone());
        }
        proof {
            assert(!is_clock_port(pm[i as int]));
        }
        i = i + 1;
    }
    None
}

/// The name of the first input port whose name contains `rst` or `reset`,
/// case-insensitively.
fn find_reset_port(ports: &Vec<PortDef>) -> (r: Option<String>)
    ensures
        match r {
            Some(name) => spec_find_reset_from(port_views(ports@), 0) == Some(name@),
            None => spec_find_reset_from(port_views(ports@), 0) is None,
        },
{
    let ghost pm = port_views(ports@);
    let mut i: usize = 0;
    while i < ports.len()
        invariant
            0 <= i <= pm.len(),
            pm == port_views(ports@),
            spec_find_reset_from(pm, 0) == spec_find_reset_from(pm, i as int),
        decreases pm.len() - i,
    {
        let p = &ports[i];
        if is_input(p.direction) && (lower_contains(p.name.as_str(), "rst") || lower_contains(
            p.name.as_str(),
            "reset",
        )) {
            proof {
                assert(is_reset_port(pm[i as int]));
            }
            return Some(p.name.clone());
        }
        proof {
            assert(!is_reset_port(pm[i as int]));
        }
        i = i + 1;
    }
    None
}

fn component_line(p: &PortDef, last: bool) -> (l: String)
    ensures
        l@ == spec_component_line(p@, last),
{
    let mut l = String::from_str("            ");
    l.append(p.name.as_str());
    l.append(" : ");
    l.append(dir_text(p.direction));
    l.append(" ");
    let t = type_to_vhdl(&p.vhdl_type);
    l.append(t.as_str());
    l.append(if last { "" } else { ";" });
    l.append("\n");
    l
}

fn component_lines(ports: &Vec<PortDef>) -> (r: String)
    ensures
        r@ == spec_component_lines(port_views(ports@), 0),
{
    let ghost pm = port_views(ports@);
    let mut out = String::new();
    let mut i: usize = 0;
    proof {
        assert(Seq::<char>::empty() + spec_component_lines(pm, 0) =~= spec_component_lines(pm, 0));
    }
    while i < ports.len()
        invariant
            0 <= i <= pm.len(),
            pm == port_views(ports@),
            out@ + spec_component_lines(pm, i as int) == spec_component_lines(pm, 0),
        decreases pm.len() - i,
    {
        let last = i + 1 == ports.len();
        let line = component_line(&ports[i], last);
        let ghost before = out@;
        out.append(line.as_str());
        proof {
            assert((before + spec_component_line(pm[i as int], i + 1 == pm.len()))
                + spec_component_lines(pm, i + 1) =~= before + (spec_component_line(
                pm[i as int],
                i + 1 == pm.len(),
            ) + spec_component_lines(pm, i + 1)));
        }
        i = i + 1;
    }
    proof {
        assert(out@ + Seq::<char>::empty() =~= out@);
    }
    out
}

/// The component declaration of an entity.
fn gen_component(entity: &EntityDef) -> (r: String)
    ensures
        r@ == spec_component(entity@),
{
    let mut s = String::from_str("    component ");
    s.append(entity.name.as_str());
    s.append(" is\n");
    if entity.ports.len() > 0 {
        s.append("        port (\n");
        let lines = component_lines(&entity.ports);
        s.append(lines.as_str());
        s.append("        );\n");
    }
    s.append("    end component ");
    s.append(entity.name.as_str());
    s.append(";\n");
    s
}

fn signal_line(p: &PortDef) -> (l: String)
    ensures
        l@ == spec_signal_line(p@),
{
    let mut l = String::from_str("    signal ");
    l.append(p.name.as_str());
    l.append(" : ");
    let t = type_to_vhdl(&p.vhdl_type);
    l.append(t.as_str());
    l.append(" := ");
    let d = type_default_value(&p.vhdl_type);
    l.append(d.as_str());
    l.append(";\n");
    l
}

/// One signal declaration per port, each initialized with its type's
/// default literal.
fn gen_signals(ports: &Vec<PortDef>) -> (r: String)
    ensures
        r@ == spec_signal_lines(port_views(ports@), 0),
{
    let ghost pm = port_views(ports@);
    let mut out = String::new();
    let mut i: usize = 0;
    proof {
        assert(Seq::<char>::empty() + spec_signal_lines(pm, 0) =~= spec_signal_lines(pm, 0));
    }
    while i < ports.len()
        invariant
            0 <= i <= pm.len(),
            pm == port_views(ports@),
            out@ + spec_signal_lines(pm, i as int) == spec_signal_lines(pm, 0),
        decreases pm.len() - i,
    {
        let line = signal_line(&ports[i]);
        let ghost before = out@;
        out.append(line.as_str());
        proof {
            assert((before + spec_signal_line(pm[i as int])) + spec_signal_lines(pm, i + 1)
                =~= before + (spec_signal_line(pm[i as int]) + spec_signal_lines(pm, i + 1)));
        }
        i = i + 1;
    }
    proof {
        assert(out@ + Seq::<char>::empty() =~= out@);
    }
    out
}

fn dut_line(p: &PortDef, last: bool) -> (l: String)
    ensures
        l@ == spec_dut_line(p@, last),
{
    let mut l = String::from_str("            ");
    l.append(p.name.as_str());
    l.append(" => ");
    l.append(p.name.as_str());
    l.append(if last { "" } else { "," });
    l.append("\n");
    l
}

fn dut_lines(ports: &Vec<PortDef>) -> (r: String)
    ensures
        r@ == spec_dut_lines(port_views(ports@), 0),
{
    let ghost pm = port_views(ports@);
    let mut out = String::new();
    let mut i: usize = 0;
    proof {
        assert(Seq::<char>::empty() + spec_dut_lines(pm, 0) =~= spec_dut_lines(pm, 0));
    }
    while i < ports.len()
        invariant
            0 <= i <= pm.len(),
            pm == port_views(ports@),
            out@ + spec_dut_lines(pm, i as int) == spec_dut_lines(pm, 0),
        decreases pm.len() - i,
    {
        let last = i + 1 == ports.len();
        let line = dut_line(&ports[i], last);
        let ghost before = out@;
        out.append(line.as_str());
        proof {
            assert((before + spec_dut_line(pm[i as int], i + 1 == pm.len())) + spec_dut_lines(
                pm,
                i + 1,
            ) =~= before + (spec_dut_line(pm[i as int], i + 1 == pm.len()) + spec_dut_lines(
                pm,
                i + 1,
            )));
        }
        i = i + 1;
    }
    proof {
        assert(out@ + Seq::<char>::empty() =~= out@);
    }
    out
}

/// The device-under-test instantiation, mapping each port to a same-named
/// signal.
fn gen_dut_instance(entity: &EntityDef) -> (r: String)
    ensures
        r@ == spec_dut(entity@),
{
    let mut s = String::from_str("    uut: ");
    s.append(entity.name.as_str());
    s.append("\n");
    if entity.ports.len() > 0 {
        s.append("        port map (\n");
        let lines = dut_lines(&entity.ports);
        s.append(lines.as_str());
        s.append("        );\n");
    } else {
        s.append("    ;\n");
    }
    s
}

/// The clock-toggling process for the named clock port.
fn gen_clock_process(clk_name: &str, period_ns: u64) -> (r: String)
    ensures
        r@ == spec_clock_process(clk_name@, period_ns as int),
{
    let half = period_ns / 2;
    let mut s = String::from_str("    -- クロック生成 (周期 ");
    let p = u64_to_string(period_ns);
    s.append(p.as_str());
    s.append(" ns)\n");
    s.append("    clk_process: process\n");
    s.append("    begin\n");
    s.append("        ");
    s.append(clk_name);
    s.append(" <= '0';\n");
    s.append("        wait for ");
    let h = u64_to_string(half);
    s.append(h.as_str());
    s.append(" ns;\n");
    s.append("        ");
    s.append(clk_name);
    s.append(" <= '1';\n");
    s.append("        wait for ");
    let h2 = u64_to_string(half);
    s.append(h2.as_str());
    s.append(" ns;\n");
    s.append("    end process clk_process;\n");
    s
}

fn is_hint_port(p: &PortDef, clk_name: &Option<String>, rst_name: &Option<String>) -> (r: bool)
    ensures
        r == hint_port(p@, opt_str_view(*clk_name), opt_str_view(*rst_name)),
{
    let dir_ok = match p.direction {
        PortDirection::In => true,
        PortDirection::Inout => true,
        _ => false,
    };
    if !dir_ok {
        return false;
    }
    let not_clk = match clk_name {
        Some(c) => !string_eq(&p.name, c),
        None => true,
    };
    if !not_clk {
        return false;
    }
    match rst_name {
        Some(rv) => !string_eq(&p.name, rv),
        None => true,
    }
}

fn reset_block(rst_name: &Option<String>, period_ns: u64) -> (r: String)
    requires
        period_ns <= u64::MAX / 10,
    ensures
        r@ == spec_reset_block(opt_str_view(*rst_name), period_ns as int),
{
    match rst_name {
        Some(rv) => {
            proof {
                assert(opt_str_view(*rst_name) == Some(rv@));
            }
            let twice = period_ns * 2;
            let mut s = String::from_str("        -- リセット\n");
            s.append("        ");
            s.append(rv.as_str());
            s.append(" <= '1';\n");
            s.append("        wait for ");
            let t = u64_to_string(twice);
            s.append(t.as_str());
            s.append(" ns;\n");
            s.append("        ");
            s.append(rv.as_str());
            s.append(" <= '0';\n");
            s.append("        wait for ");
            let t2 = u64_to_string(twice);
            s.append(t2.as_str());
            s.append(" ns;\n");
            s.append("\n");
            s
        },
        None => {
            proof {
                assert(opt_str_view(*rst_name) is None);
            }
            String::from_str("")
        },
    }
}

fn hint_lines(ports: &Vec<PortDef>, clk_name: &Option<String>, rst_name: &Option<String>) -> (r:
    String)
    ensures
        r@ == spec_hint_lines(
            port_views(ports@),
            0,
            opt_str_view(*clk_name),
            opt_str_view(*rst_name),
        ),
{
    let ghost pm = port_views(ports@);
    let ghost c = opt_str_view(*clk_name);
    let ghost rs = opt_str_view(*rst_name);
    let mut out = String::new();
    let mut i: usize = 0;
    proof {
        assert(Seq::<char>::empty() + spec_hint_lines(pm, 0, c, rs) =~= spec_hint_lines(
            pm,
            0,
            c,
            rs,
        ));
    }
    while i < ports.len()
        invariant
            0 <= i <= pm.len(),
            pm == port_views(ports@),
            c == opt_str_view(*clk_name),
            rs == opt_str_view(*rst_name),
            out@ + spec_hint_lines(pm, i as int, c, rs) == spec_hint_lines(pm, 0, c, rs),
        decreases pm.len() - i,
    {
        let p = &ports[i];
        if is_hint_port(p, clk_name, rst_name) {
            let mut line = String::from_str("        -- ");
            line.append(p.name.as_str());
            line.append(" <= ");
            let d = type_default_value(&p.vhdl_type);
            line.append(d.as_str());
            line.append(";\n");
            let ghost before = out@;
            out.append(line.as_str());
            proof {
                assert((before + line@) + spec_hint_lines(pm, i + 1, c, rs) =~= before + (line@
                    + spec_hint_lines(pm, i + 1, c, rs)));
            }
        }
        i = i + 1;
    }
    proof {
        assert(out@ + Seq::<char>::empty() =~= out@);
    }
    out
}

fn hint_block(ports: &Vec<PortDef>, clk_name: &Option<String>, rst_name: &Option<String>, period_ns: u64) -> (r: String)
    ensures
        r@ == spec_hint_block(
            port_views(ports@),
            opt_str_view(*clk_name),
            opt_str_view(*rst_name),
            period_ns as int,
        ),
{
    let ghost pm = port_views(ports@);
    let ghost c = opt_str_view(*clk_name);
    let ghost rs = opt_str_view(*rst_name);
    let mut has = false;
    let mut i: usize = 0;
    while i < ports.len()
        invariant
            0 <= i <= pm.len(),
            pm == port_views(ports@),
            c == opt_str_view(*clk_name),
            rs == opt_str_view(*rst_name),
            has == exists|k: int| 0 <= k < i && #[trigger] hint_port(pm[k], c, rs),
        decreases pm.len() - i,
    {
        let h = is_hint_port(&ports[i], clk_name, rst_name);
        proof {
            if h {
                assert(hint_port(pm[i as int], c, rs));
            }
        }
        has = has || h;
        i = i + 1;
    }
    if has {
        let mut s = String::from_str("        -- 入力信号の例:\n");
        let lines = hint_lines(ports, clk_name, rst_name);
        s.append(lines.as_str());
        s.append("        -- wait for ");
        let pstr = u64_to_string(period_ns);
        s.append(pstr.as_str());
        s.append(" ns;\n");
        s.append("\n");
        s
    } else {
        String::from_str("")
    }
}

/// The stimulus process: an optional reset pulse, a placeholder wait, the
/// commented-out input hints, and the closing report.
fn gen_stimulus_process(ports: &Vec<PortDef>, clk_name: &Option<String>, rst_name: &Option<String>, period_ns: u64) -> (r: String)
    requires
        period_ns <= u64::MAX / 10,
    ensures
        r@ == spec_stimulus(
            port_views(ports@),
            opt_str_view(*clk_name),
            opt_str_view(*rst_name),
            period_ns as int,
        ),
{
    let mut s = String::from_str("    -- テストシナリオ\n");
    s.append("    stim_process: process\n");
    s.append("    begin\n");
    let rb = reset_block(rst_name, period_ns);
    s.append(rb.as_str());
    s.append("        -- TODO: テストパターンを記述\n");
    s.append("        wait for ");
    let w = u64_to_string(period_ns * 10);
    s.append(w.as_str());
    s.append(" ns;\n");
    s.append("\n");
    let hb = hint_block(ports, clk_name, rst_name, period_ns);
    s.append(hb.as_str());
    s.append("        -- シミュレーション終了\n");
    s.append("        assert false report \"Simulation finished\" severity note;\n");
    s.append("        wait;\n");
    s.append("    end process stim_process;\n");
    s
}

/// Renders the whole testbench for one entity: library headers, an empty
/// testbench entity, the component declaration, one signal per port, the
/// device-under-test instantiation, a clock process when an input port
/// names a clock, and the stimulus process.
pub fn generate_testbench(entity: &EntityDef, config: &TbConfig) -> (r: String)
    requires
        config.clock_period_ns <= u64::MAX / 10,
    ensures
        r@ == spec_testbench(entity@, config.clock_period_ns as int),
{
    let period = config.clock_period_ns;
    let clk_name = find_clock_port(&entity.ports);
    let rst_name = find_reset_port(&entity.ports);
    let mut out = String::from_str("library ieee;\n");
    out.append("use ieee.std_logic_1164.all;\n");
    out.append("use ieee.numeric_std.all;\n");
    out.append("\n");
    out.append("entity ");
    out.append(entity.name.as_str());
    out.append("_tb");
    out.append(" is\n");
    out.append("end entity ");
    out.append(entity.name.as_str());
    out.append("_tb");
    out.append(";\n");
    out.append("\n");
    out.append("architecture testbench of ");
    out.append(entity.name.as_str());
    out.append("_tb");
    out.append(" is\n");
    out.append("\n");
    let comp = gen_component(entity);
    out.append(comp.as_str());
    out.append("\n");
    let sigs = gen_signals(&entity.ports);
    out.append(sigs.as_str());
    out.append("\n");
    out.append("begin\n");
    out.append("\n");
    let dut = gen_dut_instance(entity);
    out.append(dut.as_str());
    out.append("\n");
    match &clk_name {
        Some(c) => {
            let mut blk = gen_clock_process(c.as_str(), period);
            blk.append("\n");
            out.append(blk.as_str());
        },
        None => {
            out.append("");
        },
    }
    let stim = gen_stimulus_process(&entity.ports, &clk_name, &rst_name, period);
    out.append(stim.as_str());
    out.append("\n");
    out.append("end architecture testbench;\n");
    out
}

} // verus!
