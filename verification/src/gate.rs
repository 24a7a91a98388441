//! nftables rulesets for the traffic gates, as text.
//!
//! The server's management gate is whole-interface and permanent: it
//! protects only the server's own link, denying application and transit
//! traffic while the coordination API stays reachable. A data client's gate
//! is per-peer and transient: it closes exactly one peer's application
//! traffic around a PSK rotation. Its rules match the peer's addresses in
//! named sets, not the kernel peer entry that routes them, so a less
//! specific route cannot carry blocked traffic while the peer's own route is
//! briefly absent. Every rule is scoped to the named interface.
use vstd::prelude::*;

use crate::codec::{decimal_chars, decimal_text};

verus! {

/// Appends `text` to `out`.
fn push(out: &mut String, text: &str)
    ensures
        final(out)@ == old(out)@ + text@,
{
    out.append(text);
}

/// The text of the server's management ruleset for interface `name`.
pub open spec fn management_text(name: Seq<char>, port: Seq<char>) -> Seq<char> {
    "table inet innernet_pq_management {\n"@ + "    chain input {\n"@
        + "        type filter hook input priority filter + 10; policy accept;\n"@
        + "        iifname \""@ + name + "\" ct state established,related accept\n"@
        + "        iifname \""@ + name
        + "\" icmp type { destination-unreachable, time-exceeded, parameter-problem } accept\n"@
        + "        iifname \""@ + name
        + "\" icmpv6 type { destination-unreachable, packet-too-big, time-exceeded, parameter-problem } accept\n"@
        + "        iifname \""@ + name + "\" tcp dport "@ + port + " accept\n"@ + "        iifname \""@
        + name + "\" drop\n"@ + "    }\n"@ + "    chain forward {\n"@
        + "        type filter hook forward priority filter + 10; policy accept;\n"@
        + "        iifname \""@ + name + "\" drop\n"@ + "        oifname \""@ + name + "\" drop\n"@
        + "    }\n"@ + "}\n"@
}

/// The management-only ruleset for the server's interface `name`: inbound
/// traffic on it is dropped except established flows, ICMP errors and the
/// coordination API on `api_port`; transit through it is dropped both ways.
pub fn management_ruleset(name: &str, api_port: u16) -> (r: String)
    ensures
        r@ == management_text(name@, decimal_chars(api_port as nat)),
{
    let port = decimal_text(api_port as u64);
    let mut out = String::from_str("table inet innernet_pq_management {\n");
    push(&mut out, "    chain input {\n");
    push(&mut out, "        type filter hook input priority filter + 10; policy accept;\n");
    push(&mut out, "        iifname \"");
    push(&mut out, name);
    push(&mut out, "\" ct state established,related accept\n");
    push(&mut out, "        iifname \"");
    push(&mut out, name);
    push(
        &mut out,
        "\" icmp type { destination-unreachable, time-exceeded, parameter-problem } accept\n",
    );
    push(&mut out, "        iifname \"");
    push(&mut out, name);
    push(
        &mut out,
        "\" icmpv6 type { destination-unreachable, packet-too-big, time-exceeded, parameter-problem } accept\n",
    );
    push(&mut out, "        iifname \"");
    push(&mut out, name);
    push(&mut out, "\" tcp dport ");
    push(&mut out, port.as_str());
    push(&mut out, " accept\n");
    push(&mut out, "        iifname \"");
    push(&mut out, name);
    push(&mut out, "\" drop\n");
    push(&mut out, "    }\n");
    push(&mut out, "    chain forward {\n");
    push(&mut out, "        type filter hook forward priority filter + 10; policy accept;\n");
    push(&mut out, "        iifname \"");
    push(&mut out, name);
    push(&mut out, "\" drop\n");
    push(&mut out, "        oifname \"");
    push(&mut out, name);
    push(&mut out, "\" drop\n");
    push(&mut out, "    }\n");
    push(&mut out, "}\n");
    out
}

/// Deletes the management table.
pub fn management_clear_script() -> (r: String)
    ensures
        r@ == "delete table inet innernet_pq_management\n"@,
{
    String::from_str("delete table inet innernet_pq_management\n")
}

/// One address to block, already written as `address/prefix`.
pub struct Element {
    pub v4: bool,
    pub text: String,
}

/// The texts of the elements of one family, in order.
pub open spec fn family_texts(elements: Seq<Element>, v4: bool) -> Seq<Seq<char>>
    decreases elements.len(),
{
    if elements.len() == 0 {
        Seq::empty()
    } else {
        let rest = family_texts(elements.drop_last(), v4);
        if elements.last().v4 == v4 {
            rest.push(elements.last().text@)
        } else {
            rest
        }
    }
}

/// `parts` joined by `separator`.
pub open spec fn joined(parts: Seq<Seq<char>>, separator: Seq<char>) -> Seq<char>
    decreases parts.len(),
{
    if parts.len() == 0 {
        Seq::empty()
    } else if parts.len() == 1 {
        parts[0]
    } else {
        joined(parts.drop_last(), separator) + separator + parts.last()
    }
}

pub open spec fn texts(v: Seq<String>) -> Seq<Seq<char>> {
    v.map_values(|s: String| s@)
}

/// The name of interface `name`'s data gate table.
pub open spec fn table_text(name: Seq<char>) -> Seq<char> {
    "innernet_pq_data_"@ + name
}

pub fn table_name(name: &str) -> (r: String)
    ensures
        r@ == table_text(name@),
{
    let mut out = String::from_str("innernet_pq_data_");
    push(&mut out, name);
    out
}

/// The IPv4 and the IPv6 element texts, each in their order.
pub fn split_by_family(elements: &[Element]) -> (r: (Vec<String>, Vec<String>))
    ensures
        texts(r.0@) == family_texts(elements@, true),
        texts(r.1@) == family_texts(elements@, false),
{
    let mut v4: Vec<String> = Vec::new();
    let mut v6: Vec<String> = Vec::new();
    let mut i: usize = 0;
    while i < elements.len()
        invariant
            i <= elements@.len(),
            texts(v4@) == family_texts(elements@.subrange(0, i as int), true),
            texts(v6@) == family_texts(elements@.subrange(0, i as int), false),
        decreases elements@.len() - i,
    {
        let element = &elements[i];
        let text = element.text.clone();
        proof {
            assert(elements@.subrange(0, i + 1).drop_last() =~= elements@.subrange(0, i as int));
        }
        if element.v4 {
            v4.push(text);
            proof {
                assert(texts(v4@) =~= family_texts(elements@.subrange(0, i as int), true).push(
                    text@,
                ));
            }
        } else {
            v6.push(text);
            proof {
                assert(texts(v6@) =~= family_texts(elements@.subrange(0, i as int), false).push(
                    text@,
                ));
            }
        }
        i += 1;
    }
    proof {
        assert(elements@.subrange(0, elements@.len() as int) =~= elements@);
    }
    (v4, v6)
}

/// `parts` joined by `separator`.
pub fn join(parts: &Vec<String>, separator: &str) -> (r: String)
    ensures
        r@ == joined(texts(parts@), separator@),
{
    let mut out = String::new();
    let mut i: usize = 0;
    while i < parts.len()
        invariant
            i <= parts@.len(),
            out@ == joined(texts(parts@.subrange(0, i as int)), separator@),
        decreases parts@.len() - i,
    {
        proof {
            assert(texts(parts@.subrange(0, i + 1)).drop_last() =~= texts(
                parts@.subrange(0, i as int),
            ));
        }
        if i > 0 {
            push(&mut out, separator);
        }
        push(&mut out, parts[i].as_str());
        proof {
            if i == 0 {
                assert(out@ =~= texts(parts@.subrange(0, 1))[0]);
            }
        }
        i += 1;
    }
    proof {
        assert(parts@.subrange(0, parts@.len() as int) =~= parts@);
    }
    out
}

/// The three chains of a data gate, dropping blocked addresses to, from
/// and through interface `name`.
pub open spec fn chains_text(name: Seq<char>) -> Seq<char> {
    "    chain input {\n"@ + "        type filter hook input priority filter + 10; policy accept;\n"@
        + "        iifname \""@ + name + "\" ip saddr @blocked_v4 drop\n"@ + "        iifname \""@
        + name + "\" ip6 saddr @blocked_v6 drop\n"@ + "    }\n"@ + "    chain output {\n"@
        + "        type filter hook output priority filter + 10; policy accept;\n"@
        + "        oifname \""@ + name + "\" ip daddr @blocked_v4 drop\n"@ + "        oifname \""@
        + name + "\" ip6 daddr @blocked_v6 drop\n"@ + "    }\n"@ + "    chain forward {\n"@
        + "        type filter hook forward priority filter + 10; policy accept;\n"@
        + "        iifname \""@ + name + "\" ip saddr @blocked_v4 drop\n"@ + "        iifname \""@
        + name + "\" ip6 saddr @blocked_v6 drop\n"@ + "        oifname \""@ + name
        + "\" ip daddr @blocked_v4 drop\n"@ + "        oifname \""@ + name
        + "\" ip6 daddr @blocked_v6 drop\n"@ + "    }\n"@
}

fn rule(out: &mut String, lead: &str, name: &str, tail: &str)
    ensures
        final(out)@ == old(out)@ + lead@ + name@ + tail@,
{
    push(out, lead);
    push(out, name);
    push(out, tail);
}

pub fn chains(name: &str) -> (r: String)
    ensures
        r@ == chains_text(name@),
        r@ == with_chain(
            with_chain(with_chain(Seq::empty(), "input"@, name@), "output"@, name@),
            "forward"@,
            name@,
        ),
{
    proof {
        lemma_chains_hold_the_gate_rules(name@);
    }
    let mut out = String::from_str("    chain input {\n");
    push(&mut out, "        type filter hook input priority filter + 10; policy accept;\n");
    rule(&mut out, "        iifname \"", name, "\" ip saddr @blocked_v4 drop\n");
    rule(&mut out, "        iifname \"", name, "\" ip6 saddr @blocked_v6 drop\n");
    push(&mut out, "    }\n");
    push(&mut out, "    chain output {\n");
    push(&mut out, "        type filter hook output priority filter + 10; policy accept;\n");
    rule(&mut out, "        oifname \"", name, "\" ip daddr @blocked_v4 drop\n");
    rule(&mut out, "        oifname \"", name, "\" ip6 daddr @blocked_v6 drop\n");
    push(&mut out, "    }\n");
    push(&mut out, "    chain forward {\n");
    push(&mut out, "        type filter hook forward priority filter + 10; policy accept;\n");
    rule(&mut out, "        iifname \"", name, "\" ip saddr @blocked_v4 drop\n");
    rule(&mut out, "        iifname \"", name, "\" ip6 saddr @blocked_v6 drop\n");
    rule(&mut out, "        oifname \"", name, "\" ip daddr @blocked_v4 drop\n");
    rule(&mut out, "        oifname \"", name, "\" ip6 daddr @blocked_v6 drop\n");
    push(&mut out, "    }\n");
    out
}

/// The elements line of a set, absent for an empty set.
pub open spec fn elements_text(parts: Seq<Seq<char>>) -> Seq<char> {
    if parts.len() == 0 {
        Seq::empty()
    } else {
        "\n                 elements = { "@ + joined(parts, ", "@) + " }"@
    }
}

fn elements_line(parts: &Vec<String>) -> (r: String)
    ensures
        r@ == elements_text(texts(parts@)),
{
    if parts.len() == 0 {
        String::new()
    } else {
        let mut out = String::from_str("\n                 elements = { ");
        let list = join(parts, ", ");
        push(&mut out, list.as_str());
        push(&mut out, " }");
        out
    }
}

/// The full data gate ruleset for interface `name`.
pub open spec fn data_text(name: Seq<char>, v4: Seq<Seq<char>>, v6: Seq<Seq<char>>) -> Seq<char> {
    "table inet "@ + table_text(name) + " {\n"@ + "    set blocked_v4 {\n"@
        + "        type ipv4_addr\n"@ + "        flags interval"@ + elements_text(v4) + "\n"@
        + "    }\n"@ + "    set blocked_v6 {\n"@ + "        type ipv6_addr\n"@
        + "        flags interval"@ + elements_text(v6) + "\n"@ + "    }\n"@ + chains_text(name)
        + "}\n"@
}

/// The ruleset that (re)creates interface `name`'s data gate with exactly
/// the `blocked` addresses in its sets.
pub fn data_ruleset(name: &str, blocked: &[Element]) -> (r: String)
    ensures
        r@ == data_text(name@, family_texts(blocked@, true), family_texts(blocked@, false)),
{
    let table = table_name(name);
    let (v4, v6) = split_by_family(blocked);
    let v4_elements = elements_line(&v4);
    let v6_elements = elements_line(&v6);
    let chain_text = chains(name);
    let mut out = String::from_str("table inet ");
    push(&mut out, table.as_str());
    push(&mut out, " {\n");
    push(&mut out, "    set blocked_v4 {\n");
    push(&mut out, "        type ipv4_addr\n");
    push(&mut out, "        flags interval");
    push(&mut out, v4_elements.as_str());
    push(&mut out, "\n");
    push(&mut out, "    }\n");
    push(&mut out, "    set blocked_v6 {\n");
    push(&mut out, "        type ipv6_addr\n");
    push(&mut out, "        flags interval");
    push(&mut out, v6_elements.as_str());
    push(&mut out, "\n");
    push(&mut out, "    }\n");
    push(&mut out, chain_text.as_str());
    push(&mut out, "}\n");
    out
}

/// The additive script that ensures interface `name`'s table, sets and
/// chains exist, using only `add`: elements already in the sets stay.
pub open spec fn ensure_text(t: Seq<char>, name: Seq<char>) -> Seq<char> {
    "add table inet "@ + t + "\n"@ + "add set inet "@ + t
        + " blocked_v4 { type ipv4_addr; flags interval; }\n"@ + "add set inet "@ + t
        + " blocked_v6 { type ipv6_addr; flags interval; }\n"@ + "add chain inet "@ + t
        + " input { type filter hook input priority filter + 10; policy accept; }\n"@
        + "add chain inet "@ + t
        + " output { type filter hook output priority filter + 10; policy accept; }\n"@
        + "add chain inet "@ + t
        + " forward { type filter hook forward priority filter + 10; policy accept; }\n"@
        + "add rule inet "@ + t + " input iifname \""@ + name + "\" ip saddr @blocked_v4 drop\n"@
        + "add rule inet "@ + t + " input iifname \""@ + name + "\" ip6 saddr @blocked_v6 drop\n"@
        + "add rule inet "@ + t + " output oifname \""@ + name + "\" ip daddr @blocked_v4 drop\n"@
        + "add rule inet "@ + t + " output oifname \""@ + name + "\" ip6 daddr @blocked_v6 drop\n"@
        + "add rule inet "@ + t + " forward iifname \""@ + name + "\" ip saddr @blocked_v4 drop\n"@
        + "add rule inet "@ + t + " forward iifname \""@ + name
        + "\" ip6 saddr @blocked_v6 drop\n"@ + "add rule inet "@ + t + " forward oifname \""@
        + name + "\" ip daddr @blocked_v4 drop\n"@ + "add rule inet "@ + t
        + " forward oifname \""@ + name + "\" ip6 daddr @blocked_v6 drop\n"@
}

/// The rules of a data gate, in order: the chain each sits in, whether it
/// matches traffic arriving on the interface (else traffic leaving
/// through it), and whether it is the IPv6 rule. Input sees only arriving
/// traffic, output only leaving traffic, and forward both.
pub open spec fn gate_rules() -> Seq<(Seq<char>, bool, bool)> {
    seq![
        ("input"@, true, false),
        ("input"@, true, true),
        ("output"@, false, false),
        ("output"@, false, true),
        ("forward"@, true, false),
        ("forward"@, true, true),
        ("forward"@, false, false),
        ("forward"@, false, true),
    ]
}

/// In the blocking rules, input rules match only arriving traffic and
/// output rules only leaving traffic; forward has rules for both, and each
/// way has one rule per address family.
pub proof fn lemma_gate_rule_directions()
    ensures
        gate_rules().len() == 8,
        forall|i: int|
            0 <= i < 8 ==> (gate_rules()[i].0 == "input"@ ==> gate_rules()[i].1) && (gate_rules()[i].0
                == "output"@ ==> !gate_rules()[i].1),
        forall|inbound: bool, v6: bool|
            #![trigger gate_rules().contains(("forward"@, inbound, v6))]
            gate_rules().contains(("forward"@, inbound, v6)),
        forall|v6: bool|
            gate_rules().contains(("input"@, true, v6)) && gate_rules().contains(
                ("output"@, false, v6),
            ),
{
    let r = gate_rules();
    assert(r[0] == ("input"@, true, false));
    assert(r[1] == ("input"@, true, true));
    assert(r[2] == ("output"@, false, false));
    assert(r[3] == ("output"@, false, true));
    assert(r[4] == ("forward"@, true, false));
    assert(r[5] == ("forward"@, true, true));
    assert(r[6] == ("forward"@, false, false));
    assert(r[7] == ("forward"@, false, true));
    reveal_strlit("input");
    reveal_strlit("output");
    reveal_strlit("forward");
    assert forall|i: int|
        0 <= i < 8 implies (gate_rules()[i].0 == "input"@ ==> gate_rules()[i].1) && (
    gate_rules()[i].0 == "output"@ ==> !gate_rules()[i].1) by {
        lemma_chain_pieces(Seq::empty(), Seq::empty());
        assert(i == 0 || i == 1 || i == 2 || i == 3 || i == 4 || i == 5 || i == 6 || i == 7);
    }
}

/// How a gate rule on interface `name` matches: traffic arriving on the
/// interface by its source address, traffic leaving through it by its
/// destination address, against the blocked set of its family; a match is
/// dropped.
pub open spec fn rule_match(name: Seq<char>, inbound: bool, v6: bool) -> Seq<char> {
    (if inbound {
        "iifname"@
    } else {
        "oifname"@
    }) + " \""@ + name + "\" "@ + (if v6 {
        "ip6"@
    } else {
        "ip"@
    }) + " "@ + (if inbound {
        "saddr"@
    } else {
        "daddr"@
    }) + " @blocked_"@ + (if v6 {
        "v6"@
    } else {
        "v4"@
    }) + " drop\n"@
}

/// `prefix` followed by the `add rule` commands for `rules` in table `t`
/// on interface `name`, in order.
pub open spec fn with_rule_commands(
    prefix: Seq<char>,
    t: Seq<char>,
    name: Seq<char>,
    rules: Seq<(Seq<char>, bool, bool)>,
) -> Seq<char>
    decreases rules.len(),
{
    if rules.len() == 0 {
        prefix
    } else {
        let r = rules.last();
        with_rule_commands(prefix, t, name, rules.drop_last()) + "add rule inet "@ + t + " "@ + r.0
            + " "@ + rule_match(name, r.1, r.2)
    }
}

/// `prefix` followed by the lines of the rules of `rules` that sit in
/// chain `hook`, in order.
pub open spec fn with_chain_lines(
    prefix: Seq<char>,
    hook: Seq<char>,
    name: Seq<char>,
    rules: Seq<(Seq<char>, bool, bool)>,
) -> Seq<char>
    decreases rules.len(),
{
    if rules.len() == 0 {
        prefix
    } else {
        let r = rules.last();
        let before = with_chain_lines(prefix, hook, name, rules.drop_last());
        if r.0 == hook {
            before + "        "@ + rule_match(name, r.1, r.2)
        } else {
            before
        }
    }
}

/// `prefix` followed by chain `hook` of a data gate: a filter chain on
/// that hook, accepting by default, holding the blocking rules for it.
pub open spec fn with_chain(prefix: Seq<char>, hook: Seq<char>, name: Seq<char>) -> Seq<char> {
    with_chain_lines(
        prefix + "    chain "@ + hook + " {\n"@ + "        type filter hook "@ + hook
            + " priority filter + 10; policy accept;\n"@,
        hook,
        name,
        gate_rules(),
    ) + "    }\n"@
}

/// The table, sets and chains the additive script creates for table `t`.
pub open spec fn ensure_prelude(t: Seq<char>) -> Seq<char> {
    "add table inet "@ + t + "\n"@ + "add set inet "@ + t
        + " blocked_v4 { type ipv4_addr; flags interval; }\n"@ + "add set inet "@ + t
        + " blocked_v6 { type ipv6_addr; flags interval; }\n"@ + "add chain inet "@ + t
        + " input { type filter hook input priority filter + 10; policy accept; }\n"@
        + "add chain inet "@ + t
        + " output { type filter hook output priority filter + 10; policy accept; }\n"@
        + "add chain inet "@ + t
        + " forward { type filter hook forward priority filter + 10; policy accept; }\n"@
}

/// A rule's text on interface `name` as a command piece: the chain, its
/// interface match and its address match.
proof fn lemma_rule_pieces(name: Seq<char>)
    ensures
        rule_match(name, true, false) =~= "iifname \""@ + name + "\" ip saddr @blocked_v4 drop\n"@,
        rule_match(name, true, true) =~= "iifname \""@ + name + "\" ip6 saddr @blocked_v6 drop\n"@,
        rule_match(name, false, false) =~= "oifname \""@ + name + "\" ip daddr @blocked_v4 drop\n"@,
        rule_match(name, false, true) =~= "oifname \""@ + name + "\" ip6 daddr @blocked_v6 drop\n"@,
{
    reveal_strlit("iifname");
    reveal_strlit("oifname");
    reveal_strlit(" \"");
    reveal_strlit("\" ");
    reveal_strlit("ip6");
    reveal_strlit("ip");
    reveal_strlit(" ");
    reveal_strlit("saddr");
    reveal_strlit("daddr");
    reveal_strlit(" @blocked_");
    reveal_strlit("v6");
    reveal_strlit("v4");
    reveal_strlit(" drop\n");
    reveal_strlit("iifname \"");
    reveal_strlit("oifname \"");
    reveal_strlit("\" ip saddr @blocked_v4 drop\n");
    reveal_strlit("\" ip6 saddr @blocked_v6 drop\n");
    reveal_strlit("\" ip daddr @blocked_v4 drop\n");
    reveal_strlit("\" ip6 daddr @blocked_v6 drop\n");
}

proof fn lemma_command_lines(x: Seq<char>, name: Seq<char>)
    ensures
        x + " "@ + "input"@ + " "@ + rule_match(name, true, false) =~= x + " input iifname \""@
            + name + "\" ip saddr @blocked_v4 drop\n"@,
        x + " "@ + "input"@ + " "@ + rule_match(name, true, true) =~= x + " input iifname \""@
            + name + "\" ip6 saddr @blocked_v6 drop\n"@,
        x + " "@ + "output"@ + " "@ + rule_match(name, false, false) =~= x + " output oifname \""@
            + name + "\" ip daddr @blocked_v4 drop\n"@,
        x + " "@ + "output"@ + " "@ + rule_match(name, false, true) =~= x + " output oifname \""@
            + name + "\" ip6 daddr @blocked_v6 drop\n"@,
        x + " "@ + "forward"@ + " "@ + rule_match(name, true, false) =~= x
            + " forward iifname \""@ + name + "\" ip saddr @blocked_v4 drop\n"@,
        x + " "@ + "forward"@ + " "@ + rule_match(name, true, true) =~= x
            + " forward iifname \""@ + name + "\" ip6 saddr @blocked_v6 drop\n"@,
        x + " "@ + "forward"@ + " "@ + rule_match(name, false, false) =~= x
            + " forward oifname \""@ + name + "\" ip daddr @blocked_v4 drop\n"@,
        x + " "@ + "forward"@ + " "@ + rule_match(name, false, true) =~= x
            + " forward oifname \""@ + name + "\" ip6 daddr @blocked_v6 drop\n"@,
{
    lemma_rule_pieces(name);
    reveal_strlit(" ");
    reveal_strlit("input");
    reveal_strlit("output");
    reveal_strlit("forward");
    reveal_strlit("iifname \"");
    reveal_strlit("oifname \"");
    reveal_strlit(" input iifname \"");
    reveal_strlit(" output oifname \"");
    reveal_strlit(" forward iifname \"");
    reveal_strlit(" forward oifname \"");
}

/// The additive script of table `t` on interface `name` creates the
/// table, both sets and the three chains, then adds exactly the blocking
/// rules in order, each in its chain: traffic arriving on the interface is
/// dropped by source address, traffic leaving through it by destination
/// address.
pub proof fn lemma_ensure_adds_the_gate_rules(t: Seq<char>, name: Seq<char>)
    ensures
        ensure_text(t, name) == with_rule_commands(ensure_prelude(t), t, name, gate_rules()),
{
    let rules = gate_rules();
    let a = "add rule inet "@;
    let e0 = ensure_prelude(t);
    assert(rules.subrange(0, 0) =~= Seq::<(Seq<char>, bool, bool)>::empty());
    let e1 = e0 + a + t + " input iifname \""@ + name + "\" ip saddr @blocked_v4 drop\n"@;
    assert(with_rule_commands(e0, t, name, rules.subrange(0, 1)) == e1) by {
        lemma_rule_step(e0, t, name, 1);
        lemma_command_lines(e0 + a + t, name);
    }
    let e2 = e1 + a + t + " input iifname \""@ + name + "\" ip6 saddr @blocked_v6 drop\n"@;
    assert(with_rule_commands(e0, t, name, rules.subrange(0, 2)) == e2) by {
        lemma_rule_step(e0, t, name, 2);
        lemma_command_lines(e1 + a + t, name);
    }
    let e3 = e2 + a + t + " output oifname \""@ + name + "\" ip daddr @blocked_v4 drop\n"@;
    assert(with_rule_commands(e0, t, name, rules.subrange(0, 3)) == e3) by {
        lemma_rule_step(e0, t, name, 3);
        lemma_command_lines(e2 + a + t, name);
    }
    let e4 = e3 + a + t + " output oifname \""@ + name + "\" ip6 daddr @blocked_v6 drop\n"@;
    assert(with_rule_commands(e0, t, name, rules.subrange(0, 4)) == e4) by {
        lemma_rule_step(e0, t, name, 4);
        lemma_command_lines(e3 + a + t, name);
    }
    let e5 = e4 + a + t + " forward iifname \""@ + name + "\" ip saddr @blocked_v4 drop\n"@;
    assert(with_rule_commands(e0, t, name, rules.subrange(0, 5)) == e5) by {
        lemma_rule_step(e0, t, name, 5);
        lemma_command_lines(e4 + a + t, name);
    }
    let e6 = e5 + a + t + " forward iifname \""@ + name + "\" ip6 saddr @blocked_v6 drop\n"@;
    assert(with_rule_commands(e0, t, name, rules.subrange(0, 6)) == e6) by {
        lemma_rule_step(e0, t, name, 6);
        lemma_command_lines(e5 + a + t, name);
    }
    let e7 = e6 + a + t + " forward oifname \""@ + name + "\" ip daddr @blocked_v4 drop\n"@;
    assert(with_rule_commands(e0, t, name, rules.subrange(0, 7)) == e7) by {
        lemma_rule_step(e0, t, name, 7);
        lemma_command_lines(e6 + a + t, name);
    }
    let e8 = e7 + a + t + " forward oifname \""@ + name + "\" ip6 daddr @blocked_v6 drop\n"@;
    assert(with_rule_commands(e0, t, name, rules.subrange(0, 8)) == e8) by {
        lemma_rule_step(e0, t, name, 8);
        lemma_command_lines(e7 + a + t, name);
    }
    assert(rules.subrange(0, 8) =~= rules);
    assert(ensure_text(t, name) == e8);
}

proof fn lemma_rule_step(prefix: Seq<char>, t: Seq<char>, name: Seq<char>, k: int)
    requires
        1 <= k <= 8,
    ensures
        ({
            let r = gate_rules()[k - 1];
            with_rule_commands(prefix, t, name, gate_rules().subrange(0, k)) == with_rule_commands(
                prefix,
                t,
                name,
                gate_rules().subrange(0, k - 1),
            ) + "add rule inet "@ + t + " "@ + r.0 + " "@ + rule_match(name, r.1, r.2)
        }),
        gate_rules()[0] == ("input"@, true, false),
        gate_rules()[1] == ("input"@, true, true),
        gate_rules()[2] == ("output"@, false, false),
        gate_rules()[3] == ("output"@, false, true),
        gate_rules()[4] == ("forward"@, true, false),
        gate_rules()[5] == ("forward"@, true, true),
        gate_rules()[6] == ("forward"@, false, false),
        gate_rules()[7] == ("forward"@, false, true),
{
    let rules = gate_rules();
    assert(rules.subrange(0, k).drop_last() =~= rules.subrange(0, k - 1));
    assert(rules.subrange(0, k).last() == rules[k - 1]);
}

proof fn lemma_chain_pieces(x: Seq<char>, name: Seq<char>)
    ensures
        x + "        "@ + rule_match(name, true, false) =~= x + "        iifname \""@ + name + "\" ip saddr @blocked_v4 drop\n"@,
        x + "        "@ + rule_match(name, true, true) =~= x + "        iifname \""@ + name + "\" ip6 saddr @blocked_v6 drop\n"@,
        x + "        "@ + rule_match(name, false, false) =~= x + "        oifname \""@ + name + "\" ip daddr @blocked_v4 drop\n"@,
        x + "        "@ + rule_match(name, false, true) =~= x + "        oifname \""@ + name + "\" ip6 daddr @blocked_v6 drop\n"@,
        x + "    chain "@ + "input"@ + " {\n"@ + "        type filter hook "@ + "input"@
            + " priority filter + 10; policy accept;\n"@ =~= x + "    chain input {\n"@
            + "        type filter hook input priority filter + 10; policy accept;\n"@,
        x + "    chain "@ + "output"@ + " {\n"@ + "        type filter hook "@ + "output"@
            + " priority filter + 10; policy accept;\n"@ =~= x + "    chain output {\n"@
            + "        type filter hook output priority filter + 10; policy accept;\n"@,
        x + "    chain "@ + "forward"@ + " {\n"@ + "        type filter hook "@ + "forward"@
            + " priority filter + 10; policy accept;\n"@ =~= x + "    chain forward {\n"@
            + "        type filter hook forward priority filter + 10; policy accept;\n"@,
        "input"@ != "output"@ && "input"@ != "forward"@ && "output"@ != "forward"@,
{
    lemma_rule_pieces(name);
    reveal_strlit("        ");
    reveal_strlit("        iifname \"");
    reveal_strlit("        oifname \"");
    reveal_strlit("iifname \"");
    reveal_strlit("oifname \"");
    reveal_strlit("    chain ");
    reveal_strlit(" {\n");
    reveal_strlit("        type filter hook ");
    reveal_strlit(" priority filter + 10; policy accept;\n");
    reveal_strlit("input");
    reveal_strlit("output");
    reveal_strlit("forward");
    reveal_strlit("    chain input {\n");
    reveal_strlit("        type filter hook input priority filter + 10; policy accept;\n");
    reveal_strlit("    chain output {\n");
    reveal_strlit("        type filter hook output priority filter + 10; policy accept;\n");
    reveal_strlit("    chain forward {\n");
    reveal_strlit("        type filter hook forward priority filter + 10; policy accept;\n");
}

proof fn lemma_chain_step(prefix: Seq<char>, hook: Seq<char>, name: Seq<char>, k: int)
    requires
        1 <= k <= 8,
    ensures
        ({
            let r = gate_rules()[k - 1];
            let before = with_chain_lines(prefix, hook, name, gate_rules().subrange(0, k - 1));
            with_chain_lines(prefix, hook, name, gate_rules().subrange(0, k)) == if r.0 == hook {
                before + "        "@ + rule_match(name, r.1, r.2)
            } else {
                before
            }
        }),
{
    lemma_rule_step(prefix, Seq::empty(), name, k);
    let rules = gate_rules();
    assert(rules.subrange(0, k).drop_last() =~= rules.subrange(0, k - 1));
    assert(rules.subrange(0, k).last() == rules[k - 1]);
}

/// The data ruleset's chains hold exactly the blocking rules, each in its
/// chain and in order: the same rules the additive script adds.
pub proof fn lemma_chains_hold_the_gate_rules(name: Seq<char>)
    ensures
        chains_text(name) == with_chain(
            with_chain(with_chain(Seq::empty(), "input"@, name), "output"@, name),
            "forward"@,
            name,
        ),
{
    let rules = gate_rules();
    assert(rules.subrange(0, 0) =~= Seq::<(Seq<char>, bool, bool)>::empty());
    lemma_chain_pieces(Seq::empty(), name);
    let c0: Seq<char> = Seq::empty();
    let h0 = c0 + "    chain input {\n"@
        + "        type filter hook input priority filter + 10; policy accept;\n"@;
    let p0 = c0 + "    chain "@ + "input"@ + " {\n"@ + "        type filter hook "@ + "input"@
        + " priority filter + 10; policy accept;\n"@;
    assert(p0 == h0) by {
        lemma_chain_pieces(c0, name);
    }
    let l0_1 = h0 + "        iifname \""@ + name + "\" ip saddr @blocked_v4 drop\n"@;
    assert(with_chain_lines(p0, "input"@, name, rules.subrange(0, 1)) == l0_1) by {
        lemma_chain_step(p0, "input"@, name, 1);
        lemma_rule_step(p0, Seq::empty(), name, 1);
        lemma_chain_pieces(h0, name);
    }
    let l0_2 = l0_1 + "        iifname \""@ + name + "\" ip6 saddr @blocked_v6 drop\n"@;
    assert(with_chain_lines(p0, "input"@, name, rules.subrange(0, 2)) == l0_2) by {
        lemma_chain_step(p0, "input"@, name, 2);
        lemma_rule_step(p0, Seq::empty(), name, 2);
        lemma_chain_pieces(l0_1, name);
    }
    assert(with_chain_lines(p0, "input"@, name, rules.subrange(0, 3)) == l0_2) by {
        lemma_chain_step(p0, "input"@, name, 3);
        lemma_rule_step(p0, Seq::empty(), name, 3);
        lemma_chain_pieces(l0_2, name);
    }
    assert(with_chain_lines(p0, "input"@, name, rules.subrange(0, 4)) == l0_2) by {
        lemma_chain_step(p0, "input"@, name, 4);
        lemma_rule_step(p0, Seq::empty(), name, 4);
        lemma_chain_pieces(l0_2, name);
    }
    assert(with_chain_lines(p0, "input"@, name, rules.subrange(0, 5)) == l0_2) by {
        lemma_chain_step(p0, "input"@, name, 5);
        lemma_rule_step(p0, Seq::empty(), name, 5);
        lemma_chain_pieces(l0_2, name);
    }
    assert(with_chain_lines(p0, "input"@, name, rules.subrange(0, 6)) == l0_2) by {
        lemma_chain_step(p0, "input"@, name, 6);
        lemma_rule_step(p0, Seq::empty(), name, 6);
        lemma_chain_pieces(l0_2, name);
    }
    assert(with_chain_lines(p0, "input"@, name, rules.subrange(0, 7)) == l0_2) by {
        lemma_chain_step(p0, "input"@, name, 7);
        lemma_rule_step(p0, Seq::empty(), name, 7);
        lemma_chain_pieces(l0_2, name);
    }
    assert(with_chain_lines(p0, "input"@, name, rules.subrange(0, 8)) == l0_2) by {
        lemma_chain_step(p0, "input"@, name, 8);
        lemma_rule_step(p0, Seq::empty(), name, 8);
        lemma_chain_pieces(l0_2, name);
    }
    assert(rules.subrange(0, 8) =~= rules);
    let c1 = l0_2 + "    }\n"@;
    assert(with_chain(c0, "input"@, name) == c1);
    let h1 = c1 + "    chain output {\n"@
        + "        type filter hook output priority filter + 10; policy accept;\n"@;
    let p1 = c1 + "    chain "@ + "output"@ + " {\n"@ + "        type filter hook "@ + "output"@
        + " priority filter + 10; policy accept;\n"@;
    assert(p1 == h1) by {
        lemma_chain_pieces(c1, name);
    }
    assert(with_chain_lines(p1, "output"@, name, rules.subrange(0, 1)) == h1) by {
        lemma_chain_step(p1, "output"@, name, 1);
        lemma_rule_step(p1, Seq::empty(), name, 1);
        lemma_chain_pieces(h1, name);
    }
    assert(with_chain_lines(p1, "output"@, name, rules.subrange(0, 2)) == h1) by {
        lemma_chain_step(p1, "output"@, name, 2);
        lemma_rule_step(p1, Seq::empty(), name, 2);
        lemma_chain_pieces(h1, name);
    }
    let l1_3 = h1 + "        oifname \""@ + name + "\" ip daddr @blocked_v4 drop\n"@;
    assert(with_chain_lines(p1, "output"@, name, rules.subrange(0, 3)) == l1_3) by {
        lemma_chain_step(p1, "output"@, name, 3);
        lemma_rule_step(p1, Seq::empty(), name, 3);
        lemma_chain_pieces(h1, name);
    }
    let l1_4 = l1_3 + "        oifname \""@ + name + "\" ip6 daddr @blocked_v6 drop\n"@;
    assert(with_chain_lines(p1, "output"@, name, rules.subrange(0, 4)) == l1_4) by {
        lemma_chain_step(p1, "output"@, name, 4);
        lemma_rule_step(p1, Seq::empty(), name, 4);
        lemma_chain_pieces(l1_3, name);
    }
    assert(with_chain_lines(p1, "output"@, name, rules.subrange(0, 5)) == l1_4) by {
        lemma_chain_step(p1, "output"@, name, 5);
        lemma_rule_step(p1, Seq::empty(), name, 5);
        lemma_chain_pieces(l1_4, name);
    }
    assert(with_chain_lines(p1, "output"@, name, rules.subrange(0, 6)) == l1_4) by {
        lemma_chain_step(p1, "output"@, name, 6);
        lemma_rule_step(p1, Seq::empty(), name, 6);
        lemma_chain_pieces(l1_4, name);
    }
    assert(with_chain_lines(p1, "output"@, name, rules.subrange(0, 7)) == l1_4) by {
        lemma_chain_step(p1, "output"@, name, 7);
        lemma_rule_step(p1, Seq::empty(), name, 7);
        lemma_chain_pieces(l1_4, name);
    }
    assert(with_chain_lines(p1, "output"@, name, rules.subrange(0, 8)) == l1_4) by {
        lemma_chain_step(p1, "output"@, name, 8);
        lemma_rule_step(p1, Seq::empty(), name, 8);
        lemma_chain_pieces(l1_4, name);
    }
    assert(rules.subrange(0, 8) =~= rules);
    let c2 = l1_4 + "    }\n"@;
    assert(with_chain(c1, "output"@, name) == c2);
    let h2 = c2 + "    chain forward {\n"@
        + "        type filter hook forward priority filter + 10; policy accept;\n"@;
    let p2 = c2 + "    chain "@ + "forward"@ + " {\n"@ + "        type filter hook "@ + "forward"@
        + " priority filter + 10; policy accept;\n"@;
    assert(p2 == h2) by {
        lemma_chain_pieces(c2, name);
    }
    assert(with_chain_lines(p2, "forward"@, name, rules.subrange(0, 1)) == h2) by {
        lemma_chain_step(p2, "forward"@, name, 1);
        lemma_rule_step(p2, Seq::empty(), name, 1);
        lemma_chain_pieces(h2, name);
    }
    assert(with_chain_lines(p2, "forward"@, name, rules.subrange(0, 2)) == h2) by {
        lemma_chain_step(p2, "forward"@, name, 2);
        lemma_rule_step(p2, Seq::empty(), name, 2);
        lemma_chain_pieces(h2, name);
    }
    assert(with_chain_lines(p2, "forward"@, name, rules.subrange(0, 3)) == h2) by {
        lemma_chain_step(p2, "forward"@, name, 3);
        lemma_rule_step(p2, Seq::empty(), name, 3);
        lemma_chain_pieces(h2, name);
    }
    assert(with_chain_lines(p2, "forward"@, name, rules.subrange(0, 4)) == h2) by {
        lemma_chain_step(p2, "forward"@, name, 4);
        lemma_rule_step(p2, Seq::empty(), name, 4);
        lemma_chain_pieces(h2, name);
    }
    let l2_5 = h2 + "        iifname \""@ + name + "\" ip saddr @blocked_v4 drop\n"@;
    assert(with_chain_lines(p2, "forward"@, name, rules.subrange(0, 5)) == l2_5) by {
        lemma_chain_step(p2, "forward"@, name, 5);
        lemma_rule_step(p2, Seq::empty(), name, 5);
        lemma_chain_pieces(h2, name);
    }
    let l2_6 = l2_5 + "        iifname \""@ + name + "\" ip6 saddr @blocked_v6 drop\n"@;
    assert(with_chain_lines(p2, "forward"@, name, rules.subrange(0, 6)) == l2_6) by {
        lemma_chain_step(p2, "forward"@, name, 6);
        lemma_rule_step(p2, Seq::empty(), name, 6);
        lemma_chain_pieces(l2_5, name);
    }
    let l2_7 = l2_6 + "        oifname \""@ + name + "\" ip daddr @blocked_v4 drop\n"@;
    assert(with_chain_lines(p2, "forward"@, name, rules.subrange(0, 7)) == l2_7) by {
        lemma_chain_step(p2, "forward"@, name, 7);
        lemma_rule_step(p2, Seq::empty(), name, 7);
        lemma_chain_pieces(l2_6, name);
    }
    let l2_8 = l2_7 + "        oifname \""@ + name + "\" ip6 daddr @blocked_v6 drop\n"@;
    assert(with_chain_lines(p2, "forward"@, name, rules.subrange(0, 8)) == l2_8) by {
        lemma_chain_step(p2, "forward"@, name, 8);
        lemma_rule_step(p2, Seq::empty(), name, 8);
        lemma_chain_pieces(l2_7, name);
    }
    assert(rules.subrange(0, 8) =~= rules);
    let c3 = l2_8 + "    }\n"@;
    assert(with_chain(c2, "forward"@, name) == c3);
    assert(chains_text(name) =~= c3);
}

fn table_rule(out: &mut String, table: &str, middle: &str, name: &str, tail: &str)
    ensures
        final(out)@ == old(out)@ + "add rule inet "@ + table@ + middle@ + name@ + tail@,
{
    push(out, "add rule inet ");
    push(out, table);
    push(out, middle);
    push(out, name);
    push(out, tail);
}

fn table_line(out: &mut String, lead: &str, table: &str, tail: &str)
    ensures
        final(out)@ == old(out)@ + lead@ + table@ + tail@,
{
    push(out, lead);
    push(out, table);
    push(out, tail);
}

pub fn ensure_exists_ruleset(name: &str) -> (r: String)
    ensures
        r@ == ensure_text(table_text(name@), name@),
        r@ == with_rule_commands(
            ensure_prelude(table_text(name@)),
            table_text(name@),
            name@,
            gate_rules(),
        ),
{
    proof {
        lemma_ensure_adds_the_gate_rules(table_text(name@), name@);
    }
    let table = table_name(name);
    let t = table.as_str();
    let mut out = String::new();
    table_line(&mut out, "add table inet ", t, "\n");
    table_line(&mut out, "add set inet ", t, " blocked_v4 { type ipv4_addr; flags interval; }\n");
    table_line(&mut out, "add set inet ", t, " blocked_v6 { type ipv6_addr; flags interval; }\n");
    table_line(
        &mut out,
        "add chain inet ",
        t,
        " input { type filter hook input priority filter + 10; policy accept; }\n",
    );
    table_line(
        &mut out,
        "add chain inet ",
        t,
        " output { type filter hook output priority filter + 10; policy accept; }\n",
    );
    table_line(
        &mut out,
        "add chain inet ",
        t,
        " forward { type filter hook forward priority filter + 10; policy accept; }\n",
    );
    table_rule(&mut out, t, " input iifname \"", name, "\" ip saddr @blocked_v4 drop\n");
    table_rule(&mut out, t, " input iifname \"", name, "\" ip6 saddr @blocked_v6 drop\n");
    table_rule(&mut out, t, " output oifname \"", name, "\" ip daddr @blocked_v4 drop\n");
    table_rule(&mut out, t, " output oifname \"", name, "\" ip6 daddr @blocked_v6 drop\n");
    table_rule(&mut out, t, " forward iifname \"", name, "\" ip saddr @blocked_v4 drop\n");
    table_rule(&mut out, t, " forward iifname \"", name, "\" ip6 saddr @blocked_v6 drop\n");
    table_rule(&mut out, t, " forward oifname \"", name, "\" ip daddr @blocked_v4 drop\n");
    table_rule(&mut out, t, " forward oifname \"", name, "\" ip6 daddr @blocked_v6 drop\n");
    proof {
        assert(out@ =~= ensure_text(table_text(name@), name@));
    }
    out
}

/// The script adding `allowed` to interface `name`'s blocked sets; empty
/// when there is nothing to add.
pub open spec fn block_text(t: Seq<char>, v4: Seq<Seq<char>>, v6: Seq<Seq<char>>) -> Seq<char> {
    (if v4.len() == 0 {
        Seq::empty()
    } else {
        "add element inet "@ + t + " blocked_v4 { "@ + joined(v4, ", "@) + " }\n"@
    }) + (if v6.len() == 0 {
        Seq::empty()
    } else {
        "add element inet "@ + t + " blocked_v6 { "@ + joined(v6, ", "@) + " }\n"@
    })
}

pub fn block_script(name: &str, allowed: &[Element]) -> (r: String)
    ensures
        r@ == block_text(
            table_text(name@),
            family_texts(allowed@, true),
            family_texts(allowed@, false),
        ),
{
    let table = table_name(name);
    let (v4, v6) = split_by_family(allowed);
    let mut out = String::new();
    if v4.len() > 0 {
        push(&mut out, "add element inet ");
        push(&mut out, table.as_str());
        push(&mut out, " blocked_v4 { ");
        let list = join(&v4, ", ");
        push(&mut out, list.as_str());
        push(&mut out, " }\n");
    }
    if v6.len() > 0 {
        push(&mut out, "add element inet ");
        push(&mut out, table.as_str());
        push(&mut out, " blocked_v6 { ");
        let list = join(&v6, ", ");
        push(&mut out, list.as_str());
        push(&mut out, " }\n");
    }
    proof {
        assert(out@ =~= block_text(
            table_text(name@),
            family_texts(allowed@, true),
            family_texts(allowed@, false),
        ));
    }
    out
}

/// One script per element, each deleting it from its family's set.
pub open spec fn release_text(t: Seq<char>, set: Seq<char>, element: Seq<char>) -> Seq<char> {
    "delete element inet "@ + t + set + " { "@ + element + " }\n"@
}

pub fn release_scripts(name: &str, allowed: &[Element]) -> (r: Vec<String>)
    ensures
        r@.len() == family_texts(allowed@, true).len() + family_texts(allowed@, false).len(),
        forall|i: int|
            0 <= i < family_texts(allowed@, true).len() ==> (#[trigger] r@[i])@ == release_text(
                table_text(name@),
                " blocked_v4"@,
                family_texts(allowed@, true)[i],
            ),
        forall|i: int|
            0 <= i < family_texts(allowed@, false).len() ==> (#[trigger] r@[family_texts(
                allowed@,
                true,
            ).len() + i])@ == release_text(
                table_text(name@),
                " blocked_v6"@,
                family_texts(allowed@, false)[i],
            ),
{
    let table = table_name(name);
    let (v4, v6) = split_by_family(allowed);
    let mut out: Vec<String> = Vec::new();
    let mut i: usize = 0;
    while i < v4.len()
        invariant
            i <= v4@.len(),
            out@.len() == i,
            table@ == table_text(name@),
            forall|j: int|
                0 <= j < i ==> (#[trigger] out@[j])@ == release_text(
                    table@,
                    " blocked_v4"@,
                    v4@[j]@,
                ),
        decreases v4@.len() - i,
    {
        let mut script = String::from_str("delete element inet ");
        push(&mut script, table.as_str());
        push(&mut script, " blocked_v4");
        push(&mut script, " { ");
        push(&mut script, v4[i].as_str());
        push(&mut script, " }\n");
        out.push(script);
        i += 1;
    }
    let mut j: usize = 0;
    while j < v6.len()
        invariant
            j <= v6@.len(),
            out@.len() == v4@.len() + j,
            table@ == table_text(name@),
            forall|k: int|
                0 <= k < v4@.len() ==> (#[trigger] out@[k])@ == release_text(
                    table@,
                    " blocked_v4"@,
                    v4@[k]@,
                ),
            forall|k: int|
                0 <= k < j ==> (#[trigger] out@[v4@.len() + k])@ == release_text(
                    table@,
                    " blocked_v6"@,
                    v6@[k]@,
                ),
        decreases v6@.len() - j,
    {
        let mut script = String::from_str("delete element inet ");
        push(&mut script, table.as_str());
        push(&mut script, " blocked_v6");
        push(&mut script, " { ");
        push(&mut script, v6[j].as_str());
        push(&mut script, " }\n");
        out.push(script);
        j += 1;
    }
    proof {
        assert forall|i: int| 0 <= i < v4@.len() implies v4@[i]@ == family_texts(allowed@, true)[i] by {
            assert(texts(v4@)[i] == v4@[i]@);
        }
        assert forall|i: int| 0 <= i < v6@.len() implies v6@[i]@ == family_texts(allowed@, false)[i] by {
            assert(texts(v6@)[i] == v6@[i]@);
        }
    }
    out
}

/// The script deleting interface `name`'s data gate table.
pub fn clear_script(name: &str) -> (r: String)
    ensures
        r@ == "delete table inet "@ + table_text(name@) + "\n"@,
{
    let table = table_name(name);
    let mut out = String::from_str("delete table inet ");
    push(&mut out, table.as_str());
    push(&mut out, "\n");
    out
}

} // verus!
