use innernet_rp::gate::{
    block_script, chains, clear_script, data_ruleset, ensure_exists_ruleset, join,
    management_clear_script, management_ruleset, release_scripts, split_by_family, table_name,
    Element,
};

fn ip(text: &str, v4: bool) -> Element {
    Element { v4, text: text.to_string() }
}

#[test]
fn ruleset_is_address_keyed_and_scoped_to_the_named_interface() {
    let blocked = vec![ip("10.0.0.5/32", true), ip("fd00::5/128", false)];
    let text = data_ruleset("wg-test0", &blocked);
    assert!(text.contains("table inet innernet_pq_data_wg-test0"));
    assert!(text.contains("elements = { 10.0.0.5/32 }"));
    assert!(text.contains("elements = { fd00::5/128 }"));
    assert!(text.contains("ip saddr @blocked_v4 drop"));
    assert!(text.contains("ip6 saddr @blocked_v6 drop"));
    assert!(text.contains("ip daddr @blocked_v4 drop"));
    assert!(text.contains("ip6 daddr @blocked_v6 drop"));
    for line in text
        .lines()
        .filter(|l| l.contains("iifname") || l.contains("oifname"))
    {
        assert!(line.contains("\"wg-test0\""), "unscoped rule: {line}");
    }
    assert!(text.contains("iifname \"wg-test0\" ip saddr @blocked_v4 drop"));
    assert!(text.contains("oifname \"wg-test0\" ip daddr @blocked_v4 drop"));
}

#[test]
fn empty_blocklist_produces_no_elements_line() {
    let text = data_ruleset("wg-test0", &[]);
    assert!(!text.contains("elements ="));
    assert!(text.contains("type ipv4_addr"));
    assert!(text.contains("type ipv6_addr"));
}

#[test]
fn ensure_exists_ruleset_uses_only_idempotent_add_verbs() {
    let text = ensure_exists_ruleset("wg-test0");
    for line in text.lines().filter(|l| !l.trim().is_empty()) {
        assert!(line.starts_with("add "), "non-additive verb in ensure_exists: {line}");
    }
    assert_eq!(text.lines().count(), 14);
}

#[test]
fn block_and_release_scripts_target_the_right_table_and_sets() {
    let table = table_name("wg-test0");
    assert_eq!(table, "innernet_pq_data_wg-test0");
}

fn expected_chains(name: &str) -> String {
    format!(
        "    chain input {{\n\
         \x20       type filter hook input priority filter + 10; policy accept;\n\
         \x20       iifname \"{name}\" ip saddr @blocked_v4 drop\n\
         \x20       iifname \"{name}\" ip6 saddr @blocked_v6 drop\n\
         \x20   }}\n\
         \x20   chain output {{\n\
         \x20       type filter hook output priority filter + 10; policy accept;\n\
         \x20       oifname \"{name}\" ip daddr @blocked_v4 drop\n\
         \x20       oifname \"{name}\" ip6 daddr @blocked_v6 drop\n\
         \x20   }}\n\
         \x20   chain forward {{\n\
         \x20       type filter hook forward priority filter + 10; policy accept;\n\
         \x20       iifname \"{name}\" ip saddr @blocked_v4 drop\n\
         \x20       iifname \"{name}\" ip6 saddr @blocked_v6 drop\n\
         \x20       oifname \"{name}\" ip daddr @blocked_v4 drop\n\
         \x20       oifname \"{name}\" ip6 daddr @blocked_v6 drop\n\
         \x20   }}\n"
    )
}

#[test]
fn data_ruleset_is_exactly_the_table_sets_and_chains() {
    let blocked = vec![
        ip("10.0.0.5/32", true),
        ip("fd00::5/128", false),
        ip("10.0.0.6/32", true),
    ];
    // The elements line sits 17 columns in.
    let indent = " ".repeat(17);
    let expected = format!(
        "table inet innernet_pq_data_wg0 {{\n\
         \x20   set blocked_v4 {{\n\
         \x20       type ipv4_addr\n\
         \x20       flags interval\n{indent}elements = {{ 10.0.0.5/32, 10.0.0.6/32 }}\n\
         \x20   }}\n\
         \x20   set blocked_v6 {{\n\
         \x20       type ipv6_addr\n\
         \x20       flags interval\n{indent}elements = {{ fd00::5/128 }}\n\
         \x20   }}\n\
         {}\
         }}\n",
        expected_chains("wg0")
    );
    assert_eq!(data_ruleset("wg0", &blocked), expected);
    assert_eq!(chains("wg0"), expected_chains("wg0"));
}

#[test]
fn elements_split_by_family_in_order() {
    let blocked = vec![
        ip("10.0.0.5/32", true),
        ip("fd00::5/128", false),
        ip("10.0.0.6/32", true),
    ];
    let (v4, v6) = split_by_family(&blocked);
    assert_eq!(v4, vec!["10.0.0.5/32".to_string(), "10.0.0.6/32".to_string()]);
    assert_eq!(v6, vec!["fd00::5/128".to_string()]);
    assert_eq!(join(&v4, ", "), "10.0.0.5/32, 10.0.0.6/32");
    assert_eq!(join(&Vec::new(), ", "), "");
}

#[test]
fn block_script_adds_each_family_once_and_nothing_when_empty() {
    let blocked = vec![ip("10.0.0.5/32", true), ip("fd00::5/128", false)];
    assert_eq!(
        block_script("wg0", &blocked),
        "add element inet innernet_pq_data_wg0 blocked_v4 { 10.0.0.5/32 }\n\
         add element inet innernet_pq_data_wg0 blocked_v6 { fd00::5/128 }\n"
    );
    assert_eq!(block_script("wg0", &[]), "");
}

#[test]
fn release_scripts_delete_one_element_each() {
    let blocked = vec![
        ip("fd00::5/128", false),
        ip("10.0.0.5/32", true),
        ip("10.0.0.6/32", true),
    ];
    assert_eq!(
        release_scripts("wg0", &blocked),
        vec![
            "delete element inet innernet_pq_data_wg0 blocked_v4 { 10.0.0.5/32 }\n".to_string(),
            "delete element inet innernet_pq_data_wg0 blocked_v4 { 10.0.0.6/32 }\n".to_string(),
            "delete element inet innernet_pq_data_wg0 blocked_v6 { fd00::5/128 }\n".to_string(),
        ]
    );
    assert_eq!(clear_script("wg0"), "delete table inet innernet_pq_data_wg0\n");
}

#[test]
fn ruleset_scopes_every_rule_to_the_named_interface_and_allows_only_the_api_port() {
    let text = management_ruleset("wg-test0", 51820);
    assert!(text.contains("table inet innernet_pq_management"));
    assert!(text.contains("tcp dport 51820 accept"));
    for line in text
        .lines()
        .filter(|l| l.contains("iifname") || l.contains("oifname"))
    {
        assert!(line.contains("\"wg-test0\""), "unscoped rule: {line}");
    }
    assert!(text.contains("iifname \"wg-test0\" drop"));
    assert!(text.contains("oifname \"wg-test0\" drop"));
}

#[test]
fn management_ruleset_is_exact() {
    let expected = "table inet innernet_pq_management {\n\
         \x20   chain input {\n\
         \x20       type filter hook input priority filter + 10; policy accept;\n\
         \x20       iifname \"wg0\" ct state established,related accept\n\
         \x20       iifname \"wg0\" icmp type { destination-unreachable, time-exceeded, parameter-problem } accept\n\
         \x20       iifname \"wg0\" icmpv6 type { destination-unreachable, packet-too-big, time-exceeded, parameter-problem } accept\n\
         \x20       iifname \"wg0\" tcp dport 0 accept\n\
         \x20       iifname \"wg0\" drop\n\
         \x20   }\n\
         \x20   chain forward {\n\
         \x20       type filter hook forward priority filter + 10; policy accept;\n\
         \x20       iifname \"wg0\" drop\n\
         \x20       oifname \"wg0\" drop\n\
         \x20   }\n\
         }\n";
    assert_eq!(management_ruleset("wg0", 0), expected);
    assert_eq!(management_clear_script(), "delete table inet innernet_pq_management\n");
}
