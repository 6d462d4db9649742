use sub_rust::rule::{content, rule_entry, save_rules, tag_rule};

fn all(pieces: &[Vec<char>]) -> Vec<String> {
    pieces.iter().map(|p| p.iter().collect()).collect()
}

#[test]
fn accepted_rule_gets_its_group_as_third_field() {
    let mut rules = Vec::new();
    save_rules(
        "GROUP",
        "DOMAIN,example.com\nUSER-AGENT,foo\n",
        &mut rules,
    );
    assert_eq!(rules, ["DOMAIN,example.com,GROUP"]);
}

#[test]
fn rule_of_another_type_is_dropped() {
    assert_eq!(rule_entry("USER-AGENT,foo", "G"), None);
    assert_eq!(rule_entry("URL-REGEX,^http", "G"), None);
    assert_eq!(rule_entry("", "G"), None);
    assert_eq!(rule_entry(",x", "G"), None);
    assert_eq!(rule_entry("DOMAIN ,x", "G"), None);
    assert_eq!(rule_entry(" DOMAIN,x", "G"), None);
    assert_eq!(rule_entry("DOMAINS,x", "G"), None);
}

#[test]
fn group_goes_to_a_fixed_place() {
    assert_eq!(rule_entry("MATCH", "G").as_deref(), Some("MATCH,G"));
    assert_eq!(rule_entry("DOMAIN,a.com", "G").as_deref(), Some("DOMAIN,a.com,G"));
    assert_eq!(
        rule_entry("IP-CIDR,10.0.0.0/8,no-resolve", "G").as_deref(),
        Some("IP-CIDR,10.0.0.0/8,G,no-resolve")
    );
    assert_eq!(
        rule_entry("IP-CIDR6,::1/128,no-resolve,x", "G").as_deref(),
        Some("IP-CIDR6,::1/128,G,no-resolve,x")
    );
    assert_eq!(rule_entry("GEOIP,", "G").as_deref(), Some("GEOIP,,G"));
    assert_eq!(rule_entry("MATCH", "").as_deref(), Some("MATCH,"));
    assert_eq!(rule_entry("MATCH", "a,b").as_deref(), Some("MATCH,a,b"));
}

#[test]
fn rule_type_is_read_in_any_case() {
    assert_eq!(rule_entry("domain,a.com", "G").as_deref(), Some("domain,a.com,G"));
    assert_eq!(
        rule_entry("Domain-Suffix,a.com", "G").as_deref(),
        Some("Domain-Suffix,a.com,G")
    );
    assert_eq!(rule_entry("geoip-cidr,x", "G").as_deref(), Some("geoip-cidr,x,G"));
    assert_eq!(
        rule_entry("proce\u{17f}s-name,x", "G").as_deref(),
        Some("proce\u{17f}s-name,x,G")
    );
}

#[test]
fn every_accepted_type_is_kept() {
    for tag in [
        "DOMAIN",
        "DOMAIN-SUFFIX",
        "DOMAIN-KEYWORD",
        "IP-CIDR",
        "IP-CIDR6",
        "GEOIP",
        "GEOIP-CIDR",
        "PROCESS-NAME",
        "MATCH",
    ] {
        let line = format!("{},value", tag);
        assert_eq!(rule_entry(&line, "G"), Some(format!("{},value,G", tag)));
    }
}

#[test]
fn tagging_goes_by_the_type_that_is_handed_in() {
    assert_eq!(tag_rule("x,y", "G", "DOMAIN").as_deref(), Some("x,y,G"));
    assert_eq!(tag_rule("DOMAIN,y", "G", "domain"), None);
    assert_eq!(tag_rule("DOMAIN,y", "G", "USER-AGENT"), None);
    assert_eq!(tag_rule("only", "G", "MATCH").as_deref(), Some("only,G"));
}

#[test]
fn rules_are_appended_in_the_order_of_the_list() {
    let mut rules = vec![String::from("MATCH,first")];
    let list = "# a comment\r\n\r\n  DOMAIN-SUFFIX,a.com  \r\nUSER-AGENT,x\n\tGEOIP,CN\n#DOMAIN,b.com\n \nprocess-name,curl\nMATCH";
    save_rules("🎯 Direct", list, &mut rules);
    assert_eq!(
        rules,
        [
            "MATCH,first",
            "DOMAIN-SUFFIX,a.com,🎯 Direct",
            "GEOIP,CN,🎯 Direct",
            "process-name,curl,🎯 Direct",
            "MATCH,🎯 Direct"
        ]
    );
    save_rules("G", "", &mut rules);
    assert_eq!(rules.len(), 5);
    save_rules("G", "# only\n;DOMAIN,x\n", &mut rules);
    assert_eq!(rules.len(), 5);
}

#[test]
fn content_lines_are_trimmed_and_filtered() {
    assert_eq!(
        all(&content(" a \n\n;b\n ; c\n#d\n  e", ';')),
        ["a", "#d", "e"]
    );
    assert_eq!(
        all(&content(" a \n\n;b\n ; c\n#d\n  e", '#')),
        ["a", ";b", "; c", "e"]
    );
    assert!(content("", ';').is_empty());
    assert!(content("\n \n\t\n", ';').is_empty());
    assert_eq!(all(&content("x;y", ';')), ["x;y"]);
}
