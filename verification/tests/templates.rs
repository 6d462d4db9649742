use sub_rust::error::ConvertError;
use sub_rust::template::{directive_lines, read_directive, Directive};

#[test]
fn ruleset_names_a_group_and_an_address() {
    match read_directive("ruleset=🎯 Direct,https://example.com/list.txt").unwrap() {
        Directive::Ruleset { group, url } => {
            assert_eq!(group, "🎯 Direct");
            assert_eq!(url, "https://example.com/list.txt");
        }
        other => panic!("{:?}", other),
    }
    match read_directive("ruleset=G,http://x/?a=b&c=d,extra").unwrap() {
        Directive::Ruleset { group, url } => {
            assert_eq!(group, "G");
            assert_eq!(url, "http://x/?a=b&c=d");
        }
        other => panic!("{:?}", other),
    }
    match read_directive("ruleset=,").unwrap() {
        Directive::Ruleset { group, url } => {
            assert_eq!(group, "");
            assert_eq!(url, "");
        }
        other => panic!("{:?}", other),
    }
}

#[test]
fn group_directive_keeps_its_whole_value() {
    match read_directive("custom_proxy_group=Auto`url-test`.*`http://x/?a=b`300").unwrap() {
        Directive::Group(text) => assert_eq!(text, "Auto`url-test`.*`http://x/?a=b`300"),
        other => panic!("{:?}", other),
    }
    match read_directive("custom_proxy_group=").unwrap() {
        Directive::Group(text) => assert_eq!(text, ""),
        other => panic!("{:?}", other),
    }
}

#[test]
fn other_keys_are_ignored() {
    for line in [
        "enable_rule_generator=true",
        "exclude_remarks=(x|y)",
        "=x",
        "ruleset =G,http://x",
        "Ruleset=G,http://x",
        "custom_proxy_groups=G",
        " ruleset=G,http://x",
    ] {
        assert!(matches!(read_directive(line), Ok(Directive::Other)), "{}", line);
    }
}

#[test]
fn line_without_equals_sign_is_malformed() {
    for line in ["[custom]", "ruleset", "custom_proxy_group", "", "x"] {
        match read_directive(line) {
            Err(ConvertError::MalformedRuleTemplateLine(t)) => assert_eq!(t, line),
            other => panic!("{:?}", other),
        }
    }
}

#[test]
fn ruleset_without_an_address_is_malformed() {
    for line in ["ruleset=G", "ruleset=", "ruleset=http://x"] {
        match read_directive(line) {
            Err(ConvertError::MalformedRuleTemplateLine(t)) => assert_eq!(t, line),
            other => panic!("{:?}", other),
        }
    }
}

#[test]
fn directive_lines_leave_out_blanks_and_comments() {
    let text = "; head\r\n\r\n  ruleset=G,http://x  \r\n;ruleset=H,http://y\n\ncustom_proxy_group=A`select`.*\n # not a comment here\n";
    assert_eq!(
        directive_lines(text),
        [
            "ruleset=G,http://x",
            "custom_proxy_group=A`select`.*",
            "# not a comment here"
        ]
    );
    assert!(directive_lines("").is_empty());
    assert!(directive_lines(";\n;\n").is_empty());
}
