use base64::prelude::BASE64_STANDARD;
use base64::Engine;
use serde_yaml::Value;
use sub_rust::entity::{ClashProxyConfig, RespInfo, SubInput};
use sub_rust::error::ConvertError;
use sub_rust::pipeline::{Action, Pipeline};
use sub_rust::server::{analyze_source, generate_clash};

fn input() -> SubInput {
    SubInput {
        target: String::from("clash"),
        rule_config: String::from("http://t/template.ini"),
        source: String::from("http://s/sub"),
    }
}

const SOURCE: &str =
    "trojan://pw@a.example:443?allowInsecure=1#US%2001\nss://YWVzLTEyOC1nY206aWQ=@b.example:8388#HK\ntrojan://pw2@c.example:8443#US%2002\n";

const TEMPLATE: &str = "; rules\n[custom]=\nruleset=🎯 Direct,http://r/direct.list\nruleset=Auto,http://r/auto.list\ncustom_proxy_group=Auto`url-test`[]DIRECT`^US`http://probe/204`300\ncustom_proxy_group=🎯 Direct`select`[]DIRECT`[]Auto\nenable_rule_generator=true\n";

/// Runs a conversion, answering each fetch from `pages` and writing the
/// document out as the list of what it holds.
fn run(pages: &[(&str, Result<&str, &str>)]) -> (RespInfo, Vec<String>, Option<ClashProxyConfig>) {
    let mut asked = Vec::new();
    let mut seen = None;
    let (mut state, mut action) = Pipeline::start(input());
    loop {
        let reply = match action {
            Action::Fetch(url) => {
                asked.push(url.clone());
                match pages.iter().find(|(u, _)| *u == url) {
                    Some((_, Ok(body))) => Ok(body.to_string()),
                    Some((_, Err(reason))) => Err(reason.to_string()),
                    None => Err(format!("no page at {}", url)),
                }
            }
            Action::Serialize(config) => {
                let text = format!(
                    "{} proxies, {} groups, {} rules",
                    config.proxies.len(),
                    config.proxy_groups.len(),
                    config.rules.len()
                );
                seen = Some(config);
                Ok(text)
            }
            Action::Respond(resp) => return (resp, asked, seen),
        };
        let (s, a) = state.step(reply);
        state = s;
        action = a;
    }
}

fn pages() -> Vec<(&'static str, Result<&'static str, &'static str>)> {
    vec![
        ("http://s/sub", Ok(SOURCE)),
        ("http://t/template.ini", Ok(TEMPLATE)),
        ("http://r/direct.list", Ok("# direct\nDOMAIN-SUFFIX,cn\nUSER-AGENT,x\nGEOIP,CN,no-resolve\n")),
        ("http://r/auto.list", Ok("MATCH\n")),
    ]
}

#[test]
fn conversion_runs_its_stages_in_order() {
    let (resp, asked, seen) = run(&pages());
    assert_eq!(resp.code, 200);
    assert_eq!(resp.body, "3 proxies, 2 groups, 3 rules");
    assert_eq!(
        asked,
        [
            "http://s/sub",
            "http://t/template.ini",
            "http://r/direct.list",
            "http://r/auto.list"
        ]
    );
    let config = seen.unwrap();
    assert_eq!(config.port, 7890);
    assert_eq!(config.socks_port, 7891);
    assert!(config.allow_lan);
    assert_eq!(config.mode, "Rule");
    assert_eq!(config.log_level, "info");
    assert_eq!(config.external_controller, ":9090");
    assert!(config.dns.enabled);
    assert_eq!(config.dns.nameserver, ["119.29.29.29", "223.5.5.5"]);
    assert_eq!(
        config.dns.fallback,
        ["8.8.8.8", "8.8.4.4", "tls://1.0.0.1:853", "tls://dns.google:853"]
    );
    let names: Vec<&str> = config
        .proxies
        .iter()
        .map(|m| m.get("name").and_then(Value::as_str).unwrap())
        .collect();
    assert_eq!(names, ["US 01", "HK", "US 02"]);
    assert_eq!(config.proxy_groups.len(), 2);
    assert_eq!(config.proxy_groups[0].group_name, "Auto");
    assert_eq!(config.proxy_groups[0].group_type, "url-test");
    assert_eq!(config.proxy_groups[0].proxies, ["DIRECT", "US 01", "US 02"]);
    assert_eq!(config.proxy_groups[0].url.as_deref(), Some("http://probe/204"));
    assert_eq!(config.proxy_groups[0].interval, Some(300));
    assert_eq!(config.proxy_groups[1].group_name, "🎯 Direct");
    assert_eq!(config.proxy_groups[1].proxies, ["DIRECT", "Auto"]);
    assert_eq!(
        config.rules,
        [
            "DOMAIN-SUFFIX,cn,🎯 Direct",
            "GEOIP,CN,🎯 Direct,no-resolve",
            "MATCH,Auto"
        ]
    );
}

#[test]
fn two_runs_over_the_same_replies_give_the_same_answer() {
    let (first, asked_first, seen_first) = run(&pages());
    let (second, asked_second, seen_second) = run(&pages());
    assert_eq!(first.code, second.code);
    assert_eq!(first.body, second.body);
    assert_eq!(asked_first, asked_second);
    assert_eq!(
        format!("{:?}", seen_first.unwrap()),
        format!("{:?}", seen_second.unwrap())
    );
}

#[test]
fn subscription_in_base64_is_decoded() {
    let encoded = BASE64_STANDARD.encode(SOURCE);
    let mut pages = pages();
    pages[0] = ("http://s/sub", Ok(&encoded));
    let (resp, _, seen) = run(&pages);
    assert_eq!(resp.code, 200);
    assert_eq!(seen.unwrap().proxies.len(), 3);
}

#[test]
fn one_unsupported_line_fails_the_whole_subscription() {
    let proxies = analyze_source("trojan://p@h:1#a\nvmess://abc\ntrojan://p@h:2#b\n");
    match proxies {
        Err(ConvertError::UnsupportedScheme(s)) => assert_eq!(s, "vmess"),
        other => panic!("{:?}", other),
    }
    let mut pages = pages();
    pages[0] = ("http://s/sub", Ok("trojan://p@h:1#a\nvmess://abc\n"));
    let (resp, asked, seen) = run(&pages);
    assert_eq!(resp.code, 500);
    assert_eq!(resp.body, "未知的代理类型：目前只支持trojan/ss:vmess");
    assert_eq!(asked, ["http://s/sub"]);
    assert!(seen.is_none());
}

#[test]
fn first_failing_line_decides_the_failure() {
    match analyze_source("trojan://p@h:1#a\ntrojan://broken\nvmess://x\n") {
        Err(ConvertError::MalformedProxyLink(s)) => assert_eq!(s, "broken"),
        other => panic!("{:?}", other),
    }
    match analyze_source("trojan://p@h:1#a\n\ntrojan://p@h:2#b\n") {
        Err(ConvertError::UnsupportedScheme(s)) => assert_eq!(s, ""),
        other => panic!("{:?}", other),
    }
}

#[test]
fn proxies_keep_the_order_of_the_lines() {
    let proxies = analyze_source("trojan://p@h:1#b\r\ntrojan://p@h:2#a\r\nss://x:y@h:3#c").unwrap();
    let names: Vec<&str> = proxies.iter().map(|p| p.name.as_str()).collect();
    assert_eq!(names, ["b", "a", "c"]);
    assert!(analyze_source("").unwrap().is_empty());
}

#[test]
fn body_that_looks_like_base64_and_is_not_fails() {
    match analyze_source("abc") {
        Err(ConvertError::MalformedProxyLink(s)) => assert_eq!(s, "abc"),
        other => panic!("{:?}", other),
    }
}

#[test]
fn failed_fetch_ends_the_conversion() {
    let (resp, asked, _) = run(&[("http://s/sub", Err("connection refused"))]);
    assert_eq!(resp.code, 500);
    assert_eq!(resp.body, "connection refused");
    assert_eq!(asked, ["http://s/sub"]);

    let (resp, asked, _) = run(&[("http://s/sub", Ok(SOURCE)), ("http://t/template.ini", Err("timed out"))]);
    assert_eq!(resp.code, 500);
    assert_eq!(resp.body, "timed out");
    assert_eq!(asked.len(), 2);

    let mut pages = pages();
    pages[2] = ("http://r/direct.list", Err("404"));
    let (resp, asked, seen) = run(&pages);
    assert_eq!(resp.code, 500);
    assert_eq!(resp.body, "404");
    assert_eq!(asked.len(), 3);
    assert!(seen.is_none());
}

#[test]
fn malformed_template_line_ends_the_conversion() {
    let mut pages = pages();
    pages[1] = (
        "http://t/template.ini",
        Ok("ruleset=G,http://r/auto.list\n[custom]\nruleset=H,http://r/direct.list\n"),
    );
    let (resp, asked, seen) = run(&pages);
    assert_eq!(resp.code, 500);
    assert_eq!(resp.body, "ini配置文件格式错误,错误行内容:[custom]");
    assert_eq!(asked, ["http://s/sub", "http://t/template.ini", "http://r/auto.list"]);
    assert!(seen.is_none());
}

#[test]
fn pattern_that_does_not_compile_ends_the_conversion() {
    let mut pages = pages();
    pages[1] = ("http://t/template.ini", Ok("custom_proxy_group=G`select`(US\n"));
    let (resp, _, seen) = run(&pages);
    assert_eq!(resp.code, 500);
    assert_eq!(resp.body, "(US");
    assert!(seen.is_none());
}

#[test]
fn failed_writing_ends_the_conversion() {
    let (state, action) = Pipeline::start(input());
    assert!(matches!(action, Action::Fetch(ref u) if u == "http://s/sub"));
    let (state, action) = state.step(Ok(String::from("trojan://p@h:1#n")));
    assert!(matches!(state, Pipeline::FetchTemplate { .. }));
    assert!(matches!(action, Action::Fetch(ref u) if u == "http://t/template.ini"));
    let (state, action) = state.step(Ok(String::new()));
    assert!(matches!(state, Pipeline::Serialize));
    assert!(matches!(action, Action::Serialize(_)));
    let (state, action) = state.step(Err(String::from("recursion limit")));
    assert!(matches!(state, Pipeline::Failed(ConvertError::SerializationFailure(_))));
    match action {
        Action::Respond(resp) => {
            assert_eq!(resp.code, 500);
            assert_eq!(resp.body, "recursion limit");
        }
        other => panic!("{:?}", other),
    }
}

#[test]
fn ended_conversion_stays_ended() {
    let (state, _) = Pipeline::start(input());
    let (state, _) = state.step(Err(String::from("down")));
    assert!(matches!(state, Pipeline::Failed(ConvertError::NetworkFetchFailure(_))));
    let (state, action) = state.step(Ok(String::from("trojan://p@h:1#n")));
    assert!(matches!(state, Pipeline::Failed(ConvertError::NetworkFetchFailure(_))));
    match action {
        Action::Respond(resp) => {
            assert_eq!(resp.code, 500);
            assert_eq!(resp.body, "down");
        }
        other => panic!("{:?}", other),
    }

    let (state, _) = Pipeline::start(input());
    let (state, _) = state.step(Ok(String::new()));
    let (state, _) = state.step(Ok(String::new()));
    let (state, action) = state.step(Ok(String::from("doc")));
    assert!(matches!(state, Pipeline::Success(ref t) if t == "doc"));
    assert!(matches!(action, Action::Respond(ref r) if r.code == 200 && r.body == "doc"));
    let (state, action) = state.step(Err(String::from("late")));
    assert!(matches!(state, Pipeline::Success(ref t) if t == "doc"));
    assert!(matches!(action, Action::Respond(ref r) if r.code == 200 && r.body == "doc"));
}

#[test]
fn failures_are_reported_with_their_text() {
    assert_eq!(
        ConvertError::UnsupportedScheme(String::from("vmess")).message(),
        "未知的代理类型：目前只支持trojan/ss:vmess"
    );
    assert_eq!(
        ConvertError::MalformedProxyLink(String::from("x")).message(),
        "代理链接格式不符请检查:x"
    );
    assert_eq!(
        ConvertError::MalformedCipherPayload(String::from("x")).message(),
        "解析ss类型失败:x"
    );
    assert_eq!(
        ConvertError::MalformedRuleTemplateLine(String::from("x")).message(),
        "ini配置文件格式错误,错误行内容:x"
    );
    assert_eq!(ConvertError::NetworkFetchFailure(String::from("x")).message(), "x");
    assert_eq!(ConvertError::RegexCompileFailure(String::from("x")).message(), "x");
    assert_eq!(ConvertError::SerializationFailure(String::from("x")).message(), "x");
}

#[test]
fn document_holds_what_it_is_given() {
    let proxies = analyze_source("trojan://p@h:1#n").unwrap();
    let records: Vec<_> = proxies.into_iter().map(|p| p.sub_data).collect();
    let given = records.clone();
    let config = generate_clash(records, Vec::new(), vec![String::from("MATCH,G")]);
    assert_eq!(config.proxies, given);
    assert_eq!(config.proxies.len(), 1);
    assert_eq!(
        serde_yaml::to_string(&config.proxies[0]).unwrap(),
        "name: n\npassword: p\nserver: h\nport: 1\nskip-cert-verify: false\nudp: true\ntype: trojan\n"
    );
    assert!(config.proxy_groups.is_empty());
    assert_eq!(config.rules, ["MATCH,G"]);
    assert_eq!(config.port, 7890);
}
