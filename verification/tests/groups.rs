use sub_rust::error::ConvertError;
use sub_rust::group::{classify_fields, expand_members, save_group, splice_members};

fn names(list: &[&str]) -> Vec<String> {
    list.iter().map(|s| s.to_string()).collect()
}

#[test]
fn group_with_a_pattern_between_literals() {
    let proxies = names(&["US 01", "HK 01", "US 02", "JP", "mUS"]);
    let group = save_group("Auto`url-test`[]Direct`^US.*`http://x`300", &proxies).unwrap();
    assert_eq!(group.group_name, "Auto");
    assert_eq!(group.group_type, "url-test");
    assert_eq!(group.url.as_deref(), Some("http://x"));
    assert_eq!(group.interval, Some(300));
    assert_eq!(group.proxies, ["Direct", "US 01", "US 02"]);
    assert_eq!(group.strategy, None);
}

#[test]
fn matches_take_the_place_of_the_pattern() {
    let proxies = names(&["a1", "b1", "a2"]);
    let group = save_group("G`select`[]X`^a`[]Y`[]Z", &proxies).unwrap();
    assert_eq!(group.proxies, ["X", "a1", "a2", "Y", "Z"]);
    let group = save_group("G`select`^a`[]Y", &proxies).unwrap();
    assert_eq!(group.proxies, ["a1", "a2", "Y"]);
    let group = save_group("G`select`[]X`1$", &proxies).unwrap();
    assert_eq!(group.proxies, ["X", "a1", "b1"]);
    let group = save_group("G`select`.*", &proxies).unwrap();
    assert_eq!(group.proxies, ["a1", "b1", "a2"]);
}

#[test]
fn pattern_without_a_match_leaves_no_member() {
    let proxies = names(&["a1", "b1"]);
    let group = save_group("G`select`[]X`^z`[]Y", &proxies).unwrap();
    assert_eq!(group.proxies, ["X", "Y"]);
    let group = save_group("G`select`^z", &[].to_vec()).unwrap();
    assert!(group.proxies.is_empty());
}

#[test]
fn only_the_first_pattern_is_expanded() {
    let proxies = names(&["a1", "b1", "a2"]);
    let group = save_group("G`select`^a`^b`[]Y`(", &proxies).unwrap();
    assert_eq!(group.proxies, ["a1", "a2", "^b", "Y", "("]);
    let group = save_group("G`select`^z`^b", &proxies).unwrap();
    assert_eq!(group.proxies, ["^b"]);
}

#[test]
fn pattern_that_does_not_compile_fails_the_group() {
    let proxies = names(&["a1"]);
    match save_group("G`select`[]X`(a", &proxies) {
        Err(ConvertError::RegexCompileFailure(p)) => assert_eq!(p, "(a"),
        other => panic!("{:?}", other),
    }
    match save_group("G`select`*`^a", &proxies) {
        Err(ConvertError::RegexCompileFailure(p)) => assert_eq!(p, "*"),
        other => panic!("{:?}", other),
    }
}

#[test]
fn literals_lose_their_marker() {
    let group = save_group("G`select`[]DIRECT`[][]x`[]`[]a[]", &names(&["p"])).unwrap();
    assert_eq!(group.proxies, ["DIRECT", "[]x", "", "a[]"]);
}

#[test]
fn only_one_marker_is_taken_from_a_literal() {
    let group = save_group("G`select`[][]A", &names(&[])).unwrap();
    assert_eq!(group.proxies, ["[]A"]);
    let found = expand_members(names(&["[][][]", "[] []x"]), &names(&["p"])).unwrap();
    assert_eq!(found, ["[][]", " []x"]);
}

#[test]
fn fields_are_classified_as_they_are_written() {
    let raw = classify_fields(&names(&[
        "Cafe\u{301}", "select", "[]A", "^e\u{301}", "http://x", "300", "https://y", "+7", "-1",
    ]));
    assert_eq!(raw.group_name, "Cafe\u{301}");
    assert_eq!(raw.group_type, "select");
    assert_eq!(raw.proxies, ["[]A", "^e\u{301}", "-1"]);
    assert_eq!(raw.url.as_deref(), Some("https://y"));
    assert_eq!(raw.interval, Some(7));
    assert_eq!(raw.strategy, None);
    let raw = classify_fields(&names(&[]));
    assert_eq!(raw.group_name, "");
    assert_eq!(raw.group_type, "");
    assert!(raw.proxies.is_empty());
    let raw = classify_fields(&names(&["http://n", "12"]));
    assert_eq!(raw.group_name, "http://n");
    assert_eq!(raw.group_type, "12");
    assert_eq!(raw.url, None);
    assert_eq!(raw.interval, None);
}

#[test]
fn fields_are_told_apart_by_their_shape() {
    let group = save_group("G`fallback`http://a`[]P`https://b`10`+20`[]Q", &names(&[])).unwrap();
    assert_eq!(group.url.as_deref(), Some("https://b"));
    assert_eq!(group.interval, Some(20));
    assert_eq!(group.proxies, ["P", "Q"]);
    let group = save_group("G`select`[]4294967296`[]-1", &names(&[])).unwrap();
    assert_eq!(group.interval, None);
    assert_eq!(group.proxies, ["4294967296", "-1"]);
    let group = save_group("http://n`300`[]P", &names(&[])).unwrap();
    assert_eq!(group.group_name, "http://n");
    assert_eq!(group.group_type, "300");
    assert_eq!(group.url, None);
    assert_eq!(group.interval, None);
    assert_eq!(group.proxies, ["P"]);
}

#[test]
fn group_of_few_fields() {
    let group = save_group("Solo", &names(&["a"])).unwrap();
    assert_eq!(group.group_name, "Solo");
    assert_eq!(group.group_type, "");
    assert!(group.proxies.is_empty());
    let group = save_group("", &names(&["a"])).unwrap();
    assert_eq!(group.group_name, "");
    assert_eq!(group.group_type, "");
    let group = save_group("N`T`", &names(&["a", "b"])).unwrap();
    assert_eq!(group.proxies, ["a", "b"]);
}

#[test]
fn names_and_members_are_composed() {
    let group = save_group("Cafe\u{301}`Se\u{301}lect`[]re\u{301}sume\u{301}", &names(&[])).unwrap();
    assert_eq!(group.group_name, "Caf\u{e9}");
    assert_eq!(group.group_type, "Se\u{301}lect");
    assert_eq!(group.proxies, ["r\u{e9}sum\u{e9}"]);
    let proxies = names(&["caf\u{e9} 1", "cafe\u{301} 2"]);
    let group = save_group("G`select`^cafe\u{301}", &proxies).unwrap();
    assert_eq!(group.proxies, ["caf\u{e9} 1"]);
}

#[test]
fn members_are_expanded_over_the_names() {
    let tokens = names(&["[]A", "b.", "c."]);
    let found = expand_members(tokens, &names(&["b1", "c1", "b2"])).unwrap();
    assert_eq!(found, ["A", "b1", "b2", "c."]);
    let found = expand_members(names(&[]), &names(&["b1"])).unwrap();
    assert!(found.is_empty());
    let found = expand_members(names(&["[]A", "[]B"]), &names(&["b1"])).unwrap();
    assert_eq!(found, ["A", "B"]);
    assert!(matches!(
        expand_members(names(&["[]A", "[", "[]B"]), &names(&["b1"])),
        Err(ConvertError::RegexCompileFailure(_))
    ));
}

#[test]
fn splice_replaces_one_member_by_many() {
    let members = names(&["a", "b", "c"]);
    assert_eq!(
        splice_members(names(&["a", "b", "c"]), 1, names(&["x", "y"])),
        ["a", "x", "y", "c"]
    );
    assert_eq!(splice_members(names(&["a", "b", "c"]), 0, names(&[])), ["b", "c"]);
    assert_eq!(splice_members(names(&["a", "b", "c"]), 2, names(&["z"])), ["a", "b", "z"]);
    assert_eq!(splice_members(names(&["a"]), 0, names(&[])), Vec::<String>::new());
    assert_eq!(members.len(), 3);
}

#[test]
fn names_are_matched_anywhere_in_the_text() {
    let proxies = names(&["US 01", "HK 01", "aUS", "us"]);
    let group = save_group("G`select`US", &proxies).unwrap();
    assert_eq!(group.proxies, ["US 01", "aUS"]);
    let group = save_group("G`select`(?i)^us", &proxies).unwrap();
    assert_eq!(group.proxies, ["US 01", "us"]);
    let group = save_group("G`select`^(HK|us)", &proxies).unwrap();
    assert_eq!(group.proxies, ["HK 01", "us"]);
}
