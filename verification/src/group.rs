//! Proxy groups: reading a `custom_proxy_group` directive and expanding its
//! member pattern over the names of the known proxies.

use vstd::prelude::*;

use crate::entity::{GroupRecord, RuleGroup};
use crate::error::{outcome, ConvertError, Failure};
use crate::pattern::{pattern_compiles, pattern_matches, Matcher};
use crate::text::{
    chars_of, number_of, parse_u32, slice_of, split, split_char, starts_with, string_of,
    strings_of,
};
use crate::unicode::{compose, composed_of};

verus! {

/// A group without a name, a type or members.
pub open spec fn no_group() -> GroupRecord {
    GroupRecord {
        name: Seq::<char>::empty(),
        kind: Seq::<char>::empty(),
        members: Seq::<Seq<char>>::empty(),
        url: None,
        interval: None,
        strategy: None,
    }
}

/// What the fields of a directive are, each as it is written. The first
/// field is the name, the second the type. Of the others, one that begins
/// with `http` is the address to probe, one that writes a number is the
/// interval, and any other is a member token. A later address or interval
/// replaces an earlier one.
pub open spec fn read_fields(fields: Seq<Seq<char>>) -> GroupRecord
    decreases fields.len(),
{
    if fields.len() == 0 {
        no_group()
    } else {
        let before = read_fields(fields.drop_last());
        let field = fields.last();
        if fields.len() == 1 {
            GroupRecord { name: field, ..before }
        } else if fields.len() == 2 {
            GroupRecord { kind: field, ..before }
        } else if "http"@.is_prefix_of(field) {
            GroupRecord { url: Some(field), ..before }
        } else if number_of(field) is Some {
            GroupRecord { interval: number_of(field), ..before }
        } else {
            GroupRecord { members: before.members.push(field), ..before }
        }
    }
}

/// The composed form of each text, in order.
pub open spec fn composed_all(tokens: Seq<Seq<char>>) -> Seq<Seq<char>> {
    tokens.map_values(|t: Seq<char>| composed_of(t))
}

/// A member that begins with `[]` names a proxy or a group as it is.
pub open spec fn is_literal(token: Seq<char>) -> bool {
    "[]"@.is_prefix_of(token)
}

/// The member that a token stands for when it is not expanded: a literal
/// without its marker, the rest as it is; any other token as it is.
pub open spec fn plain_member(token: Seq<char>) -> Seq<char> {
    if is_literal(token) {
        token.skip(2)
    } else {
        token
    }
}

/// The members that the tokens stand for when none is expanded.
pub open spec fn plain_members(tokens: Seq<Seq<char>>) -> Seq<Seq<char>> {
    tokens.map_values(|t: Seq<char>| plain_member(t))
}

/// The token at index `k` is the first that is no literal.
pub open spec fn is_first_pattern(tokens: Seq<Seq<char>>, k: int) -> bool {
    0 <= k < tokens.len() && !is_literal(tokens[k]) && forall|j: int|
        0 <= j < k ==> is_literal(#[trigger] tokens[j])
}

/// The index of the first token that is no literal, if there is one.
pub open spec fn first_pattern(tokens: Seq<Seq<char>>) -> Option<int> {
    if exists|k: int| is_first_pattern(tokens, k) {
        Some(choose|k: int| is_first_pattern(tokens, k))
    } else {
        None
    }
}

/// The names that the pattern matches, in the order of `names`.
pub open spec fn matching(pattern: Seq<char>, names: Seq<Seq<char>>) -> Seq<Seq<char>>
    decreases names.len(),
{
    if names.len() == 0 {
        Seq::<Seq<char>>::empty()
    } else {
        let before = matching(pattern, names.drop_last());
        if pattern_matches(pattern, names.last()) {
            before.push(names.last())
        } else {
            before
        }
    }
}

/// `members` with the one at `index` replaced by `replacement`, which may
/// hold any number of members.
pub open spec fn spliced(members: Seq<Seq<char>>, index: int, replacement: Seq<Seq<char>>) -> Seq<
    Seq<char>,
> {
    members.take(index) + replacement + members.skip(index + 1)
}

/// The members of a group. The first token that is no literal is a regular
/// expression: the names that it matches take its place, in the order of
/// `names`. Literals lose their marker; later tokens that are no literals
/// stay as they are. A first pattern that does not compile fails the group.
pub open spec fn expanded(tokens: Seq<Seq<char>>, names: Seq<Seq<char>>) -> Result<
    Seq<Seq<char>>,
    Failure,
> {
    match first_pattern(tokens) {
        None => Ok(plain_members(tokens)),
        Some(k) => if pattern_compiles(tokens[k]) {
            Ok(spliced(plain_members(tokens), k, matching(tokens[k], names)))
        } else {
            Err(Failure::RegexCompileFailure(tokens[k]))
        },
    }
}

/// The group that a `custom_proxy_group` directive describes. Its fields
/// are separated by backticks. The name and the member tokens are taken in
/// composed form, and the tokens are expanded over `names`.
pub open spec fn group_of(group: Seq<char>, names: Seq<Seq<char>>) -> Result<GroupRecord, Failure> {
    let raw = read_fields(split_char(group, '`'));
    match expanded(composed_all(raw.members), names) {
        Ok(members) => Ok(GroupRecord { name: composed_of(raw.name), members, ..raw }),
        Err(f) => Err(f),
    }
}

/// The test that a pattern puts names to.
pub open spec fn matched_by(pattern: Seq<char>) -> spec_fn(Seq<char>) -> bool {
    |name: Seq<char>| pattern_matches(pattern, name)
}

/// The names that a pattern matches are the names that pass its test, each
/// as often and in the order in which `names` holds it.
pub proof fn lemma_matching_is_filter(pattern: Seq<char>, names: Seq<Seq<char>>)
    ensures
        matching(pattern, names) == names.filter(matched_by(pattern)),
    decreases names.len(),
{
    reveal(Seq::filter);
    if names.len() > 0 {
        lemma_matching_is_filter(pattern, names.drop_last());
    }
}

/// A group without a pattern among its tokens has one member for each
/// token; a group with a pattern has the matches in the pattern's place and
/// one member for each other token.
pub proof fn lemma_expanded_len(tokens: Seq<Seq<char>>, names: Seq<Seq<char>>)
    requires
        expanded(tokens, names) is Ok,
    ensures
        expanded(tokens, names)->Ok_0.len() == (match first_pattern(tokens) {
            None => tokens.len() as int,
            Some(k) => tokens.len() - 1 + matching(tokens[k], names).len(),
        }),
{
    match first_pattern(tokens) {
        None => {},
        Some(k) => {
            assert(is_first_pattern(tokens, k));
        },
    }
}

/// A first pattern is the only first pattern.
pub proof fn lemma_first_pattern_is(tokens: Seq<Seq<char>>, k: int)
    requires
        is_first_pattern(tokens, k),
    ensures
        first_pattern(tokens) == Some(k),
{
    let c = choose|c: int| is_first_pattern(tokens, c);
    if c < k {
        assert(is_literal(tokens[c]));
    } else if k < c {
        assert(is_literal(tokens[k]));
    }
}

/// Replaces the member at `index` by the members of `replacement`.
pub fn splice_members(members: Vec<String>, index: usize, replacement: Vec<String>) -> (r: Vec<
    String,
>)
    requires
        index < members.len(),
    ensures
        r.deep_view() == spliced(members.deep_view(), index as int, replacement.deep_view()),
{
    let mut members = members;
    let mut replacement = replacement;
    let ghost all = members.deep_view();
    let ghost middle = replacement.deep_view();
    let mut tail = members.split_off(index + 1);
    assert(tail.deep_view() == all.skip(index + 1));
    members.pop();
    assert(members.deep_view() == all.take(index as int));
    members.append(&mut replacement);
    assert(members.deep_view() == all.take(index as int) + middle);
    members.append(&mut tail);
    assert(members.deep_view() == all.take(index as int) + middle + all.skip(index + 1));
    members
}

/// The names that the matcher's pattern matches, in the order of `names`.
fn matching_names(matcher: &Matcher, names: &Vec<String>) -> (r: Vec<String>)
    ensures
        r.deep_view() == matching(matcher.pattern(), names.deep_view()),
{
    let mut out: Vec<String> = Vec::new();
    let mut i: usize = 0;
    assert(names.deep_view().take(0) == Seq::<Seq<char>>::empty());
    while i < names.len()
        invariant
            i <= names.len(),
            out.deep_view() == matching(matcher.pattern(), names.deep_view().take(i as int)),
        decreases names.len() - i,
    {
        proof {
            let next = names.deep_view().take(i + 1);
            assert(next.drop_last() == names.deep_view().take(i as int));
            assert(next.last() == names@[i as int]@);
        }
        if matcher.is_match(names[i].as_str()) {
            let ghost before = out.deep_view();
            let name = names[i].clone();
            out.push(name);
            assert(out.deep_view() == before.push(name@));
        }
        i += 1;
    }
    assert(names.deep_view().take(names.len() as int) == names.deep_view());
    out
}

/// The members that the tokens of a group stand for, with the first pattern
/// among them expanded over `names`. Fails with `RegexCompileFailure` and the
/// pattern where that pattern does not compile.
pub fn expand_members(tokens: Vec<String>, names: &Vec<String>) -> (r: Result<
    Vec<String>,
    ConvertError,
>)
    ensures
        outcome(r) == expanded(tokens.deep_view(), names.deep_view()),
{
    let marker = chars_of("[]");
    proof {
        reveal_strlit("[]");
    }
    let mut members: Vec<String> = Vec::new();
    let mut pattern_at: Option<usize> = None;
    let mut i: usize = 0;
    assert(tokens.deep_view().take(0) == Seq::<Seq<char>>::empty());
    while i < tokens.len()
        invariant
            i <= tokens.len(),
            marker@ == "[]"@,
            marker@.len() == 2,
            members.deep_view() == plain_members(tokens.deep_view().take(i as int)),
            match pattern_at {
                Some(k) => k < i && is_first_pattern(tokens.deep_view(), k as int),
                None => forall|j: int| 0 <= j < i ==> is_literal(#[trigger] tokens.deep_view()[j]),
            },
        decreases tokens.len() - i,
    {
        let token = chars_of(tokens[i].as_str());
        assert(token@ == tokens.deep_view()[i as int]);
        let ghost before = members.deep_view();
        if starts_with(&token, &marker) {
            let name = string_of(&slice_of(&token, marker.len(), token.len()));
            assert(name@ == token@.skip(2));
            members.push(name);
            assert(members.deep_view() == before.push(name@));
        } else {
            if pattern_at.is_none() {
                pattern_at = Some(i);
            }
            let name = string_of(&token);
            members.push(name);
            assert(members.deep_view() == before.push(name@));
        }
        assert(members.deep_view() == plain_members(tokens.deep_view().take(i + 1)));
        i += 1;
    }
    assert(tokens.deep_view().take(tokens.len() as int) == tokens.deep_view());
    match pattern_at {
        None => {
            proof {
                assert forall|k: int| !is_first_pattern(tokens.deep_view(), k) by {
                    if 0 <= k < tokens.len() {
                        assert(is_literal(tokens.deep_view()[k]));
                    }
                }
            }
            Ok(members)
        },
        Some(k) => {
            proof {
                lemma_first_pattern_is(tokens.deep_view(), k as int);
            }
            match Matcher::compile(tokens[k].as_str()) {
                Ok(matcher) => {
                    let found = matching_names(&matcher, names);
                    Ok(splice_members(members, k, found))
                },
                Err(_) => Err(ConvertError::RegexCompileFailure(tokens[k].clone())),
            }
        },
    }
}

/// Tells the fields of a directive apart, each left as it is written: the
/// name, the type, the address to probe, the interval and the member tokens.
pub fn classify_fields(fields: &Vec<String>) -> (r: RuleGroup)
    ensures
        r.deep_view() == read_fields(fields.deep_view()),
{
    let http = chars_of("http");
    let mut draft = RuleGroup {
        group_name: String::new(),
        group_type: String::new(),
        proxies: Vec::new(),
        url: None,
        interval: None,
        strategy: None,
    };
    let mut i: usize = 0;
    assert(fields.deep_view().take(0) == Seq::<Seq<char>>::empty());
    assert(draft.proxies.deep_view() == Seq::<Seq<char>>::empty());
    assert(draft.deep_view() == no_group());
    while i < fields.len()
        invariant
            i <= fields.len(),
            http@ == "http"@,
            draft.deep_view() == read_fields(fields.deep_view().take(i as int)),
        decreases fields.len() - i,
    {
        proof {
            let next = fields.deep_view().take(i + 1);
            assert(next.drop_last() == fields.deep_view().take(i as int));
            assert(next.last() == fields@[i as int]@);
        }
        let field = chars_of(fields[i].as_str());
        if i == 0 {
            draft.group_name = fields[i].clone();
        } else if i == 1 {
            draft.group_type = fields[i].clone();
        } else if starts_with(&field, &http) {
            draft.url = Some(fields[i].clone());
        } else {
            match parse_u32(&field) {
                Some(n) => {
                    draft.interval = Some(n);
                },
                None => {
                    let ghost before = draft.proxies.deep_view();
                    let member = fields[i].clone();
                    draft.proxies.push(member);
                    assert(draft.proxies.deep_view() == before.push(member@));
                },
            }
        }
        i += 1;
    }
    assert(fields.deep_view().take(fields.len() as int) == fields.deep_view());
    draft
}

/// The composed form of each text, in order.
fn compose_all(tokens: &Vec<String>) -> (r: Vec<String>)
    ensures
        r.deep_view() == composed_all(tokens.deep_view()),
{
    let mut out: Vec<String> = Vec::new();
    let mut i: usize = 0;
    while i < tokens.len()
        invariant
            i <= tokens.len(),
            out.deep_view() == composed_all(tokens.deep_view()).take(i as int),
        decreases tokens.len() - i,
    {
        let ghost before = out.deep_view();
        let token = compose(tokens[i].as_str());
        out.push(token);
        assert(out.deep_view() == before.push(token@));
        i += 1;
    }
    out
}

/// Reads a `custom_proxy_group` directive and expands its member pattern
/// over the names of the known proxies.
pub fn save_group(group: &str, proxies_name: &Vec<String>) -> (r: Result<RuleGroup, ConvertError>)
    ensures
        outcome(r) == group_of(group@, proxies_name.deep_view()),
{
    let fields = strings_of(&split(&chars_of(group), '`'));
    let raw = classify_fields(&fields);
    let tokens = compose_all(&raw.proxies);
    match expand_members(tokens, proxies_name) {
        Ok(members) => Ok(
            RuleGroup {
                group_name: compose(raw.group_name.as_str()),
                group_type: raw.group_type,
                proxies: members,
                url: raw.url,
                interval: raw.interval,
                strategy: raw.strategy,
            },
        ),
        Err(e) => Err(e),
    }
}

} // verus!
