//! Rule lists: which lines of a remote list become rules of the document,
//! and how each is tagged with its group.

use vstd::prelude::*;

use crate::constant::clash_constant::FORMAT_RULE_TYPE;
use crate::text::{
    chars_of, is_text, join, join_with, lemma_join_with_more, lemma_split_char_more,
    lemma_split_char_plain, lines,
    lines_of, split, split_char, string_of, texts, trim, trimmed,
};
use crate::unicode::{to_uppercase, uppercase_of};

verus! {

/// A line carries content where it is not empty and does not begin with the
/// comment marker.
pub open spec fn is_content(line: Seq<char>, marker: char) -> bool {
    line.len() > 0 && line[0] != marker
}

/// The lines that carry content, each without the white space around it, in
/// order.
pub open spec fn content_lines(lines: Seq<Seq<char>>, marker: char) -> Seq<Seq<char>>
    decreases lines.len(),
{
    if lines.len() == 0 {
        Seq::<Seq<char>>::empty()
    } else {
        let before = content_lines(lines.drop_last(), marker);
        let line = trimmed(lines.last());
        if is_content(line, marker) {
            before.push(line)
        } else {
            before
        }
    }
}

/// The lines of `text` that carry content: each line is trimmed, and blank
/// lines and lines that begin with `marker` are left out.
pub fn content(text: &str, marker: char) -> (r: Vec<Vec<char>>)
    ensures
        texts(r@) == content_lines(lines_of(text@), marker),
{
    let all = lines(&chars_of(text));
    let mut out: Vec<Vec<char>> = Vec::new();
    let mut i: usize = 0;
    assert(texts(all@).take(0) == Seq::<Seq<char>>::empty());
    while i < all.len()
        invariant
            i <= all.len(),
            texts(out@) == content_lines(texts(all@).take(i as int), marker),
        decreases all.len() - i,
    {
        proof {
            let next = texts(all@).take(i + 1);
            assert(next.drop_last() == texts(all@).take(i as int));
            assert(next.last() == all@[i as int]@);
        }
        let line = trim(&all[i]);
        if line.len() > 0 && line[0] != marker {
            let ghost before = texts(out@);
            out.push(line);
            assert(texts(out@) == before.push(line@));
        }
        i += 1;
    }
    assert(texts(all@).take(all.len() as int) == texts(all@));
    out
}

/// Whether `tag` is one of the rule types that a document may hold.
pub open spec fn is_rule_type(tag: Seq<char>) -> bool {
    exists|i: int| 0 <= i < FORMAT_RULE_TYPE@.len() && (#[trigger] FORMAT_RULE_TYPE@[i])@ == tag
}

/// Whether `tag` is one of the rule types that a document may hold.
pub fn is_accepted_rule_type(tag: &str) -> (r: bool)
    ensures
        r == is_rule_type(tag@),
{
    let chars = chars_of(tag);
    let mut i: usize = 0;
    while i < FORMAT_RULE_TYPE.len()
        invariant
            i <= FORMAT_RULE_TYPE@.len(),
            chars@ == tag@,
            forall|k: int| 0 <= k < i ==> (#[trigger] FORMAT_RULE_TYPE@[k])@ != tag@,
        decreases FORMAT_RULE_TYPE@.len() - i,
    {
        if is_text(&chars, FORMAT_RULE_TYPE[i]) {
            return true;
        }
        i += 1;
    }
    false
}

/// The fields of a rule with the group put in: as the third field where the
/// rule has two fields or more, as the second where it has one.
pub open spec fn with_group(fields: Seq<Seq<char>>, group: Seq<char>) -> Seq<Seq<char>> {
    if fields.len() > 1 {
        fields.insert(2, group)
    } else {
        fields.insert(1, group)
    }
}

/// The rule that a line gives once its type, in capitals, is known: the
/// line's fields with the group put in, joined by commas, where the type is
/// accepted; nothing otherwise.
pub open spec fn tagged_rule(line: Seq<char>, group: Seq<char>, upper_type: Seq<char>) -> Option<
    Seq<char>,
> {
    if is_rule_type(upper_type) {
        Some(join_with(with_group(split_char(line, ','), group), seq![',']))
    } else {
        None
    }
}

/// The rule that a line of a rule list gives for the group `group`. The
/// line's type is its first field, whatever the case of its letters.
pub open spec fn rule_of(line: Seq<char>, group: Seq<char>) -> Option<Seq<char>> {
    tagged_rule(line, group, uppercase_of(split_char(line, ',')[0]))
}

/// The rules that the lines give, in order.
pub open spec fn rules_from(lines: Seq<Seq<char>>, group: Seq<char>) -> Seq<Seq<char>>
    decreases lines.len(),
{
    if lines.len() == 0 {
        Seq::<Seq<char>>::empty()
    } else {
        let before = rules_from(lines.drop_last(), group);
        match rule_of(lines.last(), group) {
            Some(rule) => before.push(rule),
            None => before,
        }
    }
}

/// The rules that a rule list gives for the group `group`. Lines that begin
/// with `#` are comments.
pub open spec fn rules_of(body: Seq<char>, group: Seq<char>) -> Seq<Seq<char>> {
    rules_from(content_lines(lines_of(body), '#'), group)
}

/// A rule of one field gets the group as its second field; a rule of two
/// fields gets it as its third. A rule whose type is not accepted gives
/// nothing.
pub proof fn lemma_rule_of_few_fields(kind: Seq<char>, value: Seq<char>, group: Seq<char>)
    requires
        !kind.contains(','),
        !value.contains(','),
    ensures
        rule_of(kind, group) == (if is_rule_type(uppercase_of(kind)) {
            Some(kind + seq![','] + group)
        } else {
            None
        }),
        rule_of(kind + seq![','] + value, group) == (if is_rule_type(uppercase_of(kind)) {
            Some(kind + seq![','] + value + seq![','] + group)
        } else {
            None
        }),
{
    let comma = seq![','];
    lemma_split_char_plain(kind, ',');
    lemma_split_char_more(kind, ',', value);
    let one = seq![kind];
    let two = seq![kind, value];
    assert(split_char(kind + comma + value, ',') =~= two);
    let tagged_one = with_group(one, group);
    assert(tagged_one =~= one.push(group));
    lemma_join_with_more(one, comma, kind);
    lemma_join_with_more(one, comma, group);
    assert(join_with(tagged_one, comma) == kind + comma + group);
    let tagged_two = with_group(two, group);
    assert(two =~= one.push(value));
    assert(tagged_two =~= two.push(group));
    lemma_join_with_more(one, comma, value);
    lemma_join_with_more(two, comma, group);
    assert(join_with(tagged_two, comma) == kind + comma + value + comma + group);
}

/// Tags the rule `line` with `group_name`, given the rule's type in
/// capitals. A rule of a type that is not accepted gives nothing.
pub fn tag_rule(line: &str, group_name: &str, upper_type: &str) -> (r: Option<String>)
    ensures
        r.deep_view() == tagged_rule(line@, group_name@, upper_type@),
{
    if !is_accepted_rule_type(upper_type) {
        return None;
    }
    let mut fields = split(&chars_of(line), ',');
    let ghost before = texts(fields@);
    let group = chars_of(group_name);
    if fields.len() > 1 {
        fields.insert(2, group);
        assert(texts(fields@) == before.insert(2, group_name@));
    } else {
        fields.insert(1, group);
        assert(texts(fields@) == before.insert(1, group_name@));
    }
    let mut comma: Vec<char> = Vec::new();
    comma.push(',');
    assert(comma@ == seq![',']);
    let joined = join(&fields, &comma);
    Some(string_of(&joined))
}

/// The rule that the line `line` of a rule list gives for `group_name`.
pub fn rule_entry(line: &str, group_name: &str) -> (r: Option<String>)
    ensures
        r.deep_view() == rule_of(line@, group_name@),
{
    let fields = split(&chars_of(line), ',');
    assert(texts(fields@)[0] == fields@[0]@);
    let kind = string_of(&fields[0]);
    let upper = to_uppercase(kind.as_str());
    tag_rule(line, group_name, upper.as_str())
}

/// Appends to `rules` the rules that the rule list `rule_config` gives for
/// `group_name`, in the list's order. Blank lines, comments and rules of
/// other types are left out.
pub fn save_rules(group_name: &str, rule_config: &str, rules: &mut Vec<String>)
    ensures
        final(rules).deep_view() == old(rules).deep_view() + rules_of(rule_config@, group_name@),
{
    let kept = content(rule_config, '#');
    let mut i: usize = 0;
    assert(texts(kept@).take(0) == Seq::<Seq<char>>::empty());
    assert(rules.deep_view() == old(rules).deep_view() + Seq::<Seq<char>>::empty());
    while i < kept.len()
        invariant
            i <= kept.len(),
            rules.deep_view() == old(rules).deep_view() + rules_from(
                texts(kept@).take(i as int),
                group_name@,
            ),
        decreases kept.len() - i,
    {
        proof {
            let next = texts(kept@).take(i + 1);
            assert(next.drop_last() == texts(kept@).take(i as int));
            assert(next.last() == kept@[i as int]@);
        }
        let line = string_of(&kept[i]);
        match rule_entry(line.as_str(), group_name) {
            Some(rule) => {
                let ghost before = rules.deep_view();
                rules.push(rule);
                assert(rules.deep_view() == before.push(rule@));
            },
            None => {},
        }
        i += 1;
    }
    assert(texts(kept@).take(kept.len() as int) == texts(kept@));
}

} // verus!
