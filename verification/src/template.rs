//! The rule template: an INI-style text whose lines are directives.

use vstd::prelude::*;

use crate::error::{outcome, ConvertError, Failure};
use crate::rule::{content, content_lines};
use crate::text::{
    chars_of, is_text, lemma_split_char_plain, lemma_split_once_at_char, lines_of, split,
    split_at_first, split_char, split_once, string_of, strings_of, texts,
};

verus! {

/// What a line of the template asks for.
#[derive(Debug)]
pub enum Directive {
    /// Fetch the rule list at `url` and tag its rules with `group`.
    Ruleset { group: String, url: String },
    /// Build the proxy group that the text describes.
    Group(String),
    /// Nothing: the key is none that this library knows.
    Other,
}

/// A directive as a mathematical value.
pub enum Instruction {
    Ruleset { group: Seq<char>, url: Seq<char> },
    Group(Seq<char>),
    Other,
}

impl DeepView for Directive {
    type V = Instruction;

    open spec fn deep_view(&self) -> Instruction {
        match self {
            Directive::Ruleset { group, url } => Instruction::Ruleset { group: group@, url: url@ },
            Directive::Group(text) => Instruction::Group(text@),
            Directive::Other => Instruction::Other,
        }
    }
}

/// The lines of a template that carry directives: trimmed, without blank
/// lines and without the comments, which begin with `;`.
pub open spec fn template_lines(text: Seq<char>) -> Seq<Seq<char>> {
    content_lines(lines_of(text), ';')
}

/// The directive that a line stands for. The key is the text before the
/// first `=`, the value all that follows it. The value of `ruleset` is a
/// group and an address, separated by a comma: its first two fields. A line
/// without `=`, or a `ruleset` without an address, is malformed.
pub open spec fn directive_of(line: Seq<char>) -> Result<Instruction, Failure> {
    match split_once(line, seq!['=']) {
        None => Err(Failure::MalformedRuleTemplateLine(line)),
        Some((key, value)) => if key == "ruleset"@ {
            let fields = split_char(value, ',');
            if fields.len() >= 2 {
                Ok(Instruction::Ruleset { group: fields[0], url: fields[1] })
            } else {
                Err(Failure::MalformedRuleTemplateLine(line))
            }
        } else if key == "custom_proxy_group"@ {
            Ok(Instruction::Group(value))
        } else {
            Ok(Instruction::Other)
        },
    }
}

/// A `ruleset` whose value holds no comma names no address: the line is
/// malformed, and so nothing is fetched for it and no rule is added.
pub proof fn lemma_ruleset_needs_address(value: Seq<char>)
    requires
        !value.contains(','),
    ensures
        directive_of("ruleset"@ + seq!['='] + value) == Err::<Instruction, _>(
            Failure::MalformedRuleTemplateLine("ruleset"@ + seq!['='] + value),
        ),
{
    reveal_strlit("ruleset");
    assert(!"ruleset"@.contains('=')) by {
        assert forall|i: int| 0 <= i < "ruleset"@.len() implies "ruleset"@[i] != '=' by {}
    }
    lemma_split_once_at_char("ruleset"@, '=', value);
    lemma_split_char_plain(value, ',');
}

/// The lines of the template `text` that carry directives, in order.
pub fn directive_lines(text: &str) -> (r: Vec<String>)
    ensures
        r.deep_view() == template_lines(text@),
{
    strings_of(&content(text, ';'))
}

/// Reads one line of the template as a directive. Fails with
/// `MalformedRuleTemplateLine` and the line where the line has no `=`, or is
/// a `ruleset` whose value holds no comma.
pub fn read_directive(line: &str) -> (r: Result<Directive, ConvertError>)
    ensures
        outcome(r) == directive_of(line@),
{
    let mut equals: Vec<char> = Vec::new();
    equals.push('=');
    assert(equals@ == seq!['=']);
    match split_at_first(&chars_of(line), &equals) {
        None => Err(ConvertError::MalformedRuleTemplateLine(line.to_owned())),
        Some((key, value)) => {
            if is_text(&key, "ruleset") {
                let fields = split(&value, ',');
                if fields.len() >= 2 {
                    assert(texts(fields@)[0] == fields@[0]@);
                    assert(texts(fields@)[1] == fields@[1]@);
                    Ok(
                        Directive::Ruleset {
                            group: string_of(&fields[0]),
                            url: string_of(&fields[1]),
                        },
                    )
                } else {
                    Err(ConvertError::MalformedRuleTemplateLine(line.to_owned()))
                }
            } else if is_text(&key, "custom_proxy_group") {
                Ok(Directive::Group(string_of(&value)))
            } else {
                Ok(Directive::Other)
            }
        },
    }
}

} // verus!
