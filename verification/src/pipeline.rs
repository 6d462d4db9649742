//! The pipeline of a conversion as a state machine.
//!
//! The stages run in one order: fetch the subscription, read its proxies,
//! fetch the rule template, interpret its directives (fetching each rule
//! list as its directive is reached), assemble the document, write it out.
//! The machine fetches and writes nothing itself: each step hands out what
//! is to be done next and takes the reply. A failure ends the run; no later
//! stage runs after it and no part of a document is handed out.

use serde_yaml::Mapping;
use vstd::prelude::*;

use crate::entity::{
    records_of, ClashProxyConfig, ConfigDocument, GroupRecord, Proxy, ProxyRecord, Request,
    RespInfo, Response, RuleGroup, SubInput,
};
use crate::error::{message_of, ConvertError, Failure};
use crate::group::{group_of, save_group};
use crate::mapping::{entries_of, FieldValue};
use crate::rule::{rules_of, save_rules};
use crate::server::{analyze_source, document_of, generate_clash, source_proxies};
use crate::template::{directive_lines, directive_of, read_directive, template_lines, Directive, Instruction};

verus! {

/// Where a conversion stands.
#[derive(Debug)]
pub enum Pipeline {
    /// The subscription is being fetched.
    FetchSource { rule_config: String },
    /// The rule template is being fetched.
    FetchTemplate { proxies: Vec<Proxy> },
    /// The rule list of a `ruleset` directive is being fetched; `next` is the
    /// index of the line after that directive.
    InterpretDirectives {
        proxies: Vec<Proxy>,
        lines: Vec<String>,
        next: usize,
        groups: Vec<RuleGroup>,
        rules: Vec<String>,
        group_name: String,
    },
    /// The document is being written out.
    Serialize,
    /// The conversion has ended with the written document.
    Success(String),
    /// The conversion has ended with a failure.
    Failed(ConvertError),
}

/// The state of a conversion as a mathematical value.
pub enum Phase {
    FetchSource { rule_config: Seq<char> },
    FetchTemplate { proxies: Seq<ProxyRecord> },
    InterpretDirectives {
        proxies: Seq<ProxyRecord>,
        lines: Seq<Seq<char>>,
        next: int,
        groups: Seq<GroupRecord>,
        rules: Seq<Seq<char>>,
        group: Seq<char>,
    },
    Serialize,
    Success(Seq<char>),
    Failed(Failure),
}

impl DeepView for Pipeline {
    type V = Phase;

    open spec fn deep_view(&self) -> Phase {
        match self {
            Pipeline::FetchSource { rule_config } => Phase::FetchSource {
                rule_config: rule_config@,
            },
            Pipeline::FetchTemplate { proxies } => Phase::FetchTemplate {
                proxies: proxies.deep_view(),
            },
            Pipeline::InterpretDirectives { proxies, lines, next, groups, rules, group_name } => {
                Phase::InterpretDirectives {
                    proxies: proxies.deep_view(),
                    lines: lines.deep_view(),
                    next: *next as int,
                    groups: groups.deep_view(),
                    rules: rules.deep_view(),
                    group: group_name@,
                }
            },
            Pipeline::Serialize => Phase::Serialize,
            Pipeline::Success(text) => Phase::Success(text@),
            Pipeline::Failed(e) => Phase::Failed(e.deep_view()),
        }
    }
}

/// What is to be done next for a conversion.
#[derive(Debug)]
pub enum Action {
    /// Fetch the document at the address and reply with its text.
    Fetch(String),
    /// Write the document out and reply with the text.
    Serialize(ClashProxyConfig),
    /// Answer the caller; the conversion has ended.
    Respond(RespInfo),
}

/// An action as a mathematical value.
pub enum Order {
    Fetch(Seq<char>),
    Serialize(ConfigDocument),
    Respond(Response),
}

impl DeepView for Action {
    type V = Order;

    open spec fn deep_view(&self) -> Order {
        match self {
            Action::Fetch(url) => Order::Fetch(url@),
            Action::Serialize(config) => Order::Serialize(config.deep_view()),
            Action::Respond(resp) => Order::Respond(resp.deep_view()),
        }
    }
}

/// A reply as a mathematical value: the text that was asked for, or the
/// reason why there is none.
pub open spec fn reply_of(reply: Result<String, String>) -> Result<Seq<char>, Seq<char>> {
    match reply {
        Ok(text) => Ok(text@),
        Err(reason) => Err(reason@),
    }
}

/// The end of a conversion that failed: the answer is a server error with
/// the failure's text.
pub open spec fn failed(f: Failure) -> (Phase, Order) {
    (Phase::Failed(f), Order::Respond(Response { code: 500, body: message_of(f) }))
}

/// The end of a conversion that gave a document: the answer is the document.
pub open spec fn succeeded(text: Seq<char>) -> (Phase, Order) {
    (Phase::Success(text), Order::Respond(Response { code: 200, body: text }))
}

/// The names of the proxies, in order.
pub open spec fn names_of(proxies: Seq<ProxyRecord>) -> Seq<Seq<char>> {
    proxies.map_values(|p: ProxyRecord| p.name)
}

/// The records of the proxies, in order.
pub open spec fn fields_of_all(proxies: Seq<ProxyRecord>) -> Seq<Seq<(Seq<char>, FieldValue)>> {
    proxies.map_values(|p: ProxyRecord| p.fields)
}

/// Interprets the lines of the template from index `next` on, having
/// gathered `groups` and `rules` so far. A group is built and added at once;
/// a rule set hands out the fetch of its list and waits; a line that is
/// malformed, or a group that cannot be built, ends the conversion. After the
/// last line the document is assembled and handed out to be written.
pub open spec fn interpret(
    proxies: Seq<ProxyRecord>,
    lines: Seq<Seq<char>>,
    next: int,
    groups: Seq<GroupRecord>,
    rules: Seq<Seq<char>>,
) -> (Phase, Order)
    decreases lines.len() - next,
{
    if next < 0 || next >= lines.len() {
        (Phase::Serialize, Order::Serialize(document_of(fields_of_all(proxies), groups, rules)))
    } else {
        match directive_of(lines[next]) {
            Err(f) => failed(f),
            Ok(Instruction::Ruleset { group, url }) => (
                Phase::InterpretDirectives { proxies, lines, next: next + 1, groups, rules, group },
                Order::Fetch(url),
            ),
            Ok(Instruction::Group(text)) => match group_of(text, names_of(proxies)) {
                Err(f) => failed(f),
                Ok(group) => interpret(proxies, lines, next + 1, groups.push(group), rules),
            },
            Ok(Instruction::Other) => interpret(proxies, lines, next + 1, groups, rules),
        }
    }
}

/// The first state of a conversion and its first action: fetch the
/// subscription.
pub open spec fn start_of(request: Request) -> (Phase, Order) {
    (Phase::FetchSource { rule_config: request.rule_config }, Order::Fetch(request.source))
}

/// The state and the action that follow a reply.
///
/// A fetch that fails is a `NetworkFetchFailure`, a writing that fails a
/// `SerializationFailure`, each with the reason given. A conversion that has
/// ended stays as it is and answers again.
pub open spec fn step_of(phase: Phase, reply: Result<Seq<char>, Seq<char>>) -> (Phase, Order) {
    match phase {
        Phase::FetchSource { rule_config } => match reply {
            Err(reason) => failed(Failure::NetworkFetchFailure(reason)),
            Ok(body) => match source_proxies(body) {
                Err(f) => failed(f),
                Ok(proxies) => (Phase::FetchTemplate { proxies }, Order::Fetch(rule_config)),
            },
        },
        Phase::FetchTemplate { proxies } => match reply {
            Err(reason) => failed(Failure::NetworkFetchFailure(reason)),
            Ok(body) => interpret(
                proxies,
                template_lines(body),
                0,
                Seq::<GroupRecord>::empty(),
                Seq::<Seq<char>>::empty(),
            ),
        },
        Phase::InterpretDirectives { proxies, lines, next, groups, rules, group } => match reply {
            Err(reason) => failed(Failure::NetworkFetchFailure(reason)),
            Ok(body) => interpret(proxies, lines, next, groups, rules + rules_of(body, group)),
        },
        Phase::Serialize => match reply {
            Err(reason) => failed(Failure::SerializationFailure(reason)),
            Ok(text) => succeeded(text),
        },
        Phase::Success(text) => succeeded(text),
        Phase::Failed(f) => failed(f),
    }
}

/// `trace` is the run of a conversion of `request` over `replies`: it begins
/// with the first state and action, and each reply leads to the next.
pub open spec fn is_run(
    request: Request,
    replies: Seq<Result<Seq<char>, Seq<char>>>,
    trace: Seq<(Phase, Order)>,
) -> bool {
    &&& trace.len() == replies.len() + 1
    &&& trace[0] == start_of(request)
    &&& forall|i: int|
        0 <= i < replies.len() ==> #[trigger] trace[i + 1] == step_of(trace[i].0, replies[i])
}

/// Two runs of one request over the same replies pass through the same
/// states and hand out the same actions, the answer among them.
pub proof fn lemma_runs_agree(
    request: Request,
    replies: Seq<Result<Seq<char>, Seq<char>>>,
    first: Seq<(Phase, Order)>,
    second: Seq<(Phase, Order)>,
)
    requires
        is_run(request, replies, first),
        is_run(request, replies, second),
    ensures
        first == second,
{
    assert forall|k: int| 0 <= k < first.len() implies first[k] == second[k] by {
        lemma_runs_agree_up_to(request, replies, first, second, k);
    }
    assert(first =~= second);
}

/// Two runs of one request over the same replies agree at every index.
proof fn lemma_runs_agree_up_to(
    request: Request,
    replies: Seq<Result<Seq<char>, Seq<char>>>,
    first: Seq<(Phase, Order)>,
    second: Seq<(Phase, Order)>,
    k: int,
)
    requires
        is_run(request, replies, first),
        is_run(request, replies, second),
        0 <= k < first.len(),
    ensures
        first[k] == second[k],
    decreases k,
{
    if k > 0 {
        lemma_runs_agree_up_to(request, replies, first, second, k - 1);
        assert(first[k - 1 + 1] == step_of(first[k - 1].0, replies[k - 1]));
        assert(second[k - 1 + 1] == step_of(second[k - 1].0, replies[k - 1]));
    }
}

/// How far a conversion has come: the stages in their order, then the two
/// ends.
pub open spec fn progress(phase: Phase) -> nat {
    match phase {
        Phase::FetchSource { .. } => 0,
        Phase::FetchTemplate { .. } => 1,
        Phase::InterpretDirectives { .. } => 2,
        Phase::Serialize => 3,
        Phase::Success(_) => 4,
        Phase::Failed(_) => 4,
    }
}

/// The state and the action belong together: a fetch is awaited in the
/// fetching stages, the document is handed out at the writing stage and
/// nowhere else, and an answer is given at the two ends; a failure is
/// answered with a server error and its text, a success with the document.
pub open spec fn fits(phase: Phase, order: Order) -> bool {
    match phase {
        Phase::FetchSource { .. } => order is Fetch,
        Phase::FetchTemplate { .. } => order is Fetch,
        Phase::InterpretDirectives { .. } => order is Fetch,
        Phase::Serialize => order is Serialize,
        Phase::Success(text) => order == Order::Respond(Response { code: 200, body: text }),
        Phase::Failed(f) => order == Order::Respond(Response { code: 500, body: message_of(f) }),
    }
}

/// Interpreting the template leads to the fetch of a rule list, to the
/// writing of the document or to a failure, and the action fits the state.
pub proof fn lemma_interpret_goes_on(
    proxies: Seq<ProxyRecord>,
    lines: Seq<Seq<char>>,
    next: int,
    groups: Seq<GroupRecord>,
    rules: Seq<Seq<char>>,
)
    ensures
        progress(interpret(proxies, lines, next, groups, rules).0) >= 2,
        fits(
            interpret(proxies, lines, next, groups, rules).0,
            interpret(proxies, lines, next, groups, rules).1,
        ),
    decreases lines.len() - next,
{
    if 0 <= next < lines.len() {
        match directive_of(lines[next]) {
            Ok(Instruction::Group(text)) => match group_of(text, names_of(proxies)) {
                Ok(group) => {
                    lemma_interpret_goes_on(proxies, lines, next + 1, groups.push(group), rules);
                },
                Err(_) => {},
            },
            Ok(Instruction::Other) => {
                lemma_interpret_goes_on(proxies, lines, next + 1, groups, rules);
            },
            _ => {},
        }
    }
}

/// The stages run in their order: a step never leads back to an earlier
/// stage, and the action that it hands out fits the state that it leads to.
/// So no document is handed out before the last directive is interpreted,
/// and none after a failure.
pub proof fn lemma_stages_in_order(phase: Phase, reply: Result<Seq<char>, Seq<char>>)
    ensures
        progress(step_of(phase, reply).0) >= progress(phase),
        fits(step_of(phase, reply).0, step_of(phase, reply).1),
{
    match phase {
        Phase::FetchTemplate { proxies } => match reply {
            Ok(body) => {
                lemma_interpret_goes_on(
                    proxies,
                    template_lines(body),
                    0,
                    Seq::<GroupRecord>::empty(),
                    Seq::<Seq<char>>::empty(),
                );
            },
            Err(_) => {},
        },
        Phase::InterpretDirectives { proxies, lines, next, groups, rules, group } => match reply {
            Ok(body) => {
                lemma_interpret_goes_on(proxies, lines, next, groups, rules + rules_of(body, group));
            },
            Err(_) => {},
        },
        _ => {},
    }
}

/// A fetch that fails ends the conversion at once, whichever document was
/// awaited: the answer is the failure, and neither the proxies read so far
/// nor the rules gathered so far are handed out.
pub proof fn lemma_failed_fetch_ends(phase: Phase, reason: Seq<char>)
    requires
        phase is FetchSource || phase is FetchTemplate || phase is InterpretDirectives,
    ensures
        step_of(phase, Err(reason)) == failed(Failure::NetworkFetchFailure(reason)),
{
}

/// A conversion that has ended stays as it is, whatever reply comes.
pub proof fn lemma_ended_stays_ended(phase: Phase, reply: Result<Seq<char>, Seq<char>>)
    requires
        phase is Success || phase is Failed,
    ensures
        step_of(phase, reply).0 == phase,
        step_of(phase, reply).1 is Respond,
{
}

/// Ends the conversion with the failure `e`.
fn fail(e: ConvertError) -> (r: (Pipeline, Action))
    ensures
        (r.0.deep_view(), r.1.deep_view()) == failed(e.deep_view()),
{
    let body = e.message();
    (Pipeline::Failed(e), Action::Respond(RespInfo { code: 500, body }))
}

/// Ends the conversion with the written document `text`.
fn succeed(text: String) -> (r: (Pipeline, Action))
    ensures
        (r.0.deep_view(), r.1.deep_view()) == succeeded(text@),
{
    let body = text.clone();
    (Pipeline::Success(text), Action::Respond(RespInfo { code: 200, body }))
}

/// The names of the proxies, in order.
fn proxy_names(proxies: &Vec<Proxy>) -> (r: Vec<String>)
    ensures
        r.deep_view() == names_of(proxies.deep_view()),
{
    let mut out: Vec<String> = Vec::new();
    let mut i: usize = 0;
    while i < proxies.len()
        invariant
            i <= proxies.len(),
            out.deep_view() == names_of(proxies.deep_view()).take(i as int),
        decreases proxies.len() - i,
    {
        let ghost before = out.deep_view();
        let name = proxies[i].name.clone();
        out.push(name);
        assert(out.deep_view() == before.push(name@));
        i += 1;
    }
    out
}

/// The records of the proxies, in order.
fn proxy_records(proxies: Vec<Proxy>) -> (r: Vec<Mapping>)
    ensures
        records_of(r@) == fields_of_all(proxies.deep_view()),
{
    let ghost all = proxies.deep_view();
    let mut out: Vec<Mapping> = Vec::new();
    for proxy in it: proxies
        invariant
            it.seq().len() == all.len(),
            forall|k: int| 0 <= k < all.len() ==> (#[trigger] it.seq()[k]).deep_view() == all[k],
            records_of(out@) == fields_of_all(all).take(it.index() as int),
    {
        let ghost before = records_of(out@);
        out.push(proxy.sub_data);
        assert(records_of(out@) == before.push(entries_of(proxy.sub_data)));
    }
    out
}

/// Interprets the lines of the template from index `next` on.
fn interpret_from(
    proxies: Vec<Proxy>,
    lines: Vec<String>,
    next: usize,
    groups: Vec<RuleGroup>,
    rules: Vec<String>,
) -> (r: (Pipeline, Action))
    ensures
        (r.0.deep_view(), r.1.deep_view()) == interpret(
            proxies.deep_view(),
            lines.deep_view(),
            next as int,
            groups.deep_view(),
            rules.deep_view(),
        ),
{
    let names = proxy_names(&proxies);
    let mut built = groups;
    let mut at: usize = next;
    while at < lines.len()
        invariant
            names.deep_view() == names_of(proxies.deep_view()),
            interpret(
                proxies.deep_view(),
                lines.deep_view(),
                next as int,
                groups.deep_view(),
                rules.deep_view(),
            ) == interpret(
                proxies.deep_view(),
                lines.deep_view(),
                at as int,
                built.deep_view(),
                rules.deep_view(),
            ),
        decreases lines.len() - at,
    {
        assert(lines.deep_view()[at as int] == lines@[at as int]@);
        match read_directive(lines[at].as_str()) {
            Err(e) => {
                return fail(e);
            },
            Ok(Directive::Ruleset { group, url }) => {
                return (
                    Pipeline::InterpretDirectives {
                        proxies,
                        lines,
                        next: at + 1,
                        groups: built,
                        rules,
                        group_name: group,
                    },
                    Action::Fetch(url),
                );
            },
            Ok(Directive::Group(text)) => match save_group(text.as_str(), &names) {
                Err(e) => {
                    return fail(e);
                },
                Ok(group) => {
                    let ghost before = built.deep_view();
                    built.push(group);
                    assert(built.deep_view() == before.push(group.deep_view()));
                },
            },
            Ok(Directive::Other) => {},
        }
        at += 1;
    }
    let config = generate_clash(proxy_records(proxies), built, rules);
    (Pipeline::Serialize, Action::Serialize(config))
}

impl Pipeline {
    /// Begins a conversion: the first thing to do is to fetch the
    /// subscription.
    pub fn start(data: SubInput) -> (r: (Pipeline, Action))
        ensures
            (r.0.deep_view(), r.1.deep_view()) == start_of(data.deep_view()),
    {
        (Pipeline::FetchSource { rule_config: data.rule_config }, Action::Fetch(data.source))
    }

    /// Takes the reply to the last action and gives the next state and the
    /// next action.
    ///
    /// The reply to a fetch is the text of the document, the reply to a
    /// writing is the written text; either is the reason where there is no
    /// text. Once the action is `Respond` the conversion has ended.
    pub fn step(self, reply: Result<String, String>) -> (r: (Pipeline, Action))
        ensures
            (r.0.deep_view(), r.1.deep_view()) == step_of(self.deep_view(), reply_of(reply)),
    {
        match self {
            Pipeline::FetchSource { rule_config } => match reply {
                Err(reason) => fail(ConvertError::NetworkFetchFailure(reason)),
                Ok(body) => match analyze_source(body.as_str()) {
                    Err(e) => fail(e),
                    Ok(proxies) => (Pipeline::FetchTemplate { proxies }, Action::Fetch(rule_config)),
                },
            },
            Pipeline::FetchTemplate { proxies } => match reply {
                Err(reason) => fail(ConvertError::NetworkFetchFailure(reason)),
                Ok(body) => {
                    let lines = directive_lines(body.as_str());
                    let groups: Vec<RuleGroup> = Vec::new();
                    let rules: Vec<String> = Vec::new();
                    assert(groups.deep_view() == Seq::<GroupRecord>::empty());
                    assert(rules.deep_view() == Seq::<Seq<char>>::empty());
                    interpret_from(proxies, lines, 0, groups, rules)
                },
            },
            Pipeline::InterpretDirectives { proxies, lines, next, groups, rules, group_name } => {
                match reply {
                    Err(reason) => fail(ConvertError::NetworkFetchFailure(reason)),
                    Ok(body) => {
                        let mut rules = rules;
                        save_rules(group_name.as_str(), body.as_str(), &mut rules);
                        interpret_from(proxies, lines, next, groups, rules)
                    },
                }
            },
            Pipeline::Serialize => match reply {
                Err(reason) => fail(ConvertError::SerializationFailure(reason)),
                Ok(text) => succeed(text),
            },
            Pipeline::Success(text) => succeed(text),
            Pipeline::Failed(e) => fail(e),
        }
    }
}

} // verus!
