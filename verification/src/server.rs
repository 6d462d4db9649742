//! The conversion itself: the proxies of a subscription, the directives of
//! a rule template, the assembled document, and the pipeline that orders
//! the steps around the remote documents it needs.

use serde_yaml::Mapping;
use vstd::prelude::*;

use crate::constant::clash_constant::{
    ALLOW_LAN, DNS_ENABLED, DNS_FALLBACK, DNS_NAMESERVER, EXTERNAL_CONTROLLER, LOG_LEVEL, MODE,
    PORT, SOCKS_PORT,
};
use crate::entity::{
    kind_of_tag, link_pieces, proxy_of, records_of, ClashProxyConfig, ConfigDocument, Dns, DnsRecord, GroupRecord, Proxy,
    ProxyRecord, RuleGroup,
};
use crate::error::{outcome, ConvertError, Failure};
use crate::mapping::FieldValue;
use crate::text::{chars_of, lines, lines_of, string_of, texts};
use crate::tools::{decode_base64, decoded_text};
use crate::unicode::lowercase_of;

verus! {

/// The proxies that the lines of a subscription stand for, in order. The
/// first line that is no proxy fails them all.
pub open spec fn proxies_from(lines: Seq<Seq<char>>) -> Result<Seq<ProxyRecord>, Failure>
    decreases lines.len(),
{
    if lines.len() == 0 {
        Ok(Seq::<ProxyRecord>::empty())
    } else {
        match proxies_from(lines.drop_last()) {
            Err(f) => Err(f),
            Ok(before) => match proxy_of(lines.last()) {
                Err(f) => Err(f),
                Ok(proxy) => Ok(before.push(proxy)),
            },
        }
    }
}

/// The proxies of a subscription, given its body: base64, or the plain
/// list where the body holds a character outside the base64 alphabet.
pub open spec fn source_proxies(body: Seq<char>) -> Result<Seq<ProxyRecord>, Failure> {
    match decoded_text(body) {
        None => Err(Failure::MalformedProxyLink(body)),
        Some(list) => proxies_from(lines_of(list)),
    }
}

/// Reads the body of a subscription: one proxy link on each line, in
/// base64 or plain.
///
/// A body that looks like base64 and cannot be decoded fails with
/// `MalformedProxyLink`; a line that is no proxy fails with that line's
/// failure, and no proxy is returned then.
pub fn analyze_source(sources: &str) -> (r: Result<Vec<Proxy>, ConvertError>)
    ensures
        outcome(r) == source_proxies(sources@),
{
    let list = match decode_base64(sources) {
        Ok(text) => text,
        Err(_) => {
            return Err(ConvertError::MalformedProxyLink(sources.to_owned()));
        },
    };
    let all = lines(&chars_of(list.as_str()));
    let mut proxies: Vec<Proxy> = Vec::new();
    let mut i: usize = 0;
    assert(texts(all@).take(0) == Seq::<Seq<char>>::empty());
    assert(proxies.deep_view() == Seq::<ProxyRecord>::empty());
    while i < all.len()
        invariant
            i <= all.len(),
            source_proxies(sources@) == proxies_from(texts(all@)),
            proxies_from(texts(all@).take(i as int)) == Ok::<_, Failure>(proxies.deep_view()),
        decreases all.len() - i,
    {
        proof {
            let next = texts(all@).take(i + 1);
            assert(next.drop_last() == texts(all@).take(i as int));
            assert(next.last() == all@[i as int]@);
            assert(texts(all@).take(all.len() as int) == texts(all@));
        }
        let line = string_of(&all[i]);
        match Proxy::from_str(line.as_str()) {
            Ok(proxy) => {
                let ghost before = proxies.deep_view();
                proxies.push(proxy);
                assert(proxies.deep_view() == before.push(proxy.deep_view()));
            },
            Err(e) => {
                proof {
                    assert(proxies_from(texts(all@).take(i + 1)) == Err::<Seq<ProxyRecord>, _>(
                        e.deep_view(),
                    ));
                    lemma_failure_lasts(texts(all@), i + 1);
                }
                return Err(e);
            },
        }
        i += 1;
    }
    assert(texts(all@).take(all.len() as int) == texts(all@));
    Ok(proxies)
}

/// Once some beginning of the lines has failed, the lines fail in the same
/// way.
pub proof fn lemma_failure_lasts(lines: Seq<Seq<char>>, k: int)
    requires
        0 <= k <= lines.len(),
        proxies_from(lines.take(k)) is Err,
    ensures
        proxies_from(lines) == proxies_from(lines.take(k)),
    decreases lines.len() - k,
{
    if k == lines.len() {
        assert(lines.take(k) == lines);
    } else {
        assert(lines.take(k + 1).drop_last() == lines.take(k));
        lemma_failure_lasts(lines, k + 1);
    }
}

/// One line that is no proxy fails the whole list, whatever the other
/// lines are.
pub proof fn lemma_one_failing_line_fails_all(lines: Seq<Seq<char>>, i: int)
    requires
        0 <= i < lines.len(),
        proxy_of(lines[i]) is Err,
    ensures
        proxies_from(lines) is Err,
{
    assert(lines.take(i + 1).drop_last() == lines.take(i));
    assert(lines.take(i + 1).last() == lines[i]);
    lemma_failure_lasts(lines, i + 1);
}

/// A subscription with a line of an unsupported scheme gives no proxies: the
/// conversion fails, however well-formed the other lines are.
pub proof fn lemma_unsupported_scheme_fails_all(body: Seq<char>, list: Seq<char>, i: int)
    requires
        decoded_text(body) == Some(list),
        0 <= i < lines_of(list).len(),
        kind_of_tag(lowercase_of(link_pieces(lines_of(list)[i]).0)) is None,
    ensures
        source_proxies(body) is Err,
{
    lemma_one_failing_line_fails_all(lines_of(list), i);
}

/// The texts of a list of fixed texts.
pub open spec fn fixed_texts<const N: usize>(items: [&'static str; N]) -> Seq<Seq<char>> {
    items@.map_values(|s: &'static str| s@)
}

/// The document that holds the given proxies, groups and rules beside the
/// fixed network defaults.
pub open spec fn document_of(
    proxies: Seq<Seq<(Seq<char>, FieldValue)>>,
    groups: Seq<GroupRecord>,
    rules: Seq<Seq<char>>,
) -> ConfigDocument {
    ConfigDocument {
        port: PORT,
        socks_port: SOCKS_PORT,
        allow_lan: ALLOW_LAN,
        mode: MODE@,
        log_level: LOG_LEVEL@,
        external_controller: EXTERNAL_CONTROLLER@,
        dns: DnsRecord {
            enabled: DNS_ENABLED,
            nameserver: fixed_texts(DNS_NAMESERVER),
            fallback: fixed_texts(DNS_FALLBACK),
        },
        proxies,
        proxy_groups: groups,
        rules,
    }
}

/// The fixed texts as strings.
fn owned_texts<const N: usize>(items: &[&'static str; N]) -> (r: Vec<String>)
    ensures
        r.deep_view() == fixed_texts(*items),
{
    let mut out: Vec<String> = Vec::new();
    let mut i: usize = 0;
    while i < N
        invariant
            i <= N,
            out.deep_view() == fixed_texts(*items).take(i as int),
        decreases N - i,
    {
        let ghost before = out.deep_view();
        let item = items[i].to_owned();
        out.push(item);
        assert(out.deep_view() == before.push(item@));
        i += 1;
    }
    out
}

/// Assembles the document from the proxy records, the groups and the rules.
/// The network settings and the name servers are the fixed defaults.
pub fn generate_clash(
    coll_sub_data: Vec<Mapping>,
    groups: Vec<RuleGroup>,
    rules: Vec<String>,
) -> (r: ClashProxyConfig)
    ensures
        r.deep_view() == document_of(
            records_of(coll_sub_data@),
            groups.deep_view(),
            rules.deep_view(),
        ),
        r.proxies@ == coll_sub_data@,
{
    ClashProxyConfig {
        port: PORT,
        socks_port: SOCKS_PORT,
        allow_lan: ALLOW_LAN,
        mode: MODE.to_owned(),
        log_level: LOG_LEVEL.to_owned(),
        external_controller: EXTERNAL_CONTROLLER.to_owned(),
        dns: Dns {
            enabled: DNS_ENABLED,
            nameserver: owned_texts(&DNS_NAMESERVER),
            fallback: owned_texts(&DNS_FALLBACK),
        },
        proxies: coll_sub_data,
        proxy_groups: groups,
        rules,
    }
}

} // verus!
