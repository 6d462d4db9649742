//! The data of a conversion: the request, the proxy records, the proxy
//! groups and the configuration document.

use serde_yaml::Mapping;
use vstd::prelude::*;

use crate::error::{outcome, ConvertError, Failure};
use crate::link::{
    is_link, lemma_link_shape_of_text, link_shape, link_text, parse_link, splits_at, LinkParts,
    LinkShape,
};
use crate::mapping::{
    empty_mapping, entries_of, insert_field, lemma_put_fresh, lemma_text_under_first, text_field,
    text_under, Field, FieldValue,
};
use crate::text::{
    chars_of, is_text, lemma_split_once_at_char, lemma_split_once_of_parts, occurs_at,
    split_at_first, split_once, string_of,
};
use crate::tools::{decode_base64, decode_url_param, decoded_text, percent_decoded, url_param_text};
use crate::unicode::{lowercase_of, to_lowercase};

verus! {

/// What a conversion is asked for.
#[derive(Debug)]
pub struct SubInput {
    /// The format that the caller wants; it does not change the result.
    pub target: String,
    /// The address of the rule template.
    pub rule_config: String,
    /// The address of the subscription.
    pub source: String,
}

/// A request as a mathematical value.
pub struct Request {
    pub target: Seq<char>,
    pub rule_config: Seq<char>,
    pub source: Seq<char>,
}

impl DeepView for SubInput {
    type V = Request;

    open spec fn deep_view(&self) -> Request {
        Request { target: self.target@, rule_config: self.rule_config@, source: self.source@ }
    }
}

/// What a conversion answers with.
#[derive(Debug)]
pub struct RespInfo {
    /// 200 with the document, 500 with the text of a failure.
    pub code: u16,
    pub body: String,
}

/// A response as a mathematical value.
pub struct Response {
    pub code: u16,
    pub body: Seq<char>,
}

impl DeepView for RespInfo {
    type V = Response;

    open spec fn deep_view(&self) -> Response {
        Response { code: self.code, body: self.body@ }
    }
}

/// The kinds of proxy that a subscription may list.
#[derive(Debug, Clone, Copy, PartialEq, Eq, Structural)]
pub enum ProxyType {
    Trojan,
    SS,
}

/// One proxy of a subscription.
#[derive(Debug)]
pub struct Proxy {
    pub name: String,
    pub proxy_type: ProxyType,
    /// The record as it is written into the document, key by key.
    pub sub_data: Mapping,
}

/// A proxy as a mathematical value.
pub struct ProxyRecord {
    pub name: Seq<char>,
    pub kind: ProxyType,
    pub fields: Seq<(Seq<char>, FieldValue)>,
}

impl DeepView for Proxy {
    type V = ProxyRecord;

    open spec fn deep_view(&self) -> ProxyRecord {
        ProxyRecord { name: self.name@, kind: self.proxy_type, fields: entries_of(self.sub_data) }
    }
}

/// A named group of proxies.
#[derive(Debug)]
pub struct RuleGroup {
    pub group_name: String,
    pub group_type: String,
    /// The members, in order: proxies or other groups, by name.
    pub proxies: Vec<String>,
    pub url: Option<String>,
    /// Seconds between two probes.
    pub interval: Option<u32>,
    pub strategy: Option<String>,
}

/// A group as a mathematical value.
pub struct GroupRecord {
    pub name: Seq<char>,
    pub kind: Seq<char>,
    pub members: Seq<Seq<char>>,
    pub url: Option<Seq<char>>,
    pub interval: Option<u32>,
    pub strategy: Option<Seq<char>>,
}

impl DeepView for RuleGroup {
    type V = GroupRecord;

    open spec fn deep_view(&self) -> GroupRecord {
        GroupRecord {
            name: self.group_name@,
            kind: self.group_type@,
            members: self.proxies.deep_view(),
            url: self.url.deep_view(),
            interval: self.interval,
            strategy: self.strategy.deep_view(),
        }
    }
}

/// The name servers of a document.
#[derive(Debug)]
pub struct Dns {
    pub enabled: bool,
    pub nameserver: Vec<String>,
    pub fallback: Vec<String>,
}

/// The name servers as a mathematical value.
pub struct DnsRecord {
    pub enabled: bool,
    pub nameserver: Seq<Seq<char>>,
    pub fallback: Seq<Seq<char>>,
}

impl DeepView for Dns {
    type V = DnsRecord;

    open spec fn deep_view(&self) -> DnsRecord {
        DnsRecord {
            enabled: self.enabled,
            nameserver: self.nameserver.deep_view(),
            fallback: self.fallback.deep_view(),
        }
    }
}

/// The configuration document.
#[derive(Debug)]
pub struct ClashProxyConfig {
    pub port: u32,
    pub socks_port: u32,
    pub allow_lan: bool,
    pub mode: String,
    pub log_level: String,
    pub external_controller: String,
    pub dns: Dns,
    /// The proxy records, in the order of the subscription.
    pub proxies: Vec<Mapping>,
    pub proxy_groups: Vec<RuleGroup>,
    pub rules: Vec<String>,
}

/// The configuration document as a mathematical value.
pub struct ConfigDocument {
    pub port: u32,
    pub socks_port: u32,
    pub allow_lan: bool,
    pub mode: Seq<char>,
    pub log_level: Seq<char>,
    pub external_controller: Seq<char>,
    pub dns: DnsRecord,
    pub proxies: Seq<Seq<(Seq<char>, FieldValue)>>,
    pub proxy_groups: Seq<GroupRecord>,
    pub rules: Seq<Seq<char>>,
}

/// The records that the mappings hold, in order.
pub open spec fn records_of(mappings: Seq<Mapping>) -> Seq<Seq<(Seq<char>, FieldValue)>> {
    mappings.map_values(|m: Mapping| entries_of(m))
}

impl DeepView for ClashProxyConfig {
    type V = ConfigDocument;

    open spec fn deep_view(&self) -> ConfigDocument {
        ConfigDocument {
            port: self.port,
            socks_port: self.socks_port,
            allow_lan: self.allow_lan,
            mode: self.mode@,
            log_level: self.log_level@,
            external_controller: self.external_controller@,
            dns: self.dns.deep_view(),
            proxies: records_of(self.proxies@),
            proxy_groups: self.proxy_groups.deep_view(),
            rules: self.rules.deep_view(),
        }
    }
}

/// The kind that a lowercase scheme names.
pub open spec fn kind_of_tag(tag: Seq<char>) -> Option<ProxyType> {
    if tag == "trojan"@ {
        Some(ProxyType::Trojan)
    } else if tag == "ss"@ {
        Some(ProxyType::SS)
    } else {
        None
    }
}

/// The record of a Trojan proxy: the password is the user part as written,
/// and certificates are verified.
pub open spec fn trojan_record(parts: LinkShape) -> Seq<(Seq<char>, FieldValue)> {
    seq![
        ("name"@, FieldValue::Text(url_param_text(percent_decoded(parts.remark)))),
        ("password"@, FieldValue::Text(parts.password)),
        ("server"@, FieldValue::Text(parts.address)),
        ("port"@, FieldValue::Number(parts.port)),
        ("skip-cert-verify"@, FieldValue::Flag(false)),
        ("udp"@, FieldValue::Flag(true)),
        ("type"@, FieldValue::Text("trojan"@)),
    ]
}

/// The record of a ShadowSocks proxy with the given cipher and password.
pub open spec fn shadowsocks_record(
    parts: LinkShape,
    cipher: Seq<char>,
    password: Seq<char>,
) -> Seq<(Seq<char>, FieldValue)> {
    seq![
        ("name"@, FieldValue::Text(url_param_text(percent_decoded(parts.remark)))),
        ("cipher"@, FieldValue::Text(cipher)),
        ("password"@, FieldValue::Text(password)),
        ("server"@, FieldValue::Text(parts.address)),
        ("port"@, FieldValue::Number(parts.port)),
        ("udp"@, FieldValue::Flag(true)),
        ("type"@, FieldValue::Text("ss"@)),
    ]
}

/// The record of a ShadowSocks proxy whose user part stands for `payload`:
/// the cipher is the text before the first `:` of the payload, the password
/// all that follows it. A payload without `:` fails with the user part as
/// written.
pub open spec fn payload_record(parts: LinkShape, payload: Seq<char>) -> Result<
    Seq<(Seq<char>, FieldValue)>,
    Failure,
> {
    match split_once(payload, seq![':']) {
        None => Err(Failure::MalformedCipherPayload(parts.password)),
        Some((cipher, password)) => Ok(shadowsocks_record(parts, cipher, password)),
    }
}

/// The record that the parts of a link give for a proxy of kind `kind`.
///
/// The user part of a ShadowSocks link stands for `cipher:password`; where
/// it cannot be decoded the record fails with the user part as written.
pub open spec fn record_of(kind: ProxyType, parts: LinkShape) -> Result<
    Seq<(Seq<char>, FieldValue)>,
    Failure,
> {
    match kind {
        ProxyType::Trojan => Ok(trojan_record(parts)),
        ProxyType::SS => match decoded_text(parts.password) {
            None => Err(Failure::MalformedCipherPayload(parts.password)),
            Some(payload) => payload_record(parts, payload),
        },
    }
}

/// The record that the text after `scheme://` gives for a proxy of kind
/// `kind`.
pub open spec fn fields_of(kind: ProxyType, input: Seq<char>) -> Result<
    Seq<(Seq<char>, FieldValue)>,
    Failure,
> {
    match link_shape(input) {
        None => Err(Failure::MalformedProxyLink(input)),
        Some(parts) => record_of(kind, parts),
    }
}

/// The scheme of a line and the text that the scheme introduces: the text
/// before the first `://`, and the text between that `://` and the next one.
/// A line without `://` is all scheme.
pub open spec fn link_pieces(line: Seq<char>) -> (Seq<char>, Option<Seq<char>>) {
    match split_once(line, "://"@) {
        None => (line, None),
        Some((scheme, rest)) => (
            scheme,
            Some(
                match split_once(rest, "://"@) {
                    Some((payload, _)) => payload,
                    None => rest,
                },
            ),
        ),
    }
}

/// The proxy that a line of a subscription stands for.
pub open spec fn proxy_of(line: Seq<char>) -> Result<ProxyRecord, Failure> {
    let (scheme, payload) = link_pieces(line);
    match kind_of_tag(lowercase_of(scheme)) {
        None => Err(Failure::UnsupportedScheme(scheme)),
        Some(kind) => match payload {
            None => Err(Failure::MalformedProxyLink(line)),
            Some(input) => match fields_of(kind, input) {
                Err(f) => Err(f),
                Ok(fields) => Ok(
                    ProxyRecord {
                        name: url_param_text(percent_decoded(link_shape(input)->Some_0.remark)),
                        kind,
                        fields,
                    },
                ),
            },
        },
    }
}

/// The keys of a record differ from one another.
proof fn lemma_keys_differ()
    ensures
        "name"@ != "cipher"@,
        "name"@ != "password"@,
        "name"@ != "server"@,
        "name"@ != "port"@,
        "name"@ != "skip-cert-verify"@,
        "name"@ != "udp"@,
        "name"@ != "type"@,
        "cipher"@ != "password"@,
        "cipher"@ != "server"@,
        "cipher"@ != "port"@,
        "cipher"@ != "udp"@,
        "cipher"@ != "type"@,
        "password"@ != "server"@,
        "password"@ != "port"@,
        "password"@ != "skip-cert-verify"@,
        "password"@ != "udp"@,
        "password"@ != "type"@,
        "server"@ != "port"@,
        "server"@ != "skip-cert-verify"@,
        "server"@ != "udp"@,
        "server"@ != "type"@,
        "port"@ != "skip-cert-verify"@,
        "port"@ != "udp"@,
        "port"@ != "type"@,
        "skip-cert-verify"@ != "udp"@,
        "skip-cert-verify"@ != "type"@,
        "udp"@ != "type"@,
{
    reveal_strlit("name");
    reveal_strlit("cipher");
    reveal_strlit("password");
    reveal_strlit("server");
    reveal_strlit("port");
    reveal_strlit("skip-cert-verify");
    reveal_strlit("udp");
    reveal_strlit("type");
    assert("name"@.len() == 4 && "port"@.len() == 4 && "type"@.len() == 4);
    assert("cipher"@.len() == 6 && "server"@.len() == 6 && "udp"@.len() == 3);
    assert("password"@.len() == 8 && "skip-cert-verify"@.len() == 16);
    assert("name"@[0] != "port"@[0]);
    assert("name"@[0] != "type"@[0]);
    assert("port"@[0] != "type"@[0]);
    assert("cipher"@[0] != "server"@[0]);
}

/// Puts `value` under `key` where no entry has that key yet.
fn add_field(m: &mut Mapping, key: &str, value: Field)
    requires
        forall|i: int|
            0 <= i < entries_of(*old(m)).len() ==> (#[trigger] entries_of(*old(m))[i]).0 != key@,
    ensures
        entries_of(*final(m)) == entries_of(*old(m)).push((key@, value.deep_view())),
{
    proof {
        lemma_put_fresh(entries_of(*m), key@, value.deep_view());
    }
    insert_field(m, key, value);
}

/// Writes the record of a Trojan proxy.
fn write_trojan(caps: LinkParts) -> (m: Mapping)
    ensures
        entries_of(m) == trojan_record(caps.deep_view()),
{
    proof {
        lemma_keys_differ();
    }
    let mut m = empty_mapping();
    add_field(&mut m, "name", Field::Text(decode_url_param(caps.remark.as_str())));
    add_field(&mut m, "password", Field::Text(caps.password));
    add_field(&mut m, "server", Field::Text(caps.address));
    add_field(&mut m, "port", Field::Number(caps.port));
    add_field(&mut m, "skip-cert-verify", Field::Flag(false));
    add_field(&mut m, "udp", Field::Flag(true));
    add_field(&mut m, "type", Field::Text(ProxyType::Trojan.as_str().to_owned()));
    m
}

/// Writes the record of a ShadowSocks proxy with the given cipher and
/// password.
fn write_shadowsocks(caps: LinkParts, cipher: String, password: String) -> (m: Mapping)
    ensures
        entries_of(m) == shadowsocks_record(caps.deep_view(), cipher@, password@),
{
    proof {
        lemma_keys_differ();
    }
    let mut m = empty_mapping();
    add_field(&mut m, "name", Field::Text(decode_url_param(caps.remark.as_str())));
    add_field(&mut m, "cipher", Field::Text(cipher));
    add_field(&mut m, "password", Field::Text(password));
    add_field(&mut m, "server", Field::Text(caps.address));
    add_field(&mut m, "port", Field::Number(caps.port));
    add_field(&mut m, "udp", Field::Flag(true));
    add_field(&mut m, "type", Field::Text(ProxyType::SS.as_str().to_owned()));
    m
}

/// Writes the record of a ShadowSocks proxy from the parts of its link and
/// the text that its user part stands for: `cipher:password`, split at the
/// first `:`. Fails with `MalformedCipherPayload` and the user part where
/// the text holds no `:`.
pub fn shadowsocks_record_of(caps: LinkParts, payload: &str) -> (r: Result<Mapping, ConvertError>)
    ensures
        match payload_record(caps.deep_view(), payload@) {
            Ok(fields) => r is Ok && entries_of(r->Ok_0) == fields,
            Err(f) => r is Err && r->Err_0.deep_view() == f,
        },
{
    let mut colon: Vec<char> = Vec::new();
    colon.push(':');
    assert(colon@ == seq![':']);
    match split_at_first(&chars_of(payload), &colon) {
        Some((cipher, password)) => Ok(
            write_shadowsocks(caps, string_of(&cipher), string_of(&password)),
        ),
        None => Err(ConvertError::MalformedCipherPayload(caps.password)),
    }
}

impl ProxyType {
    /// The scheme that names the kind.
    pub open spec fn tag(self) -> Seq<char> {
        match self {
            ProxyType::Trojan => "trojan"@,
            ProxyType::SS => "ss"@,
        }
    }

    /// The shape of the text after `scheme://`, as a regular expression. A
    /// link has this shape and, beyond it, a remark and a port of ASCII
    /// digits that is a number of 32 bits.
    pub fn link_format(&self) -> (r: &'static str)
        ensures
            r@
                == r"^(?P<password>.+)@(?P<address>[^:]+):(?P<port>\d+)(?:\?(?P<params>[^#]+))?(?:#(?P<remark>.+))?$"@,
    {
        match self {
            ProxyType::Trojan => {
                r"^(?P<password>.+)@(?P<address>[^:]+):(?P<port>\d+)(?:\?(?P<params>[^#]+))?(?:#(?P<remark>.+))?$"
            },
            ProxyType::SS => {
                r"^(?P<password>.+)@(?P<address>[^:]+):(?P<port>\d+)(?:\?(?P<params>[^#]+))?(?:#(?P<remark>.+))?$"
            },
        }
    }

    /// Writes the record of a proxy of this kind from the parts of its link.
    ///
    /// The user part of a ShadowSocks link is decoded and split at its first
    /// `:` into cipher and password; where that cannot be done the result is
    /// `MalformedCipherPayload` with the user part as written.
    pub fn insert_map(&self, caps: LinkParts) -> (r: Result<Mapping, ConvertError>)
        ensures
            match record_of(*self, caps.deep_view()) {
                Ok(fields) => r is Ok && entries_of(r->Ok_0) == fields,
                Err(f) => r is Err && r->Err_0.deep_view() == f,
            },
    {
        match self {
            ProxyType::Trojan => Ok(write_trojan(caps)),
            ProxyType::SS => match decode_base64(caps.password.as_str()) {
                Ok(payload) => shadowsocks_record_of(caps, payload.as_str()),
                Err(_) => Err(ConvertError::MalformedCipherPayload(caps.password)),
            },
        }
    }

    /// Reads the text after `scheme://` as a proxy of this kind and writes
    /// its record.
    ///
    /// Fails with `MalformedProxyLink` and the text where the text has not
    /// the shape of a link, and with `MalformedCipherPayload` where the user
    /// part of a ShadowSocks link does not stand for `cipher:password`.
    pub fn parse_proxy(&self, input: &str) -> (r: Result<Mapping, ConvertError>)
        ensures
            match fields_of(*self, input@) {
                Ok(fields) => r is Ok && entries_of(r->Ok_0) == fields,
                Err(f) => r is Err && r->Err_0.deep_view() == f,
            },
    {
        match parse_link(&chars_of(input)) {
            Some(caps) => self.insert_map(caps),
            None => Err(ConvertError::MalformedProxyLink(input.to_owned())),
        }
    }

    /// The kind that a lowercase scheme names.
    pub fn from_lowercase(tag: &str) -> (r: Option<ProxyType>)
        ensures
            r == kind_of_tag(tag@),
    {
        let chars = chars_of(tag);
        if is_text(&chars, "trojan") {
            Some(ProxyType::Trojan)
        } else if is_text(&chars, "ss") {
            Some(ProxyType::SS)
        } else {
            None
        }
    }

    /// The kind that a scheme names, whatever the case of its letters.
    pub fn from_str(s: &str) -> (r: Option<ProxyType>)
        ensures
            r == kind_of_tag(lowercase_of(s@)),
    {
        let lower = to_lowercase(s);
        ProxyType::from_lowercase(lower.as_str())
    }

    /// The scheme that names the kind.
    pub fn as_str(&self) -> (r: &'static str)
        ensures
            r@ == self.tag(),
    {
        match self {
            ProxyType::Trojan => "trojan",
            ProxyType::SS => "ss",
        }
    }
}

/// Every record begins with the proxy's name.
pub proof fn lemma_record_begins_with_name(kind: ProxyType, parts: LinkShape)
    requires
        record_of(kind, parts) is Ok,
    ensures
        text_under(record_of(kind, parts)->Ok_0, "name"@) == Some(
            url_param_text(percent_decoded(parts.remark)),
        ),
{
    let fields = record_of(kind, parts)->Ok_0;
    lemma_text_under_first(fields, "name"@, url_param_text(percent_decoded(parts.remark)));
}

/// A ShadowSocks link whose user part stands for `cipher:password` gives a
/// record with that cipher and that password. The cipher ends at the first
/// `:`, so the password may hold more of them.
pub proof fn lemma_shadowsocks_record(parts: LinkShape, cipher: Seq<char>, password: Seq<char>)
    requires
        decoded_text(parts.password) == Some(cipher + seq![':'] + password),
        !cipher.contains(':'),
    ensures
        record_of(ProxyType::SS, parts) == Ok::<_, Failure>(
            shadowsocks_record(parts, cipher, password),
        ),
{
    lemma_split_once_at_char(cipher, ':', password);
}

/// A Trojan link `password@address:port?params#remark` gives the record of
/// its parts: the name is the percent-decoded remark, the password is the
/// user part as written, certificates are verified and UDP is on. The query
/// changes nothing. This holds where no `@` after the password's can
/// separate a password from a tail; a later one that can would lengthen the
/// password.
pub proof fn lemma_trojan_link(parts: LinkShape, port: Seq<char>)
    requires
        is_link(parts, port),
        forall|j: int| parts.password.len() < j ==> !splits_at(link_text(parts, port), j),
    ensures
        fields_of(ProxyType::Trojan, link_text(parts, port)) == Ok::<_, Failure>(
            seq![
                ("name"@, FieldValue::Text(url_param_text(percent_decoded(parts.remark)))),
                ("password"@, FieldValue::Text(parts.password)),
                ("server"@, FieldValue::Text(parts.address)),
                ("port"@, FieldValue::Number(parts.port)),
                ("skip-cert-verify"@, FieldValue::Flag(false)),
                ("udp"@, FieldValue::Flag(true)),
                ("type"@, FieldValue::Text("trojan"@)),
            ],
        ),
{
    lemma_link_shape_of_text(parts, port);
}

/// A line `scheme://text` whose scheme names a kind of proxy, and which
/// holds `://` nowhere else, stands for the proxy that `text` describes: its
/// name is the percent-decoded remark.
pub proof fn lemma_proxy_of_line(scheme: Seq<char>, kind: ProxyType, text: Seq<char>)
    requires
        kind_of_tag(lowercase_of(scheme)) == Some(kind),
        forall|j: int| 0 <= j < scheme.len() ==> !occurs_at(scheme + "://"@ + text, "://"@, j),
        forall|j: int| !occurs_at(text, "://"@, j),
    ensures
        proxy_of(scheme + "://"@ + text) == (match fields_of(kind, text) {
            Ok(fields) => Ok(
                ProxyRecord {
                    name: url_param_text(percent_decoded(link_shape(text)->Some_0.remark)),
                    kind,
                    fields,
                },
            ),
            Err(f) => Err(f),
        }),
{
    lemma_split_once_of_parts(scheme, "://"@, text);
}

impl Proxy {
    /// Reads one line of a subscription.
    ///
    /// The text before the first `://` is the scheme; `trojan` and `ss` are
    /// supported, in any case of letters, and any other scheme fails with
    /// `UnsupportedScheme`. A line without `://`, or whose text after it has
    /// not the shape of a link, fails with `MalformedProxyLink`.
    pub fn from_str(link_str: &str) -> (r: Result<Proxy, ConvertError>)
        ensures
            outcome(r) == proxy_of(link_str@),
    {
        let line = chars_of(link_str);
        let mark = chars_of("://");
        let (scheme, payload) = match split_at_first(&line, &mark) {
            None => (line, None),
            Some((scheme, rest)) => match split_at_first(&rest, &mark) {
                Some((payload, _)) => (scheme, Some(payload)),
                None => (scheme, Some(rest)),
            },
        };
        assert((scheme@, payload.deep_view()) == link_pieces(link_str@));
        let scheme_text = string_of(&scheme);
        let proxy_type = match ProxyType::from_str(scheme_text.as_str()) {
            Some(kind) => kind,
            None => {
                return Err(ConvertError::UnsupportedScheme(scheme_text));
            },
        };
        let input = match payload {
            Some(text) => string_of(&text),
            None => {
                return Err(ConvertError::MalformedProxyLink(link_str.to_owned()));
            },
        };
        let sub_data = proxy_type.parse_proxy(input.as_str())?;
        proof {
            lemma_record_begins_with_name(proxy_type, link_shape(input@)->Some_0);
        }
        match text_field(&sub_data, "name") {
            Some(name) => Ok(Proxy { name, proxy_type, sub_data }),
            None => Err(ConvertError::MalformedProxyLink(link_str.to_owned())),
        }
    }
}

} // verus!
