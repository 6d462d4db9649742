//! The network defaults that every document carries, and the rule
//! types that a rule list may contribute.

use vstd::prelude::*;

verus! {

pub const PORT: u32 = 7890;

pub const SOCKS_PORT: u32 = 7891;

pub const ALLOW_LAN: bool = true;

pub const MODE: &'static str = "Rule";

pub const LOG_LEVEL: &'static str = "info";

pub const EXTERNAL_CONTROLLER: &'static str = ":9090";

pub const DNS_ENABLED: bool = true;

pub const DNS_NAMESERVER: [&'static str; 2] = ["119.29.29.29", "223.5.5.5"];

pub const DNS_FALLBACK: [&'static str; 4] = [
    "8.8.8.8",
    "8.8.4.4",
    "tls://1.0.0.1:853",
    "tls://dns.google:853",
];

pub const FORMAT_RULE_TYPE: [&'static str; 9] = [
    "DOMAIN",
    "DOMAIN-SUFFIX",
    "DOMAIN-KEYWORD",
    "IP-CIDR",
    "IP-CIDR6",
    "GEOIP",
    "GEOIP-CIDR",
    "PROCESS-NAME",
    "MATCH",
];

} // verus!
