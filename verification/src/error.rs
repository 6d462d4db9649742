//! The ways in which a conversion fails.

use vstd::prelude::*;
use vstd::string::StringExecFns;

verus! {

/// Why a conversion stopped. A failure that this library finds carries the
/// text that caused it; a failed fetch or writing carries the reason that
/// the collaborator gave.
#[derive(Debug)]
pub enum ConvertError {
    /// The line's scheme is neither `trojan` nor `ss`; holds the scheme.
    UnsupportedScheme(String),
    /// The line does not have the shape of a proxy link; holds the line.
    MalformedProxyLink(String),
    /// The ShadowSocks user part does not decode to `cipher:password`.
    MalformedCipherPayload(String),
    /// A line of the rule template is not a well-formed directive; holds the
    /// line.
    MalformedRuleTemplateLine(String),
    /// A remote document could not be fetched; holds the reason.
    NetworkFetchFailure(String),
    /// A member pattern is not a regular expression; holds the pattern.
    RegexCompileFailure(String),
    /// The document could not be written out; holds the reason.
    SerializationFailure(String),
}

/// A failure as a mathematical value.
pub enum Failure {
    UnsupportedScheme(Seq<char>),
    MalformedProxyLink(Seq<char>),
    MalformedCipherPayload(Seq<char>),
    MalformedRuleTemplateLine(Seq<char>),
    NetworkFetchFailure(Seq<char>),
    RegexCompileFailure(Seq<char>),
    SerializationFailure(Seq<char>),
}

impl DeepView for ConvertError {
    type V = Failure;

    open spec fn deep_view(&self) -> Failure {
        match self {
            ConvertError::UnsupportedScheme(t) => Failure::UnsupportedScheme(t@),
            ConvertError::MalformedProxyLink(t) => Failure::MalformedProxyLink(t@),
            ConvertError::MalformedCipherPayload(t) => Failure::MalformedCipherPayload(t@),
            ConvertError::MalformedRuleTemplateLine(t) => Failure::MalformedRuleTemplateLine(t@),
            ConvertError::NetworkFetchFailure(t) => Failure::NetworkFetchFailure(t@),
            ConvertError::RegexCompileFailure(t) => Failure::RegexCompileFailure(t@),
            ConvertError::SerializationFailure(t) => Failure::SerializationFailure(t@),
        }
    }
}

/// A result as a mathematical value.
pub open spec fn outcome<T: DeepView>(r: Result<T, ConvertError>) -> Result<T::V, Failure> {
    match r {
        Ok(v) => Ok(v.deep_view()),
        Err(e) => Err(e.deep_view()),
    }
}

/// The text that a failure is reported with: for a malformed or unsupported
/// text, a fixed heading followed by that text; for a pattern that does not
/// compile, the pattern; for a failed fetch or writing, the reason given.
pub open spec fn message_of(f: Failure) -> Seq<char> {
    match f {
        Failure::UnsupportedScheme(t) => "未知的代理类型：目前只支持trojan/ss:"@ + t,
        Failure::MalformedProxyLink(t) => "代理链接格式不符请检查:"@ + t,
        Failure::MalformedCipherPayload(t) => "解析ss类型失败:"@ + t,
        Failure::MalformedRuleTemplateLine(t) => "ini配置文件格式错误,错误行内容:"@ + t,
        Failure::NetworkFetchFailure(t) => t,
        Failure::RegexCompileFailure(t) => t,
        Failure::SerializationFailure(t) => t,
    }
}

/// `heading` followed by `detail`.
fn headed(heading: &str, detail: &String) -> (r: String)
    ensures
        r@ == heading@ + detail@,
{
    let mut out = heading.to_owned();
    out.append(detail.as_str());
    out
}

impl ConvertError {
    /// The text that the failure is reported with.
    pub fn message(&self) -> (r: String)
        ensures
            r@ == message_of(self.deep_view()),
    {
        match self {
            ConvertError::UnsupportedScheme(t) => headed("未知的代理类型：目前只支持trojan/ss:", t),
            ConvertError::MalformedProxyLink(t) => headed("代理链接格式不符请检查:", t),
            ConvertError::MalformedCipherPayload(t) => headed("解析ss类型失败:", t),
            ConvertError::MalformedRuleTemplateLine(t) => headed(
                "ini配置文件格式错误,错误行内容:",
                t,
            ),
            ConvertError::NetworkFetchFailure(t) => t.clone(),
            ConvertError::RegexCompileFailure(t) => t.clone(),
            ConvertError::SerializationFailure(t) => t.clone(),
        }
    }
}

} // verus!
