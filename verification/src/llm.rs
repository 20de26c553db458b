//! What the library decides around a chat-completion call: its settings,
//! its address, and how a reply or a failure is read.
use vstd::prelude::*;

use crate::json::{json_text_field_s, parse_object, text_field};
use crate::store::{copy_string, ov};
use crate::text::{append, append_str, chars_of, slice, string_of, trim, trim_s};

verus! {

/// Why a call did not give an answer. Not being configured means taking
/// the offline fallback, not an error to show.
#[derive(Debug)]
pub enum LlmError {
    /// No API key or endpoint configured.
    NotConfigured(String),
    /// Network, timeout, HTTP error or an unreadable reply.
    Failed(String),
}

pub enum LlmErrorModel {
    NotConfigured(Seq<char>),
    Failed(Seq<char>),
}

impl View for LlmError {
    type V = LlmErrorModel;

    open spec fn view(&self) -> LlmErrorModel {
        match self {
            LlmError::NotConfigured(s) => LlmErrorModel::NotConfigured(s@),
            LlmError::Failed(s) => LlmErrorModel::Failed(s@),
        }
    }
}

pub open spec fn error_text_s(e: LlmErrorModel) -> Seq<char> {
    match e {
        LlmErrorModel::NotConfigured(s) => "LLM 未配置: "@ + s,
        LlmErrorModel::Failed(s) => "LLM 调用失败: "@ + s,
    }
}

impl LlmError {
    /// The message shown to the user.
    pub fn to_string(&self) -> (r: String)
        ensures
            r@ == error_text_s(self@),
    {
        match self {
            LlmError::NotConfigured(s) => {
                let mut out = chars_of("LLM 未配置: ");
                append_str(&mut out, s.as_str());
                string_of(&out)
            },
            LlmError::Failed(s) => {
                let mut out = chars_of("LLM 调用失败: ");
                append_str(&mut out, s.as_str());
                string_of(&out)
            },
        }
    }
}

/// Endpoint, key, model and the time a call may take, in seconds.
#[derive(Debug, Clone)]
pub struct LlmConfig {
    pub base_url: String,
    pub api_key: String,
    pub model: String,
    pub timeout_secs: u64,
}

/// A setting's trimmed text, unless it is blank.
pub open spec fn non_empty_s(v: Option<Seq<char>>) -> Option<Seq<char>> {
    match v {
        Some(s) => if trim_s(s).len() > 0 {
            Some(trim_s(s))
        } else {
            None
        },
        None => None,
    }
}

pub fn non_empty(v: Option<String>) -> (r: Option<String>)
    ensures
        ov(r) == non_empty_s(ov(v)),
{
    match v {
        Some(s) => {
            let t = trim(&chars_of(s.as_str()));
            if t.len() > 0 {
                Some(string_of(&t))
            } else {
                None
            }
        },
        None => None,
    }
}

/// Settings as values.
pub struct ConfigModel {
    pub base_url: Seq<char>,
    pub api_key: Seq<char>,
    pub model: Seq<char>,
    pub timeout_secs: u64,
}

impl View for LlmConfig {
    type V = ConfigModel;

    open spec fn view(&self) -> ConfigModel {
        ConfigModel {
            base_url: self.base_url@,
            api_key: self.api_key@,
            model: self.model@,
            timeout_secs: self.timeout_secs,
        }
    }
}

pub open spec fn opt_config_view(c: Option<LlmConfig>) -> Option<ConfigModel> {
    match c {
        Some(c) => Some(c@),
        None => None,
    }
}

/// Settings from the values found: none without a non-blank key; the
/// default endpoint and model where those are blank; 20 seconds per call.
pub open spec fn config_s(
    api_key: Option<Seq<char>>,
    base_url: Option<Seq<char>>,
    model: Option<Seq<char>>,
) -> Option<ConfigModel> {
    match non_empty_s(api_key) {
        None => None,
        Some(key) => Some(
            ConfigModel {
                base_url: match non_empty_s(base_url) {
                    Some(u) => u,
                    None => default_base_url(),
                },
                api_key: key,
                model: match non_empty_s(model) {
                    Some(m) => m,
                    None => default_model(),
                },
                timeout_secs: 20,
            },
        ),
    }
}

pub open spec fn default_base_url() -> Seq<char> {
    "https://api.openai.com/v1"@
}

pub open spec fn default_model() -> Seq<char> {
    "gpt-4o-mini"@
}

impl LlmConfig {
    /// Settings from the values found (environment or `config.json`): none
    /// without a key; the OpenAI endpoint and `gpt-4o-mini` when those are
    /// blank; 20 seconds per call.
    pub fn from_values(api_key: Option<String>, base_url: Option<String>, model: Option<String>) -> (r:
        Option<LlmConfig>)
        ensures
            r is None <==> non_empty_s(ov(api_key)) is None,
            r matches Some(c) ==> {
                &&& Some(c.api_key@) == non_empty_s(ov(api_key))
                &&& c.base_url@ == (match non_empty_s(ov(base_url)) {
                    Some(u) => u,
                    None => default_base_url(),
                })
                &&& c.model@ == (match non_empty_s(ov(model)) {
                    Some(m) => m,
                    None => default_model(),
                })
                &&& c.timeout_secs == 20
            },
            opt_config_view(r) == config_s(ov(api_key), ov(base_url), ov(model)),
    {
        let key = match non_empty(api_key) {
            Some(k) => k,
            None => {
                return None;
            },
        };
        let base = match non_empty(base_url) {
            Some(u) => u,
            None => string_of(&chars_of("https://api.openai.com/v1")),
        };
        let m = match non_empty(model) {
            Some(m) => m,
            None => string_of(&chars_of("gpt-4o-mini")),
        };
        Some(LlmConfig { base_url: base, api_key: key, model: m, timeout_secs: 20 })
    }
}

/// Settings from the text of `config.json`, a JSON object with the string
/// fields `api_key`, `base_url` and `model`: none when the text is not
/// JSON or the key is missing, not a string or blank; otherwise as
/// `from_values` makes them from those three fields.
pub fn config_from_json(text: &str) -> (r: Option<LlmConfig>)
    ensures
        r is None <==> non_empty_s(json_text_field_s(text@, "api_key"@)) is None,
        opt_config_view(r) == config_s(
            json_text_field_s(text@, "api_key"@),
            json_text_field_s(text@, "base_url"@),
            json_text_field_s(text@, "model"@),
        ),
{
    match parse_object(text) {
        None => None,
        Some(fields) => LlmConfig::from_values(
            text_field(&fields, "api_key"),
            text_field(&fields, "base_url"),
            text_field(&fields, "model"),
        ),
    }
}

/// The error given when no key is configured.
pub fn not_configured() -> (r: LlmError)
    ensures
        r@ == LlmErrorModel::NotConfigured(
            "未找到 API key。请设置环境变量 PAPER_PET_API_KEY，或在数据目录的 config.json 里配置"@,
        ),
{
    LlmError::NotConfigured(
        string_of(
            &chars_of(
                "未找到 API key。请设置环境变量 PAPER_PET_API_KEY，或在数据目录的 config.json 里配置",
            ),
        ),
    )
}

/// `base_url` without trailing slashes, then `/chat/completions`.
pub fn completion_url(base_url: &str) -> (r: String)
    ensures
        r@ == crate::styles::strip_end_char(base_url@, '/') + "/chat/completions"@,
{
    let v = chars_of(base_url);
    let mut j: usize = v.len();
    proof {
        crate::text::lemma_take_full(v@);
    }
    while j > 0 && v[j - 1] == '/'
        invariant
            0 <= j <= v.len(),
            crate::styles::strip_end_char(v@, '/') == crate::styles::strip_end_char(
                v@.take(j as int),
                '/',
            ),
        decreases j,
    {
        proof {
            assert(v@.take(j as int).drop_last() =~= v@.take(j - 1));
        }
        j = j - 1;
    }
    proof {
        assert(v@.take(j as int) =~= v@.subrange(0, j as int));
    }
    let mut out = slice(&v, 0, j);
    append_str(&mut out, "/chat/completions");
    string_of(&out)
}

/// What `serde_json` finds at `choices[0].message.content` of a reply
/// body: an error message when the body is not JSON; otherwise the text
/// there when it is a string.
pub uninterp spec fn reply_content_of(body: Seq<char>) -> Result<Option<Seq<char>>, Seq<char>>;

/// Parses `body` with `serde_json::from_str` for a `serde_json::Value`
/// and reads `choices[0].message.content` with `Value::as_str`; a parse
/// error is given back as `serde_json::Error`'s display text. The result
/// is named `reply_content_of(body)`; nothing more is stated of it.
#[verifier::external_body]
fn reply_content(body: &str) -> (r: Result<Option<String>, String>)
    ensures
        match r {
            Ok(c) => reply_content_of(body@) == Ok::<Option<Seq<char>>, Seq<char>>(ov(c)),
            Err(e) => reply_content_of(body@) == Err::<Option<Seq<char>>, Seq<char>>(e@),
        },
{
    match serde_json::from_str::<serde_json::Value>(body) {
        Ok(json) => Ok(json["choices"][0]["message"]["content"].as_str().map(String::from)),
        Err(e) => Err(e.to_string()),
    }
}

pub open spec fn reply_view(r: Result<String, LlmError>) -> Result<Seq<char>, LlmErrorModel> {
    match r {
        Ok(s) => Ok(s@),
        Err(e) => Err(e@),
    }
}

/// The answer of a chat-completion call read from its HTTP status and
/// body: an HTTP error with the first 200 characters of the body; an
/// error when the body is not JSON or has no `choices[0].message.content`;
/// otherwise that content.
pub open spec fn reply_of_s(status_ok: bool, status: Seq<char>, body: Seq<char>) -> Result<
    Seq<char>,
    LlmErrorModel,
> {
    if !status_ok {
        Err(
            LlmErrorModel::Failed(
                "HTTP "@ + status + ": "@ + body.take(
                    if body.len() < 200 {
                        body.len() as int
                    } else {
                        200
                    },
                ),
            ),
        )
    } else {
        reply_from_content_s(reply_content_of(body))
    }
}

/// Reads a chat-completion reply: `status` is the HTTP status as printed
/// (such as `404 Not Found`) and `status_ok` whether it is a success.
pub fn reply_of(status_ok: bool, status: &str, body: &str) -> (r: Result<String, LlmError>)
    ensures
        reply_view(r) == reply_of_s(status_ok, status@, body@),
{
    if !status_ok {
        let bv = chars_of(body);
        let n = if bv.len() < 200 {
            bv.len()
        } else {
            200
        };
        let mut out = chars_of("HTTP ");
        append_str(&mut out, status);
        append_str(&mut out, ": ");
        append(&mut out, &slice(&bv, 0, n));
        proof {
            assert(bv@.subrange(0, n as int) =~= body@.take(n as int));
        }
        return Err(LlmError::Failed(string_of(&out)));
    }
    reply_from_content(reply_content(body))
}

/// What a successful reply gives once its body was read: the error text
/// of a body that is not JSON, the missing-content error, or the content.
pub open spec fn reply_from_content_s(content: Result<Option<Seq<char>>, Seq<char>>) -> Result<
    Seq<char>,
    LlmErrorModel,
> {
    match content {
        Err(e) => Err(LlmErrorModel::Failed("响应不是合法 JSON: "@ + e)),
        Ok(None) => Err(LlmErrorModel::Failed("响应里没有 choices[0].message.content"@)),
        Ok(Some(c)) => Ok(c),
    }
}

/// Turns what was read at `choices[0].message.content` of a reply body
/// into the answer of the call.
pub fn reply_from_content(content: Result<Option<String>, String>) -> (r: Result<String, LlmError>)
    ensures
        reply_view(r) == reply_from_content_s(
            match content {
                Ok(c) => Ok::<Option<Seq<char>>, Seq<char>>(ov(c)),
                Err(e) => Err::<Option<Seq<char>>, Seq<char>>(e@),
            },
        ),
{
    match content {
        Err(e) => {
            let mut out = chars_of("响应不是合法 JSON: ");
            append_str(&mut out, e.as_str());
            Err(LlmError::Failed(string_of(&out)))
        },
        Ok(None) => Err(
            LlmError::Failed(string_of(&chars_of("响应里没有 choices[0].message.content"))),
        ),
        Ok(Some(c)) => Ok(copy_string(&c)),
    }
}

} // verus!
