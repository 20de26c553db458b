//! Deciding which paper an excerpt cites. A language model is asked
//! first and the heuristics answer when it cannot; the calls themselves are
//! made by the caller, which hands the replies back in order.
use vstd::prelude::*;

use crate::citation::{bibliography_entry_s, extract_bibliography_entry, markers, markers_s};
use crate::heuristics::{
    from_reference_entry, from_reference_entry_s, from_title_content, from_title_content_s,
};
use crate::json::{citation_from_fields_s, extract_json_s, parse_citation_json};
use crate::llm::{LlmError, LlmErrorModel};
use crate::source::{strip_title_suffix, strip_title_suffix_s};
use crate::store::{opt_cite_view, ov, Citation, CitationKind, CitationModel};
use crate::text::{append_str, chars_of, string_of, trim, trim_s};

verus! {

/// What was found for an excerpt, and from which text.
#[derive(Debug)]
pub struct Extracted {
    pub citation: Option<Citation>,
    pub kind: CitationKind,
    /// Why there is no citation, for the user.
    pub reason: Option<String>,
    /// The text the citation was read from: the document type is judged
    /// on it, not on the whole excerpt.
    pub doc_type_hint: Option<String>,
}

pub struct ExtractedModel {
    pub citation: Option<CitationModel>,
    pub kind: CitationKind,
    pub reason: Option<Seq<char>>,
    pub doc_type_hint: Option<Seq<char>>,
}

impl View for Extracted {
    type V = ExtractedModel;

    open spec fn view(&self) -> ExtractedModel {
        ExtractedModel {
            citation: opt_cite_view(self.citation),
            kind: self.kind,
            reason: ov(self.reason),
            doc_type_hint: ov(self.doc_type_hint),
        }
    }
}

pub open spec fn none_s(reason: Seq<char>) -> ExtractedModel {
    ExtractedModel {
        citation: None,
        kind: CitationKind::NoCitation,
        reason: Some(reason),
        doc_type_hint: None,
    }
}

impl Extracted {
    /// Nothing found, for the given reason.
    pub fn none(reason: &str) -> (r: Extracted)
        ensures
            r@ == none_s(reason@),
    {
        Extracted {
            citation: None,
            kind: CitationKind::NoCitation,
            reason: Some(string_of(&chars_of(reason))),
            doc_type_hint: None,
        }
    }
}

/// A question for the language model.
#[derive(Debug)]
pub struct LlmRequest {
    pub system: String,
    pub user: String,
}

/// The next thing extraction needs: a model reply, or nothing more.
#[derive(Debug)]
pub enum ExtractStep {
    Ask(LlmRequest),
    Done(Extracted),
}

pub enum StepModel {
    Ask(Seq<char>, Seq<char>),
    Done(ExtractedModel),
}

impl View for ExtractStep {
    type V = StepModel;

    open spec fn view(&self) -> StepModel {
        match self {
            ExtractStep::Ask(q) => StepModel::Ask(q.system@, q.user@),
            ExtractStep::Done(x) => StepModel::Done(x@),
        }
    }
}

pub open spec fn replies_view(v: Seq<Result<String, LlmError>>) -> Seq<Result<Seq<char>, LlmErrorModel>> {
    v.map_values(|r: Result<String, LlmError>| crate::llm::reply_view(r))
}

pub open spec fn entry_prompt_s() -> Seq<char> {
    "你是文献引用解析助手。用户给你一条参考文献的原始文本，从中提取结构化字段。只输出 JSON，不要解释。字段：authors（字符串数组，按原文顺序）、title（字符串）、venue（期刊/会议/出版社，没有填 null）、year（数字，没有填 null）、volume（卷或期，字符串，没有填 null）、page（页码，没有填 null）、doi（DOI 或标识，没有填 null）。不要编造原文里没有的信息，缺失一律填 null。"@
}

/// The instructions for reading one reference entry.
pub fn entry_prompt() -> (r: &'static str)
    ensures
        r@ == entry_prompt_s(),
{
    "你是文献引用解析助手。用户给你一条参考文献的原始文本，从中提取结构化字段。只输出 JSON，不要解释。字段：authors（字符串数组，按原文顺序）、title（字符串）、venue（期刊/会议/出版社，没有填 null）、year（数字，没有填 null）、volume（卷或期，字符串，没有填 null）、page（页码，没有填 null）、doi（DOI 或标识，没有填 null）。不要编造原文里没有的信息，缺失一律填 null。"
}

pub open spec fn title_prompt_s() -> Seq<char> {
    "你是文献引用信息提取助手。用户会给你一篇文章的窗口标题和从中复制的一段正文。推断这篇文章本身的引用信息。只输出 JSON，不要解释。字段：authors（字符串数组）、title（文章标题）、venue（期刊/会议，没有填 null）、year（数字，没有填 null）、volume（字符串，没有填 null）、page（字符串，没有填 null）、doi（字符串，没有填 null）。标题通常就是文章名。拿不准的字段填 null，绝不编造。如果从标题和正文完全无法判断这是一篇什么文献，输出 {\"title\": null}。"@
}

/// The instructions for recognising the paper being read.
pub fn title_prompt() -> (r: &'static str)
    ensures
        r@ == title_prompt_s(),
{
    "你是文献引用信息提取助手。用户会给你一篇文章的窗口标题和从中复制的一段正文。推断这篇文章本身的引用信息。只输出 JSON，不要解释。字段：authors（字符串数组）、title（文章标题）、venue（期刊/会议，没有填 null）、year（数字，没有填 null）、volume（字符串，没有填 null）、page（字符串，没有填 null）、doi（字符串，没有填 null）。标题通常就是文章名。拿不准的字段填 null，绝不编造。如果从标题和正文完全无法判断这是一篇什么文献，输出 {\"title\": null}。"
}

pub open spec fn title_user_s(title: Seq<char>, content: Seq<char>) -> Seq<char> {
    "【窗口标题】\n"@ + title + "\n\n【复制的正文】\n"@ + content
}

/// The question about the paper being read: its window title and the
/// copied text.
pub fn title_user(title: &str, content: &str) -> (r: String)
    ensures
        r@ == title_user_s(title@, content@),
{
    let mut out = chars_of("【窗口标题】\n");
    append_str(&mut out, title);
    append_str(&mut out, "\n\n【复制的正文】\n");
    append_str(&mut out, content);
    string_of(&out)
}

/// The citation in a model's reply, when it holds a JSON object with a
/// title.
pub open spec fn reply_citation_s(raw: Seq<char>) -> Option<CitationModel> {
    match extract_json_s(raw) {
        Some(fields) => citation_from_fields_s(fields),
        None => None,
    }
}

/// The citation of a reference entry: the model's reading when it gave
/// one, otherwise the heuristic reading of the entry.
pub open spec fn entry_citation_s(entry: Seq<char>, reply: Result<Seq<char>, LlmErrorModel>) -> Option<
    CitationModel,
> {
    match reply {
        Ok(raw) => match reply_citation_s(raw) {
            Some(c) => Some(c),
            None => from_reference_entry_s(entry),
        },
        Err(_) => from_reference_entry_s(entry),
    }
}

/// The structured citation of one reference entry, from the model's reply
/// to `entry_prompt()` with the entry, or from the heuristics when the
/// model is not configured, failed, or gave nothing readable.
pub fn extract_citation_from_entry(entry: &str, reply: &Result<String, LlmError>) -> (r: Option<
    Citation,
>)
    ensures
        opt_cite_view(r) == entry_citation_s(entry@, crate::llm::reply_view(*reply)),
{
    match reply {
        Ok(raw) => {
            let c = parse_citation_json(raw.as_str());
            if c.is_some() {
                c
            } else {
                from_reference_entry(entry)
            }
        },
        Err(_) => from_reference_entry(entry),
    }
}

/// The title of a citation read from a reference entry, by the model or by
/// the heuristics, is never empty and is already trimmed; when the model
/// failed, the heuristic reading is what is given.
pub proof fn law_entry_citation_title(entry: Seq<char>, reply: Result<Seq<char>, LlmErrorModel>)
    ensures
        entry_citation_s(entry, reply) matches Some(c) ==> c.title.len() > 0 && trim_s(c.title)
            == c.title,
        reply is Err ==> entry_citation_s(entry, reply) == from_reference_entry_s(entry),
{
    crate::heuristics::law_entry_title_trimmed(entry);
    if let Ok(raw) = reply {
        if let Some(fields) = extract_json_s(raw) {
            if let Some(crate::json::FieldModel::Text(t)) = crate::json::field_s(fields, "title"@) {
                crate::text::lemma_trim_idempotent(t);
            }
        }
    }
}

/// The citation of the paper being read: the model's reading when it gave
/// one, otherwise the title with a year from the text.
pub open spec fn title_citation_s(
    title: Seq<char>,
    content: Seq<char>,
    reply: Result<Seq<char>, LlmErrorModel>,
) -> Option<CitationModel> {
    match reply {
        Ok(raw) => match reply_citation_s(raw) {
            Some(c) => Some(c),
            None => from_title_content_s(title, content),
        },
        Err(_) => from_title_content_s(title, content),
    }
}

/// The citation of the paper being read, from the model's reply to
/// `title_prompt()` with `title_user(title, content)`, or from the
/// fallback when the reply gives nothing.
pub fn extract_from_title_and_content(
    title: &str,
    content: &str,
    reply: &Result<String, LlmError>,
) -> (r: Option<Citation>)
    ensures
        opt_cite_view(r) == title_citation_s(title@, content@, crate::llm::reply_view(*reply)),
{
    match reply {
        Ok(raw) => {
            let c = parse_citation_json(raw.as_str());
            if c.is_some() {
                c
            } else {
                from_title_content(title, content)
            }
        },
        Err(_) => from_title_content(title, content),
    }
}

/// The trimmed window title, unless blank.
pub open spec fn clean_title(source_title: Option<Seq<char>>) -> Option<Seq<char>> {
    match source_title {
        Some(t) => if trim_s(t).len() > 0 {
            Some(trim_s(t))
        } else {
            None
        },
        None => None,
    }
}

/// The entry an excerpt's first marker points to in the bibliography, when
/// the excerpt has a marker and the bibliography is not blank.
pub open spec fn cited_entry_s(content: Seq<char>, bibliography: Option<Seq<char>>) -> Option<
    Seq<char>,
> {
    match bibliography {
        Some(b) => if markers_s(content).len() > 0 && trim_s(b).len() > 0 {
            bibliography_entry_s(b, markers_s(content)[0])
        } else {
            None
        },
        None => None,
    }
}

/// The current-paper path, with `used` replies already spent.
pub open spec fn title_path_s(
    content: Seq<char>,
    source_title: Option<Seq<char>>,
    replies: Seq<Result<Seq<char>, LlmErrorModel>>,
    used: int,
) -> StepModel {
    match clean_title(source_title) {
        Some(t) => {
            let cleaned = strip_title_suffix_s(t);
            if replies.len() <= used {
                StepModel::Ask(title_prompt_s(), title_user_s(cleaned, content))
            } else {
                match title_citation_s(cleaned, content, replies[used]) {
                    Some(c) => StepModel::Done(
                        ExtractedModel {
                            citation: Some(c),
                            kind: CitationKind::CurrentPaper,
                            reason: None,
                            doc_type_hint: Some(cleaned),
                        },
                    ),
                    None => StepModel::Done(none_s("无法识别来源"@)),
                }
            }
        },
        None => StepModel::Done(none_s("无法识别来源"@)),
    }
}

/// One step of deciding what an excerpt cites, given the model replies so
/// far. With a marker and a bibliography, the entry of the first marker is
/// asked about first and, when read, is the cited paper. Otherwise (or
/// when the entry gives nothing) the paper being read is asked about from
/// the window title; without a title nothing is found.
pub open spec fn extract_s(
    content: Seq<char>,
    source_title: Option<Seq<char>>,
    bibliography: Option<Seq<char>>,
    replies: Seq<Result<Seq<char>, LlmErrorModel>>,
) -> StepModel {
    match cited_entry_s(content, bibliography) {
        Some(entry) => if replies.len() == 0 {
            StepModel::Ask(entry_prompt_s(), entry)
        } else {
            match entry_citation_s(entry, replies[0]) {
                Some(c) => StepModel::Done(
                    ExtractedModel {
                        citation: Some(c),
                        kind: CitationKind::CitedPaper,
                        reason: None,
                        doc_type_hint: Some(entry),
                    },
                ),
                None => title_path_s(content, source_title, replies, 1),
            }
        },
        None => title_path_s(content, source_title, replies, 0),
    }
}

pub open spec fn opt_str_view(o: Option<&str>) -> Option<Seq<char>> {
    match o {
        Some(s) => Some(s@),
        None => None,
    }
}

fn title_path(
    content: &str,
    source_title: Option<&str>,
    replies: &Vec<Result<String, LlmError>>,
    used: usize,
) -> (r: ExtractStep)
    ensures
        r@ == title_path_s(content@, opt_str_view(source_title), replies_view(replies@), used as int),
{
    let t = match source_title {
        Some(s) => {
            let tt = trim(&chars_of(s));
            if tt.len() == 0 {
                return ExtractStep::Done(Extracted::none("无法识别来源"));
            }
            tt
        },
        None => {
            return ExtractStep::Done(Extracted::none("无法识别来源"));
        },
    };
    let ts = string_of(&t);
    let cleaned = strip_title_suffix(ts.as_str());
    if replies.len() <= used {
        return ExtractStep::Ask(
            LlmRequest {
                system: string_of(&chars_of(title_prompt())),
                user: title_user(cleaned.as_str(), content),
            },
        );
    }
    proof {
        assert(replies_view(replies@)[used as int] == crate::llm::reply_view(replies@[used as int]));
    }
    match extract_from_title_and_content(cleaned.as_str(), content, &replies[used]) {
        Some(c) => ExtractStep::Done(
            Extracted {
                citation: Some(c),
                kind: CitationKind::CurrentPaper,
                reason: None,
                doc_type_hint: Some(cleaned),
            },
        ),
        None => ExtractStep::Done(Extracted::none("无法识别来源")),
    }
}

/// The entry the first marker of `content` points to, as `cited_entry_s`.
fn cited_entry(content: &str, bibliography: Option<&str>) -> (r: Option<String>)
    ensures
        ov(r) == cited_entry_s(content@, opt_str_view(bibliography)),
{
    match bibliography {
        Some(b) => {
            let nums = markers(content);
            if nums.len() > 0 && trim(&chars_of(b)).len() > 0 {
                extract_bibliography_entry(b, nums[0])
            } else {
                None
            }
        },
        None => None,
    }
}

/// One step of finding what an excerpt cites (see `extract_s`): either the
/// question to put to the language model next, or the result. `replies`
/// are the answers to the questions asked so far, in order; the caller
/// asks, appends the answer and calls again until the result comes.
pub fn extract(
    content: &str,
    source_title: Option<&str>,
    bibliography: Option<&str>,
    replies: &Vec<Result<String, LlmError>>,
) -> (r: ExtractStep)
    ensures
        r@ == extract_s(
            content@,
            opt_str_view(source_title),
            opt_str_view(bibliography),
            replies_view(replies@),
        ),
{
    match cited_entry(content, bibliography) {
        Some(entry) => {
            if replies.len() == 0 {
                return ExtractStep::Ask(
                    LlmRequest { system: string_of(&chars_of(entry_prompt())), user: entry },
                );
            }
            proof {
                assert(replies_view(replies@)[0] == crate::llm::reply_view(replies@[0]));
            }
            match extract_citation_from_entry(entry.as_str(), &replies[0]) {
                Some(c) => ExtractStep::Done(
                    Extracted {
                        citation: Some(c),
                        kind: CitationKind::CitedPaper,
                        reason: None,
                        doc_type_hint: Some(entry),
                    },
                ),
                None => title_path(content, source_title, replies, 1),
            }
        },
        None => title_path(content, source_title, replies, 0),
    }
}

} // verus!
