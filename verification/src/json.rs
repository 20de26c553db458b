//! The JSON object a language model answers with, read field by field.
use vstd::prelude::*;

use crate::citation::{ascii_lower_s, ascii_lowercase};
use crate::store::{copy_string, ov, sviews, Citation};
use crate::text::{
    chars_of, find, find_s, rfind, rfind_s, slice, starts_with_s, starts_with_str, string_of,
    trim, trim_s,
};

verus! {

/// A value of a top-level JSON field, as far as citations read it.
#[derive(Debug, Clone, PartialEq)]
pub enum JsonField {
    /// A JSON string.
    Text(String),
    /// A JSON number: as printed by `serde_json`, and as an `i64` when it is one.
    Number { text: String, whole: Option<i64> },
    /// A JSON array: each element's text when it is a string.
    List(Vec<Option<String>>),
    /// `null`, a boolean or an object.
    Other,
}

/// A JSON field as values.
pub enum FieldModel {
    Text(Seq<char>),
    Number(Seq<char>, Option<i64>),
    List(Seq<Option<Seq<char>>>),
    Other,
}

pub open spec fn ovs(v: Seq<Option<String>>) -> Seq<Option<Seq<char>>> {
    v.map_values(|o: Option<String>| ov(o))
}

impl View for JsonField {
    type V = FieldModel;

    open spec fn view(&self) -> FieldModel {
        match self {
            JsonField::Text(s) => FieldModel::Text(s@),
            JsonField::Number { text, whole } => FieldModel::Number(text@, *whole),
            JsonField::List(v) => FieldModel::List(ovs(v@)),
            JsonField::Other => FieldModel::Other,
        }
    }
}

#[verifier::opaque]
pub open spec fn fields_view(v: Seq<(String, JsonField)>) -> Seq<(Seq<char>, FieldModel)> {
    v.map_values(|e: (String, JsonField)| (e.0@, e.1@))
}

/// What `serde_json::from_str::<serde_json::Value>` makes of `text`: `None`
/// when it is not a single JSON value; otherwise the entries of the
/// top-level object in the order the parsed map walks them (no entries
/// when the value is not an object).
pub uninterp spec fn json_object_of(text: Seq<char>) -> Option<Seq<(Seq<char>, FieldModel)>>;

/// Calls `serde_json::from_str` for a `serde_json::Value` and lists the
/// entries of the top-level object, each value converted to a `JsonField`
/// (numbers through `Number::to_string` and `Number::as_i64`, array
/// elements through `Value::as_str`). The result is named
/// `json_object_of(text)`; nothing more is stated of it.
#[verifier::external_body]
pub(crate) fn parse_object(text: &str) -> (r: Option<Vec<(String, JsonField)>>)
    ensures
        match r {
            Some(v) => json_object_of(text@) == Some(fields_view(v@)),
            None => json_object_of(text@) is None,
        },
{
    let v: serde_json::Value = serde_json::from_str(text).ok()?;
    let entries = match v.as_object() {
        Some(map) => map.iter().map(|(k, x)| (k.clone(), match x {
            serde_json::Value::String(s) => JsonField::Text(s.clone()),
            serde_json::Value::Number(n) => JsonField::Number { text: n.to_string(), whole: n.as_i64() },
            serde_json::Value::Array(a) => JsonField::List(a.iter().map(|e| e.as_str().map(String::from)).collect()),
            _ => JsonField::Other,
        })).collect(),
        None => Vec::new(),
    };
    Some(entries)
}

/// The inside of the first ```` ``` ```` fence of `t` (after an optional
/// `json`), trimmed and read as JSON.
pub open spec fn fenced_s(t: Seq<char>) -> Option<Seq<(Seq<char>, FieldModel)>> {
    match fence_span(t) {
        Some((a, b)) => json_object_of(trim_s(t.subrange(a, b))),
        None => None,
    }
}

/// Index of the first occurrence of `n` in `t`.
#[verifier::opaque]
pub open spec fn first_at(t: Seq<char>, n: Seq<char>) -> Option<int> {
    find_s(t, n)
}

/// Index of the last occurrence of `n` in `t`.
#[verifier::opaque]
pub open spec fn last_at(t: Seq<char>, n: Seq<char>) -> Option<int> {
    rfind_s(t, n)
}

fn first_at_exec(t: &Vec<char>, n: &str) -> (r: Option<usize>)
    ensures
        r matches Some(i) ==> first_at(t@, n@) == Some(i as int) && i + n@.len() <= t.len(),
        r is None ==> first_at(t@, n@) is None,
{
    reveal(first_at);
    let nv = chars_of(n);
    find(t, &nv)
}

fn last_at_exec(t: &Vec<char>, n: &str) -> (r: Option<usize>)
    ensures
        r matches Some(i) ==> last_at(t@, n@) == Some(i as int) && i + n@.len() <= t.len(),
        r is None ==> last_at(t@, n@) is None,
{
    reveal(last_at);
    let nv = chars_of(n);
    rfind(t, &nv)
}

/// Character range from the first `{` to the last `}` of `t`, when the
/// last comes after the first.
pub open spec fn brace_span(t: Seq<char>) -> Option<(int, int)> {
    match first_at(t, "{"@) {
        Some(a) => match last_at(t, "}"@) {
            Some(b) => if b > a {
                Some((a, b + 1))
            } else {
                None
            },
            None => None,
        },
        None => None,
    }
}

/// The span of `t` from the first `{` to the last `}`, read as JSON.
pub open spec fn braced_s(t: Seq<char>) -> Option<Seq<(Seq<char>, FieldModel)>> {
    match brace_span(t) {
        Some((a, b)) => json_object_of(t.subrange(a, b)),
        None => None,
    }
}

/// Character range of the inside of the first fence of `t` (after an
/// optional `json`), before trimming.
pub open spec fn fence_span(t: Seq<char>) -> Option<(int, int)> {
    match first_at(t, "```"@) {
        Some(start) => {
            let from = if starts_with_s(t.subrange(start + 3, t.len() as int), "json"@) {
                start + 7
            } else {
                start + 3
            };
            match first_at(t.subrange(from, t.len() as int), "```"@) {
                Some(end) => Some((from, from + end)),
                None => None,
            }
        },
        None => None,
    }
}

/// The JSON in a model's reply: the whole trimmed reply; else the inside of
/// the first ```` ``` ```` fence (after an optional `json`); else the span
/// from the first `{` to the last `}`.
pub open spec fn extract_json_s(raw: Seq<char>) -> Option<Seq<(Seq<char>, FieldModel)>> {
    let t = trim_s(raw);
    if json_object_of(t) is Some {
        json_object_of(t)
    } else if fenced_s(t) is Some {
        fenced_s(t)
    } else {
        braced_s(t)
    }
}

fn fence_span_of(t: &Vec<char>) -> (r: Option<(usize, usize)>)
    ensures
        r matches Some((a, b)) ==> fence_span(t@) == Some((a as int, b as int)) && a <= b <= t.len(),
        r is None ==> fence_span(t@) is None,
{
    proof {
        reveal_strlit("```");
        reveal_strlit("json");
    }
    let start = match first_at_exec(t, "```") {
        Some(i) => i,
        None => {
            return None;
        },
    };
    let a0 = slice(t, start + 3, t.len());
    let from = if starts_with_str(&a0, "json") {
        start + 7
    } else {
        start + 3
    };
    let rest = slice(t, from, t.len());
    match first_at_exec(&rest, "```") {
        Some(end) => Some((from, from + end)),
        None => None,
    }
}

fn fenced(t: &Vec<char>) -> (r: Option<Vec<(String, JsonField)>>)
    ensures
        match r {
            Some(v) => fenced_s(t@) == Some(fields_view(v@)),
            None => fenced_s(t@) is None,
        },
{
    match fence_span_of(t) {
        Some((a, b)) => {
            let inner = trim(&slice(t, a, b));
            let is = string_of(&inner);
            parse_object(is.as_str())
        },
        None => None,
    }
}

fn brace_span_of(t: &Vec<char>) -> (r: Option<(usize, usize)>)
    ensures
        r matches Some((a, b)) ==> brace_span(t@) == Some((a as int, b as int)) && a <= b <= t.len(),
        r is None ==> brace_span(t@) is None,
{
    proof {
        reveal_strlit("}");
    }
    let a = match first_at_exec(t, "{") {
        Some(i) => i,
        None => {
            return None;
        },
    };
    let b = match last_at_exec(t, "}") {
        Some(i) => i,
        None => {
            return None;
        },
    };
    if b > a {
        Some((a, b + 1))
    } else {
        None
    }
}

fn braced(t: &Vec<char>) -> (r: Option<Vec<(String, JsonField)>>)
    ensures
        match r {
            Some(v) => braced_s(t@) == Some(fields_view(v@)),
            None => braced_s(t@) is None,
        },
{
    match brace_span_of(t) {
        Some((a, b)) => {
            let span = slice(t, a, b);
            let ss = string_of(&span);
            parse_object(ss.as_str())
        },
        None => None,
    }
}

/// Entries of the JSON object in a model's reply, which may wrap it in a
/// code fence or in a sentence; `None` when no JSON can be read out of it.
pub fn extract_json(raw: &str) -> (r: Option<Vec<(String, JsonField)>>)
    ensures
        match r {
            Some(v) => extract_json_s(raw@) == Some(fields_view(v@)),
            None => extract_json_s(raw@) is None,
        },
{
    let rv = chars_of(raw);
    let t = trim(&rv);
    let ts = string_of(&t);
    if let Some(v) = parse_object(ts.as_str()) {
        return Some(v);
    }
    let f = fenced(&t);
    if f.is_some() {
        return f;
    }
    braced(&t)
}

/// The first entry named `key`.
pub open spec fn field_s(fields: Seq<(Seq<char>, FieldModel)>, key: Seq<char>) -> Option<FieldModel>
    decreases fields.len(),
{
    if fields.len() == 0 {
        None
    } else if fields[0].0 == key {
        Some(fields[0].1)
    } else {
        field_s(fields.subrange(1, fields.len() as int), key)
    }
}

fn field<'a>(fields: &'a Vec<(String, JsonField)>, key: &str) -> (r: Option<&'a JsonField>)
    ensures
        match r {
            Some(f) => field_s(fields_view(fields@), key@) == Some(f@),
            None => field_s(fields_view(fields@), key@) is None,
        },
{
    proof {
        reveal(fields_view);
    }
    let ghost fv = fields_view(fields@);
    let kv = chars_of(key);
    let mut i: usize = 0;
    proof {
        assert(fv.subrange(0, fv.len() as int) =~= fv);
    }
    while i < fields.len()
        invariant
            0 <= i <= fields.len(),
            fv == fields_view(fields@),
            kv@ == key@,
            field_s(fv, key@) == field_s(fv.subrange(i as int, fv.len() as int), key@),
        decreases fields.len() - i,
    {
        let kc = chars_of(fields[i].0.as_str());
        proof {
            reveal(fields_view);
            assert(fv.subrange(i as int, fv.len() as int)[0] == fv[i as int]);
            assert(fv.subrange(i as int, fv.len() as int).subrange(1, fv.len() - i) =~= fv.subrange(
                i + 1,
                fv.len() as int,
            ));
        }
        if crate::text::eq_chars(&kc, &kv) {
            return Some(&fields[i].1);
        }
        i = i + 1;
    }
    None
}

/// A field's string, as it stands; `None` for a missing field or one that
/// is not a JSON string.
pub open spec fn text_field_s(f: Option<FieldModel>) -> Option<Seq<char>> {
    match f {
        Some(FieldModel::Text(s)) => Some(s),
        _ => None,
    }
}

/// The string of field `key`, when there is one.
pub fn text_field(fields: &Vec<(String, JsonField)>, key: &str) -> (r: Option<String>)
    ensures
        ov(r) == text_field_s(field_s(fields_view(fields@), key@)),
{
    match field(fields, key) {
        Some(JsonField::Text(s)) => Some(copy_string(s)),
        _ => None,
    }
}

/// The string of field `key` of the JSON object `text`: `None` when the
/// text is not JSON, or the field is missing or not a string.
pub open spec fn json_text_field_s(text: Seq<char>, key: Seq<char>) -> Option<Seq<char>> {
    match json_object_of(text) {
        Some(fs) => text_field_s(field_s(fs, key)),
        None => None,
    }
}

/// A field read as text: a trimmed string other than empty or `null` (in
/// any case), or a number as printed.
pub open spec fn opt_str_s(f: Option<FieldModel>) -> Option<Seq<char>> {
    match f {
        Some(FieldModel::Text(s)) => {
            let t = trim_s(s);
            if t.len() == 0 || ascii_lower_s(t) == "null"@ {
                None
            } else {
                Some(t)
            }
        },
        Some(FieldModel::Number(text, _)) => Some(text),
        _ => None,
    }
}

/// The text of field `key`: a trimmed string that is neither empty nor
/// `null`, or a number as printed; otherwise `None`.
pub fn opt_str(fields: &Vec<(String, JsonField)>, key: &str) -> (r: Option<String>)
    ensures
        ov(r) == opt_str_s(field_s(fields_view(fields@), key@)),
{
    match field(fields, key) {
        Some(JsonField::Text(s)) => {
            let sv = chars_of(s.as_str());
            let t = trim(&sv);
            let low = ascii_lowercase(&t);
            if t.len() == 0 || crate::text::eq_chars(&low, &chars_of("null")) {
                None
            } else {
                Some(string_of(&t))
            }
        },
        Some(JsonField::Number { text, whole: _ }) => Some(copy_string(text)),
        _ => None,
    }
}

/// The trimmed, non-empty strings of a list.
pub open spec fn clean_names(items: Seq<Option<Seq<char>>>) -> Seq<Seq<char>>
    decreases items.len(),
{
    if items.len() == 0 {
        seq![]
    } else {
        let rest = clean_names(items.drop_last());
        match items.last() {
            Some(s) => if trim_s(s).len() > 0 {
                rest.push(trim_s(s))
            } else {
                rest
            },
            None => rest,
        }
    }
}

/// The citation a JSON object describes: `None` without a non-empty
/// string `title`; authors are the non-empty strings of `authors`; the
/// year is `year` when it is an integer.
pub open spec fn citation_from_fields_s(fields: Seq<(Seq<char>, FieldModel)>) -> Option<
    crate::store::CitationModel,
> {
    match field_s(fields, "title"@) {
        Some(FieldModel::Text(t)) => if trim_s(t).len() > 0 {
            Some(
                crate::store::CitationModel {
                    authors: match field_s(fields, "authors"@) {
                        Some(FieldModel::List(items)) => clean_names(items),
                        _ => seq![],
                    },
                    title: trim_s(t),
                    venue: opt_str_s(field_s(fields, "venue"@)),
                    year: match field_s(fields, "year"@) {
                        Some(FieldModel::Number(_, n)) => n,
                        _ => None,
                    },
                    volume: opt_str_s(field_s(fields, "volume"@)),
                    page: opt_str_s(field_s(fields, "page"@)),
                    doi: opt_str_s(field_s(fields, "doi"@)),
                },
            )
        } else {
            None
        },
        _ => None,
    }
}

fn clean_list(items: &Vec<Option<String>>) -> (r: Vec<String>)
    ensures
        crate::store::sviews(r@) == clean_names(ovs(items@)),
{
    let ghost iv = ovs(items@);
    let mut r: Vec<String> = Vec::new();
    let mut i: usize = 0;
    while i < items.len()
        invariant
            0 <= i <= items.len(),
            iv == ovs(items@),
            crate::store::sviews(r@) == clean_names(iv.take(i as int)),
        decreases items.len() - i,
    {
        proof {
            assert(iv.take(i + 1).drop_last() =~= iv.take(i as int));
        }
        match &items[i] {
            Some(s) => {
                let sv = chars_of(s.as_str());
                let t = trim(&sv);
                if t.len() > 0 {
                    let ghost r0 = r@;
                    r.push(string_of(&t));
                    proof {
                        assert(crate::store::sviews(r@) =~= crate::store::sviews(r0).push(t@));
                    }
                }
            },
            None => {},
        }
        i = i + 1;
    }
    proof {
        assert(iv.take(items.len() as int) =~= iv);
    }
    r
}

/// The citation described by the entries of a JSON object: `None` unless
/// `title` is a string that is not blank.
pub fn citation_from_fields(fields: &Vec<(String, JsonField)>) -> (r: Option<Citation>)
    ensures
        crate::store::opt_cite_view(r) == citation_from_fields_s(fields_view(fields@)),
{
    let title = match field(fields, "title") {
        Some(JsonField::Text(t)) => {
            let tv = chars_of(t.as_str());
            let tt = trim(&tv);
            if tt.len() == 0 {
                return None;
            }
            string_of(&tt)
        },
        _ => {
            return None;
        },
    };
    let authors = match field(fields, "authors") {
        Some(JsonField::List(items)) => clean_list(items),
        _ => Vec::new(),
    };
    let year = match field(fields, "year") {
        Some(JsonField::Number { text: _, whole }) => *whole,
        _ => None,
    };
    let c = Citation {
        authors,
        title,
        venue: opt_str(fields, "venue"),
        year,
        volume: opt_str(fields, "volume"),
        page: opt_str(fields, "page"),
        doi: opt_str(fields, "doi"),
    };
    proof {
        assert(crate::store::sviews(c.authors@) == (match field_s(fields_view(fields@), "authors"@) {
            Some(FieldModel::List(items)) => clean_names(items),
            _ => seq![],
        }));
    }
    Some(c)
}

/// The citation in a model's JSON reply (`None` when the reply holds no
/// JSON or no title).
pub fn parse_citation_json(raw: &str) -> (r: Option<Citation>)
    ensures
        crate::store::opt_cite_view(r) == match extract_json_s(raw@) {
            Some(fields) => citation_from_fields_s(fields),
            None => None,
        },
{
    match extract_json(raw) {
        Some(fields) => citation_from_fields(&fields),
        None => None,
    }
}

// ---------------------------------------------------------------------------
// The authors column: a JSON list of strings
// ---------------------------------------------------------------------------

/// What `serde_json::from_str::<Vec<String>>` makes of `text`: the strings
/// of a JSON array of strings, `None` for any other text.
pub uninterp spec fn json_string_list_of(text: Seq<char>) -> Option<Seq<Seq<char>>>;

/// Calls `serde_json::from_str::<Vec<String>>`; the list is named
/// `json_string_list_of(text)`, and a parse error is `None`.
#[verifier::external_body]
fn parse_string_list(text: &str) -> (r: Option<Vec<String>>)
    ensures
        match r {
            Some(v) => json_string_list_of(text@) == Some(sviews(v@)),
            None => json_string_list_of(text@) is None,
        },
{
    serde_json::from_str::<Vec<String>>(text).ok()
}

/// The authors stored in a citation's column: the strings of its JSON
/// list; none when the column is empty or not such a list.
pub open spec fn authors_of_column_s(col: Option<Seq<char>>) -> Seq<Seq<char>> {
    match col {
        Some(t) => match json_string_list_of(t) {
            Some(l) => l,
            None => seq![],
        },
        None => seq![],
    }
}

pub fn authors_of_column(col: Option<String>) -> (r: Vec<String>)
    ensures
        sviews(r@) == authors_of_column_s(ov(col)),
{
    match col {
        Some(t) => match parse_string_list(t.as_str()) {
            Some(v) => v,
            None => Vec::new(),
        },
        None => Vec::new(),
    }
}

/// A hexadecimal digit in lower case.
pub open spec fn hex_digit(n: nat) -> char {
    if n < 10 {
        crate::text::digit_char(n)
    } else {
        (87 + n) as char
    }
}

/// How `serde_json` writes one character inside a string: `"` and `\`
/// behind a backslash, the control characters with a short escape where
/// JSON has one and as `\u00xx` otherwise, every other character as it is.
pub open spec fn json_escape_char(c: char) -> Seq<char> {
    if c == '"' {
        seq!['\\', '"']
    } else if c == '\\' {
        seq!['\\', '\\']
    } else if c == '\u{8}' {
        seq!['\\', 'b']
    } else if c == '\t' {
        seq!['\\', 't']
    } else if c == '\n' {
        seq!['\\', 'n']
    } else if c == '\u{c}' {
        seq!['\\', 'f']
    } else if c == '\r' {
        seq!['\\', 'r']
    } else if (c as u32) < 0x20 {
        seq!['\\', 'u', '0', '0', hex_digit((c as u32 / 16) as nat), hex_digit((c as u32 % 16) as nat)]
    } else {
        seq![c]
    }
}

pub open spec fn json_escape(s: Seq<char>) -> Seq<char>
    decreases s.len(),
{
    if s.len() == 0 {
        seq![]
    } else {
        json_escape(s.drop_last()) + json_escape_char(s.last())
    }
}

/// The strings as JSON strings, separated by commas.
pub open spec fn json_strings_joined(items: Seq<Seq<char>>) -> Seq<char>
    decreases items.len(),
{
    if items.len() == 0 {
        seq![]
    } else {
        let last = seq!['"'] + json_escape(items.last()) + seq!['"'];
        if items.len() == 1 {
            last
        } else {
            json_strings_joined(items.drop_last()) + seq![','] + last
        }
    }
}

/// The compact JSON array of the strings, as `serde_json::to_string`
/// writes it.
pub open spec fn json_array_text(items: Seq<Seq<char>>) -> Seq<char> {
    seq!['['] + json_strings_joined(items) + seq![']']
}

/// Calls `serde_json::to_string` on a list of strings. Its documentation
/// names two causes of failure, a `Serialize` impl that fails and a map
/// with non-string keys, and a list of strings has neither; the text is
/// the compact array with each string escaped as `json_escape` says.
#[verifier::external_body]
fn strings_to_json(items: &Vec<String>) -> (r: Option<String>)
    ensures
        r is Some,
        r.unwrap()@ == json_array_text(sviews(items@)),
{
    serde_json::to_string(items).ok()
}

/// The text stored in the authors column: the list as a compact JSON array.
pub fn authors_column(authors: &Vec<String>) -> (r: String)
    ensures
        r@ == json_array_text(sviews(authors@)),
{
    match strings_to_json(authors) {
        Some(t) => t,
        None => string_of(&chars_of("[]")),
    }
}

} // verus!
