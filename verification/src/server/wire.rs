//! Reading the JSON lines of the wire protocol: a command the service
//! receives, and the replies a client gets back.

use vstd::prelude::*;

use crate::client::{health_from_fields, query_outcome, text_entries, ServerHealth};
use crate::kernel::error::{AnamError, Result};
use crate::server::dispatch::{wire_command, WireCommand};
use crate::text::{chars_of, push_str, string_of, text_eq};

verus! {

/// A member value of a JSON object, as the protocol reads it.
#[derive(Debug, Clone, PartialEq, Eq)]
pub enum JsonField {
    /// A string.
    Text(String),
    /// A boolean.
    Flag(bool),
    /// A number: its value when it is an integer that fits a `u64`.
    Count(Option<u64>),
    /// An array: each element's text when it is a string.
    List(Vec<Option<String>>),
    /// `null` or an object.
    Other,
}

/// The value of a [`JsonField`].
pub enum FieldView {
    Text(Seq<char>),
    Flag(bool),
    Count(Option<u64>),
    List(Seq<Option<Seq<char>>>),
    Other,
}

/// Optional texts as values.
pub open spec fn opt_texts(v: Seq<Option<String>>) -> Seq<Option<Seq<char>>> {
    v.map_values(
        |x: Option<String>|
            match x {
                Some(s) => Some(s@),
                None => None,
            },
    )
}

impl View for JsonField {
    type V = FieldView;

    open spec fn view(&self) -> FieldView {
        match self {
            JsonField::Text(s) => FieldView::Text(s@),
            JsonField::Flag(b) => FieldView::Flag(*b),
            JsonField::Count(n) => FieldView::Count(*n),
            JsonField::List(v) => FieldView::List(opt_texts(v@)),
            JsonField::Other => FieldView::Other,
        }
    }
}

/// The members of an object as values.
pub open spec fn member_views(v: Seq<(String, JsonField)>) -> Seq<(Seq<char>, FieldView)> {
    v.map_values(|m: (String, JsonField)| (m.0@, m.1@))
}

/// A parse result as a value.
pub open spec fn members_result(
    r: std::result::Result<Vec<(String, JsonField)>, String>,
) -> std::result::Result<Seq<(Seq<char>, FieldView)>, Seq<char>> {
    match r {
        Ok(v) => Ok(member_views(v@)),
        Err(e) => Err(e@),
    }
}

/// What `serde_json::from_str::<serde_json::Value>` reads from a line: the
/// members of the object (none for another JSON value), in the order the
/// map holds them, or the parser's error message.
pub uninterp spec fn json_members(line: Seq<char>) -> std::result::Result<
    Seq<(Seq<char>, FieldView)>,
    Seq<char>,
>;

/// `serde_json::from_str` of a line into a `serde_json::Value`, with the
/// object's members read as [`JsonField`]s. The result is named by
/// [`json_members`].
#[verifier::external_body]
fn parse_json_members(line: &str) -> (r: std::result::Result<Vec<(String, JsonField)>, String>)
    ensures
        members_result(r) == json_members(line@),
{
    match serde_json::from_str::<serde_json::Value>(line).map_err(|e| e.to_string())? {
        serde_json::Value::Object(m) => Ok(m.into_iter().map(|(k, x)| (k, match x {
            serde_json::Value::String(s) => JsonField::Text(s),
            serde_json::Value::Bool(b) => JsonField::Flag(b),
            serde_json::Value::Number(n) => JsonField::Count(n.as_u64()),
            serde_json::Value::Array(a) => JsonField::List(a.into_iter().map(|e| match e {
                serde_json::Value::String(s) => Some(s),
                _ => None,
            }).collect()),
            _ => JsonField::Other,
        })).collect()),
        _ => Ok(Vec::new()),
    }
}

/// The value of the first member named `key`.
pub open spec fn field_of(m: Seq<(Seq<char>, FieldView)>, key: Seq<char>) -> Option<FieldView>
    decreases m.len(),
{
    if m.len() == 0 {
        None
    } else if m[0].0 == key {
        Some(m[0].1)
    } else {
        field_of(m.drop_first(), key)
    }
}

/// The member `key` when it is a string.
pub open spec fn text_of(m: Seq<(Seq<char>, FieldView)>, key: Seq<char>) -> Option<Seq<char>> {
    match field_of(m, key) {
        Some(FieldView::Text(s)) => Some(s),
        _ => None,
    }
}

/// The member `key` when it is a boolean.
pub open spec fn flag_of(m: Seq<(Seq<char>, FieldView)>, key: Seq<char>) -> Option<bool> {
    match field_of(m, key) {
        Some(FieldView::Flag(b)) => Some(b),
        _ => None,
    }
}

/// The member `key` when it is a number that fits a `u64`.
pub open spec fn count_of(m: Seq<(Seq<char>, FieldView)>, key: Seq<char>) -> Option<u64> {
    match field_of(m, key) {
        Some(FieldView::Count(n)) => n,
        _ => None,
    }
}

/// The member `key` when it is an array.
pub open spec fn list_of(m: Seq<(Seq<char>, FieldView)>, key: Seq<char>) -> Option<Seq<Option<Seq<char>>>> {
    match field_of(m, key) {
        Some(FieldView::List(v)) => Some(v),
        _ => None,
    }
}

/// The member `key` as text, empty when it is missing or not a string.
pub open spec fn text_or_empty(m: Seq<(Seq<char>, FieldView)>, key: Seq<char>) -> Seq<char> {
    match text_of(m, key) {
        Some(s) => s,
        None => Seq::empty(),
    }
}

fn find_field<'a>(m: &'a Vec<(String, JsonField)>, key: &str) -> (r: Option<&'a JsonField>)
    ensures
        match field_of(member_views(m@), key@) {
            Some(v) => r matches Some(x) && x@ == v,
            None => r is None,
        },
{
    let k = chars_of(key);
    let mut i: usize = 0;
    assert(member_views(m@).subrange(0, m@.len() as int) =~= member_views(m@));
    while i < m.len()
        invariant
            i <= m.len(),
            k@ == key@,
            field_of(member_views(m@), key@) == field_of(member_views(m@).subrange(i as int, m@.len() as int), key@),
        decreases m.len() - i,
    {
        let ghost rest = member_views(m@).subrange(i as int, m@.len() as int);
        assert(rest[0] == member_views(m@)[i as int]);
        assert(rest.drop_first() =~= member_views(m@).subrange(i + 1, m@.len() as int));
        if text_eq(&chars_of(m[i].0.as_str()), &k) {
            return Some(&m[i].1);
        }
        i += 1;
    }
    None
}

fn text_field(m: &Vec<(String, JsonField)>, key: &str) -> (r: Option<String>)
    ensures
        match text_of(member_views(m@), key@) {
            Some(s) => r matches Some(x) && x@ == s,
            None => r is None,
        },
{
    match find_field(m, key) {
        Some(JsonField::Text(s)) => Some(string_of(&chars_of(s.as_str()))),
        _ => None,
    }
}

fn text_field_or_empty(m: &Vec<(String, JsonField)>, key: &str) -> (r: String)
    ensures
        r@ == text_or_empty(member_views(m@), key@),
{
    match text_field(m, key) {
        Some(s) => s,
        None => String::new(),
    }
}

fn flag_field(m: &Vec<(String, JsonField)>, key: &str) -> (r: Option<bool>)
    ensures
        r == flag_of(member_views(m@), key@),
{
    match find_field(m, key) {
        Some(JsonField::Flag(b)) => Some(*b),
        _ => None,
    }
}

fn count_field(m: &Vec<(String, JsonField)>, key: &str) -> (r: Option<u64>)
    ensures
        r == count_of(member_views(m@), key@),
{
    match find_field(m, key) {
        Some(JsonField::Count(n)) => *n,
        _ => None,
    }
}

fn copy_texts(v: &Vec<Option<String>>) -> (r: Vec<Option<String>>)
    ensures
        opt_texts(r@) == opt_texts(v@),
{
    let mut r: Vec<Option<String>> = Vec::new();
    let mut i: usize = 0;
    while i < v.len()
        invariant
            i <= v.len(),
            opt_texts(r@) == opt_texts(v@).subrange(0, i as int),
        decreases v.len() - i,
    {
        let x = match &v[i] {
            Some(s) => Some(string_of(&chars_of(s.as_str()))),
            None => None,
        };
        let ghost before = opt_texts(r@);
        r.push(x);
        assert(opt_texts(r@) =~= before.push(opt_texts(v@)[i as int]));
        assert(opt_texts(v@).subrange(0, i + 1) =~= opt_texts(v@).subrange(0, i as int).push(
            opt_texts(v@)[i as int],
        ));
        i += 1;
    }
    assert(opt_texts(v@).subrange(0, v.len() as int) =~= opt_texts(v@));
    r
}

fn list_field(m: &Vec<(String, JsonField)>, key: &str) -> (r: Option<Vec<Option<String>>>)
    ensures
        match list_of(member_views(m@), key@) {
            Some(v) => r matches Some(x) && opt_texts(x@) == v,
            None => r is None,
        },
{
    match find_field(m, key) {
        Some(JsonField::List(v)) => Some(copy_texts(v)),
        _ => None,
    }
}

fn prefixed(prefix: &str, e: &String) -> (r: String)
    ensures
        r@ == prefix@ + e@,
{
    let mut m = chars_of(prefix);
    push_str(&mut m, e.as_str());
    string_of(&m)
}

// ── A command line ─────────────────────────────────────────────────────

/// The command a parsed line gives: a parse error becomes `invalid JSON:`
/// and the message; otherwise the string members `method`, `sql`, `name`,
/// `lance_path` and `datalog` (empty when missing) select it.
pub open spec fn wire_reads(
    fields: std::result::Result<Seq<(Seq<char>, FieldView)>, Seq<char>>,
    r: std::result::Result<WireCommand, String>,
) -> bool {
    match fields {
        Err(e) => r matches Err(m) && m@ == "invalid JSON: "@ + e,
        Ok(f) => {
            let method = text_or_empty(f, "method"@);
            &&& r is Ok
            &&& method == "query"@ ==> (r->Ok_0 matches WireCommand::Query { sql } && sql@ == text_or_empty(
                f,
                "sql"@,
            ))
            &&& method == "register_table"@ ==> (r->Ok_0 matches WireCommand::RegisterTable {
                name,
                lance_path,
            } && name@ == text_or_empty(f, "name"@) && lance_path@ == text_or_empty(f, "lance_path"@))
            &&& method == "register_rule"@ ==> (r->Ok_0 matches WireCommand::RegisterRule { name, datalog }
                && name@ == text_or_empty(f, "name"@) && datalog@ == text_or_empty(f, "datalog"@))
            &&& method == "health"@ ==> r->Ok_0 is Health
            &&& (method != "query"@ && method != "register_table"@ && method != "register_rule"@
                && method != "health"@) ==> (r->Ok_0 matches WireCommand::Unknown { method: m } && m@
                == method)
        },
    }
}

/// The command of a parsed line (see [`wire_reads`]).
pub fn wire_from_members(fields: &std::result::Result<Vec<(String, JsonField)>, String>) -> (r:
    std::result::Result<WireCommand, String>)
    ensures
        wire_reads(members_result(*fields), r),
{
    match fields {
        Err(e) => Err(prefixed("invalid JSON: ", e)),
        Ok(m) => {
            let method = text_field_or_empty(m, "method");
            let sql = text_field_or_empty(m, "sql");
            let name = text_field_or_empty(m, "name");
            let lance_path = text_field_or_empty(m, "lance_path");
            let datalog = text_field_or_empty(m, "datalog");
            Ok(wire_command(method.as_str(), sql.as_str(), name.as_str(), lance_path.as_str(), datalog.as_str()))
        },
    }
}

/// Read a JSON command line (see [`wire_reads`]).
pub fn parse_wire_line(line: &str) -> (r: std::result::Result<WireCommand, String>)
    ensures
        wire_reads(json_members(line@), r),
{
    wire_from_members(&parse_json_members(line))
}

// ── Replies ────────────────────────────────────────────────────────────

/// The error of a reply that is not JSON: `invalid response:` and the
/// parser's message.
pub open spec fn bad_reply(r: Result<(Option<String>, Vec<String>)>, e: Seq<char>) -> bool {
    r matches Err(AnamError::Serde(m)) && m@ == "invalid response: "@ + e
}

/// A query's outcome from its reply: not marked `ok`, a server error with
/// its `error` text (`unknown error` when none); otherwise the non-empty
/// `reasoning_tree` and the text entries of `anomalies`.
pub open spec fn query_reads(
    fields: std::result::Result<Seq<(Seq<char>, FieldView)>, Seq<char>>,
    r: Result<(Option<String>, Vec<String>)>,
) -> bool {
    match fields {
        Err(e) => bad_reply(r, e),
        Ok(f) => if flag_of(f, "ok"@) != Some(true) {
            r matches Err(AnamError::Logic(m)) && m@ == "server error: "@ + match text_of(f, "error"@) {
                Some(t) => t,
                None => "unknown error"@,
            }
        } else {
            r matches Ok((tree, list)) && (match text_of(f, "reasoning_tree"@) {
                Some(t) => if t.len() > 0 {
                    tree matches Some(x) && x@ == t
                } else {
                    tree is None
                },
                None => tree is None,
            }) && list@.map_values(|s: String| s@) == match list_of(f, "anomalies"@) {
                Some(a) => text_views(a),
                None => Seq::empty(),
            }
        },
    }
}

/// The texts among optional texts, in order.
pub open spec fn text_views(v: Seq<Option<Seq<char>>>) -> Seq<Seq<char>>
    decreases v.len(),
{
    if v.len() == 0 {
        Seq::empty()
    } else {
        match v.last() {
            Some(s) => text_views(v.drop_last()).push(s),
            None => text_views(v.drop_last()),
        }
    }
}

proof fn lemma_text_views(v: Seq<Option<String>>)
    ensures
        text_entries(v) == text_views(opt_texts(v)),
    decreases v.len(),
{
    if v.len() > 0 {
        lemma_text_views(v.drop_last());
        assert(opt_texts(v.drop_last()) =~= opt_texts(v).drop_last());
    }
}

/// A query's outcome from a parsed reply (see [`query_reads`]).
pub fn query_from_members(fields: &std::result::Result<Vec<(String, JsonField)>, String>) -> (r: Result<
    (Option<String>, Vec<String>),
>)
    ensures
        query_reads(members_result(*fields), r),
{
    match fields {
        Err(e) => Err(AnamError::Serde(prefixed("invalid response: ", e))),
        Ok(m) => {
            let anomalies = list_field(m, "anomalies");
            proof {
                if anomalies is Some {
                    lemma_text_views(anomalies->0@);
                }
            }
            query_outcome(
                flag_field(m, "ok"),
                text_field(m, "error"),
                text_field(m, "reasoning_tree"),
                anomalies,
            )
        },
    }
}

/// Read a query's reply line (see [`query_reads`]).
pub fn parse_query_reply(line: &str) -> (r: Result<(Option<String>, Vec<String>)>)
    ensures
        query_reads(json_members(line@), r),
{
    query_from_members(&parse_json_members(line))
}

/// A registration's reply: its `message` text, `ok` when there is none.
pub open spec fn register_reads(
    fields: std::result::Result<Seq<(Seq<char>, FieldView)>, Seq<char>>,
    r: Result<String>,
) -> bool {
    match fields {
        Err(e) => r matches Err(AnamError::Serde(m)) && m@ == "invalid response: "@ + e,
        Ok(f) => r matches Ok(s) && s@ == match text_of(f, "message"@) {
            Some(t) => t,
            None => "ok"@,
        },
    }
}

/// A registration's outcome from a parsed reply (see [`register_reads`]).
pub fn register_from_members(fields: &std::result::Result<Vec<(String, JsonField)>, String>) -> (r:
    Result<String>)
    ensures
        register_reads(members_result(*fields), r),
{
    match fields {
        Err(e) => Err(AnamError::Serde(prefixed("invalid response: ", e))),
        Ok(m) => match text_field(m, "message") {
            Some(s) => Ok(s),
            None => Ok(string_of(&chars_of("ok"))),
        },
    }
}

/// Read a registration's reply line (see [`register_reads`]).
pub fn parse_register_reply(line: &str) -> (r: Result<String>)
    ensures
        register_reads(json_members(line@), r),
{
    register_from_members(&parse_json_members(line))
}

/// The health a reply reports (see [`health_from_fields`]): the `status`
/// and `version` texts, the `tables`, `models` and `rules` counts.
pub open spec fn health_reads(
    fields: std::result::Result<Seq<(Seq<char>, FieldView)>, Seq<char>>,
    r: Result<ServerHealth>,
) -> bool {
    match fields {
        Err(e) => r matches Err(AnamError::Serde(m)) && m@ == "invalid response: "@ + e,
        Ok(f) => r matches Ok(h) && h.status@ == match text_of(f, "status"@) {
            Some(t) => t,
            None => "UNKNOWN"@,
        } && h.version@ == match text_of(f, "version"@) {
            Some(t) => t,
            None => "?"@,
        } && h.table_count == crate::client::count_or_zero(count_of(f, "tables"@))
            && h.model_count == crate::client::count_or_zero(count_of(f, "models"@))
            && h.rule_count == crate::client::count_or_zero(count_of(f, "rules"@)),
    }
}

/// The health of a parsed reply (see [`health_reads`]).
pub fn health_from_members(fields: &std::result::Result<Vec<(String, JsonField)>, String>) -> (r: Result<
    ServerHealth,
>)
    ensures
        health_reads(members_result(*fields), r),
{
    match fields {
        Err(e) => Err(AnamError::Serde(prefixed("invalid response: ", e))),
        Ok(m) => Ok(
            health_from_fields(
                text_field(m, "status"),
                text_field(m, "version"),
                count_field(m, "tables"),
                count_field(m, "models"),
                count_field(m, "rules"),
            ),
        ),
    }
}

/// Read a health reply line (see [`health_reads`]).
pub fn parse_health_reply(line: &str) -> (r: Result<ServerHealth>)
    ensures
        health_reads(json_members(line@), r),
{
    health_from_members(&parse_json_members(line))
}

} // verus!
