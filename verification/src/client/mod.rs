//! Client SDK: connection configuration and server health.

use vstd::prelude::*;

use std::time::Duration;

use crate::kernel::error::{AnamError, Result};
use crate::text::{chars_of, push_str, string_of};

verus! {

/// Configuration for the client.
#[derive(Debug, Clone)]
pub struct ClientConfig {
    /// Server address (host:port).
    pub addr: String,
    /// Connection timeout.
    pub connect_timeout: Duration,
    /// Maximum retry attempts for failed queries.
    pub max_retries: u32,
}

/// `Clone` for `Duration` (std): `Duration` is `Copy`, so the clone is the
/// same duration.
pub assume_specification[ <Duration as Clone>::clone ](d: &Duration) -> (r: Duration)
    ensures
        r == *d,
;

/// `Duration::from_secs` (std). Nothing is stated of the duration: Verus
/// sees `Duration` as opaque.
#[verifier::external_body]
fn seconds(n: u64) -> (d: Duration) {
    Duration::from_secs(n)
}

impl Default for ClientConfig {
    /// The local server on port 8080, five seconds to connect, three
    /// retries.
    fn default() -> (r: Self)
        ensures
            r.addr@ == "127.0.0.1:8080"@,
            r.max_retries == 3,
    {
        ClientConfig {
            addr: string_of(&chars_of("127.0.0.1:8080")),
            connect_timeout: seconds(5),
            max_retries: 3,
        }
    }
}

/// Server health status.
#[derive(Debug, Clone)]
pub struct ServerHealth {
    /// Server status.
    pub status: String,
    /// AnamDB version.
    pub version: String,
    /// Number of registered tables.
    pub table_count: u32,
    /// Number of registered models.
    pub model_count: u32,
    /// Number of registered rules.
    pub rule_count: u32,
}

/// A field of a response as the client reads it: the text when present,
/// the default otherwise.
pub open spec fn text_or(v: Option<String>, default: Seq<char>) -> Seq<char> {
    match v {
        Some(s) => s@,
        None => default,
    }
}

/// A count of a response: its low 32 bits when present, 0 otherwise.
pub open spec fn count_or_zero(v: Option<u64>) -> u32 {
    match v {
        Some(n) => (n % 0x1_0000_0000) as u32,
        None => 0,
    }
}

fn text_or_exec(v: Option<String>, default: &str) -> (r: String)
    ensures
        r@ == text_or(v, default@),
{
    match v {
        Some(s) => s,
        None => string_of(&chars_of(default)),
    }
}

fn count_exec(v: Option<u64>) -> (r: u32)
    ensures
        r == count_or_zero(v),
{
    match v {
        Some(n) => (n % 0x1_0000_0000) as u32,
        None => 0,
    }
}

/// The health a server reports, from the fields of its response (each
/// absent or of the wrong kind is `None`): status `UNKNOWN` and version
/// `?` when missing, counts 0 when missing, and counts cut to 32 bits.
pub fn health_from_fields(
    status: Option<String>,
    version: Option<String>,
    tables: Option<u64>,
    models: Option<u64>,
    rules: Option<u64>,
) -> (r: ServerHealth)
    ensures
        r.status@ == text_or(status, "UNKNOWN"@),
        r.version@ == text_or(version, "?"@),
        r.table_count == count_or_zero(tables),
        r.model_count == count_or_zero(models),
        r.rule_count == count_or_zero(rules),
{
    ServerHealth {
        status: text_or_exec(status, "UNKNOWN"),
        version: text_or_exec(version, "?"),
        table_count: count_exec(tables),
        model_count: count_exec(models),
        rule_count: count_exec(rules),
    }
}

/// The text entries of a response's anomaly list, in order.
pub open spec fn text_entries(v: Seq<Option<String>>) -> Seq<Seq<char>>
    decreases v.len(),
{
    if v.len() == 0 {
        Seq::empty()
    } else {
        match v.last() {
            Some(s) => text_entries(v.drop_last()).push(s@),
            None => text_entries(v.drop_last()),
        }
    }
}

/// A query's outcome from the fields of the server's response: a response
/// not marked ok is a server error carrying its message (`unknown error`
/// when there is none); otherwise the reasoning tree (when not empty) and
/// the anomalies that are text.
pub fn query_outcome(
    ok: Option<bool>,
    error: Option<String>,
    reasoning_tree: Option<String>,
    anomalies: Option<Vec<Option<String>>>,
) -> (r: Result<(Option<String>, Vec<String>)>)
    ensures
        ok != Some(true) ==> (r matches Err(AnamError::Logic(m)) && m@ == "server error: "@
            + text_or(error, "unknown error"@)),
        ok == Some(true) ==> (r matches Ok((tree, list)) && (match reasoning_tree {
            Some(t) => if t@.len() > 0 {
                tree matches Some(x) && x@ == t@
            } else {
                tree is None
            },
            None => tree is None,
        }) && list@.map_values(|s: String| s@) == match anomalies {
            Some(a) => text_entries(a@),
            None => Seq::empty(),
        }),
{
    if ok != Some(true) {
        let mut m = chars_of("server error: ");
        let e = text_or_exec(error, "unknown error");
        push_str(&mut m, e.as_str());
        return Err(AnamError::Logic(string_of(&m)));
    }
    let tree = match reasoning_tree {
        Some(t) => if t.as_str().unicode_len() > 0 {
            Some(t)
        } else {
            None
        },
        None => None,
    };
    let mut list: Vec<String> = Vec::new();
    match anomalies {
        Some(a) => {
            let mut i: usize = 0;
            while i < a.len()
                invariant
                    i <= a.len(),
                    list@.map_values(|s: String| s@) == text_entries(a@.subrange(0, i as int)),
                decreases a.len() - i,
            {
                let ghost pre = a@.subrange(0, i as int);
                let ghost post = a@.subrange(0, i + 1);
                assert(post.drop_last() =~= pre);
                assert(post.last() == a@[i as int]);
                match &a[i] {
                    Some(s) => {
                        let x = string_of(&chars_of(s.as_str()));
                        let ghost before = list@.map_values(|s: String| s@);
                        list.push(x);
                        assert(list@.map_values(|s: String| s@) =~= before.push(x@));
                    },
                    None => {},
                }
                i += 1;
            }
            assert(a@.subrange(0, a.len() as int) =~= a@);
        },
        None => {
            assert(list@.map_values(|s: String| s@) =~= Seq::<Seq<char>>::empty());
        },
    }
    Ok((tree, list))
}

} // verus!
