//! Knowledge distillation: reading the student evaluation that a language
//! model returns.

use vstd::prelude::*;

use crate::kernel::error::{AnamError, Result};
use crate::text::{chars_of, slice, starts_with, starts_with_exec, string_of, text_eq, trim, trim_chars};

verus! {

/// `s` with every leading copy of `p` removed (`str::trim_start_matches`).
pub open spec fn strip_prefix_all(s: Seq<char>, p: Seq<char>) -> Seq<char>
    decreases s.len(),
{
    if p.len() > 0 && starts_with(s, p) {
        strip_prefix_all(s.subrange(p.len() as int, s.len() as int), p)
    } else {
        s
    }
}

/// `s` ends with `p`.
pub open spec fn ends_with(s: Seq<char>, p: Seq<char>) -> bool {
    p.len() <= s.len() && s.subrange(s.len() - p.len(), s.len() as int) == p
}

/// `s` with every trailing copy of `p` removed (`str::trim_end_matches`).
pub open spec fn strip_suffix_all(s: Seq<char>, p: Seq<char>) -> Seq<char>
    decreases s.len(),
{
    if p.len() > 0 && ends_with(s, p) {
        strip_suffix_all(s.subrange(0, s.len() - p.len()), p)
    } else {
        s
    }
}

/// The JSON a model's reply carries: the reply with leading ```` ```json ````
/// fences, then leading and trailing ```` ``` ```` fences, stripped, and
/// trimmed.
pub open spec fn evaluation_json_spec(reply: Seq<char>) -> Seq<char> {
    trim(
        strip_suffix_all(
            strip_prefix_all(strip_prefix_all(reply, "```json"@), "```"@),
            "```"@,
        ),
    )
}

fn strip_prefix_all_exec(v: &Vec<char>, p: &Vec<char>) -> (r: Vec<char>)
    ensures
        r@ == strip_prefix_all(v@, p@),
{
    let mut cur = slice(v, 0, v.len());
    assert(cur@ =~= v@);
    if p.len() == 0 {
        return cur;
    }
    while starts_with_exec(&cur, p)
        invariant
            p.len() > 0,
            strip_prefix_all(cur@, p@) == strip_prefix_all(v@, p@),
        decreases cur.len(),
    {
        cur = slice(&cur, p.len(), cur.len());
    }
    cur
}

fn ends_with_exec(v: &Vec<char>, p: &Vec<char>) -> (b: bool)
    ensures
        b == ends_with(v@, p@),
{
    if p.len() > v.len() {
        return false;
    }
    let tail = slice(v, v.len() - p.len(), v.len());
    text_eq(&tail, p)
}

fn strip_suffix_all_exec(v: &Vec<char>, p: &Vec<char>) -> (r: Vec<char>)
    ensures
        r@ == strip_suffix_all(v@, p@),
{
    let mut cur = slice(v, 0, v.len());
    assert(cur@ =~= v@);
    if p.len() == 0 {
        return cur;
    }
    while ends_with_exec(&cur, p)
        invariant
            p.len() > 0,
            strip_suffix_all(cur@, p@) == strip_suffix_all(v@, p@),
        decreases cur.len(),
    {
        cur = slice(&cur, 0, cur.len() - p.len());
    }
    cur
}

/// The JSON of a model's reply (see [`evaluation_json_spec`]).
pub fn evaluation_json(reply: &str) -> (r: String)
    ensures
        r@ == evaluation_json_spec(reply@),
{
    let a = strip_prefix_all_exec(&chars_of(reply), &chars_of("```json"));
    let b = strip_prefix_all_exec(&a, &chars_of("```"));
    let c = strip_suffix_all_exec(&b, &chars_of("```"));
    string_of(&trim_chars(&c))
}

/// The evaluation JSON of a completion's choices: that of the first
/// choice, trimmed; an error when there is no choice.
pub fn completion_evaluation(contents: &Vec<String>) -> (r: Result<String>)
    ensures
        contents@.len() > 0 ==> (r matches Ok(s) && s@ == evaluation_json_spec(trim(contents@[0]@))),
        contents@.len() == 0 ==> (r matches Err(AnamError::Internal(m)) && m@
            == "LLM returned no choices"@),
{
    if contents.len() == 0 {
        return Err(AnamError::Internal(string_of(&chars_of("LLM returned no choices"))));
    }
    let first = string_of(&trim_chars(&chars_of(contents[0].as_str())));
    Ok(evaluation_json(first.as_str()))
}

} // verus!
