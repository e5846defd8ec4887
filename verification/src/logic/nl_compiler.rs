//! Natural-language rule compilation: the checks on what the language
//! model returns.

use vstd::prelude::*;

use crate::kernel::error::{AnamError, Result};
use crate::text::{chars_of, contains, contains_exec, push_all, push_str, string_of, trim, trim_chars};

verus! {

/// What is refused of a model's output: nothing for output that is a rule
/// or constraint without markdown fences; otherwise the message says why.
pub open spec fn output_problem(datalog: Seq<char>) -> Option<Seq<char>> {
    let t = trim(datalog);
    if t.len() == 0 {
        Some("LLM returned empty output"@)
    } else if !contains(t, seq![':', '-']) && !contains(t, seq!['>']) && !contains(t, seq!['<'])
        && !contains(t, seq!['=']) {
        Some("LLM output does not look like valid Datalog: '"@ + t + "'"@)
    } else if contains(t, seq!['`', '`', '`']) {
        Some("LLM output contains markdown fences — stripping"@)
    } else {
        None
    }
}

/// Check the Datalog that a language model returned (see
/// [`output_problem`]).
pub fn validate_output(datalog: &str) -> (r: Result<()>)
    ensures
        match output_problem(datalog@) {
            None => r is Ok,
            Some(m) => r matches Err(AnamError::NlCompilation(e)) && e@ == m,
        },
{
    let t = trim_chars(&chars_of(datalog));
    if t.len() == 0 {
        return Err(AnamError::NlCompilation(string_of(&chars_of("LLM returned empty output"))));
    }
    let rule = vec![':', '-'];
    assert(rule@ =~= seq![':', '-']);
    let gt = vec!['>'];
    assert(gt@ =~= seq!['>']);
    let lt = vec!['<'];
    assert(lt@ =~= seq!['<']);
    let eq = vec!['='];
    assert(eq@ =~= seq!['=']);
    if !contains_exec(&t, &rule) && !contains_exec(&t, &gt) && !contains_exec(&t, &lt)
        && !contains_exec(&t, &eq) {
        let mut m = chars_of("LLM output does not look like valid Datalog: '");
        push_all(&mut m, &t);
        push_str(&mut m, "'");
        return Err(AnamError::NlCompilation(string_of(&m)));
    }
    let fence = vec!['`', '`', '`'];
    assert(fence@ =~= seq!['`', '`', '`']);
    if contains_exec(&t, &fence) {
        return Err(
            AnamError::NlCompilation(string_of(&chars_of("LLM output contains markdown fences — stripping"))),
        );
    }
    Ok(())
}

/// The rule a completion carries: its first choice's content, trimmed; an
/// error when there is no choice.
pub fn first_choice(contents: &Vec<String>) -> (r: Result<String>)
    ensures
        contents@.len() > 0 ==> (r matches Ok(s) && s@ == trim(contents@[0]@)),
        contents@.len() == 0 ==> (r matches Err(AnamError::NlCompilation(m)) && m@
            == "LLM returned no choices"@),
{
    if contents.len() == 0 {
        return Err(AnamError::NlCompilation(string_of(&chars_of("LLM returned no choices"))));
    }
    Ok(string_of(&trim_chars(&chars_of(contents[0].as_str()))))
}

/// The user message asking for a rule: the request quoted, then the
/// table.
pub fn user_message(nl: &str, table: &str) -> (r: String)
    ensures
        r@ == "NL: \""@ + nl@ + "\"\nTable: "@ + table@,
{
    let mut m = chars_of("NL: \"");
    push_str(&mut m, nl);
    push_str(&mut m, "\"\nTable: ");
    push_str(&mut m, table);
    string_of(&m)
}

} // verus!
