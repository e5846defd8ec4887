//! The wire protocol's commands and the responses the service sends back.
//! A command arrives as a JSON line; its fields, read as text (missing
//! ones as empty text), select what the service does.

use vstd::prelude::*;

use crate::server::proto::{
    HealthResponse, LoadModelResponse, RegisterRuleResponse, RegisterTableResponse,
};
use crate::text::{chars_of, push_str, string_of, text_eq};

verus! {

/// A command of the wire protocol.
#[derive(Debug, PartialEq, Eq)]
pub enum WireCommand {
    /// `query`: run SQL.
    Query { sql: String },
    /// `register_table`: register a Lance table under a name.
    RegisterTable { name: String, lance_path: String },
    /// `register_rule`: register a Datalog rule.
    RegisterRule { name: String, datalog: String },
    /// `health`: report the service's state.
    Health,
    /// Any other method.
    Unknown { method: String },
}

fn copy(s: &str) -> (r: String)
    ensures
        r@ == s@,
{
    string_of(&chars_of(s))
}

fn is_method(m: &str, w: &str) -> (b: bool)
    ensures
        b == (m@ == w@),
{
    text_eq(&chars_of(m), &chars_of(w))
}

/// The command a line's fields name: its `method` selects it, and the
/// fields it reads are handed over as they are.
pub fn wire_command(method: &str, sql: &str, name: &str, lance_path: &str, datalog: &str) -> (r: WireCommand)
    ensures
        method@ == "query"@ ==> (r matches WireCommand::Query { sql: s } && s@ == sql@),
        method@ == "register_table"@ ==> (r matches WireCommand::RegisterTable { name: n, lance_path: p }
            && n@ == name@ && p@ == lance_path@),
        method@ == "register_rule"@ ==> (r matches WireCommand::RegisterRule { name: n, datalog: d } && n@
            == name@ && d@ == datalog@),
        method@ == "health"@ ==> r is Health,
        method@ != "query"@ && method@ != "register_table"@ && method@ != "register_rule"@ && method@
            != "health"@ ==> (r matches WireCommand::Unknown { method: m } && m@ == method@),
{
    proof {
        reveal_strlit("query");
        reveal_strlit("register_table");
        reveal_strlit("register_rule");
        reveal_strlit("health");
    }
    assert("query"@.len() == 5);
    assert("register_table"@.len() == 14);
    assert("register_rule"@.len() == 13);
    assert("health"@.len() == 6);
    if is_method(method, "query") {
        WireCommand::Query { sql: copy(sql) }
    } else if is_method(method, "register_table") {
        WireCommand::RegisterTable { name: copy(name), lance_path: copy(lance_path) }
    } else if is_method(method, "register_rule") {
        WireCommand::RegisterRule { name: copy(name), datalog: copy(datalog) }
    } else if is_method(method, "health") {
        WireCommand::Health
    } else {
        WireCommand::Unknown { method: copy(method) }
    }
}

/// The error text of an unknown method.
pub fn unknown_method_error(method: &str) -> (r: String)
    ensures
        r@ == "unknown method: "@ + method@,
{
    let mut m = chars_of("unknown method: ");
    push_str(&mut m, method);
    string_of(&m)
}

/// The message of a failure, from the error's text.
pub open spec fn failure_message(error: Seq<char>) -> Seq<char> {
    "failed: "@ + error
}

fn failed(error: &String) -> (r: String)
    ensures
        r@ == failure_message(error@),
{
    let mut m = chars_of("failed: ");
    push_str(&mut m, error.as_str());
    string_of(&m)
}

/// The response to `register_table`, from the registration's outcome (an
/// error as its text).
pub fn register_table_response(name: &str, outcome: &Result<(), String>) -> (r: RegisterTableResponse)
    ensures
        r.success == outcome is Ok,
        outcome is Ok ==> r.message@ == "table '"@ + name@ + "' registered"@,
        outcome matches Err(e) ==> r.message@ == failure_message(e@),
{
    match outcome {
        Ok(()) => {
            let mut m = chars_of("table '");
            push_str(&mut m, name);
            push_str(&mut m, "' registered");
            RegisterTableResponse { success: true, message: string_of(&m) }
        },
        Err(e) => RegisterTableResponse { success: false, message: failed(e) },
    }
}

/// The response to `register_rule`, from the registration's outcome (an
/// error as its text).
pub fn register_rule_response(name: &str, outcome: &Result<(), String>) -> (r: RegisterRuleResponse)
    ensures
        r.success == outcome is Ok,
        outcome is Ok ==> r.message@ == "rule '"@ + name@ + "' registered"@,
        outcome matches Err(e) ==> r.message@ == failure_message(e@),
{
    match outcome {
        Ok(()) => {
            let mut m = chars_of("rule '");
            push_str(&mut m, name);
            push_str(&mut m, "' registered");
            RegisterRuleResponse { success: true, message: string_of(&m) }
        },
        Err(e) => RegisterRuleResponse { success: false, message: failed(e) },
    }
}

/// The response to loading a model, from the load's outcome: the model's id,
/// or the error's text.
pub fn load_model_response(name: &str, outcome: &Result<String, String>) -> (r: LoadModelResponse)
    ensures
        r.success == outcome is Ok,
        outcome matches Ok(id) ==> r.model_id@ == id@ && r.message@ == "model '"@ + name@
            + "' loaded"@,
        outcome matches Err(e) ==> r.model_id@.len() == 0 && r.message@ == failure_message(e@),
{
    match outcome {
        Ok(id) => {
            let mut m = chars_of("model '");
            push_str(&mut m, name);
            push_str(&mut m, "' loaded");
            LoadModelResponse {
                success: true,
                model_id: string_of(&chars_of(id.as_str())),
                message: string_of(&m),
            }
        },
        Err(e) => {
            let empty: Vec<char> = Vec::new();
            LoadModelResponse { success: false, model_id: string_of(&empty), message: failed(e) }
        },
    }
}

/// The health report: serving, the given version, no tables counted, and
/// the model and rule counts as 32-bit numbers.
pub fn health_response(version: &str, model_count: usize, rule_count: usize) -> (r: HealthResponse)
    ensures
        r.status@ == "SERVING"@,
        r.version@ == version@,
        r.table_count == 0,
        r.model_count == model_count as u32,
        r.rule_count == rule_count as u32,
{
    HealthResponse {
        status: copy("SERVING"),
        version: copy(version),
        table_count: 0,
        model_count: model_count as u32,
        rule_count: rule_count as u32,
    }
}

} // verus!
