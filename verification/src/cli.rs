//! The interactive shell's dot-commands: a line such as `.load data/tx.lance
//! tx` is read into the command it names, with its arguments and the
//! defaults the shell fills in. Running a command is the shell's work.

use vstd::prelude::*;

use crate::execution::logic_optimizer_rule::{digits_value, lemma_digits_value_prefix};
use crate::kernel::provenance::ProvenanceMode;
use crate::text::{
    all_digits, chars_of, contains_char, is_digit, push_str, slice, split_once, split_once_exec,
    str_lowercase, string_of, text_eq, to_lowercase, trim, trim_chars,
};

verus! {

// ── Splitting ───────────────────────────────────────────────────────────

/// `str::splitn(n, c)`: at most `n` pieces split at `c`, the last holding
/// the rest of the text.
pub open spec fn splitn(s: Seq<char>, n: nat, c: char) -> Seq<Seq<char>>
    decreases n,
{
    if n <= 1 {
        seq![s]
    } else {
        match split_once(s, seq![c]) {
            Some((a, b)) => seq![a] + splitn(b, (n - 1) as nat, c),
            None => seq![s],
        }
    }
}

fn splitn_exec(v: &Vec<char>, n: usize, c: char) -> (r: Vec<Vec<char>>)
    requires
        n >= 1,
    ensures
        r@.map_values(|x: Vec<char>| x@) == splitn(v@, n as nat, c),
        r@.len() >= 1,
        r@.len() <= n,
{
    let sep = vec![c];
    assert(sep@ =~= seq![c]);
    let mut out: Vec<Vec<char>> = Vec::new();
    let mut rest = copy_chars(v);
    let mut k: usize = n;
    assert(out@.map_values(|x: Vec<char>| x@) + splitn(rest@, k as nat, c) =~= splitn(v@, n as nat, c));
    while k > 1
        invariant
            1 <= k <= n,
            out@.len() + k == n,
            sep@ == seq![c],
            out@.map_values(|x: Vec<char>| x@) + splitn(rest@, k as nat, c) == splitn(v@, n as nat, c),
        decreases k,
    {
        match split_once_exec(&rest, &sep) {
            Some((a, b)) => {
                let ghost before = out@.map_values(|x: Vec<char>| x@);
                out.push(a);
                assert(out@.map_values(|x: Vec<char>| x@) =~= before.push(a@));
                assert(splitn(rest@, k as nat, c) == seq![a@] + splitn(b@, (k - 1) as nat, c));
                assert(before.push(a@) + splitn(b@, (k - 1) as nat, c) =~= before + (seq![a@] + splitn(
                    b@,
                    (k - 1) as nat,
                    c,
                )));
                rest = b;
                k -= 1;
            },
            None => {
                let ghost before = out@.map_values(|x: Vec<char>| x@);
                let ghost rv = rest@;
                out.push(rest);
                assert(splitn(rv, k as nat, c) == seq![rv]);
                assert(out@.map_values(|x: Vec<char>| x@) =~= before + seq![rv]);
                assert(out@.map_values(|x: Vec<char>| x@) =~= splitn(v@, n as nat, c));
                return out;
            },
        }
    }
    let ghost before = out@.map_values(|x: Vec<char>| x@);
    out.push(rest);
    assert(out@.map_values(|x: Vec<char>| x@) =~= before.push(rest@));
    assert(out@.map_values(|x: Vec<char>| x@) =~= splitn(v@, n as nat, c));
    out
}

fn copy_chars(v: &Vec<char>) -> (r: Vec<char>)
    ensures
        r@ == v@,
{
    slice(v, 0, v.len())
}

// ── Paths and numbers ───────────────────────────────────────────────────

/// The stem of a file name, as std documents it: the whole name when it
/// has no `.` or its only `.` leads it, else the part before the last `.`.
pub open spec fn stem_of_name(name: Seq<char>) -> Seq<char> {
    match last_dot(name, name.len() as int) {
        Some(k) => if k == 0 {
            name
        } else {
            name.subrange(0, k)
        },
        None => name,
    }
}

/// The position of the last `.` among the first `n` characters.
pub open spec fn last_dot(s: Seq<char>, n: int) -> Option<int>
    decreases n,
{
    if n <= 0 {
        None
    } else if s[n - 1] == '.' {
        Some(n - 1)
    } else {
        last_dot(s, n - 1)
    }
}

/// A path of one component that names a file on every platform:
/// non-empty, without a separator (`/` or `\\`) or a drive colon, and
/// neither `.` nor `..`.
pub open spec fn is_plain_component(p: Seq<char>) -> bool {
    &&& p.len() > 0
    &&& !contains_char(p, '/')
    &&& !contains_char(p, '\\')
    &&& !contains_char(p, ':')
    &&& p != seq!['.']
    &&& p != seq!['.', '.']
}

/// The position of the last `/` among the first `n` characters.
pub open spec fn last_slash(s: Seq<char>, n: int) -> Option<int>
    decreases n,
{
    if n <= 0 {
        None
    } else if s[n - 1] == '/' {
        Some(n - 1)
    } else {
        last_slash(s, n - 1)
    }
}

/// The text after the last `/` of a path (all of it when it has none).
pub open spec fn last_component(p: Seq<char>) -> Seq<char> {
    match last_slash(p, p.len() as int) {
        Some(k) => p.subrange(k + 1, p.len() as int),
        None => p,
    }
}

/// A path whose file name every platform reads the same way: `/` is its
/// only separator (no `\\`, no drive colon, no leading `//`), and the text
/// after its last `/` is a plain component (see [`is_plain_component`]).
pub open spec fn has_plain_file_name(p: Seq<char>) -> bool {
    &&& !contains_char(p, '\\')
    &&& !contains_char(p, ':')
    &&& !(p.len() >= 2 && p[0] == '/' && p[1] == '/')
    &&& is_plain_component(last_component(p))
}

/// `Path::file_stem` (std), as text. What it gives depends on the
/// platform's path syntax; for a path with a plain file name (see
/// [`has_plain_file_name`]) std documents it as the stem of that name on
/// every platform. Other paths are not written out.
#[verifier::external_body]
fn file_stem_of(path: &Vec<char>) -> (r: Option<Vec<char>>)
    ensures
        r is None ==> !has_plain_file_name(path@),
        r matches Some(s) ==> has_plain_file_name(path@) ==> s@ == stem_of_name(last_component(path@)),
{
    let p: String = path.iter().collect();
    std::path::Path::new(&p).file_stem().and_then(|s| s.to_str()).map(|s| s.chars().collect())
}

/// What `str::parse::<usize>` gives: an optional `+`, then one or more
/// ASCII digits, whose value must fit in a `usize`.
pub open spec fn parse_usize_spec(s: Seq<char>) -> Option<nat> {
    let digits = if s.len() > 0 && s[0] == '+' {
        s.drop_first()
    } else {
        s
    };
    if digits.len() > 0 && all_digits(digits) && digits_value(digits) <= usize::MAX {
        Some(digits_value(digits))
    } else {
        None
    }
}

fn parse_usize_chars(s: &Vec<char>) -> (r: Option<usize>)
    ensures
        match r {
            Some(v) => parse_usize_spec(s@) == Some(v as nat),
            None => parse_usize_spec(s@) is None,
        },
{
    let n = s.len();
    let from: usize = if n > 0 && s[0] == '+' {
        1
    } else {
        0
    };
    let ghost digits = s@.subrange(from as int, n as int);
    if from >= n {
        if from == 1 {
            assert(digits =~= s@.drop_first());
        } else {
            assert(digits =~= s@);
        }
        return None;
    }
    let mut acc: usize = 0;
    let mut i: usize = from;
    while i < n
        invariant
            from <= i <= n,
            n == s.len(),
            from <= 1,
            (from == 1) == (n > 0 && s@[0] == '+'),
            digits == s@.subrange(from as int, n as int),
            all_digits(s@.subrange(from as int, i as int)),
            acc as nat == digits_value(s@.subrange(from as int, i as int)),
        decreases n - i,
    {
        let c = s[i];
        if !('0' <= c && c <= '9') {
            assert(!is_digit(digits[i - from]));
            if from == 1 {
                assert(digits =~= s@.drop_first());
            } else {
                assert(digits =~= s@);
            }
            return None;
        }
        let d: usize = (c as u32 - 48) as usize;
        let ghost pre = s@.subrange(from as int, i as int);
        let ghost post = s@.subrange(from as int, i + 1);
        assert(post.drop_last() =~= pre);
        assert(post.last() == c);
        assert(digits_value(post) == acc * 10 + d);
        match acc.checked_mul(10) {
            Some(m) => match m.checked_add(d) {
                Some(next) => {
                    acc = next;
                },
                None => {
                    proof {
                        lemma_digits_value_prefix(digits, i + 1 - from);
                        assert(digits.subrange(0, i + 1 - from) =~= post);
                        if from == 1 {
                            assert(digits =~= s@.drop_first());
                        } else {
                            assert(digits =~= s@);
                        }
                    }
                    return None;
                },
            },
            None => {
                proof {
                    lemma_digits_value_prefix(digits, i + 1 - from);
                    assert(digits.subrange(0, i + 1 - from) =~= post);
                    if from == 1 {
                        assert(digits =~= s@.drop_first());
                    } else {
                        assert(digits =~= s@);
                    }
                }
                return None;
            },
        }
        i += 1;
    }
    if from == 1 {
        assert(digits =~= s@.drop_first());
    } else {
        assert(digits =~= s@);
    }
    Some(acc)
}

// ── Commands ────────────────────────────────────────────────────────────

/// A dot-command of the shell.
#[derive(Debug, PartialEq, Eq)]
pub enum DotCommand {
    /// `.quit`, `.exit`, `.q`.
    Quit,
    /// `.load <path> [name]`: register a table; the name defaults to the
    /// path's file stem, else `table`.
    Load { path: String, name: String },
    /// `.models`.
    Models,
    /// `.operators`.
    Operators,
    /// `.rules`.
    Rules,
    /// `.devices`.
    Devices,
    /// `.explain`.
    Explain,
    /// `.help`, `.h`.
    Help,
    /// `.ingest <csv> [lance]`: the output is the given path when it ends in
    /// `.lance`, else its file stem (else `data`) with `.lance` appended.
    Ingest { csv_path: String, lance_output: String },
    /// `.logic <name> <datalog>`: the source without surrounding `"`.
    Logic { name: String, source: String },
    /// `.model load <path> [name] [features] [latency_ms] [accuracy]`: the
    /// name defaults to the path's file stem (else `model`), the feature
    /// count to 3; latency and accuracy are left as written.
    ModelLoad {
        model_path: String,
        func_name: String,
        num_features: usize,
        latency_ms: Option<String>,
        accuracy: Option<String>,
    },
    /// `.model` with a word other than `load`.
    ModelUnknown,
    /// `.nl <name> <table> <description>`.
    Nl { name: String, table: String, description: String },
    /// A command given too few arguments: the usage text to show.
    Usage(String),
    /// Any other command word, lowercased.
    Unknown(String),
}

/// The value of a [`DotCommand`].
pub enum DotView {
    Quit,
    Load { path: Seq<char>, name: Seq<char> },
    Models,
    Operators,
    Rules,
    Devices,
    Explain,
    Help,
    Ingest { csv_path: Seq<char>, lance_output: Seq<char> },
    Logic { name: Seq<char>, source: Seq<char> },
    ModelLoad {
        model_path: Seq<char>,
        func_name: Seq<char>,
        num_features: nat,
        latency_ms: Option<Seq<char>>,
        accuracy: Option<Seq<char>>,
    },
    ModelUnknown,
    Nl { name: Seq<char>, table: Seq<char>, description: Seq<char> },
    Usage(Seq<char>),
    Unknown(Seq<char>),
}

/// The view of an optional text.
pub open spec fn opt_view(o: Option<String>) -> Option<Seq<char>> {
    match o {
        Some(s) => Some(s@),
        None => None,
    }
}

impl View for DotCommand {
    type V = DotView;

    open spec fn view(&self) -> DotView {
        match self {
            DotCommand::Quit => DotView::Quit,
            DotCommand::Load { path, name } => DotView::Load { path: path@, name: name@ },
            DotCommand::Models => DotView::Models,
            DotCommand::Operators => DotView::Operators,
            DotCommand::Rules => DotView::Rules,
            DotCommand::Devices => DotView::Devices,
            DotCommand::Explain => DotView::Explain,
            DotCommand::Help => DotView::Help,
            DotCommand::Ingest { csv_path, lance_output } => DotView::Ingest {
                csv_path: csv_path@,
                lance_output: lance_output@,
            },
            DotCommand::Logic { name, source } => DotView::Logic { name: name@, source: source@ },
            DotCommand::ModelLoad { model_path, func_name, num_features, latency_ms, accuracy } =>
                DotView::ModelLoad {
                model_path: model_path@,
                func_name: func_name@,
                num_features: *num_features as nat,
                latency_ms: opt_view(*latency_ms),
                accuracy: opt_view(*accuracy),
            },
            DotCommand::ModelUnknown => DotView::ModelUnknown,
            DotCommand::Nl { name, table, description } => DotView::Nl {
                name: name@,
                table: table@,
                description: description@,
            },
            DotCommand::Usage(u) => DotView::Usage(u@),
            DotCommand::Unknown(c) => DotView::Unknown(c@),
        }
    }
}

/// The usage line of `.load`.
pub open spec fn load_usage() -> Seq<char> {
    "Usage: .load <path_to_lance_dataset> [table_name]"@
}

/// The usage line of `.ingest`.
pub open spec fn ingest_usage() -> Seq<char> {
    "Usage: .ingest <csv_path> [lance_output_path]"@
}

/// The usage line of `.logic`.
pub open spec fn logic_usage() -> Seq<char> {
    "Usage: .logic <rule_name> <datalog_source>"@
}

/// The usage line of `.model`.
pub open spec fn model_usage() -> Seq<char> {
    "Usage: .model load <onnx_path> [name] [features] [latency_ms] [accuracy]"@
}

/// The usage text of `.nl` without arguments: the usage line and an
/// example.
pub open spec fn nl_usage_long() -> Seq<char> {
    "Usage: .nl <rule_name> <table> <natural language description>\nExample: .nl high_risk transactions Flag transactions with fraud probability above 90%"@
}

/// The usage line of `.nl` with too few arguments.
pub open spec fn nl_usage() -> Seq<char> {
    "Usage: .nl <rule_name> <table> <description>"@
}

/// `s` without every leading and trailing `c`, as `str::trim_matches(c)`.
pub open spec fn strip_both(s: Seq<char>, c: char) -> Seq<char>
    decreases s.len(),
{
    if s.len() > 0 && s[0] == c {
        strip_both(s.drop_first(), c)
    } else if s.len() > 0 && s.last() == c {
        strip_both(s.drop_last(), c)
    } else {
        s
    }
}

/// The stem `Path::file_stem` gave, or `fallback` when it gave none.
pub open spec fn stem_or(stem: Option<Seq<char>>, fallback: Seq<char>) -> Seq<char> {
    match stem {
        Some(s) => s,
        None => fallback,
    }
}

/// The path whose stem a command line takes a default from: the path of
/// `.load` without a table name, the output of `.ingest` when it does not
/// end in `.lance`, the model of `.model load` without a name.
pub open spec fn stem_source(line: Seq<char>) -> Option<Seq<char>> {
    let parts = splitn(line, 2, ' ');
    let command = str_lowercase(parts[0]);
    let arg = if parts.len() > 1 {
        trim(parts[1])
    } else {
        Seq::empty()
    };
    if command == ".quit"@ || command == ".exit"@ || command == ".q"@ {
        None
    } else if command == ".load"@ {
        if arg.len() > 0 && splitn(arg, 2, ' ').len() <= 1 {
            Some(splitn(arg, 2, ' ')[0])
        } else {
            None
        }
    } else if command == ".models"@ || command == ".operators"@ || command == ".rules"@ || command
        == ".devices"@ || command == ".explain"@ || command == ".help"@ || command == ".h"@ {
        None
    } else if command == ".ingest"@ {
        let p = splitn(arg, 2, ' ');
        let lance_path = if p.len() > 1 {
            p[1]
        } else {
            p[0]
        };
        if arg.len() == 0 || ends_with(lance_path, ".lance"@) {
            None
        } else {
            Some(lance_path)
        }
    } else if command == ".logic"@ {
        None
    } else if command == ".model"@ {
        let p = splitn(arg, 6, ' ');
        if arg.len() > 0 && p[0] == "load"@ && p.len() == 2 {
            Some(p[1])
        } else {
            None
        }
    } else {
        None
    }
}

/// A stem that `Path::file_stem` may give for the source path: for a path
/// with a plain file name, the stem of that name.
pub open spec fn stem_fits(source: Option<Seq<char>>, stem: Option<Seq<char>>) -> bool {
    match source {
        Some(p) => has_plain_file_name(p) ==> stem == Some(stem_of_name(last_component(p))),
        None => stem is None,
    }
}

/// `s` ends with `suffix`.
pub open spec fn ends_with(s: Seq<char>, suffix: Seq<char>) -> bool {
    suffix.len() <= s.len() && s.subrange(s.len() - suffix.len(), s.len() as int) == suffix
}

/// The command a line names: the first word, lowercased, selects it; the
/// rest of the line, trimmed, is its argument text.
pub open spec fn dot_command_spec(line: Seq<char>, stem: Option<Seq<char>>) -> DotView {
    let parts = splitn(line, 2, ' ');
    let command = str_lowercase(parts[0]);
    let arg = if parts.len() > 1 {
        trim(parts[1])
    } else {
        Seq::empty()
    };
    if command == ".quit"@ || command == ".exit"@ || command == ".q"@ {
        DotView::Quit
    } else if command == ".load"@ {
        if arg.len() == 0 {
            DotView::Usage(load_usage())
        } else {
            let p = splitn(arg, 2, ' ');
            let name = if p.len() > 1 {
                p[1]
            } else {
                stem_or(stem, "table"@)
            };
            DotView::Load { path: p[0], name }
        }
    } else if command == ".models"@ {
        DotView::Models
    } else if command == ".operators"@ {
        DotView::Operators
    } else if command == ".rules"@ {
        DotView::Rules
    } else if command == ".devices"@ {
        DotView::Devices
    } else if command == ".explain"@ {
        DotView::Explain
    } else if command == ".help"@ || command == ".h"@ {
        DotView::Help
    } else if command == ".ingest"@ {
        if arg.len() == 0 {
            DotView::Usage(ingest_usage())
        } else {
            let p = splitn(arg, 2, ' ');
            let lance_path = if p.len() > 1 {
                p[1]
            } else {
                p[0]
            };
            let out = if ends_with(lance_path, ".lance"@) {
                lance_path
            } else {
                stem_or(stem, "data"@) + ".lance"@
            };
            DotView::Ingest { csv_path: p[0], lance_output: out }
        }
    } else if command == ".logic"@ {
        let p = splitn(arg, 2, ' ');
        if arg.len() == 0 || p.len() < 2 {
            DotView::Usage(logic_usage())
        } else {
            DotView::Logic { name: p[0], source: strip_both(p[1], '"') }
        }
    } else if command == ".model"@ {
        let p = splitn(arg, 6, ' ');
        if arg.len() == 0 {
            DotView::Usage(model_usage())
        } else if p[0] != "load"@ {
            DotView::ModelUnknown
        } else if p.len() < 2 {
            DotView::Usage(model_usage())
        } else {
            DotView::ModelLoad {
                model_path: p[1],
                func_name: if p.len() > 2 {
                    p[2]
                } else {
                    stem_or(stem, "model"@)
                },
                num_features: if p.len() > 3 {
                    match parse_usize_spec(p[3]) {
                        Some(v) => v,
                        None => 3,
                    }
                } else {
                    3
                },
                latency_ms: if p.len() > 4 {
                    Some(p[4])
                } else {
                    None
                },
                accuracy: if p.len() > 5 {
                    Some(p[5])
                } else {
                    None
                },
            }
        }
    } else if command == ".nl"@ {
        let p = splitn(arg, 3, ' ');
        if arg.len() == 0 {
            DotView::Usage(nl_usage_long())
        } else if p.len() < 3 {
            DotView::Usage(nl_usage())
        } else {
            DotView::Nl { name: p[0], table: p[1], description: p[2] }
        }
    } else {
        DotView::Unknown(command)
    }
}

fn strip_both_exec(v: &Vec<char>, c: char) -> (r: Vec<char>)
    ensures
        r@ == strip_both(v@, c),
{
    let mut i: usize = 0;
    let mut j: usize = v.len();
    assert(v@.subrange(0, v.len() as int) =~= v@);
    while i < j && v[i] == c
        invariant
            i <= j <= v.len(),
            j == v.len(),
            strip_both(v@, c) == strip_both(v@.subrange(i as int, j as int), c),
        decreases j - i,
    {
        assert(v@.subrange(i as int, j as int).drop_first() =~= v@.subrange(i + 1, j as int));
        i += 1;
    }
    while i < j && v[j - 1] == c
        invariant
            i <= j <= v.len(),
            i < j ==> v@[i as int] != c,
            strip_both(v@, c) == strip_both(v@.subrange(i as int, j as int), c),
        decreases j - i,
    {
        let ghost sub = v@.subrange(i as int, j as int);
        assert(sub[0] == v@[i as int]);
        assert(sub.drop_last() =~= v@.subrange(i as int, j - 1));
        j -= 1;
    }
    let ghost sub = v@.subrange(i as int, j as int);
    if i < j {
        assert(sub[0] == v@[i as int]);
        assert(sub.last() == v@[j - 1]);
    }
    slice(v, i, j)
}

fn ends_with_exec(v: &Vec<char>, suffix: &Vec<char>) -> (b: bool)
    ensures
        b == ends_with(v@, suffix@),
{
    if suffix.len() > v.len() {
        return false;
    }
    let tail = slice(v, v.len() - suffix.len(), v.len());
    text_eq(&tail, suffix)
}

fn stem_or_exec(stem: &Option<Vec<char>>, fallback: &str) -> (r: Vec<char>)
    ensures
        r@ == stem_or(chars_opt_view(stem), fallback@),
{
    match stem {
        Some(s) => slice(s, 0, s.len()),
        None => chars_of(fallback),
    }
}

/// An optional text as a value.
pub open spec fn chars_opt_view(v: &Option<Vec<char>>) -> Option<Seq<char>> {
    match v {
        Some(s) => Some(s@),
        None => None,
    }
}

fn text(s: &str) -> (r: String)
    ensures
        r@ == s@,
{
    string_of(&chars_of(s))
}

fn is_word(v: &Vec<char>, w: &str) -> (b: bool)
    ensures
        b == (v@ == w@),
{
    text_eq(v, &chars_of(w))
}

/// Read a dot-command line (see [`dot_command_spec`]); a default name
/// comes from the stem `Path::file_stem` gives for the source path (see
/// [`stem_source`]).
pub fn parse_dot_command(cmd: &str) -> (r: DotCommand)
    ensures
        exists|stem: Option<Seq<char>>|
            stem_fits(stem_source(cmd@), stem) && r@ == #[trigger] dot_command_spec(cmd@, stem),
{
    let ghost mut used: Option<Seq<char>> = None;
    let line = chars_of(cmd);
    let parts = splitn_exec(&line, 2, ' ');
    let command = to_lowercase(&parts[0]);
    let arg = if parts.len() > 1 {
        trim_chars(&parts[1])
    } else {
        Vec::new()
    };
    assert(parts@.map_values(|x: Vec<char>| x@)[0] == parts@[0]@);
    assert(parts.len() > 1 ==> parts@.map_values(|x: Vec<char>| x@)[1] == parts@[1]@);
    assert(arg@ == (if parts@.len() > 1 {
        trim(splitn(cmd@, 2, ' ')[1])
    } else {
        Seq::<char>::empty()
    }));
    let r = if is_word(&command, ".quit") || is_word(&command, ".exit") || is_word(&command, ".q") {
        DotCommand::Quit
    } else if is_word(&command, ".load") {
        if arg.len() == 0 {
            DotCommand::Usage(text("Usage: .load <path_to_lance_dataset> [table_name]"))
        } else {
            let p = splitn_exec(&arg, 2, ' ');
            assert(p@.map_values(|x: Vec<char>| x@)[0] == p@[0]@);
            let name = if p.len() > 1 {
                assert(p@.map_values(|x: Vec<char>| x@)[1] == p@[1]@);
                string_of(&p[1])
            } else {
                let stem = file_stem_of(&p[0]);
                proof {
                    used = chars_opt_view(&stem);
                }
                string_of(&stem_or_exec(&stem, "table"))
            };
            DotCommand::Load { path: string_of(&p[0]), name }
        }
    } else if is_word(&command, ".models") {
        DotCommand::Models
    } else if is_word(&command, ".operators") {
        DotCommand::Operators
    } else if is_word(&command, ".rules") {
        DotCommand::Rules
    } else if is_word(&command, ".devices") {
        DotCommand::Devices
    } else if is_word(&command, ".explain") {
        DotCommand::Explain
    } else if is_word(&command, ".help") || is_word(&command, ".h") {
        DotCommand::Help
    } else if is_word(&command, ".ingest") {
        if arg.len() == 0 {
            DotCommand::Usage(text("Usage: .ingest <csv_path> [lance_output_path]"))
        } else {
            let p = splitn_exec(&arg, 2, ' ');
            assert(p@.map_values(|x: Vec<char>| x@)[0] == p@[0]@);
            let lance_path = if p.len() > 1 {
                assert(p@.map_values(|x: Vec<char>| x@)[1] == p@[1]@);
                let x = slice(&p[1], 0, p[1].len());
                assert(x@ =~= p@[1]@);
                x
            } else {
                let x = slice(&p[0], 0, p[0].len());
                assert(x@ =~= p@[0]@);
                x
            };
            let out = if ends_with_exec(&lance_path, &chars_of(".lance")) {
                lance_path
            } else {
                let stem = file_stem_of(&lance_path);
                proof {
                    used = chars_opt_view(&stem);
                }
                let mut o = stem_or_exec(&stem, "data");
                push_str(&mut o, ".lance");
                o
            };
            DotCommand::Ingest { csv_path: string_of(&p[0]), lance_output: string_of(&out) }
        }
    } else if is_word(&command, ".logic") {
        let p = splitn_exec(&arg, 2, ' ');
        if arg.len() == 0 || p.len() < 2 {
            DotCommand::Usage(text("Usage: .logic <rule_name> <datalog_source>"))
        } else {
            assert(p@.map_values(|x: Vec<char>| x@)[0] == p@[0]@);
            assert(p@.map_values(|x: Vec<char>| x@)[1] == p@[1]@);
            DotCommand::Logic { name: string_of(&p[0]), source: string_of(&strip_both_exec(&p[1], '"')) }
        }
    } else if is_word(&command, ".model") {
        let p = splitn_exec(&arg, 6, ' ');
        let ghost pv = p@.map_values(|x: Vec<char>| x@);
        assert(forall|k: int| 0 <= k < p@.len() ==> #[trigger] pv[k] == p@[k]@);
        if arg.len() == 0 {
            DotCommand::Usage(
                text("Usage: .model load <onnx_path> [name] [features] [latency_ms] [accuracy]"),
            )
        } else if !is_word(&p[0], "load") {
            DotCommand::ModelUnknown
        } else if p.len() < 2 {
            DotCommand::Usage(
                text("Usage: .model load <onnx_path> [name] [features] [latency_ms] [accuracy]"),
            )
        } else {
            assert(pv[1] == p@[1]@);
            let func_name = if p.len() > 2 {
                assert(pv[2] == p@[2]@);
                string_of(&p[2])
            } else {
                let stem = file_stem_of(&p[1]);
                proof {
                    used = chars_opt_view(&stem);
                }
                string_of(&stem_or_exec(&stem, "model"))
            };
            let num_features: usize = if p.len() > 3 {
                assert(pv[3] == p@[3]@);
                match parse_usize_chars(&p[3]) {
                    Some(v) => v,
                    None => 3,
                }
            } else {
                3
            };
            let latency_ms = if p.len() > 4 {
                assert(pv[4] == p@[4]@);
                Some(string_of(&p[4]))
            } else {
                None
            };
            let accuracy = if p.len() > 5 {
                assert(pv[5] == p@[5]@);
                Some(string_of(&p[5]))
            } else {
                None
            };
            DotCommand::ModelLoad {
                model_path: string_of(&p[1]),
                func_name,
                num_features,
                latency_ms,
                accuracy,
            }
        }
    } else if is_word(&command, ".nl") {
        let p = splitn_exec(&arg, 3, ' ');
        if arg.len() == 0 {
            DotCommand::Usage(
                text(
                    "Usage: .nl <rule_name> <table> <natural language description>\nExample: .nl high_risk transactions Flag transactions with fraud probability above 90%",
                ),
            )
        } else if p.len() < 3 {
            DotCommand::Usage(text("Usage: .nl <rule_name> <table> <description>"))
        } else {
            assert(p@.map_values(|x: Vec<char>| x@)[0] == p@[0]@);
            assert(p@.map_values(|x: Vec<char>| x@)[1] == p@[1]@);
            assert(p@.map_values(|x: Vec<char>| x@)[2] == p@[2]@);
            DotCommand::Nl {
                name: string_of(&p[0]),
                table: string_of(&p[1]),
                description: string_of(&p[2]),
            }
        }
    } else {
        DotCommand::Unknown(string_of(&command))
    };
    assert(r@ == dot_command_spec(cmd@, used));
    assert(stem_fits(stem_source(cmd@), used));
    r
}

/// The provenance mode a `--provenance` value names, in any case:
/// `boolean`/`bool`, `probability`/`prob`, `polynomial`/`poly`; none for
/// any other value (the shell then warns and uses polynomial).
pub open spec fn provenance_mode_spec(value: Seq<char>) -> Option<ProvenanceMode> {
    let v = str_lowercase(value);
    if v == "boolean"@ || v == "bool"@ {
        Some(ProvenanceMode::Boolean)
    } else if v == "probability"@ || v == "prob"@ {
        Some(ProvenanceMode::Probability)
    } else if v == "polynomial"@ || v == "poly"@ {
        Some(ProvenanceMode::Polynomial)
    } else {
        None
    }
}

/// Read a `--provenance` value (see [`provenance_mode_spec`]).
pub fn parse_provenance_mode(value: &str) -> (r: Option<ProvenanceMode>)
    ensures
        r == provenance_mode_spec(value@),
{
    let v = to_lowercase(&chars_of(value));
    if is_word(&v, "boolean") || is_word(&v, "bool") {
        Some(ProvenanceMode::Boolean)
    } else if is_word(&v, "probability") || is_word(&v, "prob") {
        Some(ProvenanceMode::Probability)
    } else if is_word(&v, "polynomial") || is_word(&v, "poly") {
        Some(ProvenanceMode::Polynomial)
    } else {
        None
    }
}

} // verus!
