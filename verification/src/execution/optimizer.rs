//! Multi-objective optimisation: the kinds of prediction a query asks for
//! and the parsing of `PREDICT` queries.

use vstd::prelude::*;

use crate::text::{
    ascii_lower, str_uppercase, chars_of, find, find_exec, is_whitespace, is_ws, slice,
    starts_with, starts_with_exec, string_of, to_uppercase, trim, trim_chars, matches_at,
    matches_at_exec, split, split_exec, split_once, split_once_exec, str_lowercase, strip_trailing,
    strip_trailing_chars, text_eq, to_lowercase, views,
};

verus! {

/// Type of prediction for PREDICT queries.
#[derive(Debug, Clone, Copy, PartialEq, Eq, Structural)]
pub enum PredictionType {
    /// PREDICT CLASS OF: classification task.
    Classification,
    /// PREDICT VALUE OF: regression task.
    Regression,
}

/// The length of the run of non-white-space characters that `s` starts
/// with.
pub open spec fn word_len(s: Seq<char>) -> nat
    decreases s.len(),
{
    if s.len() == 0 || is_ws(s[0]) {
        0
    } else {
        1 + word_len(s.drop_first())
    }
}

/// The white-space separated words of `s` (`str::split_whitespace`).
pub open spec fn words(s: Seq<char>) -> Seq<Seq<char>>
    decreases s.len(),
{
    if s.len() == 0 {
        Seq::empty()
    } else if is_ws(s[0]) {
        words(s.drop_first())
    } else {
        let n = word_len(s);
        if 0 < n <= s.len() {
            seq![s.subrange(0, n as int)] + words(s.subrange(n as int, s.len() as int))
        } else {
            Seq::empty()
        }
    }
}

/// The position of the first word equal to `w` ignoring ASCII case.
pub open spec fn word_position(ws: Seq<Seq<char>>, w: Seq<char>) -> Option<int>
    decreases ws.len(),
{
    if ws.len() == 0 {
        None
    } else {
        match word_position(ws.drop_last(), w) {
            Some(i) => Some(i),
            None => if ascii_lower(ws.last()) == ascii_lower(w) {
                Some(ws.len() - 1)
            } else {
                None
            },
        }
    }
}

/// A quote, a closing parenthesis or a space: what is trimmed around a
/// model name.
pub open spec fn name_trim_char(c: char) -> bool {
    c == '\'' || c == '"' || c == ')' || c == ' '
}

/// `s` without leading characters of the name-trim set.
pub open spec fn trim_name_start(s: Seq<char>) -> Seq<char>
    decreases s.len(),
{
    if s.len() > 0 && name_trim_char(s[0]) {
        trim_name_start(s.drop_first())
    } else {
        s
    }
}

/// `s` without trailing characters of the name-trim set.
pub open spec fn trim_name_end(s: Seq<char>) -> Seq<char>
    decreases s.len(),
{
    if s.len() > 0 && name_trim_char(s.last()) {
        trim_name_end(s.drop_last())
    } else {
        s
    }
}

/// `s` without leading `(`.
pub open spec fn strip_open_parens(s: Seq<char>) -> Seq<char>
    decreases s.len(),
{
    if s.len() > 0 && s[0] == '(' {
        strip_open_parens(s.drop_first())
    } else {
        s
    }
}

/// The model a `WITH (model = 'name')` clause names, from the text after
/// `WITH`: the value after the first `=` that follows `model` (or `MODEL`),
/// without parentheses, quotes and spaces around it; `default` when there
/// is none.
pub open spec fn model_name_spec(with_part: Seq<char>) -> Seq<char> {
    let start = match find(with_part, "model"@) {
        Some(i) => Some(i),
        None => find(with_part, "MODEL"@),
    };
    match start {
        Some(st) => {
            let after = with_part.subrange(st, with_part.len() as int);
            match find(after, seq!['=']) {
                Some(e) => trim_name_end(
                    trim_name_start(trim(strip_open_parens(trim(after.subrange(e + 1, after.len() as int))))),
                ),
                None => "default"@,
            }
        },
        None => "default"@,
    }
}

/// The number of bytes of a character in UTF-8.
pub open spec fn utf8_len(c: char) -> nat {
    if (c as u32) < 0x80 {
        1
    } else if (c as u32) < 0x800 {
        2
    } else if (c as u32) < 0x10000 {
        3
    } else {
        4
    }
}

/// Uppercasing `s` keeps every character in its place with its UTF-8
/// width, so that a position found in the uppercased text is the same
/// position in `s` (true of ASCII text, and of most other text).
pub open spec fn uppercase_keeps_shape(s: Seq<char>) -> bool {
    let u = str_uppercase(s);
    &&& u.len() == s.len()
    &&& forall|i: int| 0 <= i < s.len() ==> utf8_len(#[trigger] u[i]) == utf8_len(s[i])
}

/// What parsing a `PREDICT CLASS|VALUE OF <column> FROM <table> [WITH
/// (model = '<name>')]` query gives: target column, source table, model
/// name and prediction type; `None` for anything else.
pub open spec fn predict_query_spec(query: Seq<char>) -> Option<(Seq<char>, Seq<char>, Seq<char>, PredictionType)> {
    let q = trim(query);
    let upper = str_uppercase(q);
    let kind = if starts_with(upper, "PREDICT CLASS OF"@) {
        Some(PredictionType::Classification)
    } else if starts_with(upper, "PREDICT VALUE OF"@) {
        Some(PredictionType::Regression)
    } else {
        None
    };
    let ws = words(query);
    match (kind, word_position(ws, "OF"@), word_position(ws, "FROM"@)) {
        (Some(k), Some(of), Some(from)) => if of + 1 >= from || from + 1 >= ws.len() {
            None
        } else {
            let model = match find(upper, "WITH"@) {
                Some(w) => model_name_spec(q.subrange(w, q.len() as int)),
                None => "default"@,
            };
            Some((ws[of + 1], ws[from + 1], model, k))
        },
        _ => None,
    }
}

fn words_exec(s: &Vec<char>) -> (r: Vec<Vec<char>>)
    ensures
        r@.map_values(|w: Vec<char>| w@) == words(s@),
{
    let mut r: Vec<Vec<char>> = Vec::new();
    let mut i: usize = 0;
    assert(s@.subrange(0, s@.len() as int) =~= s@);
    while i < s.len()
        invariant
            i <= s.len(),
            r@.map_values(|w: Vec<char>| w@) + words(s@.subrange(i as int, s@.len() as int))
                == words(s@),
        decreases s.len() - i,
    {
        let ghost rest = s@.subrange(i as int, s@.len() as int);
        assert(rest[0] == s@[i as int]);
        if is_whitespace(s[i]) {
            assert(rest.drop_first() =~= s@.subrange(i + 1, s@.len() as int));
            i += 1;
        } else {
            let mut j: usize = i;
            while j < s.len() && !is_whitespace(s[j])
                invariant
                    i <= j <= s.len(),
                    forall|k: int| i <= k < j ==> !is_ws(#[trigger] s@[k]),
                decreases s.len() - j,
            {
                j += 1;
            }
            proof {
                lemma_word_len(s@, i as int, j as int);
            }
            let w = slice(s, i, j);
            let ghost before = r@.map_values(|w: Vec<char>| w@);
            r.push(w);
            assert(r@.map_values(|w: Vec<char>| w@) =~= before.push(w@));
            assert(rest.subrange(0, (j - i) as int) =~= w@);
            assert(rest.subrange((j - i) as int, rest.len() as int) =~= s@.subrange(
                j as int,
                s@.len() as int,
            ));
            i = j;
        }
    }
    assert(s@.subrange(s@.len() as int, s@.len() as int) =~= Seq::<char>::empty());
    assert(r@.map_values(|w: Vec<char>| w@) + Seq::<Seq<char>>::empty() =~= r@.map_values(
        |w: Vec<char>| w@,
    ));
    r
}

proof fn lemma_word_len(s: Seq<char>, i: int, j: int)
    requires
        0 <= i <= j <= s.len(),
        forall|k: int| i <= k < j ==> !is_ws(#[trigger] s[k]),
        j == s.len() || is_ws(s[j]),
    ensures
        word_len(s.subrange(i, s.len() as int)) == j - i,
    decreases j - i,
{
    let t = s.subrange(i, s.len() as int);
    if i < j {
        assert(t[0] == s[i]);
        assert(t.drop_first() =~= s.subrange(i + 1, s.len() as int));
        lemma_word_len(s, i + 1, j);
    } else if j < s.len() {
        assert(t[0] == s[j]);
    }
}

fn ascii_lower_exec(v: &Vec<char>) -> (r: Vec<char>)
    ensures
        r@ == ascii_lower(v@),
{
    let mut r: Vec<char> = Vec::new();
    let mut i: usize = 0;
    while i < v.len()
        invariant
            i <= v.len(),
            r@ == ascii_lower(v@).subrange(0, i as int),
        decreases v.len() - i,
    {
        let c = v[i];
        let d = if 'A' <= c && c <= 'Z' {
            ((c as u8) + 32) as char
        } else {
            c
        };
        assert(d == crate::text::ascii_lower_char(c)) by {
            if 'A' <= c && c <= 'Z' {
                assert((c as u8) as u32 == c as u32);
            }
        }
        r.push(d);
        assert(r@ =~= ascii_lower(v@).subrange(0, i + 1));
        i += 1;
    }
    assert(ascii_lower(v@).subrange(0, v.len() as int) =~= ascii_lower(v@));
    r
}

fn word_position_exec(ws: &Vec<Vec<char>>, w: &Vec<char>) -> (r: Option<usize>)
    ensures
        match r {
            Some(i) => word_position(ws@.map_values(|x: Vec<char>| x@), w@) == Some(i as int),
            None => word_position(ws@.map_values(|x: Vec<char>| x@), w@) is None,
        },
{
    let ghost all = ws@.map_values(|x: Vec<char>| x@);
    let target = ascii_lower_exec(w);
    let mut i: usize = 0;
    while i < ws.len()
        invariant
            i <= ws.len(),
            all == ws@.map_values(|x: Vec<char>| x@),
            target@ == ascii_lower(w@),
            word_position(all.subrange(0, i as int), w@) is None,
        decreases ws.len() - i,
    {
        let ghost pre = all.subrange(0, i as int);
        let ghost post = all.subrange(0, i + 1);
        assert(post.drop_last() =~= pre);
        assert(post.last() == ws@[i as int]@);
        if crate::text::text_eq(&ascii_lower_exec(&ws[i]), &target) {
            proof {
                lemma_position_prefix(all, i + 1, w@);
            }
            return Some(i);
        }
        i += 1;
    }
    assert(all.subrange(0, ws.len() as int) =~= all);
    None
}

proof fn lemma_position_bound(ws: Seq<Seq<char>>, w: Seq<char>)
    ensures
        word_position(ws, w) matches Some(i) ==> 0 <= i < ws.len(),
    decreases ws.len(),
{
    if ws.len() > 0 {
        lemma_position_bound(ws.drop_last(), w);
    }
}

proof fn lemma_position_prefix(ws: Seq<Seq<char>>, n: int, w: Seq<char>)
    requires
        0 <= n <= ws.len(),
        word_position(ws.subrange(0, n), w) is Some,
    ensures
        word_position(ws, w) == word_position(ws.subrange(0, n), w),
    decreases ws.len() - n,
{
    if n < ws.len() {
        let t = ws.subrange(0, n + 1);
        assert(t.drop_last() =~= ws.subrange(0, n));
        lemma_position_prefix(ws, n + 1, w);
    } else {
        assert(ws.subrange(0, n) =~= ws);
    }
}

fn leading_stripped(c: char, parens: bool) -> (b: bool)
    ensures
        b == if parens {
            c == '('
        } else {
            name_trim_char(c)
        },
{
    if parens {
        c == '('
    } else {
        c == '\'' || c == '"' || c == ')' || c == ' '
    }
}

fn strip_leading_where(v: &Vec<char>, parens: bool) -> (r: Vec<char>)
    ensures
        parens ==> r@ == strip_open_parens(v@),
        !parens ==> r@ == trim_name_start(v@),
{
    let mut i: usize = 0;
    assert(v@.subrange(0, v@.len() as int) =~= v@);
    while i < v.len() && leading_stripped(v[i], parens)
        invariant
            i <= v.len(),
            parens ==> strip_open_parens(v@) == strip_open_parens(
                v@.subrange(i as int, v@.len() as int),
            ),
            !parens ==> trim_name_start(v@) == trim_name_start(v@.subrange(i as int, v@.len() as int)),
        decreases v.len() - i,
    {
        let ghost rest = v@.subrange(i as int, v@.len() as int);
        assert(rest[0] == v@[i as int]);
        assert(rest.drop_first() =~= v@.subrange(i + 1, v@.len() as int));
        i += 1;
    }
    let r = slice(v, i, v.len());
    proof {
        if r@.len() > 0 {
            assert(r@[0] == v@[i as int]);
        }
    }
    r
}

fn trim_name_end_exec(v: &Vec<char>) -> (r: Vec<char>)
    ensures
        r@ == trim_name_end(v@),
{
    let mut j: usize = v.len();
    assert(v@.subrange(0, v@.len() as int) =~= v@);
    while j > 0 && (v[j - 1] == '\'' || v[j - 1] == '"' || v[j - 1] == ')' || v[j - 1] == ' ')
        invariant
            j <= v.len(),
            trim_name_end(v@) == trim_name_end(v@.subrange(0, j as int)),
        decreases j,
    {
        let ghost pre = v@.subrange(0, j as int);
        assert(pre.last() == v@[j - 1]);
        assert(pre.drop_last() =~= v@.subrange(0, j - 1));
        j -= 1;
    }
    let r = slice(v, 0, j);
    proof {
        if r@.len() > 0 {
            assert(r@.last() == v@[j - 1]);
        }
    }
    r
}

fn model_name_exec(with_part: &Vec<char>) -> (r: Vec<char>)
    ensures
        r@ == model_name_spec(with_part@),
{
    let start = match find_exec(with_part, &chars_of("model")) {
        Some(i) => Some(i),
        None => find_exec(with_part, &chars_of("MODEL")),
    };
    match start {
        Some(st) => {
            proof {
                crate::text::lemma_find_in_bounds(with_part@, "model"@);
                crate::text::lemma_find_in_bounds(with_part@, "MODEL"@);
            }
            let after = slice(with_part, st, with_part.len());
            let eq = vec!['='];
            assert(eq@ =~= seq!['=']);
            match find_exec(&after, &eq) {
                Some(e) => {
                    proof {
                        crate::text::lemma_find_in_bounds(after@, seq!['=']);
                    }
                    let val = trim_chars(&slice(&after, e + 1, after.len()));
                    let val = trim_chars(&strip_leading_where(&val, true));
                    trim_name_end_exec(&strip_leading_where(&val, false))
                },
                None => chars_of("default"),
            }
        },
        None => chars_of("default"),
    }
}

/// Parse a `PREDICT` query (see [`predict_query_spec`]). Positions found
/// in the uppercased query are used in the query itself, so uppercasing
/// must keep its shape.
pub fn parse_predict_query(query: &str) -> (r: Option<(String, String, String, PredictionType)>)
    requires
        uppercase_keeps_shape(trim(query@)),
    ensures
        match predict_query_spec(query@) {
            Some((col, table, model, kind)) => r matches Some((c, t, m, k)) && c@ == col && t@
                == table && m@ == model && k == kind,
            None => r is None,
        },
{
    let raw = chars_of(query);
    let q = trim_chars(&raw);
    let upper = to_uppercase(&q);
    let kind = if starts_with_exec(&upper, &chars_of("PREDICT CLASS OF")) {
        Some(PredictionType::Classification)
    } else if starts_with_exec(&upper, &chars_of("PREDICT VALUE OF")) {
        Some(PredictionType::Regression)
    } else {
        None
    };
    let k = match kind {
        Some(k) => k,
        None => {
            return None;
        },
    };
    let ws = words_exec(&raw);
    let of_idx = match word_position_exec(&ws, &chars_of("OF")) {
        Some(i) => i,
        None => {
            return None;
        },
    };
    let from_idx = match word_position_exec(&ws, &chars_of("FROM")) {
        Some(i) => i,
        None => {
            return None;
        },
    };
    proof {
        lemma_position_bound(ws@.map_values(|x: Vec<char>| x@), "OF"@);
        lemma_position_bound(ws@.map_values(|x: Vec<char>| x@), "FROM"@);
        assert(ws@.map_values(|x: Vec<char>| x@).len() == ws@.len());
    }
    assert(of_idx < ws.len());
    assert(from_idx < ws.len());
    if of_idx + 1 >= from_idx || from_idx + 1 >= ws.len() {
        return None;
    }
    let model = match find_exec(&upper, &chars_of("WITH")) {
        Some(w) => {
            proof {
                crate::text::lemma_find_in_bounds(upper@, "WITH"@);
            }
            model_name_exec(&slice(&q, w, q.len()))
        },
        None => chars_of("default"),
    };
    let ghost wv = ws@.map_values(|x: Vec<char>| x@);
    assert(upper@ == str_uppercase(q@));
    assert(q@ == trim(query@));
    assert(wv == words(query@));
    assert(model@ == match find(str_uppercase(q@), "WITH"@) {
        Some(w) => model_name_spec(q@.subrange(w, q@.len() as int)),
        None => "default"@,
    });
    assert(wv[of_idx + 1] == ws@[of_idx + 1]@);
    assert(word_position(wv, "OF"@) == Some(of_idx as int));
    assert(word_position(wv, "FROM"@) == Some(from_idx as int));
    assert(kind == Some(k));
    assert(wv.len() == ws@.len());
    assert(!(of_idx + 1 >= from_idx || from_idx + 1 >= wv.len()));
    let ghost spec_kind = if starts_with(str_uppercase(trim(query@)), "PREDICT CLASS OF"@) {
        Some(PredictionType::Classification)
    } else if starts_with(str_uppercase(trim(query@)), "PREDICT VALUE OF"@) {
        Some(PredictionType::Regression)
    } else {
        None
    };
    assert(spec_kind == Some(k));
    assert(predict_query_spec(query@) == Some((wv[of_idx + 1], wv[from_idx + 1], model@, k)));
    assert(wv[from_idx + 1] == ws@[from_idx + 1]@);
    Some(
        (
            string_of(&ws[of_idx + 1]),
            string_of(&ws[from_idx + 1]),
            string_of(&model),
            k,
        ),
    )
}

// ── Constraint clauses ──────────────────────────────────────────────────

/// The constraints that a `WITH (...)` clause gives, each as the text of
/// its value: the last value given for the key. A value is read as a
/// number by the caller; one that does not read as a number gives none.
#[derive(Debug, Clone, PartialEq, Eq)]
pub struct ConstraintText {
    /// `max_latency_ms`.
    pub max_latency_ms: Option<String>,
    /// `min_accuracy`.
    pub min_accuracy: Option<String>,
    /// `max_cost`.
    pub max_cost: Option<String>,
}

/// The value of a [`ConstraintText`].
pub struct ConstraintView {
    pub max_latency_ms: Option<Seq<char>>,
    pub min_accuracy: Option<Seq<char>>,
    pub max_cost: Option<Seq<char>>,
}

/// The view of an optional text.
pub open spec fn text_view(o: Option<String>) -> Option<Seq<char>> {
    match o {
        Some(s) => Some(s@),
        None => None,
    }
}

impl View for ConstraintText {
    type V = ConstraintView;

    open spec fn view(&self) -> ConstraintView {
        ConstraintView {
            max_latency_ms: text_view(self.max_latency_ms),
            min_accuracy: text_view(self.min_accuracy),
            max_cost: text_view(self.max_cost),
        }
    }
}

/// The position of the last occurrence of `pat` that starts before `n`.
pub open spec fn last_match(s: Seq<char>, pat: Seq<char>, n: int) -> Option<int>
    decreases n,
{
    if n <= 0 {
        None
    } else if matches_at(s, pat, n - 1) {
        Some(n - 1)
    } else {
        last_match(s, pat, n - 1)
    }
}

/// The value that the parts of a clause give `key`: that of the last part
/// `key = value` (key trimmed and lowercased, value trimmed).
pub open spec fn constraint_value(parts: Seq<Seq<char>>, key: Seq<char>) -> Option<Seq<char>>
    decreases parts.len(),
{
    if parts.len() == 0 {
        None
    } else {
        match split_once(trim(parts.last()), seq!['=']) {
            Some((k, v)) => if str_lowercase(trim(k)) == key {
                Some(trim(v))
            } else {
                constraint_value(parts.drop_last(), key)
            },
            None => constraint_value(parts.drop_last(), key),
        }
    }
}

/// A query with its trailing `;` removed and a `WITH (...)` clause split
/// off: the last `WITH (` (in any case) starts the clause, the text before
/// it, trimmed, is the query, and the comma-separated `key = value` parts
/// inside the parentheses give the constraints. A query without the clause
/// is returned trimmed, with no constraints.
pub open spec fn constraints_spec(query: Seq<char>) -> (Seq<char>, Option<ConstraintView>) {
    let q = strip_trailing(trim(query), ';');
    match last_match(str_uppercase(q), "WITH ("@, q.len() as int) {
        Some(p) => {
            let body = trim(strip_trailing(q.subrange(p + 6, q.len() as int), ')'));
            let parts = split(body, seq![',']);
            (
                trim(q.subrange(0, p)),
                Some(
                    ConstraintView {
                        max_latency_ms: constraint_value(parts, "max_latency_ms"@),
                        min_accuracy: constraint_value(parts, "min_accuracy"@),
                        max_cost: constraint_value(parts, "max_cost"@),
                    },
                ),
            )
        },
        None => (q, None),
    }
}

proof fn lemma_last_match(s: Seq<char>, pat: Seq<char>, n: int)
    ensures
        last_match(s, pat, n) matches Some(p) ==> matches_at(s, pat, p) && p < n,
    decreases n,
{
    if n > 0 && !matches_at(s, pat, n - 1) {
        lemma_last_match(s, pat, n - 1);
    }
}

fn last_match_exec(s: &Vec<char>, pat: &Vec<char>) -> (r: Option<usize>)
    ensures
        match last_match(s@, pat@, s@.len() as int) {
            Some(p) => r == Some(p as usize),
            None => r is None,
        },
{
    let mut n: usize = s.len();
    while n > 0
        invariant
            n <= s.len(),
            last_match(s@, pat@, s@.len() as int) == last_match(s@, pat@, n as int),
        decreases n,
    {
        if matches_at_exec(s, pat, n - 1) {
            return Some(n - 1);
        }
        n -= 1;
    }
    None
}

/// Split a `WITH (...)` constraint clause off a query (see
/// [`constraints_spec`]). The clause is found in the uppercased query and
/// cut from the query itself, so uppercasing must keep its shape.
pub fn parse_constraints(query: &str) -> (r: (String, Option<ConstraintText>))
    requires
        uppercase_keeps_shape(strip_trailing(trim(query@), ';')),
    ensures
        (r.0@, match r.1 {
            Some(c) => Some(c@),
            None => None,
        }) == constraints_spec(query@),
{
    let raw = chars_of(query);
    let q = strip_trailing_chars(&trim_chars(&raw), ';');
    let upper = to_uppercase(&q);
    assert(upper@.len() == q@.len());
    let pat = chars_of("WITH (");
    let found = last_match_exec(&upper, &pat);
    match found {
        None => (string_of(&q), None),
        Some(p) => {
            proof {
                reveal_strlit("WITH (");
            }
            proof {
                lemma_last_match(upper@, pat@, upper@.len() as int);
            }
            assert(matches_at(upper@, pat@, p as int));
            assert(p + 6 <= q.len());
            let clause = slice(&q, p + 6, q.len());
            let body = trim_chars(&strip_trailing_chars(&clause, ')'));
            let comma = vec![','];
            assert(comma@ =~= seq![',']);
            let parts = split_exec(&body, &comma);
            let eq = vec!['='];
            assert(eq@ =~= seq!['=']);
            let ghost ps = views(parts@);
            let mut lat: Option<Vec<char>> = None;
            let mut acc: Option<Vec<char>> = None;
            let mut cost: Option<Vec<char>> = None;
            let mut i: usize = 0;
            while i < parts.len()
                invariant
                    i <= parts.len(),
                    ps == views(parts@),
                    eq@ == seq!['='],
                    constraint_value(ps.subrange(0, i as int), "max_latency_ms"@) == match lat {
                        Some(v) => Some(v@),
                        None => None::<Seq<char>>,
                    },
                    constraint_value(ps.subrange(0, i as int), "min_accuracy"@) == match acc {
                        Some(v) => Some(v@),
                        None => None::<Seq<char>>,
                    },
                    constraint_value(ps.subrange(0, i as int), "max_cost"@) == match cost {
                        Some(v) => Some(v@),
                        None => None::<Seq<char>>,
                    },
                decreases parts.len() - i,
            {
                proof {
                    reveal_strlit("max_latency_ms");
                    reveal_strlit("min_accuracy");
                    reveal_strlit("max_cost");
                }
                let ghost post = ps.subrange(0, i + 1);
                assert(post.drop_last() =~= ps.subrange(0, i as int));
                assert(post.last() == parts@[i as int]@);
                let part = trim_chars(&parts[i]);
                match split_once_exec(&part, &eq) {
                    Some((k, v)) => {
                        let key = to_lowercase(&trim_chars(&k));
                        let val = trim_chars(&v);
                        assert(split_once(trim(post.last()), seq!['=']) == Some((k@, v@)));
                        assert("max_latency_ms"@.len() == 14);
                        assert("min_accuracy"@.len() == 12);
                        assert("max_cost"@.len() == 8);
                        if text_eq(&key, &chars_of("max_latency_ms")) {
                            lat = Some(val);
                        } else if text_eq(&key, &chars_of("min_accuracy")) {
                            acc = Some(val);
                        } else if text_eq(&key, &chars_of("max_cost")) {
                            cost = Some(val);
                        }
                    },
                    None => {},
                }
                i += 1;
            }
            assert(ps.subrange(0, parts.len() as int) =~= ps);
            let text = |o: Option<Vec<char>>| -> (r: Option<String>)
                ensures
                    text_view(r) == match o {
                        Some(v) => Some(v@),
                        None => None::<Seq<char>>,
                    },
                {
                    match o {
                        Some(v) => Some(string_of(&v)),
                        None => None,
                    }
                };
            let c = ConstraintText { max_latency_ms: text(lat), min_accuracy: text(acc), max_cost: text(cost) };
            (string_of(&trim_chars(&slice(&q, 0, p))), Some(c))
        },
    }
}


// ── Parsing with the shape test ────────────────────────────────────────

fn utf8_len_exec(c: char) -> (n: usize)
    ensures
        n == utf8_len(c),
{
    let v = c as u32;
    if v < 0x80 {
        1
    } else if v < 0x800 {
        2
    } else if v < 0x10000 {
        3
    } else {
        4
    }
}

/// Whether uppercasing keeps the shape of a text (see
/// [`uppercase_keeps_shape`]).
pub fn keeps_shape(s: &Vec<char>) -> (b: bool)
    ensures
        b == uppercase_keeps_shape(s@),
{
    let u = to_uppercase(s);
    if u.len() != s.len() {
        return false;
    }
    let mut i: usize = 0;
    while i < s.len()
        invariant
            i <= s.len() == u.len(),
            u@ == str_uppercase(s@),
            forall|k: int| 0 <= k < i ==> utf8_len(#[trigger] u@[k]) == utf8_len(s@[k]),
        decreases s.len() - i,
    {
        if utf8_len_exec(u[i]) != utf8_len_exec(s[i]) {
            return false;
        }
        i += 1;
    }
    true
}

/// Parse a `PREDICT` query when uppercasing keeps its shape (see
/// [`parse_predict_query`]); `None` otherwise.
pub fn predict_query_checked(query: &str) -> (r: Option<(String, String, String, PredictionType)>)
    ensures
        !uppercase_keeps_shape(trim(query@)) ==> r is None,
        uppercase_keeps_shape(trim(query@)) ==> match predict_query_spec(query@) {
            Some((col, table, model, kind)) => r matches Some((c, t, m, k)) && c@ == col && t@
                == table && m@ == model && k == kind,
            None => r is None,
        },
{
    if keeps_shape(&trim_chars(&chars_of(query))) {
        parse_predict_query(query)
    } else {
        None
    }
}

/// Split a `WITH (...)` clause off a query when uppercasing keeps the
/// shape of the query (see [`parse_constraints`]); otherwise the query,
/// trimmed and without trailing `;`, with no clause.
pub fn constraints_checked(query: &str) -> (r: (String, Option<ConstraintText>))
    ensures
        !uppercase_keeps_shape(strip_trailing(trim(query@), ';')) ==> r.0@ == strip_trailing(
            trim(query@),
            ';',
        ) && r.1 is None,
        uppercase_keeps_shape(strip_trailing(trim(query@), ';')) ==> (r.0@, match r.1 {
            Some(c) => Some(c@),
            None => None,
        }) == constraints_spec(query@),
{
    let q = strip_trailing_chars(&trim_chars(&chars_of(query)), ';');
    if keeps_shape(&q) {
        parse_constraints(query)
    } else {
        (string_of(&q), None)
    }
}

} // verus!
