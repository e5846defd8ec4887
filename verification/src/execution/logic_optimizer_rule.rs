//! Filter pushdown from Datalog rules: the simple column comparisons of a
//! rule's body (`X.column op value`) are extracted as predicates that a
//! query planner can place directly above a table scan.

use vstd::prelude::*;

use crate::logic::canonical::{op_text, op_vec};
use crate::logic::engine::{filter_op_at, rule_named, string_views, FilterOp, RuleRegistry, RuleView};
use crate::text::{
    all_digits, chars_of, contains_char, contains_char_exec, is_digit, is_float_literal,
    is_float_literal_exec, slice, split, split_exec, split_once, split_once_exec, strings_chars,
    string_of, strip_trailing, strip_trailing_chars, trim, trim_chars, views, contains_text,
};

verus! {

// ── Literals ────────────────────────────────────────────────────────────

/// The value on the right of a pushable comparison.
#[derive(Debug, Clone, PartialEq, Eq)]
pub enum Literal {
    /// A floating-point literal, held as its text: it contains a `.` and
    /// reads as an `f64`.
    Float(String),
    /// An integer literal that fits in an `i64`.
    Int(i64),
    /// A single-quoted string, without its quotes.
    Text(String),
}

/// The value of a [`Literal`].
pub enum LiteralView {
    Float(Seq<char>),
    Int(int),
    Text(Seq<char>),
}

impl View for Literal {
    type V = LiteralView;

    open spec fn view(&self) -> LiteralView {
        match self {
            Literal::Float(s) => LiteralView::Float(s@),
            Literal::Int(i) => LiteralView::Int(*i as int),
            Literal::Text(s) => LiteralView::Text(s@),
        }
    }
}

/// The value of a run of decimal digits.
pub open spec fn digits_value(d: Seq<char>) -> nat
    decreases d.len(),
{
    if d.len() == 0 {
        0
    } else {
        digits_value(d.drop_last()) * 10 + ((d.last() as int - 48) as nat)
    }
}

/// What `str::parse::<i64>` gives: an optional `+` or `-`, then one or more
/// ASCII digits, whose value must fit in an `i64`.
pub open spec fn parse_i64_spec(s: Seq<char>) -> Option<int> {
    let neg = s.len() > 0 && s[0] == '-';
    let digits = if s.len() > 0 && (s[0] == '-' || s[0] == '+') {
        s.drop_first()
    } else {
        s
    };
    if digits.len() > 0 && all_digits(digits) {
        let v: int = if neg {
            -(digits_value(digits) as int)
        } else {
            digits_value(digits) as int
        };
        if i64::MIN <= v && v <= i64::MAX {
            Some(v)
        } else {
            None
        }
    } else {
        None
    }
}

/// The literal that `s` states, trimmed: a float when it contains a `.` and
/// reads as one, else an integer, else a single-quoted string.
pub open spec fn parse_value_lit_spec(s: Seq<char>) -> Option<LiteralView> {
    let s = trim(s);
    if contains_char(s, '.') && is_float_literal(s) {
        Some(LiteralView::Float(s))
    } else {
        match parse_i64_spec(s) {
            Some(v) => Some(LiteralView::Int(v)),
            None => if s.len() >= 2 && s[0] == '\'' && s.last() == '\'' {
                Some(LiteralView::Text(s.subrange(1, s.len() - 1)))
            } else {
                None
            },
        }
    }
}

pub(crate) proof fn lemma_digits_value_prefix(d: Seq<char>, k: int)
    requires
        0 <= k <= d.len(),
    ensures
        digits_value(d.subrange(0, k)) <= digits_value(d),
    decreases d.len(),
{
    if k < d.len() {
        assert(d.drop_last().subrange(0, k) =~= d.subrange(0, k));
        lemma_digits_value_prefix(d.drop_last(), k);
    } else {
        assert(d.subrange(0, k) =~= d);
    }
}

fn parse_i64_chars(s: &Vec<char>) -> (r: Option<i64>)
    ensures
        match r {
            Some(v) => parse_i64_spec(s@) == Some(v as int),
            None => parse_i64_spec(s@) is None,
        },
{
    let n = s.len();
    let neg = n > 0 && s[0] == '-';
    let from: usize = if n > 0 && (s[0] == '-' || s[0] == '+') {
        1
    } else {
        0
    };
    let ghost digits = s@.subrange(from as int, n as int);
    assert(digits =~= (if s@.len() > 0 && (s@[0] == '-' || s@[0] == '+') {
        s@.drop_first()
    } else {
        s@
    }));
    if from >= n {
        return None;
    }
    let mut acc: u64 = 0;
    let mut i: usize = from;
    while i < n
        invariant
            from <= i <= n,
            n == s.len(),
            from <= 1,
            (from == 1) == (n > 0 && (s@[0] == '-' || s@[0] == '+')),
            neg == (n > 0 && s@[0] == '-'),
            digits == s@.subrange(from as int, n as int),
            all_digits(s@.subrange(from as int, i as int)),
            acc as nat == digits_value(s@.subrange(from as int, i as int)),
            acc <= 9223372036854775808u64,
        decreases n - i,
    {
        let c = s[i];
        if !('0' <= c && c <= '9') {
            assert(!is_digit(digits[i - from]));
            return None;
        }
        let d: u64 = (c as u32 - 48) as u64;
        let ghost pre = s@.subrange(from as int, i as int);
        let ghost post = s@.subrange(from as int, i + 1);
        assert(post.drop_last() =~= pre);
        assert(post.last() == c);
        let next: u128 = acc as u128 * 10 + d as u128;
        assert(next == digits_value(post));
        if next > 9223372036854775808u128 {
            proof {
                lemma_digits_value_prefix(digits, i + 1 - from);
                assert(digits.subrange(0, i + 1 - from) =~= post);
                assert(digits_value(digits) > 9223372036854775808);
                if from == 1 {
                    assert(digits =~= s@.drop_first());
                } else {
                    assert(digits =~= s@);
                }
            }
            return None;
        }
        acc = next as u64;
        i += 1;
    }
    if neg {
        if acc == 9223372036854775808u64 {
            Some(i64::MIN)
        } else {
            Some(-(acc as i64))
        }
    } else if acc > 9223372036854775807u64 {
        None
    } else {
        Some(acc as i64)
    }
}

/// Parse the literal on the right of a comparison (see
/// [`parse_value_lit_spec`]).
pub fn parse_value_lit(s: &str) -> (r: Option<Literal>)
    ensures
        match r {
            Some(l) => parse_value_lit_spec(s@) == Some(l@),
            None => parse_value_lit_spec(s@) is None,
        },
{
    literal_of(&chars_of(s))
}

fn literal_of(v: &Vec<char>) -> (r: Option<Literal>)
    ensures
        match r {
            Some(l) => parse_value_lit_spec(v@) == Some(l@),
            None => parse_value_lit_spec(v@) is None,
        },
{
    let s = trim_chars(v);
    if contains_char_exec(&s, '.') && is_float_literal_exec(&s) {
        return Some(Literal::Float(string_of(&s)));
    }
    match parse_i64_chars(&s) {
        Some(i) => Some(Literal::Int(i)),
        None => {
            let n = s.len();
            if n >= 2 && s[0] == '\'' && s[n - 1] == '\'' {
                Some(Literal::Text(string_of(&slice(&s, 1, n - 1))))
            } else {
                None
            }
        },
    }
}

// ── Column references ───────────────────────────────────────────────────

/// What `char::is_alphanumeric` returns for `c`.
pub uninterp spec fn is_alnum_char(c: char) -> bool;

/// `char::is_alphanumeric` (std): the Unicode `Alphabetic` or `Numeric`
/// property, named; on ASCII it is the letters and the digits.
#[verifier::external_body]
fn char_is_alphanumeric(c: char) -> (b: bool)
    ensures
        b == is_alnum_char(c),
        c < '\u{80}' ==> (b <==> (('a' <= c && c <= 'z') || ('A' <= c && c <= 'Z') || ('0' <= c
            && c <= '9'))),
{
    c.is_alphanumeric()
}

/// A character allowed in a column name.
pub open spec fn is_column_char(c: char) -> bool {
    is_alnum_char(c) || c == '_'
}

/// The column of a reference `var.column`: the text after the first `.`,
/// trimmed, when it is non-empty and made of alphanumerics and `_`.
pub open spec fn column_name_spec(s: Seq<char>) -> Option<Seq<char>> {
    match split_once(s, seq!['.']) {
        Some((_, col)) => {
            let col = trim(col);
            if col.len() > 0 && (forall|i: int| 0 <= i < col.len() ==> is_column_char(#[trigger] col[i])) {
                Some(col)
            } else {
                None
            }
        },
        None => None,
    }
}

fn column_name_chars(s: &Vec<char>) -> (r: Option<Vec<char>>)
    ensures
        match r {
            Some(c) => column_name_spec(s@) == Some(c@),
            None => column_name_spec(s@) is None,
        },
{
    let dot = vec!['.'];
    assert(dot@ =~= seq!['.']);
    match split_once_exec(s, &dot) {
        None => None,
        Some((_, col)) => {
            let col = trim_chars(&col);
            if col.len() == 0 {
                return None;
            }
            let mut i: usize = 0;
            while i < col.len()
                invariant
                    i <= col.len(),
                    col.len() > 0,
                    forall|k: int| 0 <= k < i ==> is_column_char(#[trigger] col@[k]),
                    split_once(s@, seq!['.']) matches Some((_, c)) && trim(c) == col@,
                decreases col.len() - i,
            {
                let c = col[i];
                if !(char_is_alphanumeric(c) || c == '_') {
                    assert(!is_column_char(col@[i as int]));
                    return None;
                }
                i += 1;
            }
            Some(col)
        },
    }
}

/// The column named by a reference such as `X.amount` (see
/// [`column_name_spec`]).
pub fn extract_column_name(s: &str) -> (r: Option<String>)
    ensures
        match r {
            Some(c) => column_name_spec(s@) == Some(c@),
            None => column_name_spec(s@) is None,
        },
{
    match column_name_chars(&chars_of(s)) {
        Some(c) => Some(string_of(&c)),
        None => None,
    }
}

// ── Predicates ──────────────────────────────────────────────────────────

/// A comparison `column op value` that can be pushed to a scan.
#[derive(Debug, Clone, PartialEq, Eq)]
pub struct Predicate {
    pub column: String,
    pub op: FilterOp,
    pub value: Literal,
}

/// The value of a [`Predicate`].
pub struct PredicateView {
    pub column: Seq<char>,
    pub op: FilterOp,
    pub value: LiteralView,
}

impl View for Predicate {
    type V = PredicateView;

    open spec fn view(&self) -> PredicateView {
        PredicateView { column: self.column@, op: self.op, value: self.value@ }
    }
}

/// The views of a sequence of predicates.
pub open spec fn predicate_views(v: Seq<Predicate>) -> Seq<PredicateView> {
    v.map_values(|p: Predicate| p@)
}

/// The predicate that a trimmed body part states, trying the operators
/// from the `i`-th on (`>=`, `<=`, `!=`, `>`, `<`, `=`): the first one that
/// splits the part into a column reference and a literal.
pub open spec fn predicate_at(t: Seq<char>, i: int) -> Option<PredicateView>
    decreases 6 - i,
{
    if i < 0 || i >= 6 {
        None
    } else {
        match split_once(t, op_text(i)) {
            Some((l, r)) => match column_name_spec(trim(l)) {
                Some(c) => match parse_value_lit_spec(trim(r)) {
                    Some(v) => Some(PredicateView { column: c, op: filter_op_at(i), value: v }),
                    None => predicate_at(t, i + 1),
                },
                None => predicate_at(t, i + 1),
            },
            None => predicate_at(t, i + 1),
        }
    }
}

/// The predicates of the body parts, in order.
pub open spec fn part_predicates(parts: Seq<Seq<char>>) -> Seq<PredicateView>
    decreases parts.len(),
{
    if parts.len() == 0 {
        Seq::empty()
    } else {
        let rest = part_predicates(parts.drop_last());
        match predicate_at(trim(parts.last()), 0) {
            Some(p) => rest.push(p),
            None => rest,
        }
    }
}

/// The pushable predicates of a rule: those of the comma-separated parts
/// of its body (after `:-`, trimmed, trailing dots removed). A source with
/// no `:-` has none.
pub open spec fn pushable_predicates_spec(source: Seq<char>) -> Seq<PredicateView> {
    match split_once(source, seq![':', '-']) {
        Some((_, body)) => part_predicates(split(strip_trailing(trim(body), '.'), seq![','])),
        None => Seq::empty(),
    }
}

/// The predicate found at the `i`-th operator carries that operator's
/// comparison.
proof fn lemma_predicate_at_op(t: Seq<char>, i: int, text: Seq<char>, op: FilterOp)
    requires
        0 <= i < 6,
        op_text(i) == text,
        filter_op_at(i) == op,
    ensures
        split_once(t, text) matches Some((l, r)) ==> (
            column_name_spec(trim(l)) matches Some(c) ==> (parse_value_lit_spec(trim(r)) matches Some(
                v,
            ) ==> predicate_at(t, i) == Some(
            PredicateView { column: c, op: op, value: v },
        ))),
        split_once(t, text) is None ==> predicate_at(t, i) == predicate_at(t, i + 1),
{
    if let Some((l, r)) = split_once(t, text) {
        if let Some(c) = column_name_spec(trim(l)) {
            if let Some(v) = parse_value_lit_spec(trim(r)) {
                assert(predicate_at(t, i) == Some(
                    PredicateView { column: c, op: filter_op_at(i), value: v },
                ));
            }
        }
    }
}

/// Each operator text gives its own comparison: a body part that splits at
/// `>=` into a column reference and a literal states that the column is at
/// least the literal, at `<=` at most, at `!=` different, at `>` greater,
/// at `<` less, at `=` equal. Operators are tried in that order, so a part
/// with no `>=` in it is read from `<=` on.
pub proof fn lemma_predicate_operators(t: Seq<char>)
    ensures
        split_once(t, ">="@) matches Some((l, r)) ==> (
            column_name_spec(trim(l)) matches Some(c) ==> (parse_value_lit_spec(trim(r)) matches Some(
                v,
            ) ==> predicate_at(t, 0) == Some(
            PredicateView { column: c, op: FilterOp::Gte, value: v },
        ))),
        split_once(t, "<="@) matches Some((l, r)) ==> (
            column_name_spec(trim(l)) matches Some(c) ==> (parse_value_lit_spec(trim(r)) matches Some(
                v,
            ) ==> predicate_at(t, 1) == Some(
            PredicateView { column: c, op: FilterOp::Lte, value: v },
        ))),
        split_once(t, "!="@) matches Some((l, r)) ==> (
            column_name_spec(trim(l)) matches Some(c) ==> (parse_value_lit_spec(trim(r)) matches Some(
                v,
            ) ==> predicate_at(t, 2) == Some(
            PredicateView { column: c, op: FilterOp::Neq, value: v },
        ))),
        split_once(t, ">"@) matches Some((l, r)) ==> (
            column_name_spec(trim(l)) matches Some(c) ==> (parse_value_lit_spec(trim(r)) matches Some(
                v,
            ) ==> predicate_at(t, 3) == Some(
            PredicateView { column: c, op: FilterOp::Gt, value: v },
        ))),
        split_once(t, "<"@) matches Some((l, r)) ==> (
            column_name_spec(trim(l)) matches Some(c) ==> (parse_value_lit_spec(trim(r)) matches Some(
                v,
            ) ==> predicate_at(t, 4) == Some(
            PredicateView { column: c, op: FilterOp::Lt, value: v },
        ))),
        split_once(t, "="@) matches Some((l, r)) ==> (
            column_name_spec(trim(l)) matches Some(c) ==> (parse_value_lit_spec(trim(r)) matches Some(
                v,
            ) ==> predicate_at(t, 5) == Some(
            PredicateView { column: c, op: FilterOp::Eq, value: v },
        ))),
        split_once(t, ">="@) is None ==> predicate_at(t, 0) == predicate_at(t, 1),
{
    reveal_strlit(">=");
    assert(op_text(0) =~= ">="@);
    lemma_predicate_at_op(t, 0, ">="@, FilterOp::Gte);
    reveal_strlit("<=");
    assert(op_text(1) =~= "<="@);
    lemma_predicate_at_op(t, 1, "<="@, FilterOp::Lte);
    reveal_strlit("!=");
    assert(op_text(2) =~= "!="@);
    lemma_predicate_at_op(t, 2, "!="@, FilterOp::Neq);
    reveal_strlit(">");
    assert(op_text(3) =~= ">"@);
    lemma_predicate_at_op(t, 3, ">"@, FilterOp::Gt);
    reveal_strlit("<");
    assert(op_text(4) =~= "<"@);
    lemma_predicate_at_op(t, 4, "<"@, FilterOp::Lt);
    reveal_strlit("=");
    assert(op_text(5) =~= "="@);
    lemma_predicate_at_op(t, 5, "="@, FilterOp::Eq);
}

fn copy_literal(l: &Literal) -> (r: Literal)
    ensures
        r@ == l@,
{
    match l {
        Literal::Float(s) => Literal::Float(string_of(&chars_of(s.as_str()))),
        Literal::Int(i) => Literal::Int(*i),
        Literal::Text(s) => Literal::Text(string_of(&chars_of(s.as_str()))),
    }
}

fn copy_predicate(p: &Predicate) -> (r: Predicate)
    ensures
        r@ == p@,
{
    Predicate {
        column: string_of(&chars_of(p.column.as_str())),
        op: p.op,
        value: copy_literal(&p.value),
    }
}

fn predicate_of_part(t: &Vec<char>) -> (r: Option<Predicate>)
    ensures
        match r {
            Some(p) => predicate_at(t@, 0) == Some(p@),
            None => predicate_at(t@, 0) is None,
        },
{
    let mut i: usize = 0;
    while i < 6
        invariant
            i <= 6,
            predicate_at(t@, 0) == predicate_at(t@, i as int),
        decreases 6 - i,
    {
        let op = op_vec(i);
        match split_once_exec(t, &op) {
            Some((l, r)) => {
                match column_name_chars(&trim_chars(&l)) {
                    Some(c) => match literal_of(&trim_chars(&r)) {
                        Some(v) => {
                            let fop = if i == 0 {
                                FilterOp::Gte
                            } else if i == 1 {
                                FilterOp::Lte
                            } else if i == 2 {
                                FilterOp::Neq
                            } else if i == 3 {
                                FilterOp::Gt
                            } else if i == 4 {
                                FilterOp::Lt
                            } else {
                                FilterOp::Eq
                            };
                            return Some(Predicate { column: string_of(&c), op: fop, value: v });
                        },
                        None => {},
                    },
                    None => {},
                }
            },
            None => {},
        }
        i += 1;
    }
    None
}

/// The pushable predicates of a Datalog rule (see
/// [`pushable_predicates_spec`]).
pub fn extract_pushable_predicates(source: &str) -> (r: Vec<Predicate>)
    ensures
        predicate_views(r@) == pushable_predicates_spec(source@),
{
    let src = chars_of(source);
    let sep = vec![':', '-'];
    assert(sep@ =~= seq![':', '-']);
    let mut out: Vec<Predicate> = Vec::new();
    match split_once_exec(&src, &sep) {
        None => {
            assert(predicate_views(out@) =~= Seq::<PredicateView>::empty());
            out
        },
        Some((_, body)) => {
            let body = strip_trailing_chars(&trim_chars(&body), '.');
            let comma = vec![','];
            assert(comma@ =~= seq![',']);
            let parts = split_exec(&body, &comma);
            let ghost ps = views(parts@);
            assert(ps.len() == parts@.len());
            let mut i: usize = 0;
            assert(ps.subrange(0, 0) =~= Seq::<Seq<char>>::empty());
            assert(predicate_views(out@) =~= Seq::<PredicateView>::empty());
            while i < parts.len()
                invariant
                    i <= parts.len(),
                    ps == views(parts@),
                    ps.len() == parts@.len(),
                    predicate_views(out@) == part_predicates(ps.subrange(0, i as int)),
                decreases parts.len() - i,
            {
                let ghost pre = ps.subrange(0, i as int);
                let ghost post = ps.subrange(0, i + 1);
                assert(post.drop_last() =~= pre);
                assert(post.last() == parts@[i as int]@);
                match predicate_of_part(&trim_chars(&parts[i])) {
                    Some(p) => {
                        let ghost before = predicate_views(out@);
                        out.push(p);
                        assert(predicate_views(out@) =~= before.push(p@));
                    },
                    None => {},
                }
                i += 1;
            }
            assert(ps.subrange(0, parts.len() as int) =~= ps);
            out
        },
    }
}

/// The pushable predicates of the rules named `names`, in that order.
pub open spec fn rule_predicates(rules: Seq<RuleView>, names: Seq<Seq<char>>) -> Seq<PredicateView>
    decreases names.len(),
{
    if names.len() == 0 {
        Seq::empty()
    } else {
        rule_predicates(rules, names.drop_last()) + match rule_named(rules, names.last()) {
            Some(x) => pushable_predicates_spec(x.source),
            None => Seq::empty(),
        }
    }
}

/// The pushable predicates of every registered rule, rule by rule in the
/// order the registry lists them.
pub fn extract_all_predicates(rules: &RuleRegistry) -> (r: Vec<Predicate>)
    ensures
        predicate_views(r@) == rule_predicates(rules@, rules@.map_values(|x: RuleView| x.name)),
{
    let names = rules.list_rules();
    let ghost ns = string_views(names@);
    assert(ns.len() == names@.len());
    let mut all: Vec<Predicate> = Vec::new();
    let mut i: usize = 0;
    assert(predicate_views(all@) =~= rule_predicates(rules@, ns.subrange(0, 0)));
    while i < names.len()
        invariant
            i <= names.len(),
            ns == string_views(names@),
            ns.len() == names@.len(),
            predicate_views(all@) == rule_predicates(rules@, ns.subrange(0, i as int)),
        decreases names.len() - i,
    {
        let ghost pre = ns.subrange(0, i as int);
        let ghost post = ns.subrange(0, i + 1);
        assert(post.drop_last() =~= pre);
        assert(post.last() == names@[i as int]@);
        let ghost before = predicate_views(all@);
        match rules.get_rule_body(names[i].as_str()) {
            Some(source) => {
                let preds = extract_pushable_predicates(source.as_str());
                let mut j: usize = 0;
                while j < preds.len()
                    invariant
                        j <= preds.len(),
                        predicate_views(all@) == before + predicate_views(preds@).subrange(0, j as int),
                    decreases preds.len() - j,
                {
                    let ghost av = predicate_views(all@);
                    let q = copy_predicate(&preds[j]);
                    all.push(q);
                    assert(predicate_views(all@) =~= av.push(q@));
                    assert(predicate_views(preds@).subrange(0, j + 1) =~= predicate_views(
                        preds@,
                    ).subrange(0, j as int).push(preds@[j as int]@));
                    j += 1;
                    assert(predicate_views(all@) =~= before + predicate_views(preds@).subrange(0, j as int));
                }
                assert(predicate_views(preds@).subrange(0, preds.len() as int) =~= predicate_views(preds@));
            },
            None => {
                assert(before + Seq::<PredicateView>::empty() =~= before);
            },
        }
        i += 1;
    }
    assert(ns.subrange(0, names.len() as int) =~= ns);
    all
}

// ── The filter placed above a scan ──────────────────────────────────────

/// The conjunction of predicates that a scan is filtered by.
#[derive(Debug)]
pub enum PushdownExpr {
    /// The empty conjunction.
    True,
    /// One comparison.
    Compare(Predicate),
    /// Both sides hold.
    And(Box<PushdownExpr>, Box<PushdownExpr>),
}

/// The value of a [`PushdownExpr`].
pub enum PushdownView {
    True,
    Compare(PredicateView),
    And(Box<PushdownView>, Box<PushdownView>),
}

/// The value of a pushdown expression.
pub open spec fn pushdown_view(e: PushdownExpr) -> PushdownView
    decreases e,
{
    match e {
        PushdownExpr::True => PushdownView::True,
        PushdownExpr::Compare(p) => PushdownView::Compare(p@),
        PushdownExpr::And(a, b) => PushdownView::And(
            Box::new(pushdown_view(*a)),
            Box::new(pushdown_view(*b)),
        ),
    }
}

/// The left-nested conjunction `((p0 AND p1) AND p2) ...` of a non-empty
/// sequence of predicates.
pub open spec fn conjunction(s: Seq<PredicateView>) -> PushdownView
    decreases s.len(),
{
    if s.len() <= 1 {
        PushdownView::Compare(s[0])
    } else {
        PushdownView::And(
            Box::new(conjunction(s.drop_last())),
            Box::new(PushdownView::Compare(s.last())),
        )
    }
}

/// The predicates combined into one expression: `True` for none, else
/// their left-nested conjunction.
pub open spec fn combined_spec(s: Seq<PredicateView>) -> PushdownView {
    if s.len() == 0 {
        PushdownView::True
    } else {
        conjunction(s)
    }
}

/// Combine predicates into a single conjunction (see [`combined_spec`]).
pub fn combine_predicates(predicates: &Vec<Predicate>) -> (r: PushdownExpr)
    ensures
        pushdown_view(r) == combined_spec(predicate_views(predicates@)),
{
    let ghost s = predicate_views(predicates@);
    if predicates.len() == 0 {
        return PushdownExpr::True;
    }
    let mut acc = PushdownExpr::Compare(copy_predicate(&predicates[0]));
    assert(s.subrange(0, 1) =~= seq![s[0]]);
    let mut i: usize = 1;
    while i < predicates.len()
        invariant
            1 <= i <= predicates.len(),
            s == predicate_views(predicates@),
            pushdown_view(acc) == conjunction(s.subrange(0, i as int)),
        decreases predicates.len() - i,
    {
        let q = copy_predicate(&predicates[i]);
        let ghost prev = pushdown_view(acc);
        let next = PushdownExpr::Compare(q);
        assert(pushdown_view(next) == PushdownView::Compare(q@));
        acc = PushdownExpr::And(Box::new(acc), Box::new(next));
        assert(pushdown_view(acc) == PushdownView::And(Box::new(prev), Box::new(PushdownView::Compare(q@))));
        let ghost post = s.subrange(0, i + 1);
        assert(post.drop_last() =~= s.subrange(0, i as int));
        assert(post.last() == q@);
        i += 1;
    }
    assert(s.subrange(0, predicates.len() as int) =~= s);
    acc
}

/// The predicates whose column the scan has, in order.
pub open spec fn scan_predicates_spec(s: Seq<PredicateView>, columns: Seq<Seq<char>>) -> Seq<PredicateView>
    decreases s.len(),
{
    if s.len() == 0 {
        Seq::empty()
    } else {
        let rest = scan_predicates_spec(s.drop_last(), columns);
        if columns.contains(s.last().column) {
            rest.push(s.last())
        } else {
            rest
        }
    }
}

/// The predicates kept for a scan are exactly those that name one of its
/// columns, in their order.
pub proof fn lemma_scan_predicates(s: Seq<PredicateView>, columns: Seq<Seq<char>>)
    ensures
        scan_predicates_spec(s, columns).len() <= s.len(),
        forall|k: int|
            0 <= k < scan_predicates_spec(s, columns).len() ==> columns.contains(
                (#[trigger] scan_predicates_spec(s, columns)[k]).column,
            ) && s.contains(scan_predicates_spec(s, columns)[k]),
        forall|k: int|
            0 <= k < s.len() && columns.contains((#[trigger] s[k]).column) ==> scan_predicates_spec(
                s,
                columns,
            ).contains(s[k]),
    decreases s.len(),
{
    if s.len() > 0 {
        let init = s.drop_last();
        lemma_scan_predicates(init, columns);
        let r = scan_predicates_spec(init, columns);
        let last = s.last();
        let cur = scan_predicates_spec(s, columns);
        assert forall|k: int| 0 <= k < cur.len() implies columns.contains((#[trigger] cur[k]).column)
            && s.contains(cur[k]) by {
            if k < r.len() {
                assert(cur[k] == r[k]);
                let i = choose|i: int| 0 <= i < init.len() && init[i] == r[k];
                assert(s[i] == r[k]);
            } else {
                assert(s[s.len() - 1] == last);
            }
        }
        assert forall|k: int| 0 <= k < s.len() && columns.contains((#[trigger] s[k]).column) implies cur.contains(
            s[k],
        ) by {
            if k < s.len() - 1 {
                assert(init[k] == s[k]);
                let j = choose|j: int| 0 <= j < r.len() && r[j] == init[k];
                if columns.contains(last.column) {
                    assert(r.push(last)[j] == s[k]);
                }
            } else {
                assert(r.push(last)[r.len() as int] == last);
            }
        }
    }
}

/// The filter to place above a scan of a table with the given columns:
/// none when the rules have no pushable predicate or none of them names a
/// column of the scan; else the conjunction of those that do.
pub open spec fn scan_filter_spec(rules: Seq<RuleView>, columns: Seq<Seq<char>>) -> Option<PushdownView> {
    let preds = rule_predicates(rules, rules.map_values(|x: RuleView| x.name));
    let valid = scan_predicates_spec(preds, columns);
    if valid.len() == 0 {
        None
    } else {
        Some(conjunction(valid))
    }
}

/// The filter that the registered rules place above a scan (see
/// [`scan_filter_spec`]).
pub fn scan_filter(rules: &RuleRegistry, columns: &Vec<String>) -> (r: Option<PushdownExpr>)
    ensures
        match r {
            Some(e) => scan_filter_spec(rules@, string_views(columns@)) == Some(pushdown_view(e)),
            None => scan_filter_spec(rules@, string_views(columns@)) is None,
        },
{
    let preds = extract_all_predicates(rules);
    let cols = strings_chars(columns);
    assert(views(cols@) =~= string_views(columns@));
    let ghost s = predicate_views(preds@);
    let mut valid: Vec<Predicate> = Vec::new();
    let mut i: usize = 0;
    assert(s.subrange(0, 0) =~= Seq::<PredicateView>::empty());
    assert(predicate_views(valid@) =~= Seq::<PredicateView>::empty());
    while i < preds.len()
        invariant
            i <= preds.len(),
            s == predicate_views(preds@),
            views(cols@) == string_views(columns@),
            predicate_views(valid@) == scan_predicates_spec(s.subrange(0, i as int), views(cols@)),
        decreases preds.len() - i,
    {
        let ghost pre = s.subrange(0, i as int);
        let ghost post = s.subrange(0, i + 1);
        assert(post.drop_last() =~= pre);
        let c = chars_of(preds[i].column.as_str());
        if contains_text(&cols, &c) {
            let ghost before = predicate_views(valid@);
            valid.push(copy_predicate(&preds[i]));
            assert(predicate_views(valid@) =~= before.push(preds@[i as int]@));
        }
        i += 1;
    }
    assert(s.subrange(0, preds.len() as int) =~= s);
    if valid.len() == 0 {
        None
    } else {
        Some(combine_predicates(&valid))
    }
}

} // verus!
