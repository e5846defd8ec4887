//! The Datalog engine's rules: their registry, the parsing of a rule into
//! its output relation, input relations and filter conditions, recursion
//! detection and the row masks that text conditions select.

use vstd::prelude::*;

use crate::kernel::error::{AnamError, Result};
use crate::kernel::provenance::ProvenanceMode;
use crate::logic::facts::{batch_views, joined_relations, BatchView, FactBatch, FactStore};
use crate::sdk::logic_pack::PackRule;
use crate::logic::canonical::{first_op_split, op_text, split_first_op};
use crate::text::{
    chars_of, contains, contains_exec, push_all, push_str, slice, split, split_exec, split_once,
    split_once_exec, str_lowercase, string_of, strip_trailing, strip_trailing_chars, text_eq,
    to_lowercase, trim, trim_chars, views,
};

verus! {

/// A named Datalog rule stored in the engine.
#[derive(Debug, Clone)]
pub struct LogicRule {
    /// Human-readable name for this rule set.
    pub name: String,
    /// Raw Datalog source.
    pub datalog_source: String,
    /// Whether this rule is recursive (body references own head).
    pub is_recursive: bool,
}

/// Specification for joining two relations on shared variables.
#[derive(Debug, Clone)]
pub struct JoinSpec {
    /// Left relation name.
    pub left_rel: String,
    /// Right relation name.
    pub right_rel: String,
    /// Shared variable names that form the join key.
    pub join_variables: Vec<String>,
}

/// A comparison operator of a filter condition.
#[derive(Debug, Clone, Copy, PartialEq, Eq, Structural)]
pub enum FilterOp {
    Gt,
    Lt,
    Gte,
    Lte,
    Eq,
    Neq,
}

/// A filter condition `column op value`.
#[derive(Debug, Clone)]
pub struct FilterCondition {
    pub column: String,
    pub op: FilterOp,
    pub value: String,
}

/// The value of a [`FilterCondition`].
pub struct ConditionView {
    pub column: Seq<char>,
    pub op: FilterOp,
    pub value: Seq<char>,
}

impl View for FilterCondition {
    type V = ConditionView;

    open spec fn view(&self) -> ConditionView {
        ConditionView { column: self.column@, op: self.op, value: self.value@ }
    }
}

/// The operator tried `i`-th: `>=`, `<=`, `!=`, `>`, `<`, `=`.
pub open spec fn filter_op_at(i: int) -> FilterOp {
    if i == 0 {
        FilterOp::Gte
    } else if i == 1 {
        FilterOp::Lte
    } else if i == 2 {
        FilterOp::Neq
    } else if i == 3 {
        FilterOp::Gt
    } else if i == 4 {
        FilterOp::Lt
    } else {
        FilterOp::Eq
    }
}

/// The condition that `s` states: split at the first operator found
/// (trying `>=`, `<=`, `!=`, `>`, `<`, `=` in turn), both sides trimmed.
pub open spec fn parse_condition_spec(s: Seq<char>) -> Option<ConditionView> {
    match first_op_split(s, 0) {
        Some((i, l, r)) => Some(ConditionView { column: trim(l), op: filter_op_at(i), value: trim(r) }),
        None => None,
    }
}

impl FilterCondition {
    /// Parse `column op value` (see [`parse_condition_spec`]).
    pub fn parse(s: &str) -> (r: Option<Self>)
        ensures
            match r {
                Some(c) => parse_condition_spec(s@) == Some(c@),
                None => parse_condition_spec(s@) is None,
            },
    {
        Self::parse_chars(&chars_of(s))
    }

    fn parse_chars(s: &Vec<char>) -> (r: Option<Self>)
        ensures
            match r {
                Some(c) => parse_condition_spec(s@) == Some(c@),
                None => parse_condition_spec(s@) is None,
            },
    {
        match split_first_op(s) {
            Some((i, l, r)) => {
                let op = if i == 0 {
                    FilterOp::Gte
                } else if i == 1 {
                    FilterOp::Lte
                } else if i == 2 {
                    FilterOp::Neq
                } else if i == 3 {
                    FilterOp::Gt
                } else if i == 4 {
                    FilterOp::Lt
                } else {
                    FilterOp::Eq
                };
                Some(
                    FilterCondition {
                        column: string_of(&trim_chars(&l)),
                        op,
                        value: string_of(&trim_chars(&r)),
                    },
                )
            },
            None => None,
        }
    }
}

/// The text before the first `(`, or all of it.
pub open spec fn before_paren(s: Seq<char>) -> Seq<char> {
    match split_once(s, seq!['(']) {
        Some((a, _)) => a,
        None => s,
    }
}

fn before_paren_exec(s: &Vec<char>) -> (r: Vec<char>)
    ensures
        r@ == before_paren(s@),
{
    let open = vec!['('];
    assert(open@ =~= seq!['(']);
    match split_once_exec(s, &open) {
        Some((a, _)) => a,
        None => {
            let r = slice(s, 0, s.len());
            assert(r@ =~= s@);
            r
        },
    }
}

/// A rule is recursive when its body mentions its head relation, or the
/// rule's name, applied as `name(` (case-insensitively).
pub open spec fn is_recursive_spec(rule_name: Seq<char>, source: Seq<char>) -> bool {
    match split_once(source, seq![':', '-']) {
        Some((head, body)) => {
            let head_rel = str_lowercase(trim(before_paren(trim(head))));
            let body_lower = str_lowercase(body);
            contains(body_lower, head_rel + seq!['(']) || contains(
                body_lower,
                str_lowercase(rule_name) + seq!['('],
            )
        },
        None => false,
    }
}

/// Whether a rule is recursive (see [`is_recursive_spec`]).
pub fn detect_recursive(rule_name: &str, source: &str) -> (b: bool)
    ensures
        b == is_recursive_spec(rule_name@, source@),
{
    let src = chars_of(source);
    let sep = vec![':', '-'];
    assert(sep@ =~= seq![':', '-']);
    match split_once_exec(&src, &sep) {
        Some((head, body)) => {
            let mut head_rel = to_lowercase(&trim_chars(&before_paren_exec(&trim_chars(&head))));
            let ghost hr = head_rel@;
            head_rel.push('(');
            assert(head_rel@ == hr + seq!['(']);
            let body_lower = to_lowercase(&body);
            let mut name = to_lowercase(&chars_of(rule_name));
            let ghost nm = name@;
            name.push('(');
            assert(name@ == nm + seq!['(']);
            let a = contains_exec(&body_lower, &head_rel);
            let b = contains_exec(&body_lower, &name);
            a || b
        },
        None => false,
    }
}

/// Rule source is accepted when, trimmed, it is non-empty and holds `:-`
/// or one of `>`, `<`, `=`.
pub open spec fn datalog_ok(source: Seq<char>) -> bool {
    let s = trim(source);
    s.len() > 0 && (contains(s, seq![':', '-']) || contains(s, seq!['>']) || contains(s, seq!['<'])
        || contains(s, seq!['=']))
}

/// The message for refused rule source.
pub open spec fn datalog_error(source: Seq<char>) -> Seq<char> {
    if trim(source).len() == 0 {
        "empty Datalog source"@
    } else {
        "invalid Datalog syntax: '"@ + trim(source) + "' (expected rule or constraint)"@
    }
}

/// Check rule source before registration: empty source and text that is
/// neither a rule nor a constraint are refused.
pub fn validate_datalog(source: &str) -> (r: Result<()>)
    ensures
        r is Ok <==> datalog_ok(source@),
        r is Err ==> (r matches Err(AnamError::Logic(m)) && m@ == datalog_error(source@)),
{
    let s = trim_chars(&chars_of(source));
    if s.len() == 0 {
        return Err(AnamError::Logic(string_of(&chars_of("empty Datalog source"))));
    }
    let sep = vec![':', '-'];
    assert(sep@ =~= seq![':', '-']);
    let gt = vec!['>'];
    assert(gt@ =~= seq!['>']);
    let lt = vec!['<'];
    assert(lt@ =~= seq!['<']);
    let eq = vec!['='];
    assert(eq@ =~= seq!['=']);
    if !contains_exec(&s, &sep) && !contains_exec(&s, &gt) && !contains_exec(&s, &lt)
        && !contains_exec(&s, &eq) {
        let mut m = chars_of("invalid Datalog syntax: '");
        push_all(&mut m, &s);
        push_str(&mut m, "' (expected rule or constraint)");
        return Err(AnamError::Logic(string_of(&m)));
    }
    Ok(())
}

// ── Rule structure ──────────────────────────────────────────────────────

/// A body part after trimming and dropping trailing dots.
pub open spec fn clean_part(p: Seq<char>) -> Seq<char> {
    strip_trailing(trim(p), '.')
}

/// A cleaned body part holds a comparison character.
pub open spec fn is_filter_part(t: Seq<char>) -> bool {
    contains(t, seq!['>']) || contains(t, seq!['<']) || contains(t, seq!['='])
}

/// The input relations named by the non-condition body parts, in order.
pub open spec fn input_relations(parts: Seq<Seq<char>>) -> Seq<Seq<char>>
    decreases parts.len(),
{
    if parts.len() == 0 {
        Seq::empty()
    } else {
        let t = clean_part(parts.last());
        if is_filter_part(t) {
            input_relations(parts.drop_last())
        } else {
            input_relations(parts.drop_last()).push(trim(before_paren(t)))
        }
    }
}

/// The conditions parsed from the condition body parts, in order (parts
/// that do not parse are dropped).
pub open spec fn body_filters(parts: Seq<Seq<char>>) -> Seq<ConditionView>
    decreases parts.len(),
{
    if parts.len() == 0 {
        Seq::empty()
    } else {
        let t = clean_part(parts.last());
        if is_filter_part(t) {
            match parse_condition_spec(t) {
                Some(c) => body_filters(parts.drop_last()).push(c),
                None => body_filters(parts.drop_last()),
            }
        } else {
            body_filters(parts.drop_last())
        }
    }
}

/// The conditions of a constraint expression's ` AND `-separated pieces.
pub open spec fn and_filters(pieces: Seq<Seq<char>>) -> Seq<ConditionView>
    decreases pieces.len(),
{
    if pieces.len() == 0 {
        Seq::empty()
    } else {
        match parse_condition_spec(trim(pieces.last())) {
            Some(c) => and_filters(pieces.drop_last()).push(c),
            None => and_filters(pieces.drop_last()),
        }
    }
}

/// The text before the first `.`, or all of it.
pub open spec fn before_dot(s: Seq<char>) -> Seq<char> {
    match split_once(s, seq!['.']) {
        Some((a, _)) => a,
        None => s,
    }
}

/// The structure of a rule: output relation, input relations and filter
/// conditions. A rule `head :- body` outputs its head's relation and reads
/// its body's atoms; a plain constraint outputs `derived` and reads the
/// table its first condition qualifies (`unknown` with no condition).
pub open spec fn rule_structure_spec(source: Seq<char>) -> (Seq<char>, Seq<Seq<char>>, Seq<ConditionView>) {
    let s = trim(source);
    match split_once(s, seq![':', '-']) {
        Some((head, body)) => {
            let parts = split(body, seq![',']).map_values(|p: Seq<char>| trim(p));
            (trim(before_paren(trim(head))), input_relations(parts), body_filters(parts))
        },
        None => {
            let conditions = and_filters(split(s, seq![' ', 'A', 'N', 'D', ' ']));
            let table = if conditions.len() > 0 {
                before_dot(conditions[0].column)
            } else {
                "unknown"@
            };
            ("derived"@, seq![table], conditions)
        },
    }
}

/// The views of a sequence of conditions.
pub open spec fn condition_views(v: Seq<FilterCondition>) -> Seq<ConditionView> {
    v.map_values(|c: FilterCondition| c@)
}

/// The views of a sequence of strings.
pub open spec fn string_views(v: Seq<String>) -> Seq<Seq<char>> {
    v.map_values(|s: String| s@)
}

/// Parse a rule into its output relation, input relations and filter
/// conditions (see [`rule_structure_spec`]). Parsing always succeeds.
pub fn parse_rule_structure(source: &str) -> (r: Result<(String, Vec<String>, Vec<FilterCondition>)>)
    ensures
        r matches Ok((out, inputs, conds)) && (out@, string_views(inputs@), condition_views(conds@))
            == rule_structure_spec(source@),
{
    let s = trim_chars(&chars_of(source));
    let sep = vec![':', '-'];
    assert(sep@ =~= seq![':', '-']);
    match split_once_exec(&s, &sep) {
        Some((head, body)) => {
            let output = trim_chars(&before_paren_exec(&trim_chars(&head)));
            let (inputs, conds) = parse_rule_body(&body);
            Ok((string_of(&output), inputs, conds))
        },
        None => {
            let (table, conds) = parse_constraint(&s);
            let mut inputs: Vec<String> = Vec::new();
            inputs.push(string_of(&table));
            assert(string_views(inputs@) =~= seq![table@]);
            Ok((string_of(&chars_of("derived")), inputs, conds))
        },
    }
}

fn parse_rule_body(body: &Vec<char>) -> (r: (Vec<String>, Vec<FilterCondition>))
    ensures
        ({
            let parts = split(body@, seq![',']).map_values(|p: Seq<char>| trim(p));
            string_views(r.0@) == input_relations(parts) && condition_views(r.1@) == body_filters(
                parts,
            )
        }),
{
    let comma = vec![','];
    assert(comma@ =~= seq![',']);
    let raw = split_exec(body, &comma);
    let ghost parts = views(raw@).map_values(|p: Seq<char>| trim(p));
    let mut inputs: Vec<String> = Vec::new();
    let mut conds: Vec<FilterCondition> = Vec::new();
    let gt = vec!['>'];
    assert(gt@ =~= seq!['>']);
    let lt = vec!['<'];
    assert(lt@ =~= seq!['<']);
    let eq = vec!['='];
    assert(eq@ =~= seq!['=']);
    let mut i: usize = 0;
    while i < raw.len()
        invariant
            i <= raw.len(),
            parts == views(raw@).map_values(|p: Seq<char>| trim(p)),
            gt@ == seq!['>'],
            lt@ == seq!['<'],
            eq@ == seq!['='],
            string_views(inputs@) == input_relations(parts.subrange(0, i as int)),
            condition_views(conds@) == body_filters(parts.subrange(0, i as int)),
        decreases raw.len() - i,
    {
        let ghost pre = parts.subrange(0, i as int);
        let ghost post = parts.subrange(0, i + 1);
        assert(post.drop_last() =~= pre);
        assert(post.last() == trim(raw@[i as int]@));
        let part = trim_chars(&raw[i]);
        let t = strip_trailing_chars(&trim_chars(&part), '.');
        if contains_exec(&t, &gt) || contains_exec(&t, &lt) || contains_exec(&t, &eq) {
            match FilterCondition::parse_chars(&t) {
                Some(c) => {
                    let ghost cv = condition_views(conds@);
                    let ghost one = c@;
                    conds.push(c);
                    assert(condition_views(conds@) =~= cv.push(one));
                },
                None => {},
            }
        } else {
            let rel = string_of(&trim_chars(&before_paren_exec(&t)));
            let ghost iv = string_views(inputs@);
            let ghost one = rel@;
            inputs.push(rel);
            assert(string_views(inputs@) =~= iv.push(one));
        }
        i += 1;
    }
    assert(parts.subrange(0, raw.len() as int) =~= parts);
    (inputs, conds)
}

fn parse_constraint(s: &Vec<char>) -> (r: (Vec<char>, Vec<FilterCondition>))
    ensures
        ({
            let conditions = and_filters(split(s@, seq![' ', 'A', 'N', 'D', ' ']));
            &&& condition_views(r.1@) == conditions
            &&& r.0@ == if conditions.len() > 0 {
                before_dot(conditions[0].column)
            } else {
                "unknown"@
            }
        }),
{
    let and = vec![' ', 'A', 'N', 'D', ' '];
    assert(and@ =~= seq![' ', 'A', 'N', 'D', ' ']);
    let pieces = split_exec(s, &and);
    let mut conds: Vec<FilterCondition> = Vec::new();
    let mut i: usize = 0;
    while i < pieces.len()
        invariant
            i <= pieces.len(),
            condition_views(conds@) == and_filters(views(pieces@).subrange(0, i as int)),
        decreases pieces.len() - i,
    {
        let ghost pre = views(pieces@).subrange(0, i as int);
        let ghost post = views(pieces@).subrange(0, i + 1);
        assert(post.drop_last() =~= pre);
        assert(post.last() == pieces@[i as int]@);
        match FilterCondition::parse_chars(&trim_chars(&pieces[i])) {
            Some(c) => {
                let ghost cv = condition_views(conds@);
                let ghost one = c@;
                conds.push(c);
                assert(condition_views(conds@) =~= cv.push(one));
            },
            None => {},
        }
        i += 1;
    }
    assert(views(pieces@).subrange(0, pieces.len() as int) =~= views(pieces@));
    let table = if conds.len() > 0 {
        assert(condition_views(conds@)[0] == conds@[0]@);
        let column = chars_of(conds[0].column.as_str());
        let dot = vec!['.'];
        assert(dot@ =~= seq!['.']);
        match split_once_exec(&column, &dot) {
            Some((a, _)) => a,
            None => column,
        }
    } else {
        chars_of("unknown")
    };
    (table, conds)
}

// ── Text conditions on rows ─────────────────────────────────────────────

/// `s` without every leading and trailing copy of `c`
/// (`str::trim_matches(c)`).
pub open spec fn trim_matches(s: Seq<char>, c: char) -> Seq<char>
    decreases s.len(),
{
    if s.len() > 0 && s[0] == c {
        trim_matches(s.drop_first(), c)
    } else {
        strip_trailing(s, c)
    }
}

fn trim_matches_exec(v: &Vec<char>, c: char) -> (r: Vec<char>)
    ensures
        r@ == trim_matches(v@, c),
{
    let mut i: usize = 0;
    assert(v@.subrange(0, v@.len() as int) =~= v@);
    while i < v.len() && v[i] == c
        invariant
            i <= v.len(),
            trim_matches(v@, c) == trim_matches(v@.subrange(i as int, v@.len() as int), c),
        decreases v.len() - i,
    {
        let ghost rest = v@.subrange(i as int, v@.len() as int);
        assert(rest.drop_first() =~= v@.subrange(i + 1, v@.len() as int));
        i += 1;
    }
    let rest = slice(v, i, v.len());
    proof {
        if rest@.len() > 0 {
            assert(rest@[0] == v@[i as int]);
        }
    }
    strip_trailing_chars(&rest, c)
}

/// The value a text condition compares against: quotes of either kind
/// removed from both ends.
pub open spec fn text_target(value: Seq<char>) -> Seq<char> {
    trim_matches(trim_matches(value, '\''), '"')
}

/// Splitting at the `i`-th operator: found there when the text holds it,
/// otherwise the search goes on from the next operator.
proof fn lemma_first_op_split_at(s: Seq<char>, i: int, text: Seq<char>)
    requires
        0 <= i < 6,
        op_text(i) == text,
    ensures
        split_once(s, text) matches Some((l, r)) ==> first_op_split(s, i) == Some((i, l, r)),
        split_once(s, text) is None ==> first_op_split(s, i) == first_op_split(s, i + 1),
{
}

/// Each operator text gives its own comparison: the first operator that a
/// condition holds, trying `>=`, `<=`, `!=`, `>`, `<`, `=` in that order,
/// splits it into the column and the value, and `>=` reads as at least,
/// `<=` at most, `!=` different, `>` greater, `<` less, `=` equal.
pub proof fn lemma_condition_operators(s: Seq<char>)
    ensures
        (split_once(s, ">="@) matches Some((l, r)) ==> parse_condition_spec(s) == Some(
                ConditionView { column: trim(l), op: FilterOp::Gte, value: trim(r) },
            )),
        split_once(s, ">="@) is None
            ==> (split_once(s, "<="@) matches Some((l, r)) ==> parse_condition_spec(s) == Some(
                ConditionView { column: trim(l), op: FilterOp::Lte, value: trim(r) },
            )),
        split_once(s, ">="@) is None
            && split_once(s, "<="@) is None
            ==> (split_once(s, "!="@) matches Some((l, r)) ==> parse_condition_spec(s) == Some(
                ConditionView { column: trim(l), op: FilterOp::Neq, value: trim(r) },
            )),
        split_once(s, ">="@) is None
            && split_once(s, "<="@) is None
            && split_once(s, "!="@) is None
            ==> (split_once(s, ">"@) matches Some((l, r)) ==> parse_condition_spec(s) == Some(
                ConditionView { column: trim(l), op: FilterOp::Gt, value: trim(r) },
            )),
        split_once(s, ">="@) is None
            && split_once(s, "<="@) is None
            && split_once(s, "!="@) is None
            && split_once(s, ">"@) is None
            ==> (split_once(s, "<"@) matches Some((l, r)) ==> parse_condition_spec(s) == Some(
                ConditionView { column: trim(l), op: FilterOp::Lt, value: trim(r) },
            )),
        split_once(s, ">="@) is None
            && split_once(s, "<="@) is None
            && split_once(s, "!="@) is None
            && split_once(s, ">"@) is None
            && split_once(s, "<"@) is None
            ==> (split_once(s, "="@) matches Some((l, r)) ==> parse_condition_spec(s) == Some(
                ConditionView { column: trim(l), op: FilterOp::Eq, value: trim(r) },
            )),
{
    reveal_strlit(">=");
    assert(op_text(0) =~= ">="@);
    lemma_first_op_split_at(s, 0, ">="@);
    reveal_strlit("<=");
    assert(op_text(1) =~= "<="@);
    lemma_first_op_split_at(s, 1, "<="@);
    reveal_strlit("!=");
    assert(op_text(2) =~= "!="@);
    lemma_first_op_split_at(s, 2, "!="@);
    reveal_strlit(">");
    assert(op_text(3) =~= ">"@);
    lemma_first_op_split_at(s, 3, ">"@);
    reveal_strlit("<");
    assert(op_text(4) =~= "<"@);
    lemma_first_op_split_at(s, 4, "<"@);
    reveal_strlit("=");
    assert(op_text(5) =~= "="@);
    lemma_first_op_split_at(s, 5, "="@);
}

/// Whether a text value passes a condition: `=` and `!=` compare with the
/// target; other operators let every value pass.
pub open spec fn text_passes(op: FilterOp, v: Seq<char>, target: Seq<char>) -> bool {
    match op {
        FilterOp::Eq => v == target,
        FilterOp::Neq => v != target,
        _ => true,
    }
}

/// The mask after a text condition: a row still selected and not null is
/// kept when its value passes; other rows are unchanged.
pub open spec fn text_mask_spec(
    mask: Seq<bool>,
    values: Seq<Option<Seq<char>>>,
    op: FilterOp,
    target: Seq<char>,
) -> Seq<bool> {
    Seq::new(
        mask.len(),
        |i: int|
            match values[i] {
                Some(v) => if mask[i] {
                    text_passes(op, v, target)
                } else {
                    false
                },
                None => mask[i],
            },
    )
}

/// The views of nullable text values.
pub open spec fn nullable_views(v: Seq<Option<String>>) -> Seq<Option<Seq<char>>> {
    v.map_values(
        |x: Option<String>|
            match x {
                Some(s) => Some(s@),
                None => None,
            },
    )
}

/// Apply a text condition to a row mask (one value per row, `None` for a
/// null).
pub fn apply_text_condition(mask: &mut Vec<bool>, values: &Vec<Option<String>>, cond: &FilterCondition)
    requires
        old(mask)@.len() == values@.len(),
    ensures
        final(mask)@ == text_mask_spec(
            old(mask)@,
            nullable_views(values@),
            cond.op,
            text_target(cond.value@),
        ),
{
    let target = trim_matches_exec(&trim_matches_exec(&chars_of(cond.value.as_str()), '\''), '"');
    let ghost start = mask@;
    let ghost spec_mask = text_mask_spec(start, nullable_views(values@), cond.op, target@);
    let mut i: usize = 0;
    while i < mask.len()
        invariant
            i <= mask.len() == values.len() == start.len(),
            spec_mask == text_mask_spec(start, nullable_views(values@), cond.op, target@),
            forall|k: int| 0 <= k < i ==> mask@[k] == spec_mask[k],
            forall|k: int| i <= k < mask.len() ==> mask@[k] == start[k],
        decreases mask.len() - i,
    {
        match &values[i] {
            Some(v) => {
                if mask[i] {
                    let vv = chars_of(v.as_str());
                    let pass = match cond.op {
                        FilterOp::Eq => text_eq(&vv, &target),
                        FilterOp::Neq => !text_eq(&vv, &target),
                        _ => true,
                    };
                    mask.set(i, pass);
                }
            },
            None => {},
        }
        i += 1;
    }
    assert(mask@ =~= spec_mask);
}

/// What a text condition does to a row mask: a selected row that is not
/// null stays selected under `=` exactly when its value equals the target,
/// and under `!=` exactly when it differs, so on those rows the two masks
/// are each other's complement; a row that was not selected stays
/// unselected, and a null row keeps its mark, whatever the operator.
pub proof fn lemma_text_condition_meaning(
    mask: Seq<bool>,
    values: Seq<Option<Seq<char>>>,
    op: FilterOp,
    target: Seq<char>,
)
    requires
        mask.len() == values.len(),
    ensures
        text_mask_spec(mask, values, op, target).len() == mask.len(),
        forall|i: int|
            0 <= i < mask.len() && mask[i] && values[i] is Some ==> (#[trigger] text_mask_spec(
                mask,
                values,
                FilterOp::Eq,
                target,
            )[i] <==> values[i]->0 == target),
        forall|i: int|
            0 <= i < mask.len() && mask[i] && values[i] is Some ==> (#[trigger] text_mask_spec(
                mask,
                values,
                FilterOp::Neq,
                target,
            )[i] <==> values[i]->0 != target),
        forall|i: int|
            0 <= i < mask.len() && mask[i] && values[i] is Some ==> #[trigger] text_mask_spec(
                mask,
                values,
                FilterOp::Neq,
                target,
            )[i] != text_mask_spec(mask, values, FilterOp::Eq, target)[i],
        forall|i: int|
            0 <= i < mask.len() && !mask[i] ==> !#[trigger] text_mask_spec(mask, values, op, target)[i],
        forall|i: int|
            0 <= i < mask.len() && values[i] is None ==> #[trigger] text_mask_spec(
                mask,
                values,
                op,
                target,
            )[i] == mask[i],
{
}

/// The position of the last `.` among the first `n` characters.
pub open spec fn last_dot_before(s: Seq<char>, n: int) -> Option<int>
    decreases n,
{
    if n <= 0 {
        None
    } else if s[n - 1] == '.' {
        Some(n - 1)
    } else {
        last_dot_before(s, n - 1)
    }
}

/// The column a condition names: the text after its last `.`, or all of
/// it.
pub open spec fn condition_column_name(column: Seq<char>) -> Seq<char> {
    match last_dot_before(column, column.len() as int) {
        Some(k) => column.subrange(k + 1, column.len() as int),
        None => column,
    }
}

/// A rule's conditions apply to a batch when one of them names one of the
/// batch's columns.
pub open spec fn rule_applies_spec(conditions: Seq<ConditionView>, columns: Seq<Seq<char>>) -> bool {
    exists|i: int| 0 <= i < conditions.len() && columns.contains(condition_column_name(#[trigger] conditions[i].column))
}

fn condition_column_exec(column: &Vec<char>) -> (r: Vec<char>)
    ensures
        r@ == condition_column_name(column@),
{
    let mut n: usize = column.len();
    while n > 0
        invariant
            n <= column.len(),
            last_dot_before(column@, column@.len() as int) == last_dot_before(column@, n as int),
        decreases n,
    {
        if column[n - 1] == '.' {
            return slice(column, n, column.len());
        }
        n -= 1;
    }
    slice(column, 0, column.len())
}

/// The column a condition names (see [`condition_column_name`]).
pub fn condition_column(column: &str) -> (r: String)
    ensures
        r@ == condition_column_name(column@),
{
    string_of(&condition_column_exec(&chars_of(column)))
}

/// Whether a rule's conditions apply to a batch with the given columns
/// (see [`rule_applies_spec`]).
pub fn rule_applies_to(conditions: &Vec<FilterCondition>, columns: &Vec<String>) -> (b: bool)
    ensures
        b == rule_applies_spec(condition_views(conditions@), string_views(columns@)),
{
    let cols = crate::text::strings_chars(columns);
    assert(views(cols@) =~= string_views(columns@));
    let ghost cv = condition_views(conditions@);
    let mut i: usize = 0;
    while i < conditions.len()
        invariant
            i <= conditions.len(),
            cv == condition_views(conditions@),
            views(cols@) == string_views(columns@),
            forall|k: int| 0 <= k < i ==> !string_views(columns@).contains(condition_column_name(#[trigger] cv[k].column)),
        decreases conditions.len() - i,
    {
        let name = condition_column_exec(&chars_of(conditions[i].column.as_str()));
        assert(cv[i as int].column == conditions@[i as int].column@);
        if crate::text::contains_text(&cols, &name) {
            return true;
        }
        i += 1;
    }
    false
}

/// The rows a mask selects, in order.
pub open spec fn selected_upto(mask: Seq<bool>, n: int) -> Seq<u64>
    decreases n,
{
    if n <= 0 {
        Seq::empty()
    } else if mask[n - 1] {
        selected_upto(mask, n - 1).push((n - 1) as u64)
    } else {
        selected_upto(mask, n - 1)
    }
}

/// The positions of the selected rows of a mask.
pub fn mask_indices(mask: &Vec<bool>) -> (r: Vec<u64>)
    ensures
        r@ == selected_upto(mask@, mask@.len() as int),
{
    let mut r: Vec<u64> = Vec::new();
    let mut i: usize = 0;
    while i < mask.len()
        invariant
            i <= mask.len(),
            r@ == selected_upto(mask@, i as int),
        decreases mask.len() - i,
    {
        if mask[i] {
            r.push(i as u64);
        }
        i += 1;
    }
    r
}

/// The positions a mask selects are exactly the rows whose mark is set,
/// each once, in increasing order.
pub proof fn lemma_selected_rows(mask: Seq<bool>, n: int)
    requires
        0 <= n <= mask.len() <= u64::MAX,
    ensures
        forall|i: int| 0 <= i < n ==> (selected_upto(mask, n).contains(i as u64) <==> #[trigger] mask[i]),
        forall|a: int, b: int|
            0 <= a < b < selected_upto(mask, n).len() ==> selected_upto(mask, n)[a] < selected_upto(
                mask,
                n,
            )[b],
        forall|k: int|
            0 <= k < selected_upto(mask, n).len() ==> #[trigger] selected_upto(mask, n)[k] < n,
    decreases n,
{
    if n > 0 {
        lemma_selected_rows(mask, n - 1);
        let prev = selected_upto(mask, n - 1);
        if mask[n - 1] {
            let cur = prev.push((n - 1) as u64);
            assert forall|i: int| 0 <= i < n implies (cur.contains(i as u64) <==> #[trigger] mask[i]) by {
                if i < n - 1 {
                    if prev.contains(i as u64) {
                        let k = choose|k: int| 0 <= k < prev.len() && prev[k] == i as u64;
                        assert(cur[k] == prev[k]);
                    }
                    if cur.contains(i as u64) {
                        let k = choose|k: int| 0 <= k < cur.len() && cur[k] == i as u64;
                        if k < prev.len() {
                            assert(prev[k] == cur[k]);
                        }
                    }
                } else {
                    assert(cur[prev.len() as int] == (n - 1) as u64);
                }
            }
            assert forall|k: int| 0 <= k < cur.len() implies #[trigger] cur[k] < n by {
                if k < prev.len() {
                    assert(cur[k] == prev[k]);
                }
            }
        } else {
            assert forall|i: int| 0 <= i < n implies (prev.contains(i as u64) <==> #[trigger] mask[i]) by {
                if i == n - 1 && prev.contains(i as u64) {
                    let k = choose|k: int| 0 <= k < prev.len() && prev[k] == i as u64;
                }
            }
        }
    }
}

// ── Evaluation plans ────────────────────────────────────────────────────

/// The most rounds a recursive rule is evaluated for.
pub const MAX_FIXPOINT_ITERATIONS: usize = 100;

/// After a round of a recursive rule's evaluation: go on while the row
/// count changed and fewer than [`MAX_FIXPOINT_ITERATIONS`] rounds ran.
pub fn fixpoint_continue(rounds_done: usize, prev_rows: usize, new_rows: usize) -> (b: bool)
    ensures
        b == (new_rows != prev_rows && rounds_done < MAX_FIXPOINT_ITERATIONS),
{
    new_rows != prev_rows && rounds_done < MAX_FIXPOINT_ITERATIONS
}

/// The input relations other than the rule's own output (compared in
/// lower case): where a recursive rule's evaluation starts from.
pub open spec fn base_relations_spec(inputs: Seq<Seq<char>>, output: Seq<char>) -> Seq<Seq<char>>
    decreases inputs.len(),
{
    if inputs.len() == 0 {
        Seq::empty()
    } else {
        let r = base_relations_spec(inputs.drop_last(), output);
        if str_lowercase(inputs.last()) != str_lowercase(output) {
            r.push(inputs.last())
        } else {
            r
        }
    }
}

/// The base relations are exactly the inputs that, in lower case, differ
/// from the rule's output, each in its input position.
pub proof fn lemma_base_relations(inputs: Seq<Seq<char>>, output: Seq<char>)
    ensures
        base_relations_spec(inputs, output).len() <= inputs.len(),
        forall|k: int|
            0 <= k < base_relations_spec(inputs, output).len() ==> str_lowercase(
                #[trigger] base_relations_spec(inputs, output)[k],
            ) != str_lowercase(output) && inputs.contains(base_relations_spec(inputs, output)[k]),
        forall|k: int|
            0 <= k < inputs.len() && str_lowercase(#[trigger] inputs[k]) != str_lowercase(output)
                ==> base_relations_spec(inputs, output).contains(inputs[k]),
    decreases inputs.len(),
{
    if inputs.len() > 0 {
        let init = inputs.drop_last();
        lemma_base_relations(init, output);
        let r = base_relations_spec(init, output);
        let last = inputs.last();
        let cur = base_relations_spec(inputs, output);
        assert forall|k: int|
            0 <= k < cur.len() implies str_lowercase(#[trigger] cur[k]) != str_lowercase(output)
            && inputs.contains(cur[k]) by {
            if k < r.len() {
                assert(cur[k] == r[k]);
                let i = choose|i: int| 0 <= i < init.len() && init[i] == r[k];
                assert(inputs[i] == r[k]);
            } else {
                assert(inputs[inputs.len() - 1] == last);
            }
        }
        assert forall|k: int|
            0 <= k < inputs.len() && str_lowercase(#[trigger] inputs[k]) != str_lowercase(output)
            implies cur.contains(inputs[k]) by {
            if k < inputs.len() - 1 {
                assert(init[k] == inputs[k]);
                let j = choose|j: int| 0 <= j < r.len() && r[j] == init[k];
                if str_lowercase(last) != str_lowercase(output) {
                    assert(r.push(last)[j] == inputs[k]);
                }
            } else {
                assert(r.push(last)[r.len() as int] == last);
            }
        }
    }
}

/// How a rule is evaluated: whether it is recursive, its input relations,
/// the base relations a recursive evaluation starts from, and its
/// conditions.
#[derive(Debug)]
pub struct EvalPlan {
    pub recursive: bool,
    pub inputs: Vec<String>,
    pub base_relations: Vec<String>,
    pub conditions: Vec<FilterCondition>,
}

/// The evaluation plan of a named rule (see [`rule_structure_spec`],
/// [`is_recursive_spec`] and [`base_relations_spec`]).
pub fn evaluation_plan(rule_name: &str, source: &str) -> (r: Result<EvalPlan>)
    ensures
        r matches Ok(p) && ({
            let (out, inputs, conds) = rule_structure_spec(source@);
            &&& p.recursive == is_recursive_spec(rule_name@, source@)
            &&& string_views(p.inputs@) == inputs
            &&& string_views(p.base_relations@) == base_relations_spec(inputs, out)
            &&& condition_views(p.conditions@) == conds
        }),
{
    let (output, inputs, conditions) = match parse_rule_structure(source) {
        Ok(x) => x,
        Err(e) => {
            return Err(e);
        },
    };
    let out_lower = to_lowercase(&chars_of(output.as_str()));
    let ghost iv = string_views(inputs@);
    let mut base: Vec<String> = Vec::new();
    let mut i: usize = 0;
    while i < inputs.len()
        invariant
            i <= inputs.len(),
            iv == string_views(inputs@),
            out_lower@ == str_lowercase(output@),
            string_views(base@) == base_relations_spec(iv.subrange(0, i as int), output@),
        decreases inputs.len() - i,
    {
        let ghost pre = iv.subrange(0, i as int);
        assert(iv.subrange(0, i + 1).drop_last() =~= pre);
        assert(iv.subrange(0, i + 1).last() == inputs@[i as int]@);
        let lower = to_lowercase(&chars_of(inputs[i].as_str()));
        if !text_eq(&lower, &out_lower) {
            let ghost before = string_views(base@);
            base.push(string_of(&chars_of(inputs[i].as_str())));
            assert(string_views(base@) =~= before.push(inputs@[i as int]@));
        }
        i += 1;
    }
    assert(iv.subrange(0, inputs.len() as int) =~= iv);
    Ok(
        EvalPlan {
            recursive: detect_recursive(rule_name, source),
            inputs,
            base_relations: base,
            conditions,
        },
    )
}

// ── The rule registry ───────────────────────────────────────────────────

/// The value of a [`LogicRule`].
pub struct RuleView {
    pub name: Seq<char>,
    pub source: Seq<char>,
    pub is_recursive: bool,
}

impl View for LogicRule {
    type V = RuleView;

    open spec fn view(&self) -> RuleView {
        RuleView {
            name: self.name@,
            source: self.datalog_source@,
            is_recursive: self.is_recursive,
        }
    }
}

/// The views of a sequence of rules.
pub open spec fn rule_views(v: Seq<LogicRule>) -> Seq<RuleView> {
    v.map_values(|r: LogicRule| r@)
}

/// The rules not named `name`, in order.
pub open spec fn rules_without(s: Seq<RuleView>, name: Seq<char>) -> Seq<RuleView>
    decreases s.len(),
{
    if s.len() == 0 {
        Seq::empty()
    } else if s.last().name == name {
        rules_without(s.drop_last(), name)
    } else {
        rules_without(s.drop_last(), name).push(s.last())
    }
}

/// Some rule is named `name`.
pub open spec fn has_rule(s: Seq<RuleView>, name: Seq<char>) -> bool {
    exists|i: int| 0 <= i < s.len() && s[i].name == name
}

/// The rule named `name`, the last one of that name.
pub open spec fn rule_named(s: Seq<RuleView>, name: Seq<char>) -> Option<RuleView>
    decreases s.len(),
{
    if s.len() == 0 {
        None
    } else if s.last().name == name {
        Some(s.last())
    } else {
        rule_named(s.drop_last(), name)
    }
}

/// The rules that an engine holds, by name: registering a rule replaces
/// one of the same name.
#[derive(Debug)]
pub struct RuleRegistry {
    rules: Vec<LogicRule>,
}

impl View for RuleRegistry {
    type V = Seq<RuleView>;

    closed spec fn view(&self) -> Seq<RuleView> {
        rule_views(self.rules@)
    }
}

fn remove_named(rules: &mut Vec<LogicRule>, name: &Vec<char>) -> (found: bool)
    ensures
        rule_views(final(rules)@) == rules_without(rule_views(old(rules)@), name@),
        found == has_rule(rule_views(old(rules)@), name@),
{
    let mut kept: Vec<LogicRule> = Vec::new();
    let mut found = false;
    let mut rest: Vec<LogicRule> = Vec::new();
    std::mem::swap(&mut rest, rules);
    let ghost all = rule_views(rest@);
    assert(all.len() == rest@.len());
    assert(rest@.len() == rest.len());
    let mut i: usize = 0;
    while rest.len() > 0
        invariant
            i + rest.len() == all.len(),
            all.len() <= usize::MAX,
            all == rule_views(old(rules)@),
            rule_views(rest@) == all.subrange(i as int, all.len() as int),
            rule_views(kept@) == rules_without(all.subrange(0, i as int), name@),
            found == has_rule(all.subrange(0, i as int), name@),
        decreases rest.len(),
    {
        let ghost r0 = rest@;
        assert(rule_views(r0)[0] == all[i as int]);
        let r = rest.remove(0);
        let ghost rv = r@;
        let ghost pre = all.subrange(0, i as int);
        let ghost post = all.subrange(0, i + 1);
        assert(post.drop_last() =~= pre);
        assert(post.last() == rv);
        if text_eq(&chars_of(r.name.as_str()), name) {
            found = true;
            assert(post[i as int].name == name@);
        } else {
            let ghost kv = rule_views(kept@);
            kept.push(r);
            assert(rule_views(kept@) =~= kv.push(rv));
            assert(has_rule(post, name@) == has_rule(pre, name@)) by {
                if has_rule(post, name@) {
                    let k = choose|k: int| 0 <= k < post.len() && post[k].name == name@;
                    assert(pre[k] == post[k]);
                }
            }
        }
        assert(rest@ == r0.remove(0));
        assert forall|k: int| 0 <= k < rest@.len() implies #[trigger] rule_views(rest@)[k] == all[i + 1
            + k] by {
            assert(rest@[k] == r0[k + 1]);
            assert(rule_views(r0)[k + 1] == all.subrange(i as int, all.len() as int)[k + 1]);
        }
        i += 1;
        assert(rule_views(rest@) =~= all.subrange(i as int, all.len() as int));
    }
    assert(all.subrange(0, all.len() as int) =~= all);
    *rules = kept;
    found
}

impl RuleRegistry {
    /// A registry with no rule.
    pub fn new() -> (r: Self)
        ensures
            r@.len() == 0,
    {
        let r = RuleRegistry { rules: Vec::new() };
        assert(r@ =~= Seq::<RuleView>::empty());
        r
    }

    /// The number of rules.
    pub fn len(&self) -> (n: usize)
        ensures
            n == self@.len(),
    {
        self.rules.len()
    }

    /// Register a named rule: its source is checked, its recursion
    /// detected, and it replaces any rule of the same name. Refused
    /// source leaves the registry as it was.
    pub fn register_rule(&mut self, name: &str, datalog_source: &str) -> (r: Result<()>)
        ensures
            r is Ok <==> datalog_ok(datalog_source@),
            r is Ok ==> final(self)@ == rules_without(old(self)@, name@).push(
                RuleView {
                    name: name@,
                    source: datalog_source@,
                    is_recursive: is_recursive_spec(name@, datalog_source@),
                },
            ),
            r is Err ==> final(self)@ == old(self)@,
            r is Err ==> (r matches Err(AnamError::Logic(m)) && m@ == datalog_error(datalog_source@)),
    {
        match validate_datalog(datalog_source) {
            Err(e) => {
                return Err(e);
            },
            Ok(()) => {},
        }
        let is_recursive = detect_recursive(name, datalog_source);
        let key = chars_of(name);
        remove_named(&mut self.rules, &key);
        let rule = LogicRule {
            name: string_of(&key),
            datalog_source: string_of(&chars_of(datalog_source)),
            is_recursive,
        };
        let ghost before = self@;
        self.rules.push(rule);
        assert(self@ =~= before.push(rule@));
        Ok(())
    }

    /// Remove the rule named `name`; an error when there is none.
    pub fn remove_rule(&mut self, name: &str) -> (r: Result<()>)
        ensures
            r is Ok <==> has_rule(old(self)@, name@),
            final(self)@ == rules_without(old(self)@, name@),
            r matches Err(AnamError::Logic(m)) ==> m@ == "rule '"@ + name@ + "' not found"@,
            r is Err ==> r matches Err(AnamError::Logic(_)),
    {
        let key = chars_of(name);
        if remove_named(&mut self.rules, &key) {
            Ok(())
        } else {
            let mut m = chars_of("rule '");
            push_str(&mut m, name);
            push_str(&mut m, "' not found");
            Err(AnamError::Logic(string_of(&m)))
        }
    }

    /// The names of all rules, in registration order.
    pub fn list_rules(&self) -> (r: Vec<String>)
        ensures
            string_views(r@) == self@.map_values(|x: RuleView| x.name),
    {
        let ghost target = self@.map_values(|x: RuleView| x.name);
        let mut r: Vec<String> = Vec::new();
        let mut i: usize = 0;
        while i < self.rules.len()
            invariant
                i <= self.rules.len(),
                target == self@.map_values(|x: RuleView| x.name),
                target.len() == self.rules@.len(),
                string_views(r@) == target.subrange(0, i as int),
            decreases self.rules.len() - i,
        {
            let s = string_of(&chars_of(self.rules[i].name.as_str()));
            assert(s@ == target[i as int]);
            let ghost rv = string_views(r@);
            r.push(s);
            assert(string_views(r@) =~= rv.push(s@));
            assert(target.subrange(0, i + 1) =~= target.subrange(0, i as int).push(target[i as int]));
            i += 1;
        }
        assert(target.subrange(0, self.rules.len() as int) =~= target);
        r
    }

    /// The source of the rule named `name`.
    pub fn get_rule_body(&self, name: &str) -> (r: Option<String>)
        ensures
            match rule_named(self@, name@) {
                Some(x) => r matches Some(s) && s@ == x.source,
                None => r is None,
            },
    {
        let key = chars_of(name);
        let mut i: usize = self.rules.len();
        assert(self@.subrange(0, i as int) =~= self@);
        while i > 0
            invariant
                i <= self.rules.len(),
                key@ == name@,
                rule_named(self@, name@) == rule_named(self@.subrange(0, i as int), name@),
            decreases i,
        {
            let ghost pre = self@.subrange(0, i as int);
            assert(pre.last() == self@[i - 1]);
            assert(pre.drop_last() =~= self@.subrange(0, i - 1));
            if text_eq(&chars_of(self.rules[i - 1].name.as_str()), &key) {
                return Some(string_of(&chars_of(self.rules[i - 1].datalog_source.as_str())));
            }
            i -= 1;
        }
        None
    }
}

// ── The engine ──────────────────────────────────────────────────────────

/// Registering rules `(name, source)` one after another, stopping at the
/// first refused source: the rules that result, and the refusal's message
/// if there was one. Rules registered before a refusal stay registered.
pub open spec fn register_all_spec(s: Seq<RuleView>, rules: Seq<(Seq<char>, Seq<char>)>) -> (Seq<RuleView>, Option<Seq<char>>)
    decreases rules.len(),
{
    if rules.len() == 0 {
        (s, None)
    } else {
        let (s1, e) = register_all_spec(s, rules.drop_last());
        if e is Some {
            (s1, e)
        } else {
            let (n, src) = rules.last();
            if datalog_ok(src) {
                (
                    rules_without(s1, n).push(
                        RuleView { name: n, source: src, is_recursive: is_recursive_spec(n, src) },
                    ),
                    None,
                )
            } else {
                (s1, Some(datalog_error(src)))
            }
        }
    }
}

/// The `(name, source)` of each bundled rule.
pub open spec fn pack_rule_sources(rules: Seq<PackRule>) -> Seq<(Seq<char>, Seq<char>)> {
    rules.map_values(|r: PackRule| (r.name@, r.datalog@))
}

/// The logic engine: its provenance mode, its Datalog rules and the fact
/// tables they are evaluated against.
#[derive(Debug)]
pub struct LogicEngine {
    provenance_mode: ProvenanceMode,
    rules: RuleRegistry,
    facts: FactStore,
}

impl LogicEngine {
    /// The registered rules.
    pub closed spec fn rule_list(&self) -> Seq<RuleView> {
        self.rules@
    }

    /// The stored facts, by relation, in the order added.
    pub closed spec fn fact_list(&self) -> Seq<(Seq<char>, BatchView)> {
        self.facts@
    }

    /// The provenance mode.
    pub closed spec fn mode(&self) -> ProvenanceMode {
        self.provenance_mode
    }

    /// An engine with the given provenance mode, no rules and no facts.
    pub fn new(provenance_mode: ProvenanceMode) -> (r: Result<Self>)
        ensures
            r matches Ok(e) && e.mode() == provenance_mode && e.rule_list().len() == 0
                && e.fact_list().len() == 0,
    {
        Ok(LogicEngine { provenance_mode, rules: RuleRegistry::new(), facts: FactStore::new() })
    }

    /// Register a named rule (see [`RuleRegistry::register_rule`]); the
    /// facts are untouched.
    pub fn register_rule(&mut self, name: &str, datalog_source: &str) -> (r: Result<()>)
        ensures
            r is Ok <==> datalog_ok(datalog_source@),
            r is Ok ==> final(self).rule_list() == rules_without(old(self).rule_list(), name@).push(
                RuleView {
                    name: name@,
                    source: datalog_source@,
                    is_recursive: is_recursive_spec(name@, datalog_source@),
                },
            ),
            r is Err ==> final(self).rule_list() == old(self).rule_list(),
            r is Err ==> (r matches Err(AnamError::Logic(m)) && m@ == datalog_error(datalog_source@)),
            final(self).fact_list() == old(self).fact_list(),
            final(self).mode() == old(self).mode(),
    {
        self.rules.register_rule(name, datalog_source)
    }

    /// Remove a rule by name (see [`RuleRegistry::remove_rule`]).
    pub fn remove_rule(&mut self, name: &str) -> (r: Result<()>)
        ensures
            r is Ok <==> has_rule(old(self).rule_list(), name@),
            final(self).rule_list() == rules_without(old(self).rule_list(), name@),
            r matches Err(AnamError::Logic(m)) ==> m@ == "rule '"@ + name@ + "' not found"@,
            r is Err ==> r matches Err(AnamError::Logic(_)),
            final(self).fact_list() == old(self).fact_list(),
            final(self).mode() == old(self).mode(),
    {
        self.rules.remove_rule(name)
    }

    /// The names of all rules, in registration order.
    pub fn list_rules(&self) -> (r: Vec<String>)
        ensures
            string_views(r@) == self.rule_list().map_values(|x: RuleView| x.name),
    {
        self.rules.list_rules()
    }

    /// The source of the rule named `name`.
    pub fn get_rule_body(&self, name: &str) -> (r: Option<String>)
        ensures
            match rule_named(self.rule_list(), name@) {
                Some(x) => r matches Some(s) && s@ == x.source,
                None => r is None,
            },
    {
        self.rules.get_rule_body(name)
    }

    /// Add batches of facts for a relation, after those already there.
    pub fn add_facts(&mut self, relation: &str, batches: Vec<FactBatch>) -> (r: Result<()>)
        ensures
            r is Ok,
            final(self).fact_list() == old(self).fact_list() + batch_views(batches@).map_values(
                |b: BatchView| (relation@, b),
            ),
            final(self).rule_list() == old(self).rule_list(),
            final(self).mode() == old(self).mode(),
    {
        self.facts.add_facts(relation, batches);
        Ok(())
    }

    /// Register the rules of a logic pack in order (see
    /// [`register_all_spec`]); the first refused source stops the loading
    /// with its error, the rules before it staying registered.
    pub fn load_pack_rules(&mut self, rules: &Vec<PackRule>) -> (r: Result<()>)
        ensures
            final(self).rule_list() == register_all_spec(old(self).rule_list(), pack_rule_sources(rules@)).0,
            r is Ok <==> register_all_spec(old(self).rule_list(), pack_rule_sources(rules@)).1 is None,
            r matches Err(e) ==> (e matches AnamError::Logic(m) && Some(m@) == register_all_spec(
                old(self).rule_list(),
                pack_rule_sources(rules@),
            ).1),
            final(self).fact_list() == old(self).fact_list(),
            final(self).mode() == old(self).mode(),
    {
        let ghost start = self.rule_list();
        let ghost all = pack_rule_sources(rules@);
        let mut i: usize = 0;
        assert(all.subrange(0, 0) =~= Seq::<(Seq<char>, Seq<char>)>::empty());
        while i < rules.len()
            invariant
                i <= rules.len(),
                all == pack_rule_sources(rules@),
                all.len() == rules@.len(),
                register_all_spec(start, all.subrange(0, i as int)).1 is None,
                self.rule_list() == register_all_spec(start, all.subrange(0, i as int)).0,
                self.fact_list() == old(self).fact_list(),
                self.mode() == old(self).mode(),
                start == old(self).rule_list(),
            decreases rules.len() - i,
        {
            let ghost post = all.subrange(0, i + 1);
            assert(post.drop_last() =~= all.subrange(0, i as int));
            assert(post.last() == (rules@[i as int].name@, rules@[i as int].datalog@));
            match self.register_rule(rules[i].name.as_str(), rules[i].datalog.as_str()) {
                Ok(()) => {},
                Err(e) => {
                    proof {
                        lemma_register_all_stops(start, all, i as int + 1);
                    }
                    assert(all.subrange(0, all.len() as int) =~= all);
                    return Err(e);
                },
            }
            i += 1;
        }
        assert(all.subrange(0, rules.len() as int) =~= all);
        Ok(())
    }

    /// Each rule's name with its source, in listing order, as an
    /// explanation shows them; a name without a readable source shows
    /// `<unknown>`.
    pub fn rule_sources(&self) -> (r: Vec<(String, String)>)
        ensures
            r@.len() == self.rule_list().len(),
            forall|k: int|
                0 <= k < r@.len() ==> (#[trigger] r@[k]).0@ == self.rule_list()[k].name && r@[k].1@
                    == match rule_named(self.rule_list(), self.rule_list()[k].name) {
                    Some(x) => x.source,
                    None => "<unknown>"@,
                },
    {
        let names = self.list_rules();
        let ghost ns = self.rule_list().map_values(|x: RuleView| x.name);
        assert(string_views(names@).len() == names@.len());
        let mut r: Vec<(String, String)> = Vec::new();
        let mut i: usize = 0;
        while i < names.len()
            invariant
                i <= names.len(),
                string_views(names@) == ns,
                ns == self.rule_list().map_values(|x: RuleView| x.name),
                ns.len() == names@.len(),
                r@.len() == i,
                forall|k: int|
                    0 <= k < i ==> (#[trigger] r@[k]).0@ == self.rule_list()[k].name && r@[k].1@
                        == match rule_named(self.rule_list(), self.rule_list()[k].name) {
                        Some(x) => x.source,
                        None => "<unknown>"@,
                    },
            decreases names.len() - i,
        {
            assert(ns[i as int] == names@[i as int]@);
            let body = match self.get_rule_body(names[i].as_str()) {
                Some(b) => b,
                None => string_of(&chars_of("<unknown>")),
            };
            let name = string_of(&chars_of(names[i].as_str()));
            r.push((name, body));
            i += 1;
        }
        r
    }

    /// An engine for the repair loop: the same mode and facts, no rules.
    pub fn clone_for_repair(&self) -> (r: Result<Self>)
        ensures
            r matches Ok(e) && e.mode() == self.mode() && e.rule_list().len() == 0
                && e.fact_list() == self.fact_list(),
    {
        Ok(
            LogicEngine {
                provenance_mode: self.provenance_mode,
                rules: RuleRegistry::new(),
                facts: self.facts.duplicate(),
            },
        )
    }

    /// Join a chain of relations on their shared columns (see
    /// [`joined_relations`]).
    pub fn join_relations(&self, relations: &[String]) -> (r: Result<Vec<FactBatch>>)
        ensures
            r matches Ok(v) && batch_views(v@) == joined_relations(
                self.fact_list(),
                relations@.map_values(|s: String| s@),
            ),
    {
        Ok(self.facts.join_relations(relations))
    }
}

proof fn lemma_register_all_stops(s: Seq<RuleView>, all: Seq<(Seq<char>, Seq<char>)>, k: int)
    requires
        1 <= k <= all.len(),
        register_all_spec(s, all.subrange(0, k)).1 is Some,
    ensures
        register_all_spec(s, all).0 == register_all_spec(s, all.subrange(0, k)).0,
        register_all_spec(s, all).1 == register_all_spec(s, all.subrange(0, k)).1,
    decreases all.len() - k,
{
    if k < all.len() {
        let p = all.subrange(0, k + 1);
        assert(p.drop_last() =~= all.subrange(0, k));
        lemma_register_all_stops(s, all, k + 1);
    } else {
        assert(all.subrange(0, k) =~= all);
    }
}

proof fn lemma_rules_without(s: Seq<RuleView>, name: Seq<char>, other: Seq<char>)
    ensures
        rule_named(rules_without(s, name), name) is None,
        other != name ==> rule_named(rules_without(s, name), other) == rule_named(s, other),
    decreases s.len(),
{
    if s.len() > 0 {
        lemma_rules_without(s.drop_last(), name, other);
        let w = rules_without(s.drop_last(), name);
        if s.last().name != name {
            let x = w.push(s.last());
            assert(x.drop_last() =~= w);
        }
    }
}

/// Reading a rule after registering it gives the registered source; other
/// rules read as before.
pub proof fn lemma_rule_read_after_register(s: Seq<RuleView>, x: RuleView, other: Seq<char>)
    ensures
        rule_named(rules_without(s, x.name).push(x), x.name) == Some(x),
        other != x.name ==> rule_named(rules_without(s, x.name).push(x), other) == rule_named(
            s,
            other,
        ),
{
    lemma_rules_without(s, x.name, other);
    let u = rules_without(s, x.name).push(x);
    assert(u.drop_last() =~= rules_without(s, x.name));
}

/// A removed rule is gone; other rules read as before.
pub proof fn lemma_rule_gone_after_remove(s: Seq<RuleView>, name: Seq<char>, other: Seq<char>)
    ensures
        rule_named(rules_without(s, name), name) is None,
        other != name ==> rule_named(rules_without(s, name), other) == rule_named(s, other),
{
    lemma_rules_without(s, name, other);
}

} // verus!
