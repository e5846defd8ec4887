//! Canonical Datalog normalization.
//!
//! Standardises Datalog rules into a canonical form so that semantically
//! equivalent rules always produce the same string:
//! 1. Variables are UPPERCASED (`x` → `X`).
//! 2. Relation names are lowercased (`Transactions` → `transactions`).
//! 3. Body atoms are sorted alphabetically.
//! 4. Conditions are sorted alphabetically by column name (stably).
//! 5. Surrounding white space is trimmed.

use vstd::prelude::*;

use crate::text::{
    chars_of, contains, contains_exec, is_float_literal, is_float_literal_exec, join, join_exec,
    pair_views, push_all, slice, sort_by_key, sort_pairs_by_key, split, split_exec, split_once,
    split_once_exec, starts_with, starts_with_exec, str_lowercase, str_uppercase, string_of,
    strip_trailing, strip_trailing_chars, to_lowercase, to_uppercase, trim, trim_chars, views,
    lex_le, lemma_sort_by_key, lemma_sorted_unique, self_keyed_pairs, sorted_by_key, keys_distinct,
    lemma_keys_distinct_transfer, lemma_sorted_unique_keys,
};

verus! {

// ── Specification ───────────────────────────────────────────────────────

/// The comparison operators, in the order in which they are tried.
pub open spec fn op_text(i: int) -> Seq<char> {
    if i == 0 {
        seq!['>', '=']
    } else if i == 1 {
        seq!['<', '=']
    } else if i == 2 {
        seq!['!', '=']
    } else if i == 3 {
        seq!['>']
    } else if i == 4 {
        seq!['<']
    } else {
        seq!['=']
    }
}

/// Split at the first operator, trying `>=`, `<=`, `!=`, `>`, `<`, `=` in
/// turn (from the `i`-th on): the operator's index, left and right text.
pub open spec fn first_op_split(s: Seq<char>, i: int) -> Option<(int, Seq<char>, Seq<char>)>
    decreases 6 - i,
{
    if i < 0 || i >= 6 {
        None
    } else {
        match split_once(s, op_text(i)) {
            Some((l, r)) => Some((i, l, r)),
            None => first_op_split(s, i + 1),
        }
    }
}

/// Normalize a term: literals stay, `var.col` becomes `VAR.col`, a bare
/// variable is uppercased.
pub open spec fn normalize_term_spec(t: Seq<char>) -> Seq<char> {
    let t = trim(t);
    if starts_with(t, seq!['\'']) || starts_with(t, seq!['"']) {
        t
    } else if is_float_literal(t) {
        t
    } else {
        match split_once(t, seq!['.']) {
            Some((var, col)) => str_uppercase(var) + seq!['.'] + str_lowercase(col),
            None => str_uppercase(t),
        }
    }
}

/// Normalize one condition: `lhs op rhs` with both sides normalized and
/// single spaces around the operator.
pub open spec fn normalize_single_condition_spec(c: Seq<char>) -> Seq<char> {
    match first_op_split(c, 0) {
        Some((i, l, r)) => normalize_term_spec(trim(l)) + seq![' '] + op_text(i) + seq![' ']
            + normalize_term_spec(trim(r)),
        None => c,
    }
}

/// The lowercased column name that conditions are sorted by.
pub open spec fn condition_column_spec(c: Seq<char>) -> Seq<char> {
    match first_op_split(c, 0) {
        Some((i, l, r)) => {
            let l = trim(l);
            match split_once(l, seq!['.']) {
                Some((v, col)) => str_lowercase(col),
                None => str_lowercase(l),
            }
        },
        None => str_lowercase(c),
    }
}

/// A body part is a condition: it holds a comparison operator, unless it
/// has `(` and none of `>`, `<`, `!=`.
pub open spec fn is_condition_spec(p: Seq<char>) -> bool {
    if contains(p, seq!['(']) && !contains(p, seq!['>']) && !contains(p, seq!['<']) && !contains(
        p,
        seq!['!', '='],
    ) {
        false
    } else {
        exists|i: int| 0 <= i < 6 && contains(p, #[trigger] op_text(i))
    }
}

/// The arguments of an atom, each normalized as a term.
pub open spec fn normalize_args(args: Seq<Seq<char>>) -> Seq<Seq<char>> {
    args.map_values(|a: Seq<char>| normalize_term_spec(trim(a)))
}

/// Normalize an atom (or a rule head): lowercase relation, normalized
/// arguments joined by `, `.
pub open spec fn normalize_atom_spec(a: Seq<char>) -> Seq<char> {
    let a = strip_trailing(trim(a), '.');
    match split_once(a, seq!['(']) {
        Some((rel, args)) => str_lowercase(trim(rel)) + seq!['('] + join(
            normalize_args(split(strip_trailing(args, ')'), seq![','])),
            seq![',', ' '],
        ) + seq![')'],
        None => str_lowercase(a),
    }
}

/// The comma-separated pieces of `s` at parenthesis depth zero, from
/// position `i` on, with `depth` open parentheses and `cur` read so far;
/// an empty last piece is dropped.
pub open spec fn top_level_pieces(
    s: Seq<char>,
    i: int,
    depth: int,
    cur: Seq<char>,
    parts: Seq<Seq<char>>,
) -> Seq<Seq<char>>
    decreases s.len() - i,
{
    if i < 0 || i >= s.len() {
        if cur.len() > 0 {
            parts.push(cur)
        } else {
            parts
        }
    } else if s[i] == '(' {
        top_level_pieces(s, i + 1, depth + 1, cur.push(s[i]), parts)
    } else if s[i] == ')' {
        top_level_pieces(s, i + 1, depth - 1, cur.push(s[i]), parts)
    } else if s[i] == ',' && depth == 0 {
        top_level_pieces(s, i + 1, depth, Seq::empty(), parts.push(cur))
    } else {
        top_level_pieces(s, i + 1, depth, cur.push(s[i]), parts)
    }
}

/// Split on commas outside parentheses.
pub open spec fn split_top_level_commas_spec(s: Seq<char>) -> Seq<Seq<char>> {
    top_level_pieces(s, 0, 0, Seq::empty(), Seq::empty())
}

/// The body atoms of the pieces, normalized, in order.
pub open spec fn body_atoms(parts: Seq<Seq<char>>) -> Seq<Seq<char>>
    decreases parts.len(),
{
    if parts.len() == 0 {
        Seq::empty()
    } else {
        let p = trim(parts.last());
        let rest = body_atoms(parts.drop_last());
        if p.len() == 0 || is_condition_spec(p) {
            rest
        } else {
            rest.push(normalize_atom_spec(p))
        }
    }
}

/// The body conditions of the pieces, normalized, in order.
pub open spec fn body_conditions(parts: Seq<Seq<char>>) -> Seq<Seq<char>>
    decreases parts.len(),
{
    if parts.len() == 0 {
        Seq::empty()
    } else {
        let p = trim(parts.last());
        let rest = body_conditions(parts.drop_last());
        if p.len() != 0 && is_condition_spec(p) {
            rest.push(normalize_single_condition_spec(p))
        } else {
            rest
        }
    }
}

/// Pair every item with itself as its sort key.
pub open spec fn self_keyed(s: Seq<Seq<char>>) -> Seq<(Seq<char>, Seq<char>)> {
    s.map_values(|a: Seq<char>| (a, a))
}

/// Pair every condition with its column as its sort key.
pub open spec fn column_keyed(s: Seq<Seq<char>>) -> Seq<(Seq<char>, Seq<char>)> {
    s.map_values(|c: Seq<char>| (condition_column_spec(c), c))
}

/// The items of `(key, item)` pairs.
pub open spec fn items(s: Seq<(Seq<char>, Seq<char>)>) -> Seq<Seq<char>> {
    s.map_values(|p: (Seq<char>, Seq<char>)| p.1)
}

/// The atoms of a body, sorted.
pub open spec fn sorted_atoms(body: Seq<char>) -> Seq<Seq<char>> {
    let parts = split_top_level_commas_spec(strip_trailing(trim(body), '.'));
    items(sort_by_key(self_keyed(body_atoms(parts))))
}

/// The conditions of a body, stably sorted by column.
pub open spec fn sorted_conditions(body: Seq<char>) -> Seq<Seq<char>> {
    let parts = split_top_level_commas_spec(strip_trailing(trim(body), '.'));
    items(sort_by_key(column_keyed(body_conditions(parts))))
}

/// Normalize a rule body: sorted atoms, then sorted conditions, joined by
/// `, ` and closed by `.`.
pub open spec fn normalize_body_spec(body: Seq<char>) -> Seq<char> {
    join(sorted_atoms(body) + sorted_conditions(body), seq![',', ' ']) + seq!['.']
}

/// The conditions of an `AND`-joined constraint expression, normalized.
pub open spec fn constraint_conditions(expr: Seq<char>) -> Seq<Seq<char>> {
    split(expr, seq![' ', 'A', 'N', 'D', ' ']).map_values(
        |p: Seq<char>| normalize_single_condition_spec(trim(p)),
    )
}

/// Normalize a constraint expression: its conditions stably sorted by
/// column and joined by ` AND `.
pub open spec fn normalize_conditions_spec(expr: Seq<char>) -> Seq<char> {
    join(
        items(sort_by_key(column_keyed(constraint_conditions(expr)))),
        seq![' ', 'A', 'N', 'D', ' '],
    )
}

/// The canonical form of a rule (`head :- body.`) or of a constraint
/// expression; empty for blank input.
pub open spec fn normalize_spec(source: Seq<char>) -> Seq<char> {
    let s = trim(source);
    if s.len() == 0 {
        Seq::empty()
    } else {
        match split_once(s, seq![':', '-']) {
            Some((head, body)) => normalize_atom_spec(trim(head)) + seq![' ', ':', '-', ' ']
                + normalize_body_spec(trim(body)),
            None => normalize_conditions_spec(s),
        }
    }
}

// ── Implementation ──────────────────────────────────────────────────────

pub fn op_vec(i: usize) -> (r: Vec<char>)
    requires
        i < 6,
    ensures
        r@ == op_text(i as int),
{
    let r = if i == 0 {
        vec!['>', '=']
    } else if i == 1 {
        vec!['<', '=']
    } else if i == 2 {
        vec!['!', '=']
    } else if i == 3 {
        vec!['>']
    } else if i == 4 {
        vec!['<']
    } else {
        vec!['=']
    };
    assert(r@ =~= op_text(i as int));
    r
}

/// Split at the first operator (see [`first_op_split`]).
pub fn split_first_op(s: &Vec<char>) -> (r: Option<(usize, Vec<char>, Vec<char>)>)
    ensures
        r matches Some((i, l, rr)) ==> first_op_split(s@, 0) == Some((i as int, l@, rr@)) && i
            < 6,
        r is None ==> first_op_split(s@, 0) is None,
{
    let mut i: usize = 0;
    while i < 6
        invariant
            i <= 6,
            first_op_split(s@, 0) == first_op_split(s@, i as int),
        decreases 6 - i,
    {
        let op = op_vec(i);
        match split_once_exec(s, &op) {
            Some((l, r)) => {
                return Some((i, l, r));
            },
            None => {},
        }
        i += 1;
    }
    None
}

/// Normalize a term: uppercase bare variables, leave qualified refs' columns
/// lowercased and literals untouched.
fn normalize_term(term: &Vec<char>) -> (r: Vec<char>)
    ensures
        r@ == normalize_term_spec(term@),
{
    let term = trim_chars(term);
    let q1: Vec<char> = vec!['\''];
    let q2: Vec<char> = vec!['"'];
    assert(q1@ =~= seq!['\'']);
    assert(q2@ =~= seq!['"']);
    if starts_with_exec(&term, &q1) || starts_with_exec(&term, &q2) {
        return term;
    }
    if is_float_literal_exec(&term) {
        return term;
    }
    let dot: Vec<char> = vec!['.'];
    assert(dot@ =~= seq!['.']);
    match split_once_exec(&term, &dot) {
        Some((var, col)) => {
            let mut r = to_uppercase(&var);
            r.push('.');
            let c = to_lowercase(&col);
            push_all(&mut r, &c);
            r
        },
        None => to_uppercase(&term),
    }
}

/// Normalize a single condition expression.
fn normalize_single_condition(cond: &Vec<char>) -> (r: Vec<char>)
    ensures
        r@ == normalize_single_condition_spec(cond@),
{
    match split_first_op(cond) {
        Some((i, lhs, rhs)) => {
            let l = normalize_term(&trim_chars(&lhs));
            let rr = normalize_term(&trim_chars(&rhs));
            let mut out = l;
            out.push(' ');
            push_all(&mut out, &op_vec(i));
            out.push(' ');
            push_all(&mut out, &rr);
            out
        },
        None => slice(cond, 0, cond.len()),
    }
}

/// Extract the column name (LHS) from a condition for sorting.
fn extract_condition_column(cond: &Vec<char>) -> (r: Vec<char>)
    ensures
        r@ == condition_column_spec(cond@),
{
    match split_first_op(cond) {
        Some((_i, lhs, _rhs)) => {
            let lhs = trim_chars(&lhs);
            let dot: Vec<char> = vec!['.'];
            assert(dot@ =~= seq!['.']);
            match split_once_exec(&lhs, &dot) {
                Some((_v, col)) => to_lowercase(&col),
                None => to_lowercase(&lhs),
            }
        },
        None => to_lowercase(cond),
    }
}

/// Check if a body part is a filter condition (contains comparison operators).
fn is_condition(part: &Vec<char>) -> (b: bool)
    ensures
        b == is_condition_spec(part@),
{
    let paren: Vec<char> = vec!['('];
    let gt: Vec<char> = vec!['>'];
    let lt: Vec<char> = vec!['<'];
    let ne: Vec<char> = vec!['!', '='];
    assert(paren@ =~= seq!['(']);
    assert(gt@ =~= seq!['>']);
    assert(lt@ =~= seq!['<']);
    assert(ne@ =~= seq!['!', '=']);
    if contains_exec(part, &paren) && !contains_exec(part, &gt) && !contains_exec(part, &lt)
        && !contains_exec(part, &ne) {
        return false;
    }
    let mut i: usize = 0;
    while i < 6
        invariant
            i <= 6,
            !(contains(part@, seq!['(']) && !contains(part@, seq!['>']) && !contains(
                part@,
                seq!['<'],
            ) && !contains(part@, seq!['!', '='])),
            forall|k: int| 0 <= k < i ==> !contains(part@, #[trigger] op_text(k)),
        decreases 6 - i,
    {
        if contains_exec(part, &op_vec(i)) {
            assert(contains(part@, op_text(i as int)));
            return true;
        }
        i += 1;
    }
    false
}

/// Normalize a single atom: lowercase relation, uppercase variables.
fn normalize_atom(atom: &Vec<char>) -> (r: Vec<char>)
    ensures
        r@ == normalize_atom_spec(atom@),
{
    let atom = strip_trailing_chars(&trim_chars(atom), '.');
    let open_paren: Vec<char> = vec!['('];
    assert(open_paren@ =~= seq!['(']);
    match split_once_exec(&atom, &open_paren) {
        Some((rel, args)) => {
            let mut out = to_lowercase(&trim_chars(&rel));
            out.push('(');
            let args = strip_trailing_chars(&args, ')');
            let comma: Vec<char> = vec![','];
            assert(comma@ =~= seq![',']);
            let pieces = split_exec(&args, &comma);
            let mut normalized: Vec<Vec<char>> = Vec::new();
            let mut k: usize = 0;
            while k < pieces.len()
                invariant
                    k <= pieces.len(),
                    views(normalized@) == normalize_args(views(pieces@)).subrange(0, k as int),
                decreases pieces.len() - k,
            {
                let t = normalize_term(&trim_chars(&pieces[k]));
                let ghost nv = views(normalized@);
                let ghost tv = t@;
                normalized.push(t);
                assert(views(normalized@) =~= nv.push(tv));
                assert(normalize_args(views(pieces@)).subrange(0, k + 1) =~= normalize_args(
                    views(pieces@),
                ).subrange(0, k as int).push(tv));
                k += 1;
            }
            assert(normalize_args(views(pieces@)).subrange(0, pieces.len() as int)
                =~= normalize_args(views(pieces@)));
            let sep: Vec<char> = vec![',', ' '];
            assert(sep@ =~= seq![',', ' ']);
            let joined = join_exec(&normalized, &sep);
            push_all(&mut out, &joined);
            out.push(')');
            out
        },
        None => to_lowercase(&atom),
    }
}

/// Normalize the head atom: lowercase relation, uppercase variables.
fn normalize_head(head: &Vec<char>) -> (r: Vec<char>)
    ensures
        r@ == normalize_atom_spec(head@),
{
    normalize_atom(head)
}

/// Split a body string on commas, but only at the top level (depth 0).
/// Commas inside parenthesized argument lists are not split on.
fn split_top_level_commas(s: &Vec<char>) -> (r: Vec<Vec<char>>)
    requires
        s.len() < 0x7fff_ffff_ffff_ffff,
    ensures
        views(r@) == split_top_level_commas_spec(s@),
{
    let mut parts: Vec<Vec<char>> = Vec::new();
    let mut current: Vec<char> = Vec::new();
    let mut depth: i64 = 0;
    let mut i: usize = 0;
    assert(views(parts@) =~= Seq::<Seq<char>>::empty());
    assert(current@ =~= Seq::<char>::empty());
    while i < s.len()
        invariant
            i <= s.len() < 0x7fff_ffff_ffff_ffff,
            -(i as int) <= depth <= i as int,
            split_top_level_commas_spec(s@) == top_level_pieces(
                s@,
                i as int,
                depth as int,
                current@,
                views(parts@),
            ),
        decreases s.len() - i,
    {
        let ch = s[i];
        if ch == '(' {
            depth += 1;
            current.push(ch);
        } else if ch == ')' {
            depth -= 1;
            current.push(ch);
        } else if ch == ',' && depth == 0 {
            let ghost pv = views(parts@);
            let ghost cv = current@;
            parts.push(current);
            current = Vec::new();
            assert(views(parts@) =~= pv.push(cv));
            assert(current@ =~= Seq::<char>::empty());
        } else {
            current.push(ch);
        }
        i += 1;
    }
    if current.len() > 0 {
        let ghost pv = views(parts@);
        let ghost cv = current@;
        parts.push(current);
        assert(views(parts@) =~= pv.push(cv));
    }
    parts
}

proof fn lemma_body_step(parts: Seq<Seq<char>>, k: int)
    requires
        0 <= k < parts.len(),
    ensures
        body_atoms(parts.subrange(0, k + 1)) == ({
            let p = trim(parts[k]);
            if p.len() == 0 || is_condition_spec(p) {
                body_atoms(parts.subrange(0, k))
            } else {
                body_atoms(parts.subrange(0, k)).push(normalize_atom_spec(p))
            }
        }),
        body_conditions(parts.subrange(0, k + 1)) == ({
            let p = trim(parts[k]);
            if p.len() != 0 && is_condition_spec(p) {
                body_conditions(parts.subrange(0, k)).push(normalize_single_condition_spec(p))
            } else {
                body_conditions(parts.subrange(0, k))
            }
        }),
{
    let s = parts.subrange(0, k + 1);
    assert(s.drop_last() =~= parts.subrange(0, k));
    assert(s.last() == parts[k]);
}

fn keyed_by_self(v: Vec<Vec<char>>) -> (r: Vec<(Vec<char>, Vec<char>)>)
    ensures
        pair_views(r@) == self_keyed(views(v@)),
{
    let mut r: Vec<(Vec<char>, Vec<char>)> = Vec::new();
    let mut i: usize = 0;
    while i < v.len()
        invariant
            i <= v.len(),
            pair_views(r@) == self_keyed(views(v@)).subrange(0, i as int),
        decreases v.len() - i,
    {
        let a = slice(&v[i], 0, v[i].len());
        let b = slice(&v[i], 0, v[i].len());
        assert(v[i as int]@.subrange(0, v[i as int]@.len() as int) =~= v[i as int]@);
        let ghost rv = pair_views(r@);
        let ghost pv = (a@, b@);
        r.push((a, b));
        assert(pair_views(r@) =~= rv.push(pv));
        assert(self_keyed(views(v@)).subrange(0, i + 1) =~= self_keyed(views(v@)).subrange(
            0,
            i as int,
        ).push(pv));
        i += 1;
    }
    assert(self_keyed(views(v@)).subrange(0, v.len() as int) =~= self_keyed(views(v@)));
    r
}

fn keyed_by_column(v: Vec<Vec<char>>) -> (r: Vec<(Vec<char>, Vec<char>)>)
    ensures
        pair_views(r@) == column_keyed(views(v@)),
{
    let mut r: Vec<(Vec<char>, Vec<char>)> = Vec::new();
    let mut i: usize = 0;
    while i < v.len()
        invariant
            i <= v.len(),
            pair_views(r@) == column_keyed(views(v@)).subrange(0, i as int),
        decreases v.len() - i,
    {
        let a = extract_condition_column(&v[i]);
        let b = slice(&v[i], 0, v[i].len());
        assert(v[i as int]@.subrange(0, v[i as int]@.len() as int) =~= v[i as int]@);
        let ghost rv = pair_views(r@);
        let ghost pv = (a@, b@);
        r.push((a, b));
        assert(pair_views(r@) =~= rv.push(pv));
        assert(column_keyed(views(v@)).subrange(0, i + 1) =~= column_keyed(views(v@)).subrange(
            0,
            i as int,
        ).push(pv));
        i += 1;
    }
    assert(column_keyed(views(v@)).subrange(0, v.len() as int) =~= column_keyed(views(v@)));
    r
}

fn items_of(v: Vec<(Vec<char>, Vec<char>)>, out: &mut Vec<Vec<char>>)
    ensures
        views(final(out)@) == views(old(out)@) + items(pair_views(v@)),
{
    let mut i: usize = 0;
    while i < v.len()
        invariant
            i <= v.len(),
            views(out@) == views(old(out)@) + items(pair_views(v@)).subrange(0, i as int),
        decreases v.len() - i,
    {
        let b = slice(&v[i].1, 0, v[i].1.len());
        assert(v[i as int].1@.subrange(0, v[i as int].1@.len() as int) =~= v[i as int].1@);
        let ghost ov = views(out@);
        let ghost bv = b@;
        out.push(b);
        assert(views(out@) =~= ov.push(bv));
        assert(items(pair_views(v@)).subrange(0, i + 1) =~= items(pair_views(v@)).subrange(
            0,
            i as int,
        ).push(bv));
        i += 1;
    }
    assert(items(pair_views(v@)).subrange(0, v.len() as int) =~= items(pair_views(v@)));
}

/// Normalize the body: separate atoms from conditions, sort each group,
/// then recombine.
fn normalize_body(body: &Vec<char>) -> (r: Vec<char>)
    requires
        body.len() < 0x7fff_ffff_ffff_ffff,
    ensures
        r@ == normalize_body_spec(body@),
{
    let body = strip_trailing_chars(&trim_chars(body), '.');
    let parts = split_top_level_commas(&body);
    let ghost pv = views(parts@);
    let mut atoms: Vec<Vec<char>> = Vec::new();
    let mut conditions: Vec<Vec<char>> = Vec::new();
    let mut k: usize = 0;
    while k < parts.len()
        invariant
            k <= parts.len(),
            pv == views(parts@),
            views(atoms@) == body_atoms(pv.subrange(0, k as int)),
            views(conditions@) == body_conditions(pv.subrange(0, k as int)),
        decreases parts.len() - k,
    {
        proof {
            lemma_body_step(pv, k as int);
            assert(pv[k as int] == parts[k as int]@);
        }
        let trimmed = trim_chars(&parts[k]);
        if trimmed.len() == 0 {
        } else if is_condition(&trimmed) {
            let c = normalize_single_condition(&trimmed);
            let ghost cv = views(conditions@);
            let ghost x = c@;
            conditions.push(c);
            assert(views(conditions@) =~= cv.push(x));
        } else {
            let a = normalize_atom(&trimmed);
            let ghost av = views(atoms@);
            let ghost x = a@;
            atoms.push(a);
            assert(views(atoms@) =~= av.push(x));
        }
        k += 1;
    }
    assert(pv.subrange(0, parts.len() as int) =~= pv);
    let sorted_atoms_pairs = sort_pairs_by_key(keyed_by_self(atoms));
    let sorted_cond_pairs = sort_pairs_by_key(keyed_by_column(conditions));
    let mut all: Vec<Vec<char>> = Vec::new();
    items_of(sorted_atoms_pairs, &mut all);
    items_of(sorted_cond_pairs, &mut all);
    assert(views(Seq::<Vec<char>>::empty()) =~= Seq::<Seq<char>>::empty());
    let sep: Vec<char> = vec![',', ' '];
    assert(sep@ =~= seq![',', ' ']);
    let mut out = join_exec(&all, &sep);
    out.push('.');
    out
}

/// Normalize a plain constraint expression (no head/body — just conditions
/// joined by `AND`).
fn normalize_conditions(expr: &Vec<char>) -> (r: Vec<char>)
    ensures
        r@ == normalize_conditions_spec(expr@),
{
    let and: Vec<char> = vec![' ', 'A', 'N', 'D', ' '];
    assert(and@ =~= seq![' ', 'A', 'N', 'D', ' ']);
    let parts = split_exec(expr, &and);
    let ghost target = constraint_conditions(expr@);
    let mut normalized: Vec<Vec<char>> = Vec::new();
    let mut k: usize = 0;
    while k < parts.len()
        invariant
            k <= parts.len(),
            views(parts@) == split(expr@, seq![' ', 'A', 'N', 'D', ' ']),
            target == constraint_conditions(expr@),
            views(normalized@) == target.subrange(0, k as int),
        decreases parts.len() - k,
    {
        let c = normalize_single_condition(&trim_chars(&parts[k]));
        let ghost nv = views(normalized@);
        let ghost x = c@;
        normalized.push(c);
        assert(views(normalized@) =~= nv.push(x));
        assert(target.subrange(0, k + 1) =~= target.subrange(0, k as int).push(x));
        k += 1;
    }
    assert(target.subrange(0, parts.len() as int) =~= target);
    let sorted = sort_pairs_by_key(keyed_by_column(normalized));
    let mut all: Vec<Vec<char>> = Vec::new();
    items_of(sorted, &mut all);
    assert(views(Seq::<Vec<char>>::empty()) + items(
        sort_by_key(column_keyed(target)),
    ) =~= items(sort_by_key(column_keyed(target))));
    join_exec(&all, &and)
}

/// Normalize a Datalog rule (or plain constraint expression) into
/// canonical form.
pub fn normalize(source: &str) -> (r: String)
    requires
        source@.len() < 0x7fff_ffff_ffff_ffff,
    ensures
        r@ == normalize_spec(source@),
{
    let src = chars_of(source);
    let s = trim_chars(&src);
    if s.len() == 0 {
        return string_of(&Vec::new());
    }
    let arrow: Vec<char> = vec![':', '-'];
    assert(arrow@ =~= seq![':', '-']);
    let out = match split_once_exec(&s, &arrow) {
        Some((head, body)) => {
            let mut h = normalize_head(&trim_chars(&head));
            let sep: Vec<char> = vec![' ', ':', '-', ' '];
            assert(sep@ =~= seq![' ', ':', '-', ' ']);
            push_all(&mut h, &sep);
            let b = normalize_body(&trim_chars(&body));
            push_all(&mut h, &b);
            h
        },
        None => normalize_conditions(&s),
    };
    string_of(&out)
}

// ── Laws of the canonical form ──────────────────────────────────────────

proof fn lemma_self_keyed_multiset(a1: Seq<Seq<char>>, a2: Seq<Seq<char>>)
    requires
        a1.to_multiset() == a2.to_multiset(),
    ensures
        self_keyed(a1).to_multiset() == self_keyed(a2).to_multiset(),
    decreases a1.len(),
{
    broadcast use vstd::seq_lib::group_to_multiset_ensures;

    assert(a1.len() == a1.to_multiset().len());
    assert(a2.len() == a2.to_multiset().len());
    if a1.len() == 0 {
        assert(a2.len() == 0);
        assert(self_keyed(a1) =~= self_keyed(a2));
    } else {
        let x = a1.last();
        assert(a1.contains(x));
        assert(a2.to_multiset().count(x) > 0);
        assert(a2.contains(x));
        let k = choose|k: int| 0 <= k < a2.len() && a2[k] == x;
        let a1p = a1.drop_last();
        let a2p = a2.remove(k);
        assert(a1 =~= a1p.push(x));
        assert(a1p.to_multiset() =~= a1.to_multiset().remove(x));
        assert(a2p.to_multiset() =~= a2.to_multiset().remove(x));
        lemma_self_keyed_multiset(a1p, a2p);
        assert(self_keyed(a1) =~= self_keyed(a1p).push((x, x)));
        assert(self_keyed(a2p) =~= self_keyed(a2).remove(k));
        assert(self_keyed(a2)[k] == (x, x));
        assert(self_keyed(a2p).to_multiset() =~= self_keyed(a2).to_multiset().remove((x, x)));
        assert(self_keyed(a2).contains((x, x)));
        assert(self_keyed(a2).to_multiset().count((x, x)) > 0);
        assert(self_keyed(a2).to_multiset() =~= self_keyed(a2).to_multiset().remove((x, x)).insert(
            (x, x),
        ));
    }
}

proof fn lemma_sorted_self_keyed(a: Seq<Seq<char>>)
    ensures
        self_keyed_pairs(sort_by_key(self_keyed(a))),
        sorted_by_key(sort_by_key(self_keyed(a))),
        sort_by_key(self_keyed(a)).to_multiset() == self_keyed(a).to_multiset(),
{
    broadcast use vstd::seq_lib::group_to_multiset_ensures;

    lemma_sort_by_key(self_keyed(a));
    let r = sort_by_key(self_keyed(a));
    assert forall|i: int| 0 <= i < r.len() implies (#[trigger] r[i]).0 == r[i].1 by {
        assert(r.contains(r[i]));
        assert(self_keyed(a).to_multiset().count(r[i]) > 0);
        assert(self_keyed(a).contains(r[i]));
    }
}

/// The atoms of a canonical body come out in alphabetical order, and they
/// are exactly the body's normalized atoms: a permutation of them.
pub proof fn lemma_canonical_atoms_sorted(body: Seq<char>)
    ensures
        forall|i: int, j: int|
            0 <= i < j < sorted_atoms(body).len() ==> lex_le(
                #[trigger] sorted_atoms(body)[i],
                #[trigger] sorted_atoms(body)[j],
            ),
        sorted_atoms(body).to_multiset() == body_atoms(
            split_top_level_commas_spec(strip_trailing(trim(body), '.')),
        ).to_multiset(),
{
    let a = body_atoms(split_top_level_commas_spec(strip_trailing(trim(body), '.')));
    lemma_sorted_self_keyed(a);
    let r = sort_by_key(self_keyed(a));
    assert forall|i: int, j: int| 0 <= i < j < items(r).len() implies lex_le(
        #[trigger] items(r)[i],
        #[trigger] items(r)[j],
    ) by {
        assert(lex_le(r[i].0, r[j].0));
    }
    lemma_items_multiset(r, self_keyed(a));
    assert(items(self_keyed(a)) =~= a);
}

proof fn lemma_items_multiset(r1: Seq<(Seq<char>, Seq<char>)>, r2: Seq<(Seq<char>, Seq<char>)>)
    requires
        r1.to_multiset() == r2.to_multiset(),
    ensures
        items(r1).to_multiset() == items(r2).to_multiset(),
    decreases r1.len(),
{
    broadcast use vstd::seq_lib::group_to_multiset_ensures;

    assert(r1.len() == r1.to_multiset().len());
    assert(r2.len() == r2.to_multiset().len());
    if r1.len() == 0 {
        assert(items(r1) =~= items(r2));
    } else {
        let x = r1.last();
        assert(r1.contains(x));
        assert(r2.to_multiset().count(x) > 0);
        assert(r2.contains(x));
        let k = choose|k: int| 0 <= k < r2.len() && r2[k] == x;
        let r1p = r1.drop_last();
        let r2p = r2.remove(k);
        assert(r1 =~= r1p.push(x));
        assert(r1p.to_multiset() =~= r1.to_multiset().remove(x));
        assert(r2p.to_multiset() =~= r2.to_multiset().remove(x));
        lemma_items_multiset(r1p, r2p);
        assert(items(r1) =~= items(r1p).push(x.1));
        assert(items(r2p) =~= items(r2).remove(k));
        assert(items(r2)[k] == x.1);
        assert(items(r2p).to_multiset() =~= items(r2).to_multiset().remove(x.1));
        assert(items(r2).contains(x.1));
        assert(items(r2).to_multiset().count(x.1) > 0);
        assert(items(r2).to_multiset() =~= items(r2).to_multiset().remove(x.1).insert(x.1));
    }
}

/// The order in which a rule lists its atoms does not matter: bodies with
/// the same normalized atoms (in any order) and the same normalized
/// conditions have the same canonical form.
pub proof fn lemma_atom_order_irrelevant(b1: Seq<char>, b2: Seq<char>)
    requires
        body_atoms(split_top_level_commas_spec(strip_trailing(trim(b1), '.'))).to_multiset()
            == body_atoms(split_top_level_commas_spec(strip_trailing(trim(b2), '.'))).to_multiset(),
        body_conditions(split_top_level_commas_spec(strip_trailing(trim(b1), '.')))
            == body_conditions(split_top_level_commas_spec(strip_trailing(trim(b2), '.'))),
    ensures
        normalize_body_spec(b1) == normalize_body_spec(b2),
{
    let a1 = body_atoms(split_top_level_commas_spec(strip_trailing(trim(b1), '.')));
    let a2 = body_atoms(split_top_level_commas_spec(strip_trailing(trim(b2), '.')));
    lemma_self_keyed_multiset(a1, a2);
    lemma_sorted_self_keyed(a1);
    lemma_sorted_self_keyed(a2);
    lemma_sorted_unique(sort_by_key(self_keyed(a1)), sort_by_key(self_keyed(a2)));
}

proof fn lemma_column_keyed_multiset(a1: Seq<Seq<char>>, a2: Seq<Seq<char>>)
    requires
        a1.to_multiset() == a2.to_multiset(),
    ensures
        column_keyed(a1).to_multiset() == column_keyed(a2).to_multiset(),
    decreases a1.len(),
{
    broadcast use vstd::seq_lib::group_to_multiset_ensures;

    assert(a1.len() == a1.to_multiset().len());
    assert(a2.len() == a2.to_multiset().len());
    if a1.len() == 0 {
        assert(a2.len() == 0);
        assert(column_keyed(a1) =~= column_keyed(a2));
    } else {
        let x = a1.last();
        let kx = (condition_column_spec(x), x);
        assert(a1.contains(x));
        assert(a2.to_multiset().count(x) > 0);
        assert(a2.contains(x));
        let k = choose|k: int| 0 <= k < a2.len() && a2[k] == x;
        let a1p = a1.drop_last();
        let a2p = a2.remove(k);
        assert(a1 =~= a1p.push(x));
        assert(a1p.to_multiset() =~= a1.to_multiset().remove(x));
        assert(a2p.to_multiset() =~= a2.to_multiset().remove(x));
        lemma_column_keyed_multiset(a1p, a2p);
        assert(column_keyed(a1) =~= column_keyed(a1p).push(kx));
        assert(column_keyed(a2p) =~= column_keyed(a2).remove(k));
        assert(column_keyed(a2)[k] == kx);
        assert(column_keyed(a2p).to_multiset() =~= column_keyed(a2).to_multiset().remove(kx));
        assert(column_keyed(a2).contains(kx));
        assert(column_keyed(a2).to_multiset().count(kx) > 0);
        assert(column_keyed(a2).to_multiset() =~= column_keyed(a2).to_multiset().remove(kx).insert(kx));
    }
}

/// The conditions name distinct columns.
pub open spec fn columns_distinct(c: Seq<Seq<char>>) -> bool {
    forall|i: int, j: int|
        0 <= i < j < c.len() ==> condition_column_spec(#[trigger] c[i]) != condition_column_spec(
            #[trigger] c[j],
        )
}

proof fn lemma_sorted_by_column_equal(c1: Seq<Seq<char>>, c2: Seq<Seq<char>>)
    requires
        c1.to_multiset() == c2.to_multiset(),
        columns_distinct(c1),
    ensures
        items(sort_by_key(column_keyed(c1))) == items(sort_by_key(column_keyed(c2))),
{
    lemma_column_keyed_multiset(c1, c2);
    let k1 = column_keyed(c1);
    let k2 = column_keyed(c2);
    assert(keys_distinct(k1)) by {
        assert forall|i: int, j: int| 0 <= i < j < k1.len() implies (#[trigger] k1[i]).0 != (
        #[trigger] k1[j]).0 by {
            assert(k1[i].0 == condition_column_spec(c1[i]));
            assert(k1[j].0 == condition_column_spec(c1[j]));
        }
    }
    lemma_sort_by_key(k1);
    lemma_sort_by_key(k2);
    lemma_keys_distinct_transfer(k1, sort_by_key(k1));
    lemma_sorted_unique_keys(sort_by_key(k1), sort_by_key(k2));
}

/// The order in which a rule lists its conditions does not matter when
/// they name distinct columns: bodies with the same normalized atoms and
/// the same normalized conditions, each in any order, have the same
/// canonical form.
pub proof fn lemma_condition_order_irrelevant(b1: Seq<char>, b2: Seq<char>)
    requires
        body_atoms(split_top_level_commas_spec(strip_trailing(trim(b1), '.'))).to_multiset()
            == body_atoms(split_top_level_commas_spec(strip_trailing(trim(b2), '.'))).to_multiset(),
        body_conditions(split_top_level_commas_spec(strip_trailing(trim(b1), '.'))).to_multiset()
            == body_conditions(split_top_level_commas_spec(strip_trailing(trim(b2), '.'))).to_multiset(),
        columns_distinct(body_conditions(split_top_level_commas_spec(strip_trailing(trim(b1), '.')))),
    ensures
        normalize_body_spec(b1) == normalize_body_spec(b2),
{
    let a1 = body_atoms(split_top_level_commas_spec(strip_trailing(trim(b1), '.')));
    let a2 = body_atoms(split_top_level_commas_spec(strip_trailing(trim(b2), '.')));
    lemma_self_keyed_multiset(a1, a2);
    lemma_sorted_self_keyed(a1);
    lemma_sorted_self_keyed(a2);
    lemma_sorted_unique(sort_by_key(self_keyed(a1)), sort_by_key(self_keyed(a2)));
    lemma_sorted_by_column_equal(
        body_conditions(split_top_level_commas_spec(strip_trailing(trim(b1), '.'))),
        body_conditions(split_top_level_commas_spec(strip_trailing(trim(b2), '.'))),
    );
}

/// The order of the conditions of a constraint expression does not matter
/// when they name distinct columns.
pub proof fn lemma_constraint_order_irrelevant(e1: Seq<char>, e2: Seq<char>)
    requires
        constraint_conditions(e1).to_multiset() == constraint_conditions(e2).to_multiset(),
        columns_distinct(constraint_conditions(e1)),
    ensures
        normalize_conditions_spec(e1) == normalize_conditions_spec(e2),
{
    lemma_sorted_by_column_equal(constraint_conditions(e1), constraint_conditions(e2));
}

/// The conditions of a canonical body come out ordered by their column.
pub proof fn lemma_canonical_conditions_by_column(body: Seq<char>)
    ensures
        forall|i: int, j: int|
            0 <= i < j < sorted_conditions(body).len() ==> lex_le(
                condition_column_spec(#[trigger] sorted_conditions(body)[i]),
                condition_column_spec(#[trigger] sorted_conditions(body)[j]),
            ),
{
    broadcast use vstd::seq_lib::group_to_multiset_ensures;

    let c = body_conditions(split_top_level_commas_spec(strip_trailing(trim(body), '.')));
    lemma_sort_by_key(column_keyed(c));
    let r = sort_by_key(column_keyed(c));
    assert forall|i: int| 0 <= i < r.len() implies (#[trigger] r[i]).0 == condition_column_spec(
        r[i].1,
    ) by {
        assert(r.contains(r[i]));
        assert(column_keyed(c).to_multiset().count(r[i]) > 0);
        assert(column_keyed(c).contains(r[i]));
    }
    assert forall|i: int, j: int| 0 <= i < j < items(r).len() implies lex_le(
        condition_column_spec(#[trigger] items(r)[i]),
        condition_column_spec(#[trigger] items(r)[j]),
    ) by {
        assert(lex_le(r[i].0, r[j].0));
    }
}

} // verus!
