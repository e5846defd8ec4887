//! Hamming-distance-1 repair candidates for Datalog rules.
//!
//! When a rule evaluates to zero results, repair candidates are generated
//! that each differ from the rule by exactly one operator swap, threshold
//! scale or removed condition; the first that produces results is taken.
//!
//! Threshold scaling divides and multiplies a numeric threshold by ten in
//! floating point: the caller supplies those numbers, already displayed,
//! for the thresholds that [`threshold_sites`] finds.

use vstd::prelude::*;

use crate::logic::canonical::{op_text, op_vec};
use crate::logic::datalog_checker::trim_all;
use crate::text::{
    chars_of, contains, contains_exec, decimal, decimal_chars, is_float_literal, is_float_literal_exec, join, join_exec,
    push_all, push_str, slice, split, split_exec, split_once, split_once_exec, string_of,
    strip_trailing, strip_trailing_chars, trim, trim_chars, views,
};

verus! {

/// What kind of mutation was applied.
#[derive(Debug, Clone, Copy, PartialEq, Eq, Structural)]
pub enum MutationType {
    /// Swapped a comparison operator (e.g. `>` to `>=`).
    OperatorSwap,
    /// Scaled a numeric threshold (e.g. `10000` to `1000`).
    ThresholdScale,
    /// Removed one condition.
    ConditionRelax,
}

/// A repair candidate: the modified rule and what was changed.
#[derive(Debug, Clone)]
pub struct RepairCandidate {
    /// The modified Datalog source.
    pub modified_source: String,
    /// Human-readable description of what was changed.
    pub change_description: String,
    /// The type of mutation applied.
    pub mutation: MutationType,
}

/// The value of a [`RepairCandidate`].
pub struct CandidateView {
    pub modified_source: Seq<char>,
    pub change_description: Seq<char>,
    pub mutation: MutationType,
}

impl View for RepairCandidate {
    type V = CandidateView;

    open spec fn view(&self) -> CandidateView {
        CandidateView {
            modified_source: self.modified_source@,
            change_description: self.change_description@,
            mutation: self.mutation,
        }
    }
}

/// The views of a sequence of candidates.
pub open spec fn candidate_views(v: Seq<RepairCandidate>) -> Seq<CandidateView> {
    v.map_values(|c: RepairCandidate| c@)
}

/// A numeric threshold of a condition: the trimmed left side, the operator
/// and the number's text.
#[derive(Debug, Clone)]
pub struct ThresholdSite {
    pub lhs: String,
    pub op: String,
    pub rhs: String,
}

/// A threshold and its two scalings, each as displayed: the value, the
/// value divided by ten and the value multiplied by ten.
#[derive(Debug, Clone)]
pub struct ScaledThreshold {
    pub value: String,
    pub scaled_down: String,
    pub scaled_up: String,
}

/// The value of a [`ScaledThreshold`].
pub struct ScaledView {
    pub value: Seq<char>,
    pub scaled_down: Seq<char>,
    pub scaled_up: Seq<char>,
}

impl View for ScaledThreshold {
    type V = ScaledView;

    open spec fn view(&self) -> ScaledView {
        ScaledView {
            value: self.value@,
            scaled_down: self.scaled_down@,
            scaled_up: self.scaled_up@,
        }
    }
}

// ── Specification ───────────────────────────────────────────────────────

/// A body part is a condition: it holds a comparison operator, unless it
/// has `(` and none.
pub open spec fn repair_is_condition(p: Seq<char>) -> bool {
    let any = exists|i: int| 0 <= i < 6 && contains(p, #[trigger] op_text(i));
    if contains(p, seq!['(']) && !any {
        false
    } else {
        any
    }
}

/// The `k`-th operator swap: from, to and its description.
pub open spec fn swap_from(k: int) -> Seq<char> {
    if k == 0 {
        seq!['>']
    } else if k == 1 {
        seq!['<']
    } else if k == 2 {
        seq!['>', '=']
    } else if k == 3 {
        seq!['<', '=']
    } else if k == 4 {
        seq!['=']
    } else {
        seq!['!', '=']
    }
}

/// What the `k`-th swap puts in place of [`swap_from`].
pub open spec fn swap_to(k: int) -> Seq<char> {
    if k == 0 {
        seq!['>', '=']
    } else if k == 1 {
        seq!['<', '=']
    } else if k == 2 {
        seq!['>']
    } else if k == 3 {
        seq!['<']
    } else if k == 4 {
        seq!['!', '=']
    } else {
        seq!['=']
    }
}

/// The description of the `k`-th swap.
pub open spec fn swap_desc(k: int) -> Seq<char> {
    if k == 0 {
        "relaxed > to >="@
    } else if k == 1 {
        "relaxed < to <="@
    } else if k == 2 {
        "tightened >= to >"@
    } else if k == 3 {
        "tightened <= to <"@
    } else if k == 4 {
        "inverted = to !="@
    } else {
        "inverted != to ="@
    }
}

/// `p` holds the operator of the `k`-th swap exactly, not as part of a
/// longer operator.
pub open spec fn contains_exact(p: Seq<char>, k: int) -> bool {
    if k == 0 {
        contains(p, seq!['>']) && !contains(p, seq!['>', '='])
    } else if k == 1 {
        contains(p, seq!['<']) && !contains(p, seq!['<', '='])
    } else if k == 4 {
        contains(p, seq!['=']) && !contains(p, seq!['>', '=']) && !contains(p, seq!['<', '='])
            && !contains(p, seq!['!', '='])
    } else {
        contains(p, swap_from(k))
    }
}

/// Every `c` that is not followed by `=` replaced by `to`.
pub open spec fn replace_single(s: Seq<char>, c: char, to: Seq<char>) -> Seq<char>
    decreases s.len(),
{
    if s.len() == 0 {
        Seq::empty()
    } else {
        let piece = if s[0] == c && (s.len() == 1 || s[1] != '=') {
            to
        } else {
            seq![s[0]]
        };
        piece + replace_single(s.drop_first(), c, to)
    }
}

/// The first occurrence of `from` replaced by `to` (`str::replacen(.., 1)`).
pub open spec fn replace_first(s: Seq<char>, from: Seq<char>, to: Seq<char>) -> Seq<char> {
    match split_once(s, from) {
        Some((a, b)) => a + to + b,
        None => s,
    }
}

/// The condition after the `k`-th swap.
pub open spec fn swapped(p: Seq<char>, k: int) -> Seq<char> {
    if k == 0 {
        replace_single(p, '>', swap_to(0))
    } else if k == 1 {
        replace_single(p, '<', swap_to(1))
    } else {
        replace_first(p, swap_from(k), swap_to(k))
    }
}

/// The rule with part `idx` of its body replaced by `new_part`.
pub open spec fn rebuilt(head: Seq<char>, parts: Seq<Seq<char>>, idx: int, new_part: Seq<char>) -> Seq<
    char,
> {
    head + " :- "@ + join(parts.update(idx, new_part), ", "@) + "."@
}

/// The candidate of the `k`-th swap of part `idx`.
pub open spec fn swap_candidate(head: Seq<char>, parts: Seq<Seq<char>>, idx: int, k: int) -> CandidateView {
    CandidateView {
        modified_source: rebuilt(head, parts, idx, swapped(parts[idx], k)),
        change_description: "Condition '"@ + parts[idx] + "': "@ + swap_desc(k),
        mutation: MutationType::OperatorSwap,
    }
}

/// The swaps of part `idx`, among the first `n` swap kinds.
pub open spec fn swaps_upto(head: Seq<char>, parts: Seq<Seq<char>>, idx: int, n: int) -> Seq<
    CandidateView,
>
    decreases n,
{
    if n <= 0 {
        Seq::empty()
    } else {
        let p = parts[idx];
        let applies = contains_exact(p, n - 1) && !(n - 1 == 0 && contains(p, seq!['>', '=']))
            && !(n - 1 == 1 && contains(p, seq!['<', '=']));
        if applies {
            swaps_upto(head, parts, idx, n - 1).push(swap_candidate(head, parts, idx, n - 1))
        } else {
            swaps_upto(head, parts, idx, n - 1)
        }
    }
}

/// The numeric threshold of a condition: the first operator (from the
/// `i`-th on) whose right side, trimmed and without trailing dots, is a
/// number.
pub open spec fn site_from(t: Seq<char>, i: int) -> Option<(Seq<char>, Seq<char>, Seq<char>)>
    decreases 6 - i,
{
    if i < 0 || i >= 6 {
        None
    } else {
        match split_once(t, op_text(i)) {
            Some((l, r)) => {
                let rhs = strip_trailing(trim(r), '.');
                if is_float_literal(rhs) {
                    Some((trim(l), op_text(i), rhs))
                } else {
                    site_from(t, i + 1)
                }
            },
            None => site_from(t, i + 1),
        }
    }
}

/// The two threshold candidates of part `idx`, when it has a threshold
/// and its scaling is supplied.
pub open spec fn threshold_candidates(
    head: Seq<char>,
    parts: Seq<Seq<char>>,
    idx: int,
    scaled: Seq<Option<ScaledView>>,
) -> Seq<CandidateView> {
    match site_from(parts[idx], 0) {
        Some((lhs, op, _)) => if idx < scaled.len() && scaled[idx] is Some {
            let v = scaled[idx]->0;
            seq![
                CandidateView {
                    modified_source: rebuilt(head, parts, idx, lhs + " "@ + op + " "@ + v.scaled_down),
                    change_description: "Scaled threshold: "@ + v.value + " → "@ + v.scaled_down
                        + " (÷10)"@,
                    mutation: MutationType::ThresholdScale,
                },
                CandidateView {
                    modified_source: rebuilt(head, parts, idx, lhs + " "@ + op + " "@ + v.scaled_up),
                    change_description: "Scaled threshold: "@ + v.value + " → "@ + v.scaled_up
                        + " (×10)"@,
                    mutation: MutationType::ThresholdScale,
                },
            ]
        } else {
            Seq::empty()
        },
        None => Seq::empty(),
    }
}

/// The swap and threshold candidates of the first `n` parts, in order.
pub open spec fn part_candidates(
    head: Seq<char>,
    parts: Seq<Seq<char>>,
    scaled: Seq<Option<ScaledView>>,
    n: int,
) -> Seq<CandidateView>
    decreases n,
{
    if n <= 0 {
        Seq::empty()
    } else {
        part_candidates(head, parts, scaled, n - 1) + swaps_upto(head, parts, n - 1, 6)
            + threshold_candidates(head, parts, n - 1, scaled)
    }
}

/// The number of conditions among the parts.
pub open spec fn condition_count(parts: Seq<Seq<char>>) -> nat
    decreases parts.len(),
{
    if parts.len() == 0 {
        0
    } else if repair_is_condition(parts.last()) {
        condition_count(parts.drop_last()) + 1
    } else {
        condition_count(parts.drop_last())
    }
}

/// The candidates that remove one condition each, among the first `n`
/// parts.
pub open spec fn relax_candidates(head: Seq<char>, parts: Seq<Seq<char>>, n: int) -> Seq<
    CandidateView,
>
    decreases n,
{
    if n <= 0 {
        Seq::empty()
    } else if repair_is_condition(parts[n - 1]) {
        relax_candidates(head, parts, n - 1).push(
            CandidateView {
                modified_source: head + " :- "@ + join(parts.remove(n - 1), ", "@) + "."@,
                change_description: "Removed condition '"@ + parts[n - 1] + "'"@,
                mutation: MutationType::ConditionRelax,
            },
        )
    } else {
        relax_candidates(head, parts, n - 1)
    }
}

/// The trimmed body parts of a rule body.
pub open spec fn repair_parts(body: Seq<char>) -> Seq<Seq<char>> {
    split(strip_trailing(trim(body), '.'), seq![',']).map_values(|p: Seq<char>| trim(p))
}

/// All candidates for `source`, given the scalings of its parts'
/// thresholds: per part its operator swaps then its threshold scalings,
/// then (with more than one condition) the removal of each condition.
pub open spec fn candidates_spec(source: Seq<char>, scaled: Seq<Option<ScaledView>>) -> Seq<
    CandidateView,
> {
    match split_once(trim(source), seq![':', '-']) {
        Some((head, body)) => {
            let h = trim(head);
            let parts = repair_parts(body);
            part_candidates(h, parts, scaled, parts.len() as int) + if condition_count(parts) > 1 {
                relax_candidates(h, parts, parts.len() as int)
            } else {
                Seq::empty()
            }
        },
        None => Seq::empty(),
    }
}

/// The threshold sites of a rule's body parts, one per part.
pub open spec fn sites_spec(source: Seq<char>) -> Seq<Option<(Seq<char>, Seq<char>, Seq<char>)>> {
    match split_once(trim(source), seq![':', '-']) {
        Some((_, body)) => {
            let parts = repair_parts(body);
            Seq::new(parts.len(), |i: int| site_from(parts[i], 0))
        },
        None => Seq::empty(),
    }
}

// ── Implementation ──────────────────────────────────────────────────────

fn lit(s: &str) -> (r: Vec<char>)
    ensures
        r@ == s@,
{
    chars_of(s)
}

fn repair_is_condition_exec(p: &Vec<char>) -> (b: bool)
    ensures
        b == repair_is_condition(p@),
{
    let mut any = false;
    let mut i: usize = 0;
    while i < 6
        invariant
            i <= 6,
            any == exists|j: int| 0 <= j < i && contains(p@, #[trigger] op_text(j)),
        decreases 6 - i,
    {
        if contains_exec(p, &op_vec(i)) {
            any = true;
        }
        i += 1;
    }
    let open = vec!['('];
    assert(open@ =~= seq!['(']);
    if contains_exec(p, &open) && !any {
        false
    } else {
        any
    }
}

fn swap_from_vec(k: usize) -> (r: Vec<char>)
    requires
        k < 6,
    ensures
        r@ == swap_from(k as int),
{
    let r = if k == 0 {
        vec!['>']
    } else if k == 1 {
        vec!['<']
    } else if k == 2 {
        vec!['>', '=']
    } else if k == 3 {
        vec!['<', '=']
    } else if k == 4 {
        vec!['=']
    } else {
        vec!['!', '=']
    };
    assert(r@ =~= swap_from(k as int));
    r
}

fn swap_to_vec(k: usize) -> (r: Vec<char>)
    requires
        k < 6,
    ensures
        r@ == swap_to(k as int),
{
    let r = if k == 0 {
        vec!['>', '=']
    } else if k == 1 {
        vec!['<', '=']
    } else if k == 2 {
        vec!['>']
    } else if k == 3 {
        vec!['<']
    } else if k == 4 {
        vec!['!', '=']
    } else {
        vec!['=']
    };
    assert(r@ =~= swap_to(k as int));
    r
}

fn swap_desc_vec(k: usize) -> (r: Vec<char>)
    requires
        k < 6,
    ensures
        r@ == swap_desc(k as int),
{
    if k == 0 {
        lit("relaxed > to >=")
    } else if k == 1 {
        lit("relaxed < to <=")
    } else if k == 2 {
        lit("tightened >= to >")
    } else if k == 3 {
        lit("tightened <= to <")
    } else if k == 4 {
        lit("inverted = to !=")
    } else {
        lit("inverted != to =")
    }
}

fn contains_exact_exec(p: &Vec<char>, k: usize) -> (b: bool)
    requires
        k < 6,
    ensures
        b == contains_exact(p@, k as int),
{
    let ge = vec!['>', '='];
    assert(ge@ =~= seq!['>', '=']);
    let le = vec!['<', '='];
    assert(le@ =~= seq!['<', '=']);
    let ne = vec!['!', '='];
    assert(ne@ =~= seq!['!', '=']);
    if k == 0 {
        contains_exec(p, &swap_from_vec(0)) && !contains_exec(p, &ge)
    } else if k == 1 {
        contains_exec(p, &swap_from_vec(1)) && !contains_exec(p, &le)
    } else if k == 4 {
        contains_exec(p, &swap_from_vec(4)) && !contains_exec(p, &ge) && !contains_exec(p, &le)
            && !contains_exec(p, &ne)
    } else {
        contains_exec(p, &swap_from_vec(k))
    }
}

fn replace_single_exec(s: &Vec<char>, c: char, to: &Vec<char>) -> (r: Vec<char>)
    ensures
        r@ == replace_single(s@, c, to@),
{
    let mut r: Vec<char> = Vec::new();
    let mut i: usize = 0;
    assert(s@.subrange(0, s@.len() as int) =~= s@);
    while i < s.len()
        invariant
            i <= s.len(),
            r@ + replace_single(s@.subrange(i as int, s@.len() as int), c, to@) == replace_single(
                s@,
                c,
                to@,
            ),
        decreases s.len() - i,
    {
        let ghost rest = s@.subrange(i as int, s@.len() as int);
        assert(rest.drop_first() =~= s@.subrange(i + 1, s@.len() as int));
        assert(rest[0] == s@[i as int]);
        if i + 1 < s.len() {
            assert(rest[1] == s@[i + 1]);
        }
        let ghost before = r@;
        if s[i] == c && (i + 1 == s.len() || s[i + 1] != '=') {
            push_all(&mut r, to);
            assert(r@ == before + to@);
        } else {
            r.push(s[i]);
            assert(r@ == before + seq![s@[i as int]]);
        }
        i += 1;
    }
    assert(s@.subrange(s@.len() as int, s@.len() as int) =~= Seq::<char>::empty());
    assert(r@ + Seq::<char>::empty() =~= r@);
    r
}

fn replace_first_exec(s: &Vec<char>, from: &Vec<char>, to: &Vec<char>) -> (r: Vec<char>)
    ensures
        r@ == replace_first(s@, from@, to@),
{
    match split_once_exec(s, from) {
        Some((a, b)) => {
            let mut r = a;
            push_all(&mut r, to);
            push_all(&mut r, &b);
            r
        },
        None => slice(s, 0, s.len()),
    }
}

fn swapped_exec(p: &Vec<char>, k: usize) -> (r: Vec<char>)
    requires
        k < 6,
    ensures
        r@ == swapped(p@, k as int),
{
    if k == 0 {
        replace_single_exec(p, '>', &swap_to_vec(0))
    } else if k == 1 {
        replace_single_exec(p, '<', &swap_to_vec(1))
    } else {
        let r = replace_first_exec(p, &swap_from_vec(k), &swap_to_vec(k));
        proof {
            if split_once(p@, swap_from(k as int)) is None {
                assert(p@.subrange(0, p@.len() as int) =~= p@);
            }
        }
        r
    }
}

fn rebuilt_exec(head: &Vec<char>, parts: &Vec<Vec<char>>, idx: usize, new_part: &Vec<char>) -> (r:
    Vec<char>)
    requires
        idx < parts.len(),
    ensures
        r@ == rebuilt(head@, views(parts@), idx as int, new_part@),
{
    let mut replaced: Vec<Vec<char>> = Vec::new();
    let mut i: usize = 0;
    while i < parts.len()
        invariant
            i <= parts.len(),
            idx < parts.len(),
            views(replaced@) == views(parts@).update(idx as int, new_part@).subrange(0, i as int),
        decreases parts.len() - i,
    {
        let x = if i == idx {
            let x = slice(new_part, 0, new_part.len());
            assert(x@ =~= new_part@);
            x
        } else {
            let x = slice(&parts[i], 0, parts[i].len());
            assert(x@ =~= parts@[i as int]@);
            x
        };
        let ghost rv = views(replaced@);
        let ghost target = views(parts@).update(idx as int, new_part@);
        assert(x@ == target[i as int]);
        replaced.push(x);
        assert(views(replaced@) =~= rv.push(x@));
        assert(target.subrange(0, i + 1) =~= target.subrange(0, i as int).push(target[i as int]));
        i += 1;
    }
    assert(views(parts@).update(idx as int, new_part@).subrange(0, parts.len() as int) =~= views(
        parts@,
    ).update(idx as int, new_part@));
    let mut r = slice(head, 0, head.len());
    assert(r@ =~= head@);
    push_str(&mut r, " :- ");
    push_all(&mut r, &join_exec(&replaced, &lit(", ")));
    push_str(&mut r, ".");
    r
}

fn site_from_exec(t: &Vec<char>) -> (r: Option<(Vec<char>, Vec<char>, Vec<char>)>)
    ensures
        match r {
            Some((l, o, x)) => site_from(t@, 0) == Some((l@, o@, x@)),
            None => site_from(t@, 0) is None,
        },
{
    let mut i: usize = 0;
    while i < 6
        invariant
            i <= 6,
            site_from(t@, 0) == site_from(t@, i as int),
        decreases 6 - i,
    {
        let op = op_vec(i);
        match split_once_exec(t, &op) {
            Some((l, r)) => {
                let rhs = strip_trailing_chars(&trim_chars(&r), '.');
                if is_float_literal_exec(&rhs) {
                    return Some((trim_chars(&l), op, rhs));
                }
            },
            None => {},
        }
        i += 1;
    }
    None
}

fn repair_parts_exec(body: &Vec<char>) -> (r: Vec<Vec<char>>)
    ensures
        views(r@) == repair_parts(body@),
{
    let comma = vec![','];
    assert(comma@ =~= seq![',']);
    trim_all(&split_exec(&strip_trailing_chars(&trim_chars(body), '.'), &comma))
}

/// The numeric threshold of each body part of a rule (see [`site_from`]),
/// one entry per part; none for text that is not a rule.
pub fn threshold_sites(source: &str) -> (r: Vec<Option<ThresholdSite>>)
    ensures
        r@.len() == sites_spec(source@).len(),
        forall|i: int|
            0 <= i < r@.len() ==> match #[trigger] r@[i] {
                Some(site) => sites_spec(source@)[i] == Some((site.lhs@, site.op@, site.rhs@)),
                None => sites_spec(source@)[i] is None,
            },
{
    let mut r: Vec<Option<ThresholdSite>> = Vec::new();
    let sep = vec![':', '-'];
    assert(sep@ =~= seq![':', '-']);
    match split_once_exec(&trim_chars(&chars_of(source)), &sep) {
        Some((_, body)) => {
            let parts = repair_parts_exec(&body);
            let mut i: usize = 0;
            while i < parts.len()
                invariant
                    i <= parts.len(),
                    r@.len() == i,
                    views(parts@) == repair_parts(body@),
                    forall|k: int|
                        0 <= k < i ==> match #[trigger] r@[k] {
                            Some(site) => site_from(views(parts@)[k], 0) == Some(
                                (site.lhs@, site.op@, site.rhs@),
                            ),
                            None => site_from(views(parts@)[k], 0) is None,
                        },
                decreases parts.len() - i,
            {
                assert(views(parts@)[i as int] == parts@[i as int]@);
                let site = match site_from_exec(&parts[i]) {
                    Some((l, o, x)) => Some(
                        ThresholdSite { lhs: string_of(&l), op: string_of(&o), rhs: string_of(&x) },
                    ),
                    None => None,
                };
                r.push(site);
                i += 1;
            }
        },
        None => {},
    }
    r
}

/// The views of the supplied scalings.
pub open spec fn scaled_views(v: Seq<Option<ScaledThreshold>>) -> Seq<Option<ScaledView>> {
    v.map_values(
        |x: Option<ScaledThreshold>|
            match x {
                Some(s) => Some(s@),
                None => None,
            },
    )
}

fn candidate(modified: Vec<char>, description: Vec<char>, mutation: MutationType) -> (c: RepairCandidate)
    ensures
        c@.modified_source == modified@,
        c@.change_description == description@,
        c@.mutation == mutation,
{
    RepairCandidate {
        modified_source: string_of(&modified),
        change_description: string_of(&description),
        mutation,
    }
}

fn push_candidates_of_part(
    head: &Vec<char>,
    parts: &Vec<Vec<char>>,
    idx: usize,
    scaled: &Vec<Option<ScaledThreshold>>,
    out: &mut Vec<RepairCandidate>,
)
    requires
        idx < parts.len(),
    ensures
        candidate_views(final(out)@) == candidate_views(old(out)@) + swaps_upto(
            head@,
            views(parts@),
            idx as int,
            6,
        ) + threshold_candidates(head@, views(parts@), idx as int, scaled_views(scaled@)),
{
    let ghost start = candidate_views(out@);
    let ghost ps = views(parts@);
    let p = &parts[idx];
    assert(ps[idx as int] == p@);
    let mut k: usize = 0;
    while k < 6
        invariant
            k <= 6,
            idx < parts.len(),
            ps == views(parts@),
            ps[idx as int] == p@,
            candidate_views(out@) == start + swaps_upto(head@, ps, idx as int, k as int),
        decreases 6 - k,
    {
        let ge = vec!['>', '='];
        assert(ge@ =~= seq!['>', '=']);
        let le = vec!['<', '='];
        assert(le@ =~= seq!['<', '=']);
        let applies = contains_exact_exec(p, k) && !(k == 0 && contains_exec(p, &ge)) && !(k == 1
            && contains_exec(p, &le));
        if applies {
            let new_part = swapped_exec(p, k);
            let modified = rebuilt_exec(head, parts, idx, &new_part);
            let mut desc = lit("Condition '");
            push_all(&mut desc, p);
            push_str(&mut desc, "': ");
            push_all(&mut desc, &swap_desc_vec(k));
            let c = candidate(modified, desc, MutationType::OperatorSwap);
            let ghost cv = candidate_views(out@);
            out.push(c);
            assert(candidate_views(out@) =~= cv.push(c@));
            assert(c@ == swap_candidate(head@, ps, idx as int, k as int));
        }
        k += 1;
    }
    let ghost mid = candidate_views(out@);
    match site_from_exec(p) {
        Some((lhs, op, _)) => {
            if idx < scaled.len() && scaled[idx].is_some() {
                let v = scaled[idx].as_ref().unwrap();
                assert(scaled_views(scaled@)[idx as int] == Some(v@));
                let mut down_part = slice(&lhs, 0, lhs.len());
                push_str(&mut down_part, " ");
                push_all(&mut down_part, &op);
                push_str(&mut down_part, " ");
                push_str(&mut down_part, v.scaled_down.as_str());
                assert(down_part@ =~= lhs@ + " "@ + op@ + " "@ + v@.scaled_down);
                let mut down_desc = lit("Scaled threshold: ");
                push_str(&mut down_desc, v.value.as_str());
                push_str(&mut down_desc, " → ");
                push_str(&mut down_desc, v.scaled_down.as_str());
                push_str(&mut down_desc, " (÷10)");
                let c1 = candidate(
                    rebuilt_exec(head, parts, idx, &down_part),
                    down_desc,
                    MutationType::ThresholdScale,
                );
                let mut up_part = slice(&lhs, 0, lhs.len());
                push_str(&mut up_part, " ");
                push_all(&mut up_part, &op);
                push_str(&mut up_part, " ");
                push_str(&mut up_part, v.scaled_up.as_str());
                assert(up_part@ =~= lhs@ + " "@ + op@ + " "@ + v@.scaled_up);
                let mut up_desc = lit("Scaled threshold: ");
                push_str(&mut up_desc, v.value.as_str());
                push_str(&mut up_desc, " → ");
                push_str(&mut up_desc, v.scaled_up.as_str());
                push_str(&mut up_desc, " (×10)");
                let c2 = candidate(
                    rebuilt_exec(head, parts, idx, &up_part),
                    up_desc,
                    MutationType::ThresholdScale,
                );
                out.push(c1);
                out.push(c2);
                assert(candidate_views(out@) =~= mid + seq![c1@, c2@]);
            } else {
                assert(candidate_views(out@) =~= mid + Seq::<CandidateView>::empty());
            }
        },
        None => {
            assert(candidate_views(out@) =~= mid + Seq::<CandidateView>::empty());
        },
    }
}

/// Generate the Hamming-distance-1 repair candidates of a rule (see
/// [`candidates_spec`]). `scaled` holds, by body part, the displayed
/// scalings of the part's threshold (as [`threshold_sites`] finds it);
/// a part without an entry gets no threshold candidates.
pub fn generate_candidates(source: &str, scaled: &Vec<Option<ScaledThreshold>>) -> (r: Vec<
    RepairCandidate,
>)
    ensures
        candidate_views(r@) == candidates_spec(source@, scaled_views(scaled@)),
{
    let mut out: Vec<RepairCandidate> = Vec::new();
    let sep = vec![':', '-'];
    assert(sep@ =~= seq![':', '-']);
    match split_once_exec(&trim_chars(&chars_of(source)), &sep) {
        Some((head_raw, body)) => {
            let head = trim_chars(&head_raw);
            let parts = repair_parts_exec(&body);
            let ghost ps = views(parts@);
            let mut i: usize = 0;
            assert(candidate_views(out@) =~= Seq::<CandidateView>::empty());
            while i < parts.len()
                invariant
                    i <= parts.len(),
                    ps == views(parts@),
                    candidate_views(out@) == part_candidates(
                        head@,
                        ps,
                        scaled_views(scaled@),
                        i as int,
                    ),
                decreases parts.len() - i,
            {
                push_candidates_of_part(&head, &parts, i, scaled, &mut out);
                i += 1;
            }
            let ghost before_relax = candidate_views(out@);
            let mut count: usize = 0;
            let mut i: usize = 0;
            while i < parts.len()
                invariant
                    i <= parts.len(),
                    ps == views(parts@),
                    count == condition_count(ps.subrange(0, i as int)),
                    count <= i,
                decreases parts.len() - i,
            {
                let ghost pre = ps.subrange(0, i as int);
                let ghost post = ps.subrange(0, i + 1);
                assert(post.drop_last() =~= pre);
                assert(post.last() == parts@[i as int]@);
                if repair_is_condition_exec(&parts[i]) {
                    count += 1;
                }
                i += 1;
            }
            assert(ps.subrange(0, parts.len() as int) =~= ps);
            if count > 1 {
                let mut i: usize = 0;
                while i < parts.len()
                    invariant
                        i <= parts.len(),
                        ps == views(parts@),
                        candidate_views(out@) == before_relax + relax_candidates(
                            head@,
                            ps,
                            i as int,
                        ),
                    decreases parts.len() - i,
                {
                    if repair_is_condition_exec(&parts[i]) {
                        let mut remaining: Vec<Vec<char>> = Vec::new();
                        let mut j: usize = 0;
                        while j < parts.len()
                            invariant
                                j <= parts.len(),
                                i < parts.len(),
                                ps == views(parts@),
                                views(remaining@) == without(ps, i as int, j as int),
                            decreases parts.len() - j,
                        {
                            let ghost rv = views(remaining@);
                            if j != i {
                                let x = slice(&parts[j], 0, parts[j].len());
                                assert(x@ =~= parts@[j as int]@);
                                assert(ps[j as int] == parts@[j as int]@);
                                remaining.push(x);
                                assert(views(remaining@) =~= rv.push(x@));
                                assert(without(ps, i as int, j + 1) =~= rv.push(ps[j as int]));
                            } else {
                                assert(without(ps, i as int, j + 1) =~= rv);
                            }
                            j += 1;
                        }
                        let mut modified = slice(&head, 0, head.len());
                        assert(modified@ =~= head@);
                        push_str(&mut modified, " :- ");
                        push_all(&mut modified, &join_exec(&remaining, &lit(", ")));
                        push_str(&mut modified, ".");
                        let mut desc = lit("Removed condition '");
                        push_all(&mut desc, &parts[i]);
                        push_str(&mut desc, "'");
                        let c = candidate(modified, desc, MutationType::ConditionRelax);
                        let ghost cv = candidate_views(out@);
                        out.push(c);
                        proof {
                            assert(ps.subrange(0, parts.len() as int) =~= ps);
                            lemma_remove_value_at(ps, i as int);
                            assert(candidate_views(out@) =~= cv.push(c@));
                        }
                    }
                    i += 1;
                }
            } else {
                assert(candidate_views(out@) =~= before_relax + Seq::<CandidateView>::empty());
            }
        },
        None => {},
    }
    out
}

/// The first `j` elements of `s`, without the one at position `i`.
pub open spec fn without(s: Seq<Seq<char>>, i: int, j: int) -> Seq<Seq<char>> {
    if i < j {
        s.subrange(0, i) + s.subrange(i + 1, j)
    } else {
        s.subrange(0, j)
    }
}

proof fn lemma_remove_value_at(s: Seq<Seq<char>>, i: int)
    requires
        0 <= i < s.len(),
    ensures
        without(s, i, s.len() as int) == s.remove(i),
{
    assert(without(s, i, s.len() as int) =~= s.remove(i));
}

// ── Repair reports ──────────────────────────────────────────────────────

/// Report from a successful repair.
#[derive(Debug, Clone)]
pub struct RepairReport {
    /// The original rule that produced zero results.
    pub original_source: String,
    /// The repaired rule that produced results.
    pub repaired_source: String,
    /// What was changed.
    pub change_description: String,
    /// How many results the repaired rule produced.
    pub result_count: usize,
    /// The mutation type.
    pub mutation: MutationType,
}

/// A report as displayed.
pub open spec fn report_text(
    original: Seq<char>,
    repaired: Seq<char>,
    change: Seq<char>,
    count: nat,
) -> Seq<char> {
    "═══ Datalog Repair Report ═══\nOriginal: "@ + original + "\nRepaired: "@ + repaired
        + "\nChange:   "@ + change + "\nResults:  "@ + decimal(count) + " rows"@
}

impl RepairReport {
    /// The report for display (see [`report_text`]).
    pub fn summary(&self) -> (r: String)
        ensures
            r@ == report_text(
                self.original_source@,
                self.repaired_source@,
                self.change_description@,
                self.result_count as nat,
            ),
    {
        let mut v = lit("═══ Datalog Repair Report ═══\nOriginal: ");
        push_str(&mut v, self.original_source.as_str());
        push_str(&mut v, "\nRepaired: ");
        push_str(&mut v, self.repaired_source.as_str());
        push_str(&mut v, "\nChange:   ");
        push_str(&mut v, self.change_description.as_str());
        push_str(&mut v, "\nResults:  ");
        push_all(&mut v, &decimal_chars(self.result_count as u64));
        push_str(&mut v, " rows");
        string_of(&v)
    }
}

/// One step of the repair loop: a candidate that was registered and
/// evaluated to `rows` result rows (`None` when it could not be registered
/// or evaluated) repairs the rule when it gave at least one row.
pub fn repair_step(original_source: &str, candidate: &RepairCandidate, rows: Option<usize>) -> (r:
    Option<RepairReport>)
    ensures
        r is Some <==> (rows matches Some(n) && n > 0),
        r matches Some(rep) ==> rep.original_source@ == original_source@
            && rep.repaired_source@ == candidate.modified_source@ && rep.change_description@
            == candidate.change_description@ && rep.result_count == rows->0 && rep.mutation
            == candidate.mutation,
{
    match rows {
        Some(n) => if n > 0 {
            Some(
                RepairReport {
                    original_source: string_of(&lit(original_source)),
                    repaired_source: string_of(&lit(candidate.modified_source.as_str())),
                    change_description: string_of(&lit(candidate.change_description.as_str())),
                    result_count: n,
                    mutation: candidate.mutation,
                },
            )
        } else {
            None
        },
        None => None,
    }
}

} // verus!
