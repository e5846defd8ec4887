//! Semiring provenance framework.
//!
//! Every tuple carries a provenance tag from a commutative semiring:
//! `BoolSemiring` gives SQL's exists / not-exists, `PolynomialSemiring`
//! tracks lineage as `ℕ[X]` polynomials over provenance tokens.

use vstd::prelude::*;

use crate::kernel::error::{AnamError, Result};
use crate::text::{
    chars_of, decimal, decimal_chars, join, join_exec, lemma_lex_le_antisym, lemma_lex_le_total, lex_le,
    lex_le_exec, push_all, push_str, slice, string_of, text_eq, views,
};

verus! {

// ── Trait ───────────────────────────────────────────────────────────────

/// A commutative semiring `(K, ⊕, ⊗, 0, 1)`.
pub trait Semiring: Sized {
    /// `self ⊕ other` can be computed without overflow.
    spec fn add_defined(&self, other: &Self) -> bool;

    /// `self ⊗ other` can be computed without overflow.
    spec fn mul_defined(&self, other: &Self) -> bool;

    /// Additive identity.
    fn zero() -> Self;

    /// Multiplicative identity.
    fn one() -> Self;

    /// Semiring addition (⊕) — used when alternative derivations merge.
    fn add(&self, other: &Self) -> Self
        requires
            self.add_defined(other),
    ;

    /// Semiring multiplication (⊗) — used when derivations are composed.
    fn mul(&self, other: &Self) -> Self
        requires
            self.mul_defined(other),
    ;

    /// Serialize to bytes for binary column storage.
    fn to_bytes(&self) -> Result<Vec<u8>>;

    /// Deserialize from bytes.
    fn from_bytes(bytes: &[u8]) -> Result<Self>;
}

// ── Boolean ─────────────────────────────────────────────────────────────

/// Standard SQL provenance: a tuple either exists or it does not.
#[derive(Debug, Clone, Copy, PartialEq, Eq, Structural)]
pub struct BoolSemiring(pub bool);

/// `a ⊕ b` in the boolean semiring: or.
pub open spec fn bool_add(a: BoolSemiring, b: BoolSemiring) -> BoolSemiring {
    BoolSemiring(a.0 || b.0)
}

/// `a ⊗ b` in the boolean semiring: and.
pub open spec fn bool_mul(a: BoolSemiring, b: BoolSemiring) -> BoolSemiring {
    BoolSemiring(a.0 && b.0)
}

impl Semiring for BoolSemiring {
    open spec fn add_defined(&self, other: &Self) -> bool {
        true
    }

    open spec fn mul_defined(&self, other: &Self) -> bool {
        true
    }

    fn zero() -> (r: Self)
        ensures
            r == BoolSemiring(false),
    {
        BoolSemiring(false)
    }

    fn one() -> (r: Self)
        ensures
            r == BoolSemiring(true),
    {
        BoolSemiring(true)
    }

    fn add(&self, other: &Self) -> (r: Self)
        ensures
            r == bool_add(*self, *other),
    {
        BoolSemiring(self.0 || other.0)
    }

    fn mul(&self, other: &Self) -> (r: Self)
        ensures
            r == bool_mul(*self, *other),
    {
        BoolSemiring(self.0 && other.0)
    }

    /// One byte: 1 for true, 0 for false.
    fn to_bytes(&self) -> (r: Result<Vec<u8>>)
        ensures
            r matches Ok(b) && b@ == seq![if self.0 { 1u8 } else { 0u8 }],
    {
        let mut v: Vec<u8> = Vec::new();
        v.push(if self.0 { 1u8 } else { 0u8 });
        assert(v@ =~= seq![if self.0 { 1u8 } else { 0u8 }]);
        Ok(v)
    }

    /// The first byte decides: non-zero is true; no byte is an error.
    fn from_bytes(bytes: &[u8]) -> (r: Result<Self>)
        ensures
            bytes@.len() == 0 <==> r is Err,
            r is Err ==> (r matches Err(AnamError::Serde(_))),
            r matches Ok(b) ==> b == BoolSemiring(bytes@[0] != 0),
    {
        if bytes.len() == 0 {
            let mut msg: Vec<char> = Vec::new();
            push_str(&mut msg, "empty bytes for BoolSemiring");
            Err(AnamError::Serde(string_of(&msg)))
        } else {
            Ok(BoolSemiring(bytes[0] != 0))
        }
    }
}

/// The boolean semiring laws: ⊕ and ⊗ are associative and commutative,
/// `0` and `1` are their identities, ⊗ distributes over ⊕ and `0`
/// annihilates.
pub proof fn lemma_bool_semiring_laws(a: BoolSemiring, b: BoolSemiring, c: BoolSemiring)
    ensures
        bool_add(a, b) == bool_add(b, a),
        bool_mul(a, b) == bool_mul(b, a),
        bool_add(bool_add(a, b), c) == bool_add(a, bool_add(b, c)),
        bool_mul(bool_mul(a, b), c) == bool_mul(a, bool_mul(b, c)),
        bool_add(BoolSemiring(false), a) == a,
        bool_mul(BoolSemiring(true), a) == a,
        bool_mul(BoolSemiring(false), a) == BoolSemiring(false),
        bool_mul(a, bool_add(b, c)) == bool_add(bool_mul(a, b), bool_mul(a, c)),
{
}

/// Decoding the bytes of a boolean gives the boolean back.
pub proof fn lemma_bool_bytes_round_trip(a: BoolSemiring)
    ensures
        BoolSemiring(seq![if a.0 { 1u8 } else { 0u8 }][0] != 0) == a,
{
}


// ── Polynomial (lineage) ────────────────────────────────────────────────

/// A provenance token identifying the exact origin of a derived tuple.
#[derive(Debug, Clone, PartialEq, Eq, Hash)]
pub struct ProvenanceToken {
    /// Model version that produced this derivation step.
    pub model_ver_id: String,
    /// The specific FAO function invoked.
    pub func_id: String,
    /// The source record(s) consumed.
    pub source_record_ids: Vec<String>,
}

/// The text of a token: `model:func:[src1,src2,...]`.
pub open spec fn token_text(model: Seq<char>, func: Seq<char>, sources: Seq<Seq<char>>) -> Seq<
    char,
> {
    model + seq![':'] + func + seq![':', '['] + join(sources, seq![',']) + seq![']']
}

fn strings_chars(v: &Vec<String>) -> (r: Vec<Vec<char>>)
    ensures
        views(r@) == v@.map_values(|s: String| s@),
{
    let mut r: Vec<Vec<char>> = Vec::new();
    let mut i: usize = 0;
    while i < v.len()
        invariant
            i <= v.len(),
            views(r@) == v@.map_values(|s: String| s@).subrange(0, i as int),
        decreases v.len() - i,
    {
        let c = chars_of(v[i].as_str());
        let ghost rv = views(r@);
        r.push(c);
        assert(views(r@) =~= rv.push(v@[i as int]@));
        assert(v@.map_values(|s: String| s@).subrange(0, i + 1) =~= v@.map_values(
            |s: String| s@,
        ).subrange(0, i as int).push(v@[i as int]@));
        i += 1;
    }
    assert(v@.map_values(|s: String| s@).subrange(0, v.len() as int) =~= v@.map_values(
        |s: String| s@,
    ));
    r
}

impl ProvenanceToken {
    /// The token's text, `model:func:[src1,src2,...]` (what `Display`
    /// writes).
    pub fn to_string(&self) -> (r: String)
        ensures
            r@ == token_text(
                self.model_ver_id@,
                self.func_id@,
                self.source_record_ids@.map_values(|s: String| s@),
            ),
    {
        let mut out = chars_of(self.model_ver_id.as_str());
        out.push(':');
        push_all(&mut out, &chars_of(self.func_id.as_str()));
        out.push(':');
        out.push('[');
        let comma: Vec<char> = vec![','];
        assert(comma@ =~= seq![',']);
        push_all(&mut out, &join_exec(&strings_chars(&self.source_record_ids), &comma));
        out.push(']');
        assert(out@ =~= token_text(
            self.model_ver_id@,
            self.func_id@,
            self.source_record_ids@.map_values(|s: String| s@),
        ));
        string_of(&out)
    }
}

/// The sum of the coefficients that `s` lists for the token `k`.
pub open spec fn poly_coeff(s: Seq<(Seq<char>, nat)>, k: Seq<char>) -> nat
    decreases s.len(),
{
    if s.len() == 0 {
        0
    } else {
        poly_coeff(s.drop_last(), k) + if s.last().0 == k {
            s.last().1
        } else {
            0
        }
    }
}

/// `s` lists the token `k`.
pub open spec fn poly_has(s: Seq<(Seq<char>, nat)>, k: Seq<char>) -> bool {
    exists|i: int| 0 <= i < s.len() && s[i].0 == k
}

/// The polynomial that a list of `(token, coefficient)` terms stands for:
/// each listed token maps to the sum of its coefficients.
pub open spec fn poly_view(s: Seq<(Seq<char>, nat)>) -> Map<Seq<char>, nat> {
    Map::new(|k: Seq<char>| poly_has(s, k), |k: Seq<char>| poly_coeff(s, k))
}

/// No token is listed twice.
pub open spec fn tokens_distinct(s: Seq<(Seq<char>, nat)>) -> bool {
    forall|i: int, j: int| 0 <= i < s.len() && 0 <= j < s.len() && i != j ==> s[i].0 != s[j].0
}

/// The text `"1"`, the token of the unit monomial.
pub open spec fn unit_token() -> Seq<char> {
    seq!['1']
}

/// The token of the product of two monomials: the unit token is neutral,
/// otherwise the two tokens in alphabetical order joined by `⊗`, so that
/// the product does not depend on the order of its factors.
pub open spec fn combine(a: Seq<char>, b: Seq<char>) -> Seq<char> {
    if a == unit_token() {
        b
    } else if b == unit_token() {
        a
    } else if lex_le(a, b) {
        a + seq!['⊗'] + b
    } else {
        b + seq!['⊗'] + a
    }
}

/// The terms of `(ka, ca)` times every term of `t`.
pub open spec fn times_term(ka: Seq<char>, ca: nat, t: Seq<(Seq<char>, nat)>) -> Seq<
    (Seq<char>, nat),
> {
    t.map_values(|x: (Seq<char>, nat)| (combine(ka, x.0), ca * x.1))
}

/// All pairwise products of the terms of `s` and `t`, `s`-major.
pub open spec fn products(s: Seq<(Seq<char>, nat)>, t: Seq<(Seq<char>, nat)>) -> Seq<
    (Seq<char>, nat),
>
    decreases s.len(),
{
    if s.len() == 0 {
        Seq::empty()
    } else {
        products(s.drop_last(), t) + times_term(s.last().0, s.last().1, t)
    }
}

/// The map that a list of `(token, coefficient)` pairs gives when a later
/// pair replaces an earlier one with the same token (`HashMap` collection).
pub open spec fn last_wins(s: Seq<(Seq<char>, usize)>) -> Map<Seq<char>, nat>
    decreases s.len(),
{
    if s.len() == 0 {
        Map::empty()
    } else {
        last_wins(s.drop_last()).insert(s.last().0, s.last().1 as nat)
    }
}

/// The terms that decoding a list of pairs gives: each token once, in the
/// order of its first appearance, with the coefficient of its last.
pub open spec fn merged_terms(s: Seq<(Seq<char>, usize)>) -> Seq<(Seq<char>, nat)>
    decreases s.len(),
{
    if s.len() == 0 {
        Seq::empty()
    } else {
        let m = merged_terms(s.drop_last());
        let k = s.last().0;
        if poly_has(m, k) {
            let j = choose|j: int| 0 <= j < m.len() && m[j].0 == k;
            m.update(j, (k, s.last().1 as nat))
        } else {
            m.push((k, s.last().1 as nat))
        }
    }
}

/// The stored terms as values.
pub open spec fn term_views(v: Seq<(String, usize)>) -> Seq<(Seq<char>, usize)> {
    v.map_values(|t: (String, usize)| (t.0@, t.1))
}

/// Widen the coefficients to `nat`.
pub open spec fn widen(v: Seq<(Seq<char>, usize)>) -> Seq<(Seq<char>, nat)> {
    v.map_values(|t: (Seq<char>, usize)| (t.0, t.1 as nat))
}

/// The text of a polynomial: each term as its token (coefficient 1) or as
/// `c·token`, joined by ` ⊕ `.
pub open spec fn explain_text(s: Seq<(Seq<char>, nat)>) -> Seq<char> {
    join(
        s.map_values(
            |t: (Seq<char>, nat)|
                if t.1 == 1 {
                    t.0
                } else {
                    decimal(t.1) + seq!['·'] + t.0
                },
        ),
        seq![' ', '⊕', ' '],
    )
}

/// What `bincode::serialize` writes for a list of `(String, usize)` pairs
/// (the encoding of a `HashMap<String, usize>` with the same pairs in the
/// same order).
pub uninterp spec fn bincode_terms(terms: Seq<(Seq<char>, usize)>) -> Seq<u8>;

/// What `bincode::deserialize` reads from bytes as a list of
/// `(String, usize)` pairs; `None` where it fails.
pub uninterp spec fn bincode_terms_decoded(bytes: Seq<u8>) -> Option<Seq<(Seq<char>, usize)>>;

/// `bincode::serialize` on a list of `(String, usize)` pairs. The bytes are
/// named by [`bincode_terms`]; it succeeds, as bincode's default options set
/// no size limit and strings, integers and lists raise no error.
#[verifier::external_body]
fn encode_terms(terms: &Vec<(String, usize)>) -> (r: std::result::Result<Vec<u8>, String>)
    ensures
        r is Ok,
        r matches Ok(b) ==> b@ == bincode_terms(term_views(terms@)),
{
    bincode::serialize(terms).map_err(|e| e.to_string())
}

/// `bincode::deserialize` into a list of `(String, usize)` pairs. The result
/// is named by [`bincode_terms_decoded`]; bytes that `bincode::serialize`
/// wrote decode to the pairs they were written from, as bincode documents.
#[verifier::external_body]
fn decode_terms(bytes: &[u8]) -> (r: std::result::Result<Vec<(String, usize)>, String>)
    ensures
        bincode_terms_decoded(bytes@) == match r {
            Ok(t) => Some(term_views(t@)),
            Err(_) => None,
        },
        r is Ok || forall|t: Seq<(Seq<char>, usize)>| bytes@ != #[trigger] bincode_terms(t),
        r matches Ok(x) ==> forall|t: Seq<(Seq<char>, usize)>|
            bytes@ == #[trigger] bincode_terms(t) ==> term_views(x@) == t,
{
    bincode::deserialize::<Vec<(String, usize)>>(bytes).map_err(|e| e.to_string())
}

/// Fine-grained lineage: `ℕ[X]` polynomials over provenance tokens.
///
/// Each term counts how many times a derivation path was exercised.
#[derive(Debug, Clone)]
pub struct PolynomialSemiring {
    /// `(token, coefficient)`, one term per token.
    terms: Vec<(String, usize)>,
}

impl PolynomialSemiring {
    /// The terms, tokens as text, in storage order.
    pub closed spec fn entries(&self) -> Seq<(Seq<char>, nat)> {
        widen(term_views(self.terms@))
    }

    /// The terms with their stored coefficients.
    pub closed spec fn stored(&self) -> Seq<(Seq<char>, usize)> {
        term_views(self.terms@)
    }

    /// No token is listed twice.
    pub closed spec fn wf(&self) -> bool {
        tokens_distinct(self.entries())
    }

    /// The polynomial's terms: `(token, coefficient)` in storage order.
    pub fn terms(&self) -> (r: &Vec<(String, usize)>)
        ensures
            term_views(r@) == self.stored(),
    {
        &self.terms
    }

    /// The coefficient of a token (0 when it has none).
    pub fn coefficient(&self, token: &str) -> (r: usize)
        requires
            self.wf(),
        ensures
            r == poly_coeff(self.entries(), token@),
    {
        let key = chars_of(token);
        let mut i: usize = 0;
        let mut found: usize = 0;
        while i < self.terms.len()
            invariant
                i <= self.terms.len(),
                tokens_distinct(self.entries()),
                found == poly_coeff(self.entries().subrange(0, i as int), key@),
            decreases self.terms.len() - i,
        {
            let tok = chars_of(self.terms[i].0.as_str());
            let ghost prefix = self.entries().subrange(0, i as int);
            proof {
                let s = self.entries().subrange(0, i + 1);
                assert(s.drop_last() =~= prefix);
                assert(s.last() == self.entries()[i as int]);
            }
            if text_eq(&tok, &key) {
                proof {
                    assert forall|j: int| 0 <= j < prefix.len() implies prefix[j].0 != key@ by {
                        assert(prefix[j] == self.entries()[j]);
                    }
                    lemma_coeff_absent(prefix, key@);
                }
                found = self.terms[i].1;
            }
            i += 1;
        }
        assert(self.entries().subrange(0, self.terms.len() as int) =~= self.entries());
        found
    }

    /// Create a singleton monomial with coefficient 1.
    pub fn singleton(token: ProvenanceToken) -> (r: Self)
        ensures
            r.entries() == seq![
                (
                    token_text(
                        token.model_ver_id@,
                        token.func_id@,
                        token.source_record_ids@.map_values(|s: String| s@),
                    ),
                    1nat,
                ),
            ],
            r.stored() == seq![(r.entries()[0].0, 1usize)],
            r.wf(),
    {
        let text = token.to_string();
        let mut terms: Vec<(String, usize)> = Vec::new();
        terms.push((text, 1));
        let r = PolynomialSemiring { terms };
        assert(r.entries() =~= seq![(text@, 1nat)]);
        assert(r.stored() =~= seq![(text@, 1usize)]);
        r
    }

    /// Human-readable lineage dump.
    pub fn explain(&self) -> (r: String)
        ensures
            r@ == explain_text(self.entries()),
    {
        let mut parts: Vec<Vec<char>> = Vec::new();
        let ghost target = self.entries().map_values(
            |t: (Seq<char>, nat)|
                if t.1 == 1 {
                    t.0
                } else {
                    decimal(t.1) + seq!['·'] + t.0
                },
        );
        let mut i: usize = 0;
        while i < self.terms.len()
            invariant
                i <= self.terms.len(),
                target == self.entries().map_values(
                    |t: (Seq<char>, nat)|
                        if t.1 == 1 {
                            t.0
                        } else {
                            decimal(t.1) + seq!['·'] + t.0
                        },
                ),
                views(parts@) == target.subrange(0, i as int),
            decreases self.terms.len() - i,
        {
            let tok = chars_of(self.terms[i].0.as_str());
            let c = self.terms[i].1;
            let piece = if c == 1 {
                tok
            } else {
                let mut p = decimal_chars(c as u64);
                p.push('·');
                push_all(&mut p, &tok);
                p
            };
            let ghost pv = views(parts@);
            let ghost x = piece@;
            assert(self.entries()[i as int] == (tok@, c as nat));
            assert(x == target[i as int]);
            parts.push(piece);
            assert(views(parts@) =~= pv.push(x));
            assert(target.subrange(0, i + 1) =~= target.subrange(0, i as int).push(x));
            i += 1;
        }
        assert(target.subrange(0, self.terms.len() as int) =~= target);
        let sep: Vec<char> = vec![' ', '⊕', ' '];
        assert(sep@ =~= seq![' ', '⊕', ' ']);
        string_of(&join_exec(&parts, &sep))
    }
}

// ── Lemmas about term lists ─────────────────────────────────────────────

proof fn lemma_coeff_absent(s: Seq<(Seq<char>, nat)>, k: Seq<char>)
    requires
        forall|i: int| 0 <= i < s.len() ==> s[i].0 != k,
    ensures
        poly_coeff(s, k) == 0,
    decreases s.len(),
{
    if s.len() > 0 {
        assert forall|i: int| 0 <= i < s.drop_last().len() implies s.drop_last()[i].0 != k by {
            assert(s.drop_last()[i] == s[i]);
        }
        lemma_coeff_absent(s.drop_last(), k);
    }
}

/// Coefficients add up over concatenation.
pub proof fn lemma_coeff_concat(s: Seq<(Seq<char>, nat)>, t: Seq<(Seq<char>, nat)>, k: Seq<char>)
    ensures
        poly_coeff(s + t, k) == poly_coeff(s, k) + poly_coeff(t, k),
    decreases t.len(),
{
    if t.len() == 0 {
        assert(s + t =~= s);
    } else {
        lemma_coeff_concat(s, t.drop_last(), k);
        assert((s + t).drop_last() =~= s + t.drop_last());
        assert((s + t).last() == t.last());
    }
}

proof fn lemma_has_concat(s: Seq<(Seq<char>, nat)>, t: Seq<(Seq<char>, nat)>, k: Seq<char>)
    ensures
        poly_has(s + t, k) <==> poly_has(s, k) || poly_has(t, k),
{
    if poly_has(s, k) {
        let i = choose|i: int| 0 <= i < s.len() && s[i].0 == k;
        assert((s + t)[i] == s[i]);
    }
    if poly_has(t, k) {
        let i = choose|i: int| 0 <= i < t.len() && t[i].0 == k;
        assert((s + t)[s.len() + i] == t[i]);
    }
    if poly_has(s + t, k) {
        let i = choose|i: int| 0 <= i < (s + t).len() && (s + t)[i].0 == k;
        if i < s.len() {
            assert((s + t)[i] == s[i]);
        } else {
            assert((s + t)[i] == t[i - s.len()]);
        }
    }
}

proof fn lemma_coeff_unique(s: Seq<(Seq<char>, nat)>, i: int)
    requires
        tokens_distinct(s),
        0 <= i < s.len(),
    ensures
        poly_coeff(s, s[i].0) == s[i].1,
    decreases s.len(),
{
    let t = s.drop_last();
    if i == s.len() - 1 {
        assert forall|j: int| 0 <= j < t.len() implies t[j].0 != s[i].0 by {
            assert(t[j] == s[j]);
        }
        lemma_coeff_absent(t, s[i].0);
    } else {
        assert forall|a: int, b: int| 0 <= a < t.len() && 0 <= b < t.len() && a != b implies t[a].0
            != t[b].0 by {
            assert(t[a] == s[a] && t[b] == s[b]);
        }
        assert(t[i] == s[i]);
        lemma_coeff_unique(t, i);
    }
}

/// Coefficients of a term list after one term is replaced.
proof fn lemma_coeff_update(s: Seq<(Seq<char>, nat)>, i: int, x: (Seq<char>, nat), k: Seq<char>)
    requires
        0 <= i < s.len(),
    ensures
        poly_coeff(s.update(i, x), k) + (if s[i].0 == k {
            s[i].1
        } else {
            0
        }) == poly_coeff(s, k) + (if x.0 == k {
            x.1
        } else {
            0
        }),
    decreases s.len(),
{
    let u = s.update(i, x);
    if i == s.len() - 1 {
        assert(u.drop_last() =~= s.drop_last());
    } else {
        lemma_coeff_update(s.drop_last(), i, x, k);
        assert(u.drop_last() =~= s.drop_last().update(i, x));
        assert(u.last() == s.last());
    }
}

/// Replacing a term by one with the same token adds the difference to
/// that token's coefficient.
proof fn lemma_view_add_at(
    merged: Seq<(Seq<char>, nat)>,
    i: int,
    c: nat,
    base: Seq<(Seq<char>, nat)>,
    added: Seq<(Seq<char>, nat)>,
)
    requires
        0 <= i < merged.len(),
        tokens_distinct(merged),
        forall|k: Seq<char>| poly_coeff(merged, k) == poly_coeff(base, k) + poly_coeff(added, k),
        forall|k: Seq<char>| poly_has(merged, k) <==> poly_has(base, k) || poly_has(added, k),
    ensures
        ({
            let m2 = merged.update(i, (merged[i].0, merged[i].1 + c));
            let a2 = added.push((merged[i].0, c));
            &&& tokens_distinct(m2)
            &&& forall|k: Seq<char>| poly_coeff(m2, k) == poly_coeff(base, k) + poly_coeff(a2, k)
            &&& forall|k: Seq<char>| poly_has(m2, k) <==> poly_has(base, k) || poly_has(a2, k)
        }),
{
    let m2 = merged.update(i, (merged[i].0, merged[i].1 + c));
    let a2 = added.push((merged[i].0, c));
    assert forall|a: int, b: int| 0 <= a < m2.len() && 0 <= b < m2.len() && a != b implies m2[a].0
        != m2[b].0 by {
        assert(m2[a].0 == merged[a].0 && m2[b].0 == merged[b].0);
    }
    assert forall|k: Seq<char>| poly_coeff(m2, k) == poly_coeff(base, k) + poly_coeff(a2, k) by {
        lemma_coeff_update(merged, i, (merged[i].0, merged[i].1 + c), k);
        assert(a2.drop_last() =~= added);
    }
    assert forall|k: Seq<char>| poly_has(m2, k) <==> poly_has(base, k) || poly_has(a2, k) by {
        if poly_has(m2, k) {
            let j = choose|j: int| 0 <= j < m2.len() && m2[j].0 == k;
            assert(merged[j].0 == k);
        }
        if poly_has(merged, k) {
            let j = choose|j: int| 0 <= j < merged.len() && merged[j].0 == k;
            assert(m2[j].0 == k);
        }
        if poly_has(a2, k) {
            let j = choose|j: int| 0 <= j < a2.len() && a2[j].0 == k;
            if j < added.len() {
                assert(a2[j] == added[j]);
            } else {
                assert(m2[i].0 == k);
            }
        }
        if poly_has(added, k) {
            let j = choose|j: int| 0 <= j < added.len() && added[j].0 == k;
            assert(a2[j] == added[j]);
        }
    }
}

/// Appending a term with a new token.
proof fn lemma_view_push_new(
    merged: Seq<(Seq<char>, nat)>,
    x: (Seq<char>, nat),
    base: Seq<(Seq<char>, nat)>,
    added: Seq<(Seq<char>, nat)>,
)
    requires
        tokens_distinct(merged),
        !poly_has(merged, x.0),
        forall|k: Seq<char>| poly_coeff(merged, k) == poly_coeff(base, k) + poly_coeff(added, k),
        forall|k: Seq<char>| poly_has(merged, k) <==> poly_has(base, k) || poly_has(added, k),
    ensures
        ({
            let m2 = merged.push(x);
            let a2 = added.push(x);
            &&& tokens_distinct(m2)
            &&& forall|k: Seq<char>| poly_coeff(m2, k) == poly_coeff(base, k) + poly_coeff(a2, k)
            &&& forall|k: Seq<char>| poly_has(m2, k) <==> poly_has(base, k) || poly_has(a2, k)
        }),
{
    let m2 = merged.push(x);
    let a2 = added.push(x);
    assert forall|a: int, b: int| 0 <= a < m2.len() && 0 <= b < m2.len() && a != b implies m2[a].0
        != m2[b].0 by {
        if a < merged.len() {
            assert(m2[a] == merged[a]);
        }
        if b < merged.len() {
            assert(m2[b] == merged[b]);
        }
    }
    assert(m2.drop_last() =~= merged);
    assert(a2.drop_last() =~= added);
    assert forall|k: Seq<char>| poly_coeff(m2, k) == poly_coeff(base, k) + poly_coeff(a2, k) by {
        assert(m2.last() == x && a2.last() == x);
        assert(poly_coeff(m2, k) == poly_coeff(merged, k) + (if x.0 == k { x.1 } else { 0 }));
        assert(poly_coeff(a2, k) == poly_coeff(added, k) + (if x.0 == k { x.1 } else { 0 }));
        assert(poly_coeff(merged, k) == poly_coeff(base, k) + poly_coeff(added, k));
    }
    assert forall|k: Seq<char>| poly_has(m2, k) <==> poly_has(base, k) || poly_has(a2, k) by {
        lemma_has_concat(merged, seq![x], k);
        lemma_has_concat(added, seq![x], k);
        assert(merged + seq![x] =~= m2);
        assert(added + seq![x] =~= a2);
    }
}

/// The coefficient of one term is at most the token's total.
proof fn lemma_coeff_prefix_le(s: Seq<(Seq<char>, nat)>, j: int, k: Seq<char>)
    requires
        0 <= j <= s.len(),
    ensures
        poly_coeff(s.subrange(0, j), k) <= poly_coeff(s, k),
{
    lemma_coeff_concat(s.subrange(0, j), s.subrange(j, s.len() as int), k);
    assert(s.subrange(0, j) + s.subrange(j, s.len() as int) =~= s);
}


/// The terms of the unit polynomial `1`.
pub open spec fn unit_terms() -> Seq<(Seq<char>, nat)> {
    seq![(unit_token(), 1nat)]
}

impl View for PolynomialSemiring {
    type V = Map<Seq<char>, nat>;

    /// Token → coefficient.
    closed spec fn view(&self) -> Map<Seq<char>, nat> {
        poly_view(self.entries())
    }
}

impl PolynomialSemiring {
    /// A well-formed polynomial lists each token once.
    pub proof fn lemma_wf(&self)
        requires
            self.wf(),
        ensures
            tokens_distinct(self.entries()),
    {
    }

    /// The polynomial is the one its entries stand for.
    pub proof fn lemma_view(&self)
        ensures
            self@ == poly_view(self.entries()),
    {
    }
}

fn copy_terms(v: &Vec<(String, usize)>) -> (r: Vec<(String, usize)>)
    ensures
        term_views(r@) == term_views(v@),
{
    let mut r: Vec<(String, usize)> = Vec::new();
    let mut i: usize = 0;
    while i < v.len()
        invariant
            i <= v.len(),
            term_views(r@) == term_views(v@).subrange(0, i as int),
        decreases v.len() - i,
    {
        let t = (v[i].0.clone(), v[i].1);
        let ghost rv = term_views(r@);
        r.push(t);
        assert(term_views(r@) =~= rv.push(term_views(v@)[i as int]));
        assert(term_views(v@).subrange(0, i + 1) =~= term_views(v@).subrange(0, i as int).push(
            term_views(v@)[i as int],
        ));
        i += 1;
    }
    assert(term_views(v@).subrange(0, v.len() as int) =~= term_views(v@));
    r
}

fn find_term(terms: &Vec<(String, usize)>, key: &Vec<char>) -> (r: Option<usize>)
    ensures
        r matches Some(i) ==> i < terms.len() && terms@[i as int].0@ == key@,
        r is None ==> !poly_has(widen(term_views(terms@)), key@),
{
    let mut i: usize = 0;
    while i < terms.len()
        invariant
            i <= terms.len(),
            forall|j: int| 0 <= j < i ==> terms@[j].0@ != key@,
        decreases terms.len() - i,
    {
        let tok = chars_of(terms[i].0.as_str());
        if text_eq(&tok, key) {
            return Some(i);
        }
        i += 1;
    }
    proof {
        let e = widen(term_views(terms@));
        if poly_has(e, key@) {
            let j = choose|j: int| 0 <= j < e.len() && e[j].0 == key@;
            assert(e[j].0 == terms@[j].0@);
        }
    }
    None
}

proof fn lemma_widen_push(v: Seq<(String, usize)>, t: (String, usize))
    ensures
        widen(term_views(v.push(t))) == widen(term_views(v)).push((t.0@, t.1 as nat)),
{
    assert(widen(term_views(v.push(t))) =~= widen(term_views(v)).push((t.0@, t.1 as nat)));
}

proof fn lemma_widen_update(v: Seq<(String, usize)>, i: int, t: (String, usize))
    requires
        0 <= i < v.len(),
    ensures
        widen(term_views(v.update(i, t))) == widen(term_views(v)).update(i, (t.0@, t.1 as nat)),
{
    assert(widen(term_views(v.update(i, t))) =~= widen(term_views(v)).update(
        i,
        (t.0@, t.1 as nat),
    ));
}

/// A term added to a term list: its coefficient added to that of the
/// token's term, or the term appended when the token is new.
pub open spec fn add_to_terms(m: Seq<(Seq<char>, nat)>, x: (Seq<char>, nat)) -> Seq<(Seq<char>, nat)> {
    if poly_has(m, x.0) {
        let j = choose|j: int| 0 <= j < m.len() && m[j].0 == x.0;
        m.update(j, (x.0, m[j].1 + x.1))
    } else {
        m.push(x)
    }
}

/// The terms of `s` with the terms of `t` added one by one, in order.
pub open spec fn sum_terms(s: Seq<(Seq<char>, nat)>, t: Seq<(Seq<char>, nat)>) -> Seq<(Seq<char>, nat)>
    decreases t.len(),
{
    if t.len() == 0 {
        s
    } else {
        add_to_terms(sum_terms(s, t.drop_last()), t.last())
    }
}

/// Add `c` to the coefficient of `key` (inserting the token if absent),
/// keeping track of the terms added so far.
fn add_term(
    merged: &mut Vec<(String, usize)>,
    key: &String,
    c: usize,
    Ghost(base): Ghost<Seq<(Seq<char>, nat)>>,
    Ghost(added): Ghost<Seq<(Seq<char>, nat)>>,
)
    requires
        tokens_distinct(widen(term_views(old(merged)@))),
        forall|k: Seq<char>|
            poly_coeff(widen(term_views(old(merged)@)), k) == poly_coeff(base, k) + poly_coeff(
                added,
                k,
            ),
        forall|k: Seq<char>|
            poly_has(widen(term_views(old(merged)@)), k) <==> poly_has(base, k) || poly_has(
                added,
                k,
            ),
        poly_coeff(base, key@) + poly_coeff(added, key@) + c <= usize::MAX,
    ensures
        ({
            let m = widen(term_views(final(merged)@));
            let a2 = added.push((key@, c as nat));
            &&& tokens_distinct(m)
            &&& forall|k: Seq<char>| poly_coeff(m, k) == poly_coeff(base, k) + poly_coeff(a2, k)
            &&& forall|k: Seq<char>| poly_has(m, k) <==> poly_has(base, k) || poly_has(a2, k)
        }),
        widen(term_views(final(merged)@)) == add_to_terms(widen(term_views(old(merged)@)), (key@, c as nat)),
{
    let kc = chars_of(key.as_str());
    let ghost before = widen(term_views(merged@));
    match find_term(merged, &kc) {
        Some(i) => {
            proof {
                assert(before[i as int] == (merged@[i as int].0@, merged@[i as int].1 as nat));
                lemma_coeff_unique(before, i as int);
                lemma_view_add_at(before, i as int, c as nat, base, added);
            }
            let cur = merged[i].1;
            let tok = merged[i].0.clone();
            merged.set(i, (tok, cur + c));
            proof {
                lemma_widen_update(old(merged)@, i as int, merged@[i as int]);
                assert(merged@ == old(merged)@.update(i as int, merged@[i as int]));
                let j = choose|j: int| 0 <= j < before.len() && before[j].0 == key@;
                assert(before[j].0 == before[i as int].0);
                assert(j == i);
            }
        },
        None => {
            let t = (key.clone(), c);
            merged.push(t);
            proof {
                lemma_widen_push(old(merged)@, merged@.last());
                assert(merged@ == old(merged)@.push(merged@.last()));
                lemma_view_push_new(before, (key@, c as nat), base, added);
            }
        },
    }
}

proof fn lemma_view_of_sum(
    m: Seq<(Seq<char>, nat)>,
    s: Seq<(Seq<char>, nat)>,
    t: Seq<(Seq<char>, nat)>,
)
    requires
        forall|k: Seq<char>| poly_coeff(m, k) == poly_coeff(s, k) + poly_coeff(t, k),
        forall|k: Seq<char>| poly_has(m, k) <==> poly_has(s, k) || poly_has(t, k),
    ensures
        poly_view(m) == poly_view(s + t),
{
    assert forall|k: Seq<char>| poly_has(m, k) == poly_has(s + t, k) by {
        lemma_has_concat(s, t, k);
    }
    assert forall|k: Seq<char>| poly_coeff(m, k) == poly_coeff(s + t, k) by {
        lemma_coeff_concat(s, t, k);
    }
    assert(poly_view(m) =~= poly_view(s + t));
}

/// Pairwise products distribute over concatenation of the left factor.
pub proof fn lemma_products_concat(
    s1: Seq<(Seq<char>, nat)>,
    s2: Seq<(Seq<char>, nat)>,
    t: Seq<(Seq<char>, nat)>,
)
    ensures
        products(s1 + s2, t) == products(s1, t) + products(s2, t),
    decreases s2.len(),
{
    if s2.len() == 0 {
        assert(s1 + s2 =~= s1);
        assert(products(s1, t) + products(s2, t) =~= products(s1, t));
    } else {
        lemma_products_concat(s1, s2.drop_last(), t);
        assert((s1 + s2).drop_last() =~= s1 + s2.drop_last());
        assert((s1 + s2).last() == s2.last());
        assert(products(s1 + s2, t) =~= products(s1, t) + products(s2, t));
    }
}

proof fn lemma_products_prefix(s: Seq<(Seq<char>, nat)>, t: Seq<(Seq<char>, nat)>, i: int, j: int)
    requires
        0 <= i < s.len(),
        0 <= j < t.len(),
    ensures
        ({
            let p = products(s.subrange(0, i), t) + times_term(s[i].0, s[i].1, t.subrange(0, j));
            let x = (combine(s[i].0, t[j].0), s[i].1 * t[j].1);
            &&& p.len() + 1 <= products(s, t).len()
            &&& products(s, t).subrange(0, p.len() as int + 1) == p.push(x)
        }),
{
    let p0 = products(s.subrange(0, i), t);
    let p = p0 + times_term(s[i].0, s[i].1, t.subrange(0, j));
    let x = (combine(s[i].0, t[j].0), s[i].1 * t[j].1);
    lemma_products_concat(s.subrange(0, i), s.subrange(i, s.len() as int), t);
    assert(s.subrange(0, i) + s.subrange(i, s.len() as int) =~= s);
    let rest = s.subrange(i, s.len() as int);
    lemma_products_concat(seq![s[i]], rest.subrange(1, rest.len() as int), t);
    assert(seq![s[i]] + rest.subrange(1, rest.len() as int) =~= rest);
    assert(seq![s[i]].drop_last() =~= Seq::<(Seq<char>, nat)>::empty());
    assert(seq![s[i]].last() == s[i]);
    assert(products(Seq::<(Seq<char>, nat)>::empty(), t) == Seq::<(Seq<char>, nat)>::empty());
    assert(products(seq![s[i]], t) == products(Seq::<(Seq<char>, nat)>::empty(), t)
        + times_term(s[i].0, s[i].1, t));
    assert(Seq::<(Seq<char>, nat)>::empty() + times_term(s[i].0, s[i].1, t) =~= times_term(
        s[i].0,
        s[i].1,
        t,
    ));
    assert(times_term(s[i].0, s[i].1, t.subrange(0, j)).len() == j);
    let full = products(s, t);
    assert(full =~= p0 + (times_term(s[i].0, s[i].1, t) + products(
        rest.subrange(1, rest.len() as int),
        t,
    )));
    assert(full.subrange(0, p.len() as int + 1) =~= p.push(x));
}

proof fn lemma_view_set(s: Seq<(Seq<char>, nat)>, i: int, c: nat)
    requires
        tokens_distinct(s),
        0 <= i < s.len(),
    ensures
        tokens_distinct(s.update(i, (s[i].0, c))),
        poly_view(s.update(i, (s[i].0, c))) == poly_view(s).insert(s[i].0, c),
{
    let u = s.update(i, (s[i].0, c));
    assert forall|a: int, b: int| 0 <= a < u.len() && 0 <= b < u.len() && a != b implies u[a].0
        != u[b].0 by {
        assert(u[a].0 == s[a].0 && u[b].0 == s[b].0);
    }
    lemma_coeff_unique(s, i);
    assert forall|k: Seq<char>| poly_has(u, k) == poly_has(s, k) by {
        if poly_has(u, k) {
            let j = choose|j: int| 0 <= j < u.len() && u[j].0 == k;
            assert(s[j].0 == k);
        }
        if poly_has(s, k) {
            let j = choose|j: int| 0 <= j < s.len() && s[j].0 == k;
            assert(u[j].0 == k);
        }
    }
    assert forall|k: Seq<char>| k != s[i].0 implies poly_coeff(u, k) == poly_coeff(s, k) by {
        lemma_coeff_update(s, i, (s[i].0, c), k);
    }
    lemma_coeff_update(s, i, (s[i].0, c), s[i].0);
    assert(poly_view(u) =~= poly_view(s).insert(s[i].0, c));
}

proof fn lemma_view_push(s: Seq<(Seq<char>, nat)>, x: (Seq<char>, nat))
    requires
        tokens_distinct(s),
        !poly_has(s, x.0),
    ensures
        tokens_distinct(s.push(x)),
        poly_view(s.push(x)) == poly_view(s).insert(x.0, x.1),
{
    let u = s.push(x);
    assert forall|a: int, b: int| 0 <= a < u.len() && 0 <= b < u.len() && a != b implies u[a].0
        != u[b].0 by {
        if a < s.len() {
            assert(u[a] == s[a]);
        }
        if b < s.len() {
            assert(u[b] == s[b]);
        }
    }
    assert(u.drop_last() =~= s);
    assert forall|k: Seq<char>| poly_has(u, k) == (poly_has(s, k) || k == x.0) by {
        lemma_has_concat(s, seq![x], k);
        assert(s + seq![x] =~= u);
        assert(poly_has(seq![x], k) == (k == x.0)) by {
            if k == x.0 {
                assert(seq![x][0].0 == k);
            }
        }
    }
    assert forall|a: int| 0 <= a < s.len() implies s[a].0 != x.0 by {}
    lemma_coeff_absent(s, x.0);
    assert(poly_view(u) =~= poly_view(s).insert(x.0, x.1));
}

impl Semiring for PolynomialSemiring {
    open spec fn add_defined(&self, other: &Self) -> bool {
        &&& self.wf()
        &&& other.wf()
        &&& forall|k: Seq<char>|
            poly_coeff(self.entries(), k) + poly_coeff(other.entries(), k) <= usize::MAX
    }

    open spec fn mul_defined(&self, other: &Self) -> bool {
        &&& self.wf()
        &&& other.wf()
        &&& forall|k: Seq<char>|
            #[trigger] poly_coeff(products(self.entries(), other.entries()), k) <= usize::MAX
    }

    /// The empty polynomial.
    fn zero() -> (r: Self)
        ensures
            r.wf(),
            r.entries() == Seq::<(Seq<char>, nat)>::empty(),
    {
        let r = PolynomialSemiring { terms: Vec::new() };
        assert(r.entries() =~= Seq::<(Seq<char>, nat)>::empty());
        r
    }

    /// The unit monomial `"1"` with coefficient 1.
    fn one() -> (r: Self)
        ensures
            r.wf(),
            r.entries() == unit_terms(),
    {
        let one: Vec<char> = vec!['1'];
        let mut terms: Vec<(String, usize)> = Vec::new();
        terms.push((string_of(&one), 1));
        let r = PolynomialSemiring { terms };
        assert(one@ =~= unit_token());
        assert(r.entries() =~= unit_terms());
        r
    }

    /// Merge the terms, adding the coefficients of shared tokens.
    fn add(&self, other: &Self) -> (r: Self)
        ensures
            r.wf(),
            r@ == poly_view(self.entries() + other.entries()),
            r.entries() == sum_terms(self.entries(), other.entries()),
    {
        let mut merged = copy_terms(&self.terms);
        let ghost base = self.entries();
        let ghost oe = other.entries();
        proof {
            assert(widen(term_views(merged@)) == base);
            assert forall|k: Seq<char>| poly_coeff(oe.subrange(0, 0), k) == 0 by {
                assert(oe.subrange(0, 0).len() == 0);
            }
            assert forall|k: Seq<char>| !poly_has(oe.subrange(0, 0), k) by {}
        }
        let mut j: usize = 0;
        while j < other.terms.len()
            invariant
                j <= other.terms.len(),
                base == self.entries(),
                oe == other.entries(),
                tokens_distinct(base),
                tokens_distinct(oe),
                forall|k: Seq<char>| poly_coeff(base, k) + poly_coeff(oe, k) <= usize::MAX,
                tokens_distinct(widen(term_views(merged@))),
                forall|k: Seq<char>|
                    poly_coeff(widen(term_views(merged@)), k) == poly_coeff(base, k)
                        + poly_coeff(oe.subrange(0, j as int), k),
                forall|k: Seq<char>|
                    poly_has(widen(term_views(merged@)), k) <==> poly_has(base, k) || poly_has(
                        oe.subrange(0, j as int),
                        k,
                    ),
                widen(term_views(merged@)) == sum_terms(base, oe.subrange(0, j as int)),
            decreases other.terms.len() - j,
        {
            let ghost added = oe.subrange(0, j as int);
            let c = other.terms[j].1;
            proof {
                assert(oe[j as int] == (other.terms@[j as int].0@, c as nat));
                assert(oe.subrange(0, j + 1) =~= added.push(oe[j as int]));
                lemma_coeff_prefix_le(oe, j + 1, oe[j as int].0);
                assert(added.push(oe[j as int]).drop_last() =~= added);
                assert(poly_coeff(added.push(oe[j as int]), oe[j as int].0) == poly_coeff(
                    added,
                    oe[j as int].0,
                ) + c);
                assert(poly_coeff(base, oe[j as int].0) + poly_coeff(oe, oe[j as int].0)
                    <= usize::MAX);
            }
            add_term(&mut merged, &other.terms[j].0, c, Ghost(base), Ghost(added));
            proof {
                assert(oe.subrange(0, j + 1).drop_last() =~= added);
                assert(oe.subrange(0, j + 1).last() == oe[j as int]);
            }
            j += 1;
        }
        assert(oe.subrange(0, other.terms.len() as int) =~= oe);
        let r = PolynomialSemiring { terms: merged };
        proof {
            lemma_view_of_sum(r.entries(), base, oe);
        }
        r
    }

    /// All pairwise products, with combined tokens, summed per token.
    fn mul(&self, other: &Self) -> (r: Self)
        ensures
            r.wf(),
            r@ == poly_view(products(self.entries(), other.entries())),
    {
        let mut product: Vec<(String, usize)> = Vec::new();
        let ghost se = self.entries();
        let ghost oe = other.entries();
        let ghost empty = Seq::<(Seq<char>, nat)>::empty();
        assert(widen(term_views(product@)) =~= empty);
        let unit: Vec<char> = vec!['1'];
        assert(unit@ =~= unit_token());
        let mut i: usize = 0;
        while i < self.terms.len()
            invariant
                i <= self.terms.len(),
                se == self.entries(),
                oe == other.entries(),
                empty == Seq::<(Seq<char>, nat)>::empty(),
                unit@ == unit_token(),
                forall|k: Seq<char>|
                    #[trigger] poly_coeff(products(se, oe), k) <= usize::MAX,
                tokens_distinct(widen(term_views(product@))),
                forall|k: Seq<char>|
                    #![trigger poly_coeff(widen(term_views(product@)), k)]
                    poly_coeff(widen(term_views(product@)), k) == poly_coeff(empty, k)
                        + poly_coeff(products(se.subrange(0, i as int), oe), k),
                forall|k: Seq<char>|
                    #![trigger poly_has(widen(term_views(product@)), k)]
                    poly_has(widen(term_views(product@)), k) <==> poly_has(empty, k) || poly_has(
                        products(se.subrange(0, i as int), oe),
                        k,
                    ),
            decreases self.terms.len() - i,
        {
            let ka = chars_of(self.terms[i].0.as_str());
            let ca = self.terms[i].1;
            let ghost p0 = products(se.subrange(0, i as int), oe);
            assert(se[i as int] == (ka@, ca as nat));
            assert(p0 + times_term(ka@, ca as nat, oe.subrange(0, 0)) =~= p0);
            let mut j: usize = 0;
            while j < other.terms.len()
                invariant
                    i < self.terms.len(),
                    j <= other.terms.len(),
                    se == self.entries(),
                    oe == other.entries(),
                    empty == Seq::<(Seq<char>, nat)>::empty(),
                    unit@ == unit_token(),
                    se[i as int] == (ka@, ca as nat),
                    p0 == products(se.subrange(0, i as int), oe),
                    forall|k: Seq<char>|
                        #[trigger] poly_coeff(products(se, oe), k) <= usize::MAX,
                    tokens_distinct(widen(term_views(product@))),
                    forall|k: Seq<char>|
                        #![trigger poly_coeff(widen(term_views(product@)), k)]
                        poly_coeff(widen(term_views(product@)), k) == poly_coeff(empty, k)
                            + poly_coeff(p0 + times_term(ka@, ca as nat, oe.subrange(0, j as int)), k),
                    forall|k: Seq<char>|
                        #![trigger poly_has(widen(term_views(product@)), k)]
                        poly_has(widen(term_views(product@)), k) <==> poly_has(empty, k)
                            || poly_has(p0 + times_term(ka@, ca as nat, oe.subrange(0, j as int)), k),
                decreases other.terms.len() - j,
            {
                let kb = chars_of(other.terms[j].0.as_str());
                let cb = other.terms[j].1;
                assert(oe[j as int] == (kb@, cb as nat));
                let key: Vec<char> = if text_eq(&ka, &unit) {
                    kb
                } else if text_eq(&kb, &unit) {
                    slice(&ka, 0, ka.len())
                } else if lex_le_exec(&ka, &kb) {
                    let mut k = slice(&ka, 0, ka.len());
                    k.push('⊗');
                    push_all(&mut k, &kb);
                    k
                } else {
                    let mut k = slice(&kb, 0, kb.len());
                    k.push('⊗');
                    push_all(&mut k, &ka);
                    k
                };
                assert(ka@.subrange(0, ka@.len() as int) =~= ka@);
                assert(kb@.subrange(0, kb@.len() as int) =~= kb@);
                assert(key@ == combine(ka@, oe[j as int].0));
                let ghost added = p0 + times_term(ka@, ca as nat, oe.subrange(0, j as int));
                let ghost x = (key@, (ca as nat) * (cb as nat));
                proof {
                    lemma_products_prefix(se, oe, i as int, j as int);
                    lemma_coeff_prefix_le(products(se, oe), added.len() as int + 1, key@);
                    assert(products(se, oe).subrange(0, added.len() as int + 1) == added.push(x));
                    assert(added.push(x).drop_last() =~= added);
                    assert(added.push(x).last() == x);
                    assert(poly_coeff(added.push(x), key@) == poly_coeff(added, key@) + x.1);
                    assert(poly_coeff(products(se, oe), key@) <= usize::MAX);
                    assert(poly_coeff(empty, key@) == 0);
                    assert((ca as nat) * (cb as nat) <= usize::MAX);
                }
                let c = ca * cb;
                let key_s = string_of(&key);
                add_term(&mut product, &key_s, c, Ghost(empty), Ghost(added));
                proof {
                    assert(times_term(ka@, ca as nat, oe.subrange(0, j + 1)) =~= times_term(
                        ka@,
                        ca as nat,
                        oe.subrange(0, j as int),
                    ).push(x));
                    assert(added.push(x) =~= p0 + times_term(ka@, ca as nat, oe.subrange(0, j + 1)));
                }
                j += 1;
            }
            proof {
                assert(oe.subrange(0, other.terms.len() as int) =~= oe);
                let s1 = se.subrange(0, i + 1);
                assert(s1.drop_last() =~= se.subrange(0, i as int));
                assert(s1.last() == se[i as int]);
                assert(products(s1, oe) == p0 + times_term(ka@, ca as nat, oe));
                assert(oe.subrange(0, other.terms.len() as int) == oe);
                assert forall|k: Seq<char>|
                    poly_has(widen(term_views(product@)), k) <==> poly_has(empty, k) || poly_has(
                        products(s1, oe),
                        k,
                    ) by {
                    assert(poly_has(widen(term_views(product@)), k) <==> poly_has(empty, k)
                        || poly_has(
                        p0 + times_term(ka@, ca as nat, oe.subrange(0, other.terms.len() as int)),
                        k,
                    ));
                }
            }
            i += 1;
        }
        assert(se.subrange(0, self.terms.len() as int) =~= se);
        assert forall|k: Seq<char>|
            poly_has(widen(term_views(product@)), k) <==> poly_has(empty, k) || poly_has(
                products(se, oe),
                k,
            ) by {
            assert(poly_has(widen(term_views(product@)), k) <==> poly_has(empty, k) || poly_has(
                products(se.subrange(0, i as int), oe),
                k,
            ));
        }
        let r = PolynomialSemiring { terms: product };
        proof {
            lemma_view_of_sum(r.entries(), empty, products(se, oe));
            assert(empty + products(se, oe) =~= products(se, oe));
        }
        r
    }

    /// The terms in `bincode`'s encoding.
    fn to_bytes(&self) -> (r: Result<Vec<u8>>)
        ensures
            r is Ok,
            r matches Ok(b) && b@ == bincode_terms(self.stored()),
    {
        match encode_terms(&self.terms) {
            Ok(b) => Ok(b),
            Err(e) => Err(AnamError::Serde(e)),
        }
    }

    /// Decode `bincode` terms; a later term replaces an earlier one with
    /// the same token.
    fn from_bytes(bytes: &[u8]) -> (r: Result<Self>)
        ensures
            r is Ok <==> bincode_terms_decoded(bytes@) is Some,
            r is Err ==> (r matches Err(AnamError::Serde(_))),
            r matches Ok(p) ==> p.wf() && p@ == last_wins(bincode_terms_decoded(bytes@)->0),
            r matches Ok(p) ==> p.entries() == merged_terms(bincode_terms_decoded(bytes@)->0),
    {
        let decoded = match decode_terms(bytes) {
            Ok(t) => t,
            Err(e) => {
                return Err(AnamError::Serde(e));
            },
        };
        let ghost dv = term_views(decoded@);
        let mut terms: Vec<(String, usize)> = Vec::new();
        let mut i: usize = 0;
        assert(widen(term_views(terms@)) =~= Seq::<(Seq<char>, nat)>::empty());
        while i < decoded.len()
            invariant
                i <= decoded.len(),
                dv == term_views(decoded@),
                tokens_distinct(widen(term_views(terms@))),
                poly_view(widen(term_views(terms@))) == last_wins(dv.subrange(0, i as int)),
                widen(term_views(terms@)) == merged_terms(dv.subrange(0, i as int)),
            decreases decoded.len() - i,
        {
            let key = chars_of(decoded[i].0.as_str());
            let c = decoded[i].1;
            let ghost before = widen(term_views(terms@));
            let ghost old_terms = terms@;
            proof {
                let d1 = dv.subrange(0, i + 1);
                assert(d1.drop_last() =~= dv.subrange(0, i as int));
                assert(d1.last() == (key@, c));
            }
            match find_term(&terms, &key) {
                Some(k) => {
                    let tok = terms[k].0.clone();
                    terms.set(k, (tok, c));
                    proof {
                        lemma_widen_update(old_terms, k as int, terms@[k as int]);
                        assert(terms@ == old_terms.update(k as int, terms@[k as int]));
                        assert(before[k as int].0 == key@);
                        lemma_view_set(before, k as int, c as nat);
                        let j = choose|j: int| 0 <= j < before.len() && before[j].0 == key@;
                        assert(before[j].0 == before[k as int].0);
                        assert(j == k);
                    }
                },
                None => {
                    terms.push((decoded[i].0.clone(), c));
                    proof {
                        lemma_widen_push(old_terms, terms@.last());
                        assert(terms@ == old_terms.push(terms@.last()));
                        lemma_view_push(before, (key@, c as nat));
                    }
                },
            }
            i += 1;
        }
        assert(dv.subrange(0, decoded.len() as int) =~= dv);
        Ok(PolynomialSemiring { terms })
    }
}


// ── Polynomial laws ─────────────────────────────────────────────────────

/// ⊕ on polynomials is commutative.
pub proof fn lemma_poly_add_commutative(s: Seq<(Seq<char>, nat)>, t: Seq<(Seq<char>, nat)>)
    ensures
        poly_view(s + t) == poly_view(t + s),
{
    assert forall|k: Seq<char>| poly_has(s + t, k) == poly_has(t + s, k) by {
        lemma_has_concat(s, t, k);
        lemma_has_concat(t, s, k);
    }
    assert forall|k: Seq<char>| poly_coeff(s + t, k) == poly_coeff(t + s, k) by {
        lemma_coeff_concat(s, t, k);
        lemma_coeff_concat(t, s, k);
    }
    assert(poly_view(s + t) =~= poly_view(t + s));
}

proof fn lemma_coeff_of_view(s: Seq<(Seq<char>, nat)>, k: Seq<char>)
    ensures
        poly_coeff(s, k) == if poly_view(s).contains_key(k) {
            poly_view(s)[k]
        } else {
            0
        },
{
    if !poly_has(s, k) {
        assert forall|i: int| 0 <= i < s.len() implies s[i].0 != k by {}
        lemma_coeff_absent(s, k);
    }
}

/// Term lists that stand for the same polynomial can replace each other
/// inside a sum.
proof fn lemma_poly_concat_congruent(
    s: Seq<(Seq<char>, nat)>,
    s2: Seq<(Seq<char>, nat)>,
    t: Seq<(Seq<char>, nat)>,
)
    requires
        poly_view(s) == poly_view(s2),
    ensures
        poly_view(s + t) == poly_view(s2 + t),
        poly_view(t + s) == poly_view(t + s2),
{
    assert forall|k: Seq<char>| poly_has(s, k) == poly_has(s2, k) by {
        assert(poly_view(s).dom().contains(k) == poly_has(s, k));
        assert(poly_view(s2).dom().contains(k) == poly_has(s2, k));
        assert(poly_view(s).dom() == poly_view(s2).dom());
    }
    assert forall|k: Seq<char>| poly_coeff(s, k) == poly_coeff(s2, k) by {
        lemma_coeff_of_view(s, k);
        lemma_coeff_of_view(s2, k);
    }
    assert forall|k: Seq<char>| poly_has(s + t, k) == poly_has(s2 + t, k) by {
        lemma_has_concat(s, t, k);
        lemma_has_concat(s2, t, k);
    }
    assert forall|k: Seq<char>| poly_coeff(s + t, k) == poly_coeff(s2 + t, k) by {
        lemma_coeff_concat(s, t, k);
        lemma_coeff_concat(s2, t, k);
    }
    assert forall|k: Seq<char>| poly_has(t + s, k) == poly_has(t + s2, k) by {
        lemma_has_concat(t, s, k);
        lemma_has_concat(t, s2, k);
    }
    assert forall|k: Seq<char>| poly_coeff(t + s, k) == poly_coeff(t + s2, k) by {
        lemma_coeff_concat(t, s, k);
        lemma_coeff_concat(t, s2, k);
    }
    assert(poly_view(s + t) =~= poly_view(s2 + t));
    assert(poly_view(t + s) =~= poly_view(t + s2));
}

/// ⊕ on polynomials is associative: with `rs` any result of `r ⊕ s` and
/// `st` any result of `s ⊕ t`, `rs ⊕ t` and `r ⊕ st` are equal.
pub proof fn lemma_poly_add_associative(
    r: Seq<(Seq<char>, nat)>,
    s: Seq<(Seq<char>, nat)>,
    t: Seq<(Seq<char>, nat)>,
    rs: Seq<(Seq<char>, nat)>,
    st: Seq<(Seq<char>, nat)>,
)
    requires
        poly_view(rs) == poly_view(r + s),
        poly_view(st) == poly_view(s + t),
    ensures
        poly_view(rs + t) == poly_view(r + st),
{
    lemma_poly_concat_congruent(rs, r + s, t);
    lemma_poly_concat_congruent(st, s + t, r);
    assert((r + s) + t =~= r + (s + t));
}

/// `0` is the identity of ⊕.
pub proof fn lemma_poly_zero_identity(s: Seq<(Seq<char>, nat)>)
    ensures
        poly_view(Seq::<(Seq<char>, nat)>::empty() + s) == poly_view(s),
        poly_view(s + Seq::<(Seq<char>, nat)>::empty()) == poly_view(s),
{
    assert(Seq::<(Seq<char>, nat)>::empty() + s =~= s);
    assert(s + Seq::<(Seq<char>, nat)>::empty() =~= s);
}

proof fn lemma_products_right_unit(s: Seq<(Seq<char>, nat)>)
    ensures
        products(s, unit_terms()) == s,
    decreases s.len(),
{
    if s.len() > 0 {
        lemma_products_right_unit(s.drop_last());
        let x = s.last();
        assert(combine(x.0, unit_token()) == x.0);
        assert(times_term(x.0, x.1, unit_terms()) =~= seq![x]);
        assert(s.drop_last().push(x) =~= s);
        assert(s.drop_last() + seq![x] =~= s);
    }
}

proof fn lemma_products_right_zero(s: Seq<(Seq<char>, nat)>)
    ensures
        products(s, Seq::<(Seq<char>, nat)>::empty()) == Seq::<(Seq<char>, nat)>::empty(),
    decreases s.len(),
{
    if s.len() > 0 {
        lemma_products_right_zero(s.drop_last());
        assert(times_term(s.last().0, s.last().1, Seq::<(Seq<char>, nat)>::empty())
            =~= Seq::<(Seq<char>, nat)>::empty());
        assert(Seq::<(Seq<char>, nat)>::empty() + Seq::<(Seq<char>, nat)>::empty()
            =~= Seq::<(Seq<char>, nat)>::empty());
    }
}

/// `1` is the identity of ⊗, on either side.
pub proof fn lemma_poly_one_identity(s: Seq<(Seq<char>, nat)>)
    ensures
        poly_view(products(unit_terms(), s)) == poly_view(s),
        poly_view(products(s, unit_terms())) == poly_view(s),
{
    lemma_products_right_unit(s);
    let u = unit_terms();
    assert(u.drop_last() =~= Seq::<(Seq<char>, nat)>::empty());
    assert(u.last() == (unit_token(), 1nat));
    assert(products(Seq::<(Seq<char>, nat)>::empty(), s) == Seq::<(Seq<char>, nat)>::empty());
    assert(times_term(unit_token(), 1nat, s) =~= s);
    assert(products(u, s) =~= s);
}

/// `0` annihilates under ⊗, on either side.
pub proof fn lemma_poly_zero_annihilates(s: Seq<(Seq<char>, nat)>)
    ensures
        products(Seq::<(Seq<char>, nat)>::empty(), s) == Seq::<(Seq<char>, nat)>::empty(),
        products(s, Seq::<(Seq<char>, nat)>::empty()) == Seq::<(Seq<char>, nat)>::empty(),
{
    lemma_products_right_zero(s);
}

/// Combining two tokens does not depend on their order.
pub proof fn lemma_combine_commutative(a: Seq<char>, b: Seq<char>)
    ensures
        combine(a, b) == combine(b, a),
{
    lemma_lex_le_total(a, b);
    if lex_le(a, b) && lex_le(b, a) {
        lemma_lex_le_antisym(a, b);
    }
}

/// Every term of `t` times `(kb, cb)` on the right.
pub open spec fn times_term_right(t: Seq<(Seq<char>, nat)>, kb: Seq<char>, cb: nat) -> Seq<
    (Seq<char>, nat),
> {
    t.map_values(|x: (Seq<char>, nat)| (combine(x.0, kb), x.1 * cb))
}

proof fn lemma_times_term_sides(ka: Seq<char>, ca: nat, t: Seq<(Seq<char>, nat)>)
    ensures
        times_term(ka, ca, t) == times_term_right(t, ka, ca),
{
    assert forall|i: int| 0 <= i < t.len() implies #[trigger] times_term(ka, ca, t)[i]
        == times_term_right(t, ka, ca)[i] by {
        lemma_combine_commutative(ka, t[i].0);
        let p = t[i].1;
        assert(ca * p == p * ca) by (nonlinear_arith);
    }
    assert(times_term(ka, ca, t) =~= times_term_right(t, ka, ca));
}

proof fn lemma_products_push_right(t: Seq<(Seq<char>, nat)>, s: Seq<(Seq<char>, nat)>, x: (Seq<char>, nat), k: Seq<char>)
    ensures
        poly_coeff(products(t, s.push(x)), k) == poly_coeff(products(t, s), k) + poly_coeff(
            times_term_right(t, x.0, x.1),
            k,
        ),
        poly_has(products(t, s.push(x)), k) <==> poly_has(products(t, s), k) || poly_has(
            times_term_right(t, x.0, x.1),
            k,
        ),
    decreases t.len(),
{
    if t.len() == 0 {
        assert(times_term_right(t, x.0, x.1) =~= Seq::<(Seq<char>, nat)>::empty());
        assert(!poly_has(Seq::<(Seq<char>, nat)>::empty(), k));
    } else {
        let t0 = t.drop_last();
        let y = t.last();
        lemma_products_push_right(t0, s, x, k);
        let a = products(t0, s.push(x));
        let b = times_term(y.0, y.1, s.push(x));
        let z = (combine(y.0, x.0), y.1 * x.1);
        assert(b =~= times_term(y.0, y.1, s).push(z));
        assert(times_term_right(t, x.0, x.1) =~= times_term_right(t0, x.0, x.1).push(z));
        let c = times_term(y.0, y.1, s);
        lemma_coeff_concat(a, b, k);
        lemma_has_concat(a, b, k);
        lemma_coeff_concat(c, seq![z], k);
        lemma_has_concat(c, seq![z], k);
        assert(c + seq![z] =~= b);
        lemma_coeff_concat(products(t0, s), c, k);
        lemma_has_concat(products(t0, s), c, k);
        let r0 = times_term_right(t0, x.0, x.1);
        lemma_coeff_concat(r0, seq![z], k);
        lemma_has_concat(r0, seq![z], k);
        assert(r0 + seq![z] =~= times_term_right(t, x.0, x.1));
    }
}

proof fn lemma_products_swap(s: Seq<(Seq<char>, nat)>, t: Seq<(Seq<char>, nat)>, k: Seq<char>)
    ensures
        poly_coeff(products(s, t), k) == poly_coeff(products(t, s), k),
        poly_has(products(s, t), k) <==> poly_has(products(t, s), k),
    decreases s.len(),
{
    if s.len() == 0 {
        lemma_products_right_zero(t);
        assert(s =~= Seq::<(Seq<char>, nat)>::empty());
    } else {
        let s0 = s.drop_last();
        let x = s.last();
        lemma_products_swap(s0, t, k);
        lemma_coeff_concat(products(s0, t), times_term(x.0, x.1, t), k);
        lemma_has_concat(products(s0, t), times_term(x.0, x.1, t), k);
        lemma_times_term_sides(x.0, x.1, t);
        assert(s0.push(x) =~= s);
        lemma_products_push_right(t, s0, x, k);
    }
}

/// ⊗ on polynomials is commutative.
pub proof fn lemma_poly_mul_commutative(s: Seq<(Seq<char>, nat)>, t: Seq<(Seq<char>, nat)>)
    ensures
        poly_view(products(s, t)) == poly_view(products(t, s)),
{
    assert forall|k: Seq<char>| poly_has(products(s, t), k) == poly_has(products(t, s), k) by {
        lemma_products_swap(s, t, k);
    }
    assert forall|k: Seq<char>| poly_coeff(products(s, t), k) == poly_coeff(products(t, s), k) by {
        lemma_products_swap(s, t, k);
    }
    assert(poly_view(products(s, t)) =~= poly_view(products(t, s)));
}

proof fn lemma_stored_coeff_bound(p: PolynomialSemiring, k: Seq<char>)
    requires
        p.wf(),
    ensures
        poly_coeff(p.entries(), k) <= usize::MAX,
{
    let e = p.entries();
    if poly_has(e, k) {
        let i = choose|i: int| 0 <= i < e.len() && e[i].0 == k;
        lemma_coeff_unique(e, i);
        assert(e[i].1 == p.terms@[i].1 as nat);
    } else {
        assert forall|i: int| 0 <= i < e.len() implies e[i].0 != k by {}
        lemma_coeff_absent(e, k);
    }
}

/// `1 ⊗ p` and `p ⊗ 1` can be computed for every well-formed `p`, and both
/// are `p`; `0 ⊗ p` and `p ⊗ 0` can be computed too, and both are `0`.
pub proof fn lemma_poly_unit_products(one: PolynomialSemiring, zero: PolynomialSemiring, p: PolynomialSemiring)
    requires
        one.wf(),
        one.entries() == unit_terms(),
        zero.wf(),
        zero.entries() == Seq::<(Seq<char>, nat)>::empty(),
        p.wf(),
    ensures
        one.mul_defined(&p),
        p.mul_defined(&one),
        zero.mul_defined(&p),
        p.mul_defined(&zero),
        poly_view(products(one.entries(), p.entries())) == p@,
        poly_view(products(p.entries(), one.entries())) == p@,
        poly_view(products(zero.entries(), p.entries())) == zero@,
        poly_view(products(p.entries(), zero.entries())) == zero@,
{
    let e = p.entries();
    let u = unit_terms();
    lemma_products_right_unit(e);
    assert(u.drop_last() =~= Seq::<(Seq<char>, nat)>::empty());
    assert(u.last() == (unit_token(), 1nat));
    assert(products(Seq::<(Seq<char>, nat)>::empty(), e) == Seq::<(Seq<char>, nat)>::empty());
    assert(times_term(unit_token(), 1nat, e) =~= e);
    assert(products(u, e) =~= e);
    lemma_products_right_zero(e);
    assert forall|k: Seq<char>| #[trigger] poly_coeff(products(one.entries(), p.entries()), k) <= usize::MAX by {
        lemma_stored_coeff_bound(p, k);
    }
    assert forall|k: Seq<char>| #[trigger] poly_coeff(products(p.entries(), one.entries()), k) <= usize::MAX by {
        lemma_stored_coeff_bound(p, k);
    }
    assert forall|k: Seq<char>| #[trigger] poly_coeff(products(zero.entries(), p.entries()), k) <= usize::MAX by {}
    assert forall|k: Seq<char>| #[trigger] poly_coeff(products(p.entries(), zero.entries()), k) <= usize::MAX by {}
}

/// Round trip through bytes: the terms that `to_bytes` encodes, decoded by
/// `from_bytes` (a later term replacing an earlier one with its token), give
/// back the same polynomial, since a polynomial lists no token twice.
pub proof fn lemma_poly_round_trip(t: Seq<(Seq<char>, usize)>)
    requires
        tokens_distinct(widen(t)),
    ensures
        last_wins(t) == poly_view(widen(t)),
    decreases t.len(),
{
    let w = widen(t);
    if t.len() == 0 {
        assert(poly_view(w) =~= Map::<Seq<char>, nat>::empty());
    } else {
        let t0 = t.drop_last();
        let w0 = widen(t0);
        assert(w0 =~= w.drop_last());
        assert forall|a: int, b: int| 0 <= a < w0.len() && 0 <= b < w0.len() && a != b implies w0[a].0
            != w0[b].0 by {
            assert(w0[a] == w[a] && w0[b] == w[b]);
        }
        lemma_poly_round_trip(t0);
        let x = w.last();
        assert(x == (t.last().0, t.last().1 as nat));
        assert(!poly_has(w0, x.0)) by {
            if poly_has(w0, x.0) {
                let j = choose|j: int| 0 <= j < w0.len() && w0[j].0 == x.0;
                assert(w[j].0 == w[w.len() - 1].0);
            }
        }
        lemma_view_push(w0, x);
        assert(w0.push(x) =~= w);
    }
}


// ── Utilities ───────────────────────────────────────────────────────────

/// Which provenance semiring a session is configured to use.
#[derive(Debug, Clone, Copy, PartialEq, Eq, Structural)]
pub enum ProvenanceMode {
    /// Standard boolean (SQL) semantics.
    Boolean,
    /// Probabilistic confidence propagation.
    Probability,
    /// Full polynomial lineage.
    Polynomial,
}

impl Default for ProvenanceMode {
    /// Polynomial lineage is the default.
    fn default() -> (r: Self)
        ensures
            r == ProvenanceMode::Polynomial,
    {
        ProvenanceMode::Polynomial
    }
}

} // verus!
