//! Query result explanations: the coarse summary of a pipeline run and the
//! lineage of each row, read from its provenance polynomial.

use vstd::prelude::*;

use crate::kernel::provenance::PolynomialSemiring;
use crate::text::{
    chars_of, decimal, decimal_chars, join, join_exec, push_all, push_str, slice, split, split_exec,
    strings_chars,
    split_once, split_once_exec, string_of, strip_trailing, strip_trailing_chars, trim, trim_chars,
    views,
};

verus! {

/// Granularity level for explanations.
#[derive(Debug, Clone, Copy, PartialEq, Eq, Structural)]
pub enum ExplainLevel {
    /// High-level summary of the pipeline.
    Coarse,
    /// Per-row provenance tracing.
    Fine,
}

/// Context provided to the explainer.
#[derive(Debug, Clone)]
pub struct ExplainContext {
    /// Active Datalog rules: `(name, body)`.
    pub rules: Vec<(String, String)>,
    /// Registered models: `(name, version)`.
    pub models: Vec<(String, String)>,
    /// Provenance mode name.
    pub provenance_mode: String,
    /// Device pool summary.
    pub device_summary: String,
}

/// A single row-level explanation.
#[derive(Debug, Clone)]
pub struct RowExplanation {
    /// Row index.
    pub row: usize,
    /// Source records that contributed to this row.
    pub source_records: Vec<String>,
    /// Model version that produced this row.
    pub model_version: String,
    /// Function ID used.
    pub function_id: String,
    /// Natural-language explanation.
    pub explanation: String,
}

/// The value of a [`RowExplanation`].
pub struct RowView {
    pub row: nat,
    pub source_records: Seq<Seq<char>>,
    pub model_version: Seq<char>,
    pub function_id: Seq<char>,
    pub explanation: Seq<char>,
}

impl View for RowExplanation {
    type V = RowView;

    open spec fn view(&self) -> RowView {
        RowView {
            row: self.row as nat,
            source_records: self.source_records@.map_values(|s: String| s@),
            model_version: self.model_version@,
            function_id: self.function_id@,
            explanation: self.explanation@,
        }
    }
}

/// A complete explanation of a query result.
#[derive(Debug, Clone)]
pub struct QueryExplanation {
    /// The explanation level used.
    pub level: ExplainLevel,
    /// Coarse-grained summary (always present).
    pub summary: String,
    /// Fine-grained per-row explanations (only for the fine level).
    pub row_explanations: Vec<RowExplanation>,
}

/// The views of row explanations.
pub open spec fn row_views(v: Seq<RowExplanation>) -> Seq<RowView> {
    v.map_values(|r: RowExplanation| r@)
}

/// The text shown for one row.
pub open spec fn row_text(r: RowView) -> Seq<char> {
    let base = "\n  Row "@ + decimal(r.row) + ": "@ + r.explanation + "\n"@ + "    Model: "@
        + r.model_version + " ("@ + r.function_id + ")\n"@;
    if r.source_records.len() == 0 {
        base
    } else {
        base + "    Sources: "@ + join(r.source_records, ", "@) + "\n"@
    }
}

/// The texts of the first `n` rows.
pub open spec fn rows_text(rows: Seq<RowView>, n: int) -> Seq<char>
    decreases n,
{
    if n <= 0 {
        Seq::empty()
    } else {
        rows_text(rows, n - 1) + row_text(rows[n - 1])
    }
}

/// An explanation as displayed: a banner, the summary, the per-row lineage
/// when there are rows, and a closing rule.
pub open spec fn explanation_text(summary: Seq<char>, rows: Seq<RowView>) -> Seq<char> {
    let head = "═══════════════════════════════════════════════════════════\n"@ + "  AnamDB Query Explanation\n"@ + "═══════════════════════════════════════════════════════════\n\n"@ + summary;
    let body = if rows.len() == 0 {
        head
    } else {
        head + "\n\n─── Per-Row Lineage ────────────────────────────────────\n"@ + rows_text(rows, rows.len() as int)
    };
    body + "\n═══════════════════════════════════════════════════════════\n"@
}

impl QueryExplanation {
    /// The explanation for display (see [`explanation_text`]).
    pub fn display(&self) -> (r: String)
        ensures
            r@ == explanation_text(self.summary@, row_views(self.row_explanations@)),
    {
        let ghost rows = row_views(self.row_explanations@);
        let mut out = chars_of("═══════════════════════════════════════════════════════════\n");
        push_str(&mut out, "  AnamDB Query Explanation\n");
        push_str(&mut out, "═══════════════════════════════════════════════════════════\n\n");
        push_str(&mut out, self.summary.as_str());
        if self.row_explanations.len() > 0 {
            push_str(&mut out, "\n\n─── Per-Row Lineage ────────────────────────────────────\n");
            let ghost head = out@;
            let mut i: usize = 0;
            while i < self.row_explanations.len()
                invariant
                    i <= self.row_explanations.len(),
                    rows == row_views(self.row_explanations@),
                    out@ == head + rows_text(rows, i as int),
                decreases self.row_explanations.len() - i,
            {
                let r = &self.row_explanations[i];
                assert(rows[i as int] == r@);
                let ghost before = out@;
                push_str(&mut out, "\n  Row ");
                push_all(&mut out, &decimal_chars(r.row as u64));
                push_str(&mut out, ": ");
                push_str(&mut out, r.explanation.as_str());
                push_str(&mut out, "\n");
                push_str(&mut out, "    Model: ");
                push_str(&mut out, r.model_version.as_str());
                push_str(&mut out, " (");
                push_str(&mut out, r.function_id.as_str());
                push_str(&mut out, ")\n");
                if r.source_records.len() > 0 {
                    let sources = strings_chars(&r.source_records);
                    push_str(&mut out, "    Sources: ");
                    push_all(&mut out, &join_exec(&sources, &chars_of(", ")));
                    push_str(&mut out, "\n");
                }
                assert(out@ =~= before + row_text(rows[i as int]));
                i += 1;
            }
        }
        push_str(&mut out, "\n═══════════════════════════════════════════════════════════\n");
        string_of(&out)
    }
}

// ── Row lineage ─────────────────────────────────────────────────────────

/// `s` without every leading copy of `c` (`str::trim_start_matches(c)`).
pub open spec fn strip_leading(s: Seq<char>, c: char) -> Seq<char>
    decreases s.len(),
{
    if s.len() > 0 && s[0] == c {
        strip_leading(s.drop_first(), c)
    } else {
        s
    }
}

fn strip_leading_exec(v: &Vec<char>, c: char) -> (r: Vec<char>)
    ensures
        r@ == strip_leading(v@, c),
{
    let mut i: usize = 0;
    assert(v@.subrange(0, v@.len() as int) =~= v@);
    while i < v.len() && v[i] == c
        invariant
            i <= v.len(),
            strip_leading(v@, c) == strip_leading(v@.subrange(i as int, v@.len() as int), c),
        decreases v.len() - i,
    {
        let ghost rest = v@.subrange(i as int, v@.len() as int);
        assert(rest.drop_first() =~= v@.subrange(i + 1, v@.len() as int));
        i += 1;
    }
    let r = slice(v, i, v.len());
    proof {
        if r@.len() > 0 {
            assert(r@[0] == v@[i as int]);
        }
    }
    r
}

/// A provenance token `model:function:[sources]`: its first three
/// `:`-separated pieces (the third may hold more colons).
pub open spec fn token_fields(t: Seq<char>) -> Option<(Seq<char>, Seq<char>, Seq<char>)> {
    match split_once(t, seq![':']) {
        Some((a, rest)) => match split_once(rest, seq![':']) {
            Some((b, c)) => Some((a, b, c)),
            None => None,
        },
        None => None,
    }
}

/// The source records listed in a token's third piece: brackets removed,
/// split at commas, each trimmed; none when nothing is listed.
pub open spec fn token_sources(c: Seq<char>) -> Seq<Seq<char>> {
    let s = strip_trailing(strip_leading(c, '['), ']');
    if s.len() == 0 {
        Seq::empty()
    } else {
        split(s, seq![',']).map_values(|x: Seq<char>| trim(x))
    }
}

/// Model, function and sources after reading the first `n` tokens: each
/// well-formed token sets the model and function and adds its sources.
pub open spec fn lineage_upto(tokens: Seq<Seq<char>>, n: int) -> (Seq<char>, Seq<char>, Seq<Seq<char>>)
    decreases n,
{
    if n <= 0 {
        ("unknown"@, "unknown"@, Seq::empty())
    } else {
        let prev = lineage_upto(tokens, n - 1);
        match token_fields(tokens[n - 1]) {
            Some((a, b, c)) => (a, b, prev.2 + token_sources(c)),
            None => prev,
        }
    }
}

/// The tokens of a polynomial's terms, in order.
pub open spec fn poly_tokens(p: PolynomialSemiring) -> Seq<Seq<char>> {
    p.stored().map_values(|t: (Seq<char>, usize)| t.0)
}

/// The explanation of row `row`: with a decoded provenance polynomial, the
/// model, function and sources its tokens name; without, a note that no
/// provenance is attached.
pub open spec fn row_spec(row: nat, poly: Option<PolynomialSemiring>) -> RowView {
    match poly {
        Some(p) => {
            let tokens = poly_tokens(p);
            let (m, f, src) = lineage_upto(tokens, tokens.len() as int);
            RowView {
                row,
                source_records: src,
                model_version: m,
                function_id: f,
                explanation: "Derived via "@ + f + " using model '"@ + m + "', sourced from ["@ + join(
                    src,
                    ", "@,
                ) + "]"@,
            }
        },
        None => RowView {
            row,
            source_records: Seq::empty(),
            model_version: "unknown"@,
            function_id: "unknown"@,
            explanation: "Row "@ + decimal(row) + ": no provenance attached"@,
        },
    }
}

fn strings_of(v: &Vec<Vec<char>>) -> (r: Vec<String>)
    ensures
        r@.map_values(|s: String| s@) == views(v@),
{
    let mut r: Vec<String> = Vec::new();
    let mut i: usize = 0;
    while i < v.len()
        invariant
            i <= v.len(),
            r@.map_values(|s: String| s@) == views(v@).subrange(0, i as int),
        decreases v.len() - i,
    {
        let s = string_of(&v[i]);
        let ghost before = r@.map_values(|s: String| s@);
        r.push(s);
        assert(r@.map_values(|s: String| s@) =~= before.push(v@[i as int]@));
        assert(views(v@).subrange(0, i + 1) =~= views(v@).subrange(0, i as int).push(v@[i as int]@));
        i += 1;
    }
    assert(views(v@).subrange(0, v.len() as int) =~= views(v@));
    r
}

/// Explain row `row` from its decoded provenance polynomial, if any (see
/// [`row_spec`]).
pub fn explain_row(row: usize, poly: Option<&PolynomialSemiring>) -> (r: RowExplanation)
    ensures
        r@ == row_spec(
            row as nat,
            match poly {
                Some(p) => Some(*p),
                None => None,
            },
        ),
{
    match poly {
        None => {
            let mut e = chars_of("Row ");
            push_all(&mut e, &decimal_chars(row as u64));
            push_str(&mut e, ": no provenance attached");
            let r = RowExplanation {
                row,
                source_records: Vec::new(),
                model_version: string_of(&chars_of("unknown")),
                function_id: string_of(&chars_of("unknown")),
                explanation: string_of(&e),
            };
            assert(r@.source_records =~= Seq::<Seq<char>>::empty());
            r
        },
        Some(p) => {
            let terms = p.terms();
            let ghost tokens = poly_tokens(*p);
            let mut model = chars_of("unknown");
            let mut func = chars_of("unknown");
            let mut sources: Vec<Vec<char>> = Vec::new();
            let mut i: usize = 0;
            while i < terms.len()
                invariant
                    i <= terms.len(),
                    tokens.len() == terms.len(),
                    forall|k: int| 0 <= k < terms.len() ==> #[trigger] tokens[k] == terms@[k].0@,
                    lineage_upto(tokens, i as int) == (model@, func@, views(sources@)),
                decreases terms.len() - i,
            {
                let t = chars_of(terms[i].0.as_str());
                assert(t@ == tokens[i as int]);
                let colon = vec![':'];
                assert(colon@ =~= seq![':']);
                match split_once_exec(&t, &colon) {
                    Some((a, rest)) => match split_once_exec(&rest, &colon) {
                        Some((b, c)) => {
                            model = a;
                            func = b;
                            let inner = strip_trailing_chars(&strip_leading_exec(&c, '['), ']');
                            if inner.len() > 0 {
                                let comma = vec![','];
                                assert(comma@ =~= seq![',']);
                                let pieces = split_exec(&inner, &comma);
                                let mut k: usize = 0;
                                let ghost before = views(sources@);
                                while k < pieces.len()
                                    invariant
                                        k <= pieces.len(),
                                        views(sources@) == before + views(pieces@).subrange(
                                            0,
                                            k as int,
                                        ).map_values(|x: Seq<char>| trim(x)),
                                    decreases pieces.len() - k,
                                {
                                    let x = trim_chars(&pieces[k]);
                                    let ghost sv = views(sources@);
                                    sources.push(x);
                                    assert(views(sources@) =~= sv.push(x@));
                                    assert(views(pieces@).subrange(0, k + 1).map_values(
                                        |x: Seq<char>| trim(x),
                                    ) =~= views(pieces@).subrange(0, k as int).map_values(
                                        |x: Seq<char>| trim(x),
                                    ).push(trim(pieces@[k as int]@)));
                                    k += 1;
                                }
                                assert(views(pieces@).subrange(0, pieces.len() as int) =~= views(
                                    pieces@,
                                ));
                            } else {
                                assert(views(sources@) =~= views(sources@) + token_sources(c@));
                            }
                        },
                        None => {},
                    },
                    None => {},
                }
                i += 1;
            }
            let mut e = chars_of("Derived via ");
            push_all(&mut e, &func);
            push_str(&mut e, " using model '");
            push_all(&mut e, &model);
            push_str(&mut e, "', sourced from [");
            push_all(&mut e, &join_exec(&sources, &chars_of(", ")));
            push_str(&mut e, "]");
            RowExplanation {
                row,
                source_records: strings_of(&sources),
                model_version: string_of(&model),
                function_id: string_of(&func),
                explanation: string_of(&e),
            }
        },
    }
}

// ── Coarse summary ──────────────────────────────────────────────────────

/// The lines listing `(a, b)` pairs as `  • {a}{sep}{b}\n`, for the first
/// `n` pairs.
pub open spec fn pair_lines(pairs: Seq<(Seq<char>, Seq<char>)>, sep: Seq<char>, n: int) -> Seq<char>
    decreases n,
{
    if n <= 0 {
        Seq::empty()
    } else {
        pair_lines(pairs, sep, n - 1) + "  • "@ + pairs[n - 1].0 + sep + pairs[n - 1].1 + "\n"@
    }
}

/// The views of string pairs.
pub open spec fn pair_views_of(v: Seq<(String, String)>) -> Seq<(Seq<char>, Seq<char>)> {
    v.map_values(|p: (String, String)| (p.0@, p.1@))
}

/// The coarse summary: row and batch counts, provenance mode, the first
/// batch's schema (when there is a batch), the score sections, then the
/// rules, models and hardware sections that the context has.
pub open spec fn coarse_text(
    total_rows: nat,
    total_batches: nat,
    ctx: ExplainContext,
    schema_fields: Option<Seq<Seq<char>>>,
    score_sections: Seq<Seq<char>>,
) -> Seq<char> {
    let overview = "─── Pipeline Summary ───────────────────────────────────\n"@ + "  Produced "@ + decimal(total_rows) + " row(s) across "@ + decimal(
        total_batches,
    ) + " batch(es)\n"@ + "  Provenance: "@ + ctx.provenance_mode@ + "\n"@;
    let schema = match schema_fields {
        Some(f) => "  Schema: ["@ + join(f, ", "@) + "]\n"@,
        None => Seq::empty(),
    };
    let scores = join(score_sections, Seq::empty());
    let rules = pair_views_of(ctx.rules@);
    let rules_part = if rules.len() == 0 {
        Seq::empty()
    } else {
        "\n─── Rules Applied ──────────────────────────────────────\n"@ + pair_lines(rules, " ← "@, rules.len() as int)
            + "\n  These rules filtered the input data, retaining only rows\n  where ALL conditions were simultaneously satisfied.\n"@
    };
    let models = pair_views_of(ctx.models@);
    let models_part = if models.len() == 0 {
        Seq::empty()
    } else {
        "\n─── Models Used ────────────────────────────────────────\n"@ + pair_lines(models, " v"@, models.len() as int)
            + "\n  The Pareto optimizer selected these models based on your\n  latency/accuracy constraints from the AI-Tables catalog.\n"@
    };
    let hardware = if ctx.device_summary@.len() == 0 {
        Seq::empty()
    } else {
        "\n─── Hardware ───────────────────────────────────────────\n"@ + "  "@ + ctx.device_summary@ + "\n"@
    };
    overview + schema + scores + rules_part + models_part + hardware
}

fn push_pairs(out: &mut Vec<char>, pairs: &Vec<(String, String)>, sep: &str)
    ensures
        final(out)@ == old(out)@ + pair_lines(pair_views_of(pairs@), sep@, pairs@.len() as int),
{
    let ghost start = out@;
    let ghost pv = pair_views_of(pairs@);
    let mut i: usize = 0;
    while i < pairs.len()
        invariant
            i <= pairs.len(),
            pv == pair_views_of(pairs@),
            out@ == start + pair_lines(pv, sep@, i as int),
        decreases pairs.len() - i,
    {
        assert(pv[i as int] == (pairs@[i as int].0@, pairs@[i as int].1@));
        let ghost before = out@;
        push_str(out, "  • ");
        push_str(out, pairs[i].0.as_str());
        push_str(out, sep);
        push_str(out, pairs[i].1.as_str());
        push_str(out, "\n");
        assert(out@ =~= start + pair_lines(pv, sep@, i + 1));
        i += 1;
    }
}

/// The coarse summary of a run (see [`coarse_text`]). The schema fields
/// (`name:type`, of the first batch) and the score-distribution sections
/// come formatted from the caller.
#[verifier::spinoff_prover]
#[verifier::rlimit(40)]
pub fn coarse_summary(
    total_rows: usize,
    total_batches: usize,
    context: &ExplainContext,
    schema_fields: Option<&Vec<String>>,
    score_sections: &Vec<String>,
) -> (r: String)
    ensures
        r@ == coarse_text(
            total_rows as nat,
            total_batches as nat,
            *context,
            match schema_fields {
                Some(f) => Some(f@.map_values(|s: String| s@)),
                None => None,
            },
            score_sections@.map_values(|s: String| s@),
        ),
{
    let mut out = chars_of("─── Pipeline Summary ───────────────────────────────────\n");
    push_str(&mut out, "  Produced ");
    push_all(&mut out, &decimal_chars(total_rows as u64));
    push_str(&mut out, " row(s) across ");
    push_all(&mut out, &decimal_chars(total_batches as u64));
    push_str(&mut out, " batch(es)\n");
    push_str(&mut out, "  Provenance: ");
    push_str(&mut out, context.provenance_mode.as_str());
    push_str(&mut out, "\n");
    let ghost after_overview = out@;
    match schema_fields {
        Some(f) => {
            let fields = strings_chars(f);
            push_str(&mut out, "  Schema: [");
            push_all(&mut out, &join_exec(&fields, &chars_of(", ")));
            push_str(&mut out, "]\n");
        },
        None => {},
    }
    let ghost after_schema = out@;
    let ghost sections = score_sections@.map_values(|s: String| s@);
    let parts = strings_chars(score_sections);
    let empty: Vec<char> = Vec::new();
    assert(empty@ =~= Seq::<char>::empty());
    push_all(&mut out, &join_exec(&parts, &empty));
    let ghost after_scores = out@;
    if context.rules.len() > 0 {
        push_str(&mut out, "\n─── Rules Applied ──────────────────────────────────────\n");
        push_pairs(&mut out, &context.rules, " ← ");
        push_str(
            &mut out,
            "\n  These rules filtered the input data, retaining only rows\n  where ALL conditions were simultaneously satisfied.\n",
        );
    }
    let ghost after_rules = out@;
    if context.models.len() > 0 {
        push_str(&mut out, "\n─── Models Used ────────────────────────────────────────\n");
        push_pairs(&mut out, &context.models, " v");
        push_str(
            &mut out,
            "\n  The Pareto optimizer selected these models based on your\n  latency/accuracy constraints from the AI-Tables catalog.\n",
        );
    }
    if context.device_summary.as_str().unicode_len() > 0 {
        push_str(&mut out, "\n─── Hardware ───────────────────────────────────────────\n");
        push_str(&mut out, "  ");
        push_str(&mut out, context.device_summary.as_str());
        push_str(&mut out, "\n");
    }
    string_of(&out)
}

/// The query result explainer.
#[derive(Debug)]
pub struct Explainer;

} // verus!
