//! Datalog partial-query checker.
//!
//! Validates generated Datalog rules against the known relation schemas
//! before they are registered: vocabulary (every relation is known), scope
//! (every variable of a condition is bound by a body atom) and types (a
//! column is compared against a value of a fitting kind).

use vstd::prelude::*;

use crate::logic::canonical::{first_op_split, split_first_op};
use crate::text::{
    chars_of, contains, contains_exec, contains_text, decimal, decimal_chars, is_float_literal,
    is_float_literal_exec, join, join_exec, push_all, push_str, slice, split, split_exec,
    split_once, split_once_exec, starts_with, starts_with_exec, str_lowercase, str_uppercase,
    string_of, strip_trailing, strip_trailing_chars, text_eq, to_lowercase, to_uppercase, trim,
    trim_chars, views,
};

verus! {

// ── Errors and results ──────────────────────────────────────────────────

/// Category of validation error.
#[derive(Debug, Clone, Copy, PartialEq, Eq, Structural)]
pub enum ValidationCategory {
    /// Relation name not found in schema.
    Vocabulary,
    /// Variable referenced in condition but not bound in a body atom.
    Scope,
    /// Type mismatch between column and comparison value.
    TypeMismatch,
    /// Structural syntax error.
    Syntax,
}

impl ValidationCategory {
    /// The label a category is displayed with.
    pub open spec fn label(self) -> Seq<char> {
        match self {
            ValidationCategory::Vocabulary => "VOCABULARY"@,
            ValidationCategory::Scope => "SCOPE"@,
            ValidationCategory::TypeMismatch => "TYPE"@,
            ValidationCategory::Syntax => "SYNTAX"@,
        }
    }

    /// The displayed label.
    pub fn to_string(&self) -> (r: String)
        ensures
            r@ == self.label(),
    {
        let s = match self {
            ValidationCategory::Vocabulary => "VOCABULARY",
            ValidationCategory::Scope => "SCOPE",
            ValidationCategory::TypeMismatch => "TYPE",
            ValidationCategory::Syntax => "SYNTAX",
        };
        string_of(&chars_of(s))
    }
}

/// A single validation error found by the checker.
#[derive(Debug, Clone)]
pub struct ValidationError {
    /// Human-readable description of the problem.
    pub message: String,
    /// The offending token or fragment.
    pub offending_fragment: String,
    /// Category of the error.
    pub category: ValidationCategory,
    /// Suggested fix (if any).
    pub suggestion: Option<String>,
}

/// The value of a [`ValidationError`].
pub struct ErrorView {
    pub message: Seq<char>,
    pub fragment: Seq<char>,
    pub category: ValidationCategory,
    pub suggestion: Option<Seq<char>>,
}

impl View for ValidationError {
    type V = ErrorView;

    open spec fn view(&self) -> ErrorView {
        ErrorView {
            message: self.message@,
            fragment: self.offending_fragment@,
            category: self.category,
            suggestion: match self.suggestion {
                Some(s) => Some(s@),
                None => None,
            },
        }
    }
}

/// An error as displayed: `[CATEGORY] message`, then ` (suggestion: ...)`
/// when there is one.
pub open spec fn error_text(e: ErrorView) -> Seq<char> {
    let base = "["@ + e.category.label() + "] "@ + e.message;
    match e.suggestion {
        Some(s) => base + " (suggestion: "@ + s + ")"@,
        None => base,
    }
}

impl ValidationError {
    /// The displayed error (see [`error_text`]).
    pub fn to_string(&self) -> (r: String)
        ensures
            r@ == error_text(self@),
    {
        let mut v: Vec<char> = Vec::new();
        push_str(&mut v, "[");
        push_str(&mut v, &self.category.to_string());
        push_str(&mut v, "] ");
        push_str(&mut v, &self.message);
        match &self.suggestion {
            Some(s) => {
                push_str(&mut v, " (suggestion: ");
                push_str(&mut v, s);
                push_str(&mut v, ")");
            },
            None => {},
        }
        string_of(&v)
    }
}

/// The views of a sequence of errors.
pub open spec fn error_views(v: Seq<ValidationError>) -> Seq<ErrorView> {
    v.map_values(|e: ValidationError| e@)
}

/// Result of a validation run.
#[derive(Debug, Clone)]
pub struct ValidationResult {
    /// Whether the rule passed all checks.
    pub is_valid: bool,
    /// Errors found (empty if valid).
    pub errors: Vec<ValidationError>,
}

/// The value of a [`ValidationResult`].
pub struct ResultView {
    pub is_valid: bool,
    pub errors: Seq<ErrorView>,
}

impl View for ValidationResult {
    type V = ResultView;

    open spec fn view(&self) -> ResultView {
        ResultView { is_valid: self.is_valid, errors: error_views(self.errors@) }
    }
}

/// The numbered line for the `i`-th error (counting from 0).
pub open spec fn diagnostic_line(i: int, e: ErrorView) -> Seq<char> {
    "  "@ + decimal((i + 1) as nat) + ": "@ + error_text(e)
}

/// The diagnostic text of a result.
pub open spec fn diagnostic_text(r: ResultView) -> Seq<char> {
    if r.is_valid {
        "Rule is valid."@
    } else {
        join(
            seq!["Datalog validation errors:"@] + Seq::new(
                r.errors.len(),
                |i: int| diagnostic_line(i, r.errors[i]),
            ),
            "\n"@,
        )
    }
}

impl ValidationResult {
    /// A passing result.
    pub fn valid() -> (r: Self)
        ensures
            r@.is_valid,
            r@.errors.len() == 0,
    {
        let r = ValidationResult { is_valid: true, errors: Vec::new() };
        assert(r@.errors =~= Seq::<ErrorView>::empty());
        r
    }

    /// All errors in one diagnostic string, one numbered line per error,
    /// suitable for feeding back to a rule generator.
    pub fn diagnostic_string(&self) -> (r: String)
        requires
            self.errors@.len() < u64::MAX,
        ensures
            r@ == diagnostic_text(self@),
    {
        if self.is_valid {
            return string_of(&chars_of("Rule is valid."));
        }
        let mut lines: Vec<Vec<char>> = Vec::new();
        lines.push(chars_of("Datalog validation errors:"));
        let ghost errs = self@.errors;
        let mut i: usize = 0;
        while i < self.errors.len()
            invariant
                i <= self.errors.len() < u64::MAX,
                errs == error_views(self.errors@),
                views(lines@) == seq!["Datalog validation errors:"@] + Seq::new(
                    i as nat,
                    |k: int| diagnostic_line(k, errs[k]),
                ),
            decreases self.errors.len() - i,
        {
            let mut line = chars_of("  ");
            let num = decimal_chars((i + 1) as u64);
            push_all(&mut line, &num);
            push_str(&mut line, ": ");
            let text = self.errors[i].to_string();
            push_str(&mut line, text.as_str());
            assert(num@ == decimal((i + 1) as nat));
            assert(text@ == error_text(errs[i as int]));
            let ghost lv = views(lines@);
            assert(errs[i as int] == self.errors@[i as int]@);
            assert(((i + 1) as u64) as nat == (i + 1) as nat);
            assert(line@ =~= diagnostic_line(i as int, errs[i as int]));
            lines.push(line);
            assert(views(lines@) =~= seq!["Datalog validation errors:"@] + Seq::new(
                (i + 1) as nat,
                |k: int| diagnostic_line(k, errs[k]),
            )) by {
                assert(views(lines@) =~= lv.push(diagnostic_line(i as int, errs[i as int])));
            }
            i += 1;
        }
        string_of(&join_exec(&lines, &chars_of("\n")))
    }
}

// ── Schemas ─────────────────────────────────────────────────────────────

/// The kind of a column's data type, as far as the checks care.
#[derive(Debug, Clone, Copy, PartialEq, Eq, Structural)]
pub enum ColumnKind {
    /// `Float64`, `Float32`, `Int64` or `Int32`.
    Numeric,
    /// `Utf8` or `LargeUtf8`.
    Text,
    /// Any other type: not checked.
    Other,
}

/// A column of a relation schema: its name, the kind of its type and the
/// type's displayed name.
#[derive(Debug, Clone)]
pub struct SchemaField {
    pub name: String,
    pub kind: ColumnKind,
    pub type_label: String,
}

/// The value of a [`SchemaField`].
pub struct FieldView {
    pub name: Seq<char>,
    pub kind: ColumnKind,
    pub type_label: Seq<char>,
}

impl View for SchemaField {
    type V = FieldView;

    open spec fn view(&self) -> FieldView {
        FieldView { name: self.name@, kind: self.kind, type_label: self.type_label@ }
    }
}

/// The columns of a relation, in order.
#[derive(Debug, Clone)]
pub struct RelationSchema {
    pub fields: Vec<SchemaField>,
}

impl View for RelationSchema {
    type V = Seq<FieldView>;

    open spec fn view(&self) -> Seq<FieldView> {
        self.fields@.map_values(|f: SchemaField| f@)
    }
}

impl RelationSchema {
    /// Copy a schema.
    pub fn duplicate(&self) -> (r: RelationSchema)
        ensures
            r@ == self@,
    {
        let mut fields: Vec<SchemaField> = Vec::new();
        let mut i: usize = 0;
        while i < self.fields.len()
            invariant
                i <= self.fields.len(),
                fields@.map_values(|f: SchemaField| f@) == self@.subrange(0, i as int),
            decreases self.fields.len() - i,
        {
            let f = &self.fields[i];
            let g = SchemaField {
                name: string_of(&chars_of(f.name.as_str())),
                kind: f.kind,
                type_label: string_of(&chars_of(f.type_label.as_str())),
            };
            let ghost before = fields@.map_values(|f: SchemaField| f@);
            fields.push(g);
            assert(fields@.map_values(|f: SchemaField| f@) =~= before.push(g@));
            assert(self@.subrange(0, i + 1) =~= self@.subrange(0, i as int).push(self@[i as int]));
            i += 1;
        }
        assert(self@.subrange(0, self.fields.len() as int) =~= self@);
        RelationSchema { fields }
    }
}

/// The first column named `col` in a schema.
pub open spec fn field_named(fields: Seq<FieldView>, col: Seq<char>) -> Option<FieldView>
    decreases fields.len(),
{
    if fields.len() == 0 {
        None
    } else {
        match field_named(fields.drop_last(), col) {
            Some(f) => Some(f),
            None => if fields.last().name == col {
                Some(fields.last())
            } else {
                None
            },
        }
    }
}

/// The schema registered under `name`.
pub open spec fn schema_of(cat: Seq<(Seq<char>, Seq<FieldView>)>, name: Seq<char>) -> Option<
    Seq<FieldView>,
>
    decreases cat.len(),
{
    if cat.len() == 0 {
        None
    } else if cat.last().0 == name {
        Some(cat.last().1)
    } else {
        schema_of(cat.drop_last(), name)
    }
}

/// No relation name is registered twice.
pub open spec fn names_distinct(cat: Seq<(Seq<char>, Seq<FieldView>)>) -> bool {
    forall|i: int, j: int| 0 <= i < j < cat.len() ==> cat[i].0 != cat[j].0
}

/// The catalog after registering `schema` under `name`: the entry of that
/// name is replaced, or a new one is added at the end.
pub open spec fn register_spec(
    cat: Seq<(Seq<char>, Seq<FieldView>)>,
    name: Seq<char>,
    schema: Seq<FieldView>,
) -> Seq<(Seq<char>, Seq<FieldView>)> {
    if exists|i: int| 0 <= i < cat.len() && cat[i].0 == name {
        let i = choose|i: int| 0 <= i < cat.len() && cat[i].0 == name;
        cat.update(i, (name, schema))
    } else {
        cat.push((name, schema))
    }
}

/// The views of `(name, schema)` pairs.
pub open spec fn entry_views(v: Seq<(String, RelationSchema)>) -> Seq<(Seq<char>, Seq<FieldView>)> {
    v.map_values(|e: (String, RelationSchema)| (e.0@, e.1@))
}

/// The catalog after registering each pair of `items` in turn.
pub open spec fn register_all(
    cat: Seq<(Seq<char>, Seq<FieldView>)>,
    items: Seq<(Seq<char>, Seq<FieldView>)>,
) -> Seq<(Seq<char>, Seq<FieldView>)>
    decreases items.len(),
{
    if items.len() == 0 {
        cat
    } else {
        register_all(
            register_spec(cat, str_lowercase(items[0].0), items[0].1),
            items.drop_first(),
        )
    }
}

// ── Edit distance ───────────────────────────────────────────────────────

/// The smallest of three numbers.
pub open spec fn min3(x: nat, y: nat, z: nat) -> nat {
    let m = if x <= y {
        x
    } else {
        y
    };
    if m <= z {
        m
    } else {
        z
    }
}

/// Levenshtein distance between the first `i` characters of `a` and the
/// first `j` characters of `b`.
pub open spec fn lev(a: Seq<char>, b: Seq<char>, i: nat, j: nat) -> nat
    decreases i + j,
{
    if i == 0 {
        j
    } else if j == 0 {
        i
    } else {
        let cost: nat = if a[i - 1] == b[j - 1] {
            0
        } else {
            1
        };
        min3(
            lev(a, b, (i - 1) as nat, j) + 1,
            lev(a, b, i, (j - 1) as nat) + 1,
            lev(a, b, (i - 1) as nat, (j - 1) as nat) + cost,
        )
    }
}

/// Levenshtein distance between `a` and `b`.
pub open spec fn levenshtein_spec(a: Seq<char>, b: Seq<char>) -> nat {
    lev(a, b, a.len(), b.len())
}

proof fn lemma_lev_bound(a: Seq<char>, b: Seq<char>, i: nat, j: nat)
    ensures
        lev(a, b, i, j) <= if i <= j {
            j
        } else {
            i
        },
    decreases i + j,
{
    if i > 0 && j > 0 {
        lemma_lev_bound(a, b, (i - 1) as nat, (j - 1) as nat);
    }
}

/// Levenshtein distance between two character sequences.
pub fn levenshtein(a: &Vec<char>, b: &Vec<char>) -> (d: usize)
    ensures
        d == levenshtein_spec(a@, b@),
{
    let m = a.len();
    let n = b.len();
    let mut prev: Vec<usize> = Vec::new();
    let mut j: usize = 0;
    loop
        invariant_except_break
            j <= n,
            prev.len() == j,
        invariant
            forall|k: int| 0 <= k < prev.len() ==> prev@[k] == lev(a@, b@, 0, k as nat),
        ensures
            prev.len() == n + 1,
        decreases n - j,
    {
        prev.push(j);
        if j == n {
            break;
        }
        j += 1;
    }
    let mut i: usize = 0;
    while i < m
        invariant
            i <= m,
            m == a.len(),
            n == b.len(),
            prev.len() == n + 1,
            forall|k: int| 0 <= k <= n ==> prev@[k] == lev(a@, b@, i as nat, k as nat),
        decreases m - i,
    {
        let mut cur: Vec<usize> = Vec::new();
        cur.push(i + 1);
        let mut j: usize = 1;
        while j <= n
            invariant
                i < m,
                1 <= j <= n + 1,
                m == a.len(),
                n == b.len(),
                prev.len() == n + 1,
                cur.len() == j,
                forall|k: int| 0 <= k <= n ==> prev@[k] == lev(a@, b@, i as nat, k as nat),
                forall|k: int| 0 <= k < j ==> cur@[k] == lev(a@, b@, (i + 1) as nat, k as nat),
            decreases n + 1 - j,
        {
            proof {
                lemma_lev_bound(a@, b@, i as nat, j as nat);
                lemma_lev_bound(a@, b@, i as nat, (j - 1) as nat);
            }
            let cost: usize = if a[i] == b[j - 1] {
                0
            } else {
                1
            };
            let up = prev[j];
            let left = cur[j - 1];
            let smaller = if up <= left {
                up
            } else {
                left
            };
            let x = smaller + 1;
            let y = prev[j - 1] + cost;
            let v = if x <= y {
                x
            } else {
                y
            };
            cur.push(v);
            j += 1;
        }
        prev = cur;
        i += 1;
    }
    prev[n]
}

// ── The checks ──────────────────────────────────────────────────────────

/// Starts with a single or a double quote.
pub open spec fn quoted(a: Seq<char>) -> bool {
    starts_with(a, seq!['\'']) || starts_with(a, seq!['"'])
}

/// Holds one of `>=`, `<=`, `!=`, `>`, `<`.
pub open spec fn has_comparison(p: Seq<char>) -> bool {
    ||| contains(p, seq!['>', '='])
    ||| contains(p, seq!['<', '='])
    ||| contains(p, seq!['!', '='])
    ||| contains(p, seq!['>'])
    ||| contains(p, seq!['<'])
}

/// A body part is a condition (and not an atom): `relation(...)` without
/// a comparison is an atom; `=` outside parentheses or a comparison makes
/// a condition.
pub open spec fn is_check_condition(p: Seq<char>) -> bool {
    if contains(p, seq!['(']) && contains(p, seq![')']) && !has_comparison(p) {
        false
    } else if !contains(p, seq!['(']) && contains(p, seq!['=']) {
        true
    } else {
        has_comparison(p)
    }
}

/// The relation and argument text of an atom.
pub open spec fn part_atom(t: Seq<char>) -> Option<(Seq<char>, Seq<char>)> {
    if !is_check_condition(t) {
        split_once(t, seq!['('])
    } else {
        None
    }
}

/// The variables that atom arguments bind (uppercased): every argument
/// that is neither quoted nor a number.
pub open spec fn arg_vars(args: Seq<Seq<char>>) -> Seq<Seq<char>>
    decreases args.len(),
{
    if args.len() == 0 {
        Seq::empty()
    } else {
        let a = trim(args.last());
        if !quoted(a) && !is_float_literal(a) {
            arg_vars(args.drop_last()).push(str_uppercase(a))
        } else {
            arg_vars(args.drop_last())
        }
    }
}

/// The relations that the atoms among `parts` reference, lowercased.
pub open spec fn atom_rels(parts: Seq<Seq<char>>) -> Seq<Seq<char>>
    decreases parts.len(),
{
    if parts.len() == 0 {
        Seq::empty()
    } else {
        match part_atom(trim(parts.last())) {
            Some((rel, _)) => atom_rels(parts.drop_last()).push(str_lowercase(trim(rel))),
            None => atom_rels(parts.drop_last()),
        }
    }
}

/// The variables that the atoms among `parts` bind.
pub open spec fn atom_bound(parts: Seq<Seq<char>>) -> Seq<Seq<char>>
    decreases parts.len(),
{
    if parts.len() == 0 {
        Seq::empty()
    } else {
        match part_atom(trim(parts.last())) {
            Some((_, args)) => atom_bound(parts.drop_last()) + arg_vars(
                split(strip_trailing(args, ')'), seq![',']),
            ),
            None => atom_bound(parts.drop_last()),
        }
    }
}

/// The index of the first registered name at the smallest distance from
/// `rel`, among those at distance at most 2 (looking at the first `n`).
pub open spec fn similar_upto(cat: Seq<(Seq<char>, Seq<FieldView>)>, rel: Seq<char>, n: int) -> Option<
    int,
>
    decreases n,
{
    if n <= 0 {
        None
    } else {
        let best = similar_upto(cat, rel, n - 1);
        let d = levenshtein_spec(rel, cat[n - 1].0);
        if d <= 2 && (best is None || d < levenshtein_spec(rel, cat[best->0].0)) {
            Some(n - 1)
        } else {
            best
        }
    }
}

/// The registered name most similar to `rel` (edit distance at most 2).
pub open spec fn similar_relation(cat: Seq<(Seq<char>, Seq<FieldView>)>, rel: Seq<char>) -> Option<
    Seq<char>,
> {
    match similar_upto(cat, rel, cat.len() as int) {
        Some(i) => Some(cat[i].0),
        None => None,
    }
}

/// The error for an unknown relation.
pub open spec fn vocabulary_error(rel: Seq<char>, similar: Option<Seq<char>>) -> ErrorView {
    ErrorView {
        message: "Relation '"@ + rel + "' not found in schema catalog."@,
        fragment: rel,
        category: ValidationCategory::Vocabulary,
        suggestion: match similar {
            Some(s) => Some("Did you mean '"@ + s + "'?"@),
            None => None,
        },
    }
}

/// One error per referenced relation that is neither the head's relation
/// nor registered, in order.
pub open spec fn vocabulary_errors(
    cat: Seq<(Seq<char>, Seq<FieldView>)>,
    rels: Seq<Seq<char>>,
    head_rel: Seq<char>,
) -> Seq<ErrorView>
    decreases rels.len(),
{
    if rels.len() == 0 {
        Seq::empty()
    } else {
        let rel = rels.last();
        if rel != head_rel && schema_of(cat, rel) is None {
            vocabulary_errors(cat, rels.drop_last(), head_rel).push(
                vocabulary_error(rel, similar_relation(cat, rel)),
            )
        } else {
            vocabulary_errors(cat, rels.drop_last(), head_rel)
        }
    }
}

/// The column `col` of the first referenced relation whose schema has it.
pub open spec fn column_of(
    cat: Seq<(Seq<char>, Seq<FieldView>)>,
    rels: Seq<Seq<char>>,
    col: Seq<char>,
) -> Option<FieldView>
    decreases rels.len(),
{
    if rels.len() == 0 {
        None
    } else {
        match column_of(cat, rels.drop_last(), col) {
            Some(f) => Some(f),
            None => match schema_of(cat, rels.last()) {
                Some(s) => field_named(s, col),
                None => None,
            },
        }
    }
}

/// Every character is uppercase (`char::is_uppercase`).
pub open spec fn all_upper(s: Seq<char>) -> bool {
    forall|i: int| 0 <= i < s.len() ==> is_upper_char(#[trigger] s[i])
}

/// A single ASCII uppercase letter.
pub open spec fn is_single_upper(s: Seq<char>) -> bool {
    s.len() == 1 && 'A' <= s[0] && s[0] <= 'Z'
}

/// A type mismatch error on condition `cond`.
pub open spec fn mismatch_error(cond: Seq<char>, message: Seq<char>, suggestion: Seq<char>) -> ErrorView {
    ErrorView {
        message: message,
        fragment: cond,
        category: ValidationCategory::TypeMismatch,
        suggestion: Some(suggestion),
    }
}

/// The type errors of condition `cond`, whose column is `col` and whose
/// right-hand text is `r`.
pub open spec fn type_errors(
    cat: Seq<(Seq<char>, Seq<FieldView>)>,
    rels: Seq<Seq<char>>,
    col: Seq<char>,
    cond: Seq<char>,
    r: Seq<char>,
) -> Seq<ErrorView> {
    match column_of(cat, rels, col) {
        None => Seq::empty(),
        Some(f) => {
            let rhs = strip_trailing(trim(trim(r)), '.');
            let numeric_hint = "Use a numeric literal, e.g. "@ + col + " > 0.9"@;
            if f.kind == ColumnKind::Numeric {
                if quoted(rhs) {
                    seq![
                        mismatch_error(
                            cond,
                            "Column '"@ + col + "' is numeric ("@ + f.type_label
                                + ") but compared against string literal '"@ + rhs + "'."@,
                            numeric_hint,
                        ),
                    ]
                } else if !is_float_literal(rhs) && !contains(rhs, seq!['.']) && !all_upper(rhs) {
                    seq![
                        mismatch_error(
                            cond,
                            "Column '"@ + col + "' is numeric ("@ + f.type_label
                                + ") but compared against non-numeric value '"@ + rhs + "'."@,
                            numeric_hint,
                        ),
                    ]
                } else {
                    Seq::empty()
                }
            } else if f.kind == ColumnKind::Text {
                if !quoted(rhs) && !(contains(rhs, seq!['.']) || is_single_upper(rhs)) {
                    seq![
                        mismatch_error(
                            cond,
                            "Column '"@ + col + "' is string ("@ + f.type_label
                                + ") but compared against unquoted value '"@ + rhs + "'."@,
                            "Quote the value: "@ + col + " = '"@ + rhs + "'"@,
                        ),
                    ]
                } else {
                    Seq::empty()
                }
            } else {
                Seq::empty()
            }
        },
    }
}

/// The error for a variable that no atom binds.
pub open spec fn scope_error(var: Seq<char>, lhs: Seq<char>) -> ErrorView {
    ErrorView {
        message: "Variable '"@ + var + "' used in condition but not bound in any body atom."@,
        fragment: lhs,
        category: ValidationCategory::Scope,
        suggestion: Some(
            "Add a body atom that binds '"@ + var + "', e.g. some_relation("@ + var + ")."@,
        ),
    }
}

/// The scope and type errors of one body part.
pub open spec fn part_errors(
    cat: Seq<(Seq<char>, Seq<FieldView>)>,
    rels: Seq<Seq<char>>,
    bound: Seq<Seq<char>>,
    t: Seq<char>,
) -> Seq<ErrorView> {
    if is_check_condition(t) {
        match first_op_split(t, 0) {
            Some((_, l, r)) => {
                let lhs = trim(l);
                match split_once(lhs, seq!['.']) {
                    Some((var, col)) => {
                        let v = str_uppercase(trim(var));
                        let scope = if bound.contains(v) {
                            Seq::empty()
                        } else {
                            seq![scope_error(v, lhs)]
                        };
                        scope + type_errors(cat, rels, str_lowercase(trim(col)), t, r)
                    },
                    None => Seq::empty(),
                }
            },
            None => Seq::empty(),
        }
    } else {
        Seq::empty()
    }
}

/// The scope and type errors of the body parts, in order.
pub open spec fn condition_errors(
    cat: Seq<(Seq<char>, Seq<FieldView>)>,
    rels: Seq<Seq<char>>,
    bound: Seq<Seq<char>>,
    parts: Seq<Seq<char>>,
) -> Seq<ErrorView>
    decreases parts.len(),
{
    if parts.len() == 0 {
        Seq::empty()
    } else {
        condition_errors(cat, rels, bound, parts.drop_last()) + part_errors(
            cat,
            rels,
            bound,
            trim(parts.last()),
        )
    }
}

/// The body's parts: split at commas, each trimmed.
pub open spec fn body_parts(body: Seq<char>) -> Seq<Seq<char>> {
    split(strip_trailing(trim(body), '.'), seq![',']).map_values(|p: Seq<char>| trim(p))
}

/// The head's relation name, lowercased.
pub open spec fn head_relation(head: Seq<char>) -> Seq<char> {
    let name = match split_once(head, seq!['(']) {
        Some((h, _)) => h,
        None => head,
    };
    str_lowercase(trim(name))
}

/// All errors of a rule `head :- body`: vocabulary errors first, then the
/// errors of the conditions.
pub open spec fn rule_errors(cat: Seq<(Seq<char>, Seq<FieldView>)>, head: Seq<char>, body: Seq<char>) -> Seq<
    ErrorView,
> {
    let parts = body_parts(body);
    let rels = atom_rels(parts);
    vocabulary_errors(cat, rels, head_relation(head)) + condition_errors(
        cat,
        rels,
        atom_bound(parts),
        parts,
    )
}

/// The error for empty source.
pub open spec fn empty_source_error() -> ErrorView {
    ErrorView {
        message: "Empty Datalog source."@,
        fragment: Seq::empty(),
        category: ValidationCategory::Syntax,
        suggestion: Some("Provide a valid Datalog rule."@),
    }
}

/// What validating `source` against the catalog gives: empty source is a
/// syntax error; a rule `head :- body` gets the errors of [`rule_errors`];
/// a plain constraint (no `:-`) passes.
pub open spec fn validate_spec(cat: Seq<(Seq<char>, Seq<FieldView>)>, source: Seq<char>) -> ResultView {
    let s = trim(source);
    if s.len() == 0 {
        ResultView { is_valid: false, errors: seq![empty_source_error()] }
    } else {
        let errors = match split_once(s, seq![':', '-']) {
            Some((head, body)) => rule_errors(cat, head, body),
            None => Seq::empty(),
        };
        ResultView { is_valid: errors.len() == 0, errors }
    }
}

// ── Character classes (std) ─────────────────────────────────────────────

/// What `char::is_uppercase` returns for `c`.
pub uninterp spec fn is_upper_char(c: char) -> bool;

/// `char::is_uppercase` (std): the Unicode `Uppercase` property, named;
/// on ASCII it is `'A'..='Z'`.
#[verifier::external_body]
fn char_is_uppercase(c: char) -> (b: bool)
    ensures
        b == is_upper_char(c),
        c < '\u{80}' ==> (b <==> ('A' <= c && c <= 'Z')),
{
    c.is_uppercase()
}

fn all_upper_exec(v: &Vec<char>) -> (b: bool)
    ensures
        b == all_upper(v@),
{
    let mut i: usize = 0;
    while i < v.len()
        invariant
            i <= v.len(),
            forall|k: int| 0 <= k < i ==> is_upper_char(#[trigger] v@[k]),
        decreases v.len() - i,
    {
        if !char_is_uppercase(v[i]) {
            return false;
        }
        i += 1;
    }
    true
}

// ── The checker ─────────────────────────────────────────────────────────

/// The Datalog checker: validates rules against the registered relation
/// schemas, each registered under its lowercased name.
#[derive(Debug)]
pub struct DatalogChecker {
    schemas: Vec<(String, RelationSchema)>,
}

impl View for DatalogChecker {
    type V = Seq<(Seq<char>, Seq<FieldView>)>;

    closed spec fn view(&self) -> Seq<(Seq<char>, Seq<FieldView>)> {
        self.schemas@.map_values(|e: (String, RelationSchema)| (e.0@, e.1@))
    }
}

impl DatalogChecker {
    /// The catalog is well formed: no name twice.
    pub open spec fn wf(&self) -> bool {
        names_distinct(self@)
    }

    /// A checker with no schemas registered.
    pub fn new() -> (r: Self)
        ensures
            r.wf(),
            r@.len() == 0,
    {
        let r = DatalogChecker { schemas: Vec::new() };
        assert(r@ =~= Seq::<(Seq<char>, Seq<FieldView>)>::empty());
        r
    }

    /// Register a relation schema under the lowercase of `relation`,
    /// replacing one registered under that name.
    pub fn register_schema(&mut self, relation: &str, schema: RelationSchema)
        requires
            old(self).wf(),
        ensures
            final(self).wf(),
            final(self)@ == register_spec(old(self)@, str_lowercase(relation@), schema@),
    {
        let name = to_lowercase(&chars_of(relation));
        let ghost cat = self@;
        let mut i: usize = 0;
        while i < self.schemas.len()
            invariant
                i <= self.schemas.len(),
                cat == self@,
                cat == old(self)@,
                self.schemas@.len() == cat.len(),
                names_distinct(cat),
                name@ == str_lowercase(relation@),
                forall|k: int| 0 <= k < i ==> cat[k].0 != name@,
            decreases self.schemas.len() - i,
        {
            let key = chars_of(self.schemas[i].0.as_str());
            if text_eq(&key, &name) {
                assert(cat[i as int].0 == name@);
                let ghost sv = schema@;
                self.schemas.set(i, (string_of(&name), schema));
                proof {
                    assert(self@ =~= cat.update(i as int, (name@, sv)));
                    assert(exists|j: int| 0 <= j < cat.len() && cat[j].0 == name@);
                    let j = choose|j: int| 0 <= j < cat.len() && cat[j].0 == name@;
                    assert(j == i);
                    assert(register_spec(cat, name@, sv) == cat.update(i as int, (name@, sv)));
                    assert(name@ == str_lowercase(relation@));
                    assert(self@ == register_spec(cat, str_lowercase(relation@), sv));
                    assert forall|a: int, b: int| 0 <= a < b < self@.len() implies self@[a].0
                        != self@[b].0 by {
                        if a != i && b != i {
                            assert(self@[a] == cat[a]);
                            assert(self@[b] == cat[b]);
                        } else if a == i {
                            assert(self@[b] == cat[b]);
                        } else {
                            assert(self@[a] == cat[a]);
                        }
                    }
                }
                return;
            }
            i += 1;
        }
        let ghost sv = schema@;
        self.schemas.push((string_of(&name), schema));
        assert(self@ =~= cat.push((name@, sv)));
    }

    /// Register several `(name, schema)` pairs, in order.
    pub fn register_schemas(&mut self, schemas: Vec<(String, RelationSchema)>)
        requires
            old(self).wf(),
        ensures
            final(self).wf(),
            final(self)@ == register_all(old(self)@, entry_views(schemas@)),
    {
        let mut schemas = schemas;
        let ghost items = entry_views(schemas@);
        while schemas.len() > 0
            invariant
                self.wf(),
                register_all(self@, entry_views(schemas@)) == register_all(old(self)@, items),
            decreases schemas.len(),
        {
            let ghost before = entry_views(schemas@);
            let (name, schema) = schemas.remove(0);
            assert(entry_views(schemas@) =~= before.drop_first());
            self.register_schema(name.as_str(), schema);
        }
    }

    /// The schema registered under `name`.
    fn lookup(&self, name: &Vec<char>) -> (r: Option<&RelationSchema>)
        ensures
            r matches Some(s) ==> schema_of(self@, name@) == Some(s@),
            r is None ==> schema_of(self@, name@) is None,
    {
        let mut i: usize = self.schemas.len();
        assert(self@.subrange(0, i as int) =~= self@);
        while i > 0
            invariant
                i <= self.schemas.len(),
                schema_of(self@, name@) == schema_of(self@.subrange(0, i as int), name@),
            decreases i,
        {
            let key = chars_of(self.schemas[i - 1].0.as_str());
            let ghost pre = self@.subrange(0, i as int);
            assert(pre.last() == self@[i - 1]);
            assert(pre.drop_last() =~= self@.subrange(0, i - 1));
            if text_eq(&key, name) {
                return Some(&self.schemas[i - 1].1);
            }
            i -= 1;
        }
        None
    }

    /// The registered name most similar to `rel` (see [`similar_relation`]).
    fn find_similar_relation(&self, rel: &Vec<char>) -> (r: Option<Vec<char>>)
        ensures
            r matches Some(s) ==> similar_relation(self@, rel@) == Some(s@),
            r is None ==> similar_relation(self@, rel@) is None,
    {
        let mut best: Option<(usize, usize)> = None;
        let mut i: usize = 0;
        while i < self.schemas.len()
            invariant
                i <= self.schemas.len() == self@.len(),
                match best {
                    Some((k, d)) => similar_upto(self@, rel@, i as int) == Some(k as int) && k < i
                        && d == levenshtein_spec(rel@, self@[k as int].0),
                    None => similar_upto(self@, rel@, i as int) is None,
                },
            decreases self.schemas.len() - i,
        {
            let key = chars_of(self.schemas[i].0.as_str());
            assert(key@ == self@[i as int].0);
            let d = levenshtein(rel, &key);
            let better = match best {
                Some((_, bd)) => d < bd,
                None => true,
            };
            if d <= 2 && better {
                best = Some((i, d));
            }
            i += 1;
        }
        match best {
            Some((k, _)) => Some(chars_of(self.schemas[k].0.as_str())),
            None => None,
        }
    }
}

// ── Validation ──────────────────────────────────────────────────────────

fn make_error(
    message: Vec<char>,
    fragment: Vec<char>,
    category: ValidationCategory,
    suggestion: Option<Vec<char>>,
) -> (e: ValidationError)
    ensures
        e@.message == message@,
        e@.fragment == fragment@,
        e@.category == category,
        e@.suggestion == (match suggestion {
            Some(s) => Some(s@),
            None => None::<Seq<char>>,
        }),
{
    ValidationError {
        message: string_of(&message),
        offending_fragment: string_of(&fragment),
        category,
        suggestion: match suggestion {
            Some(s) => Some(string_of(&s)),
            None => None,
        },
    }
}

fn has_comparison_exec(p: &Vec<char>) -> (b: bool)
    ensures
        b == has_comparison(p@),
{
    let ge = vec!['>', '='];
    let le = vec!['<', '='];
    let ne = vec!['!', '='];
    let gt = vec!['>'];
    let lt = vec!['<'];
    assert(ge@ =~= seq!['>', '=']);
    assert(le@ =~= seq!['<', '=']);
    assert(ne@ =~= seq!['!', '=']);
    assert(gt@ =~= seq!['>']);
    assert(lt@ =~= seq!['<']);
    contains_exec(p, &ge) || contains_exec(p, &le) || contains_exec(p, &ne) || contains_exec(p, &gt)
        || contains_exec(p, &lt)
}

fn one(c: char) -> (r: Vec<char>)
    ensures
        r@ == seq![c],
{
    let r = vec![c];
    assert(r@ =~= seq![c]);
    r
}

fn is_check_condition_exec(p: &Vec<char>) -> (b: bool)
    ensures
        b == is_check_condition(p@),
{
    let open = contains_exec(p, &one('('));
    let close = contains_exec(p, &one(')'));
    let cmp = has_comparison_exec(p);
    if open && close && !cmp {
        false
    } else if !open && contains_exec(p, &one('=')) {
        true
    } else {
        cmp
    }
}

fn quoted_exec(a: &Vec<char>) -> (b: bool)
    ensures
        b == quoted(a@),
{
    starts_with_exec(a, &one('\'')) || starts_with_exec(a, &one('"'))
}

pub fn trim_all(v: &Vec<Vec<char>>) -> (r: Vec<Vec<char>>)
    ensures
        views(r@) == views(v@).map_values(|p: Seq<char>| trim(p)),
{
    let mut r: Vec<Vec<char>> = Vec::new();
    let mut i: usize = 0;
    while i < v.len()
        invariant
            i <= v.len(),
            views(r@) == views(v@).map_values(|p: Seq<char>| trim(p)).subrange(0, i as int),
        decreases v.len() - i,
    {
        let t = trim_chars(&v[i]);
        let ghost rv = views(r@);
        r.push(t);
        assert(views(r@) =~= rv.push(t@));
        assert(views(v@).map_values(|p: Seq<char>| trim(p)).subrange(0, i + 1) =~= rv.push(
            trim(v@[i as int]@),
        ));
        i += 1;
    }
    assert(views(v@).map_values(|p: Seq<char>| trim(p)).subrange(0, v.len() as int) =~= views(
        v@,
    ).map_values(|p: Seq<char>| trim(p)));
    r
}

fn arg_vars_exec(args: &Vec<Vec<char>>, out: &mut Vec<Vec<char>>)
    ensures
        views(final(out)@) == views(old(out)@) + arg_vars(views(args@)),
{
    let ghost start = views(out@);
    let mut i: usize = 0;
    while i < args.len()
        invariant
            i <= args.len(),
            views(out@) == start + arg_vars(views(args@).subrange(0, i as int)),
        decreases args.len() - i,
    {
        let a = trim_chars(&args[i]);
        let ghost pre = views(args@).subrange(0, i as int);
        let ghost post = views(args@).subrange(0, i + 1);
        assert(post.drop_last() =~= pre);
        assert(post.last() == args@[i as int]@);
        if !quoted_exec(&a) && !is_float_literal_exec(&a) {
            let u = to_uppercase(&a);
            let ghost ov = views(out@);
            out.push(u);
            assert(views(out@) =~= ov.push(u@));
        }
        i += 1;
    }
    assert(views(args@).subrange(0, args.len() as int) =~= views(args@));
}

fn scan_atoms(parts: &Vec<Vec<char>>) -> (r: (Vec<Vec<char>>, Vec<Vec<char>>))
    ensures
        views(r.0@) == atom_rels(views(parts@)),
        views(r.1@) == atom_bound(views(parts@)),
{
    let mut rels: Vec<Vec<char>> = Vec::new();
    let mut bound: Vec<Vec<char>> = Vec::new();
    let mut i: usize = 0;
    while i < parts.len()
        invariant
            i <= parts.len(),
            views(rels@) == atom_rels(views(parts@).subrange(0, i as int)),
            views(bound@) == atom_bound(views(parts@).subrange(0, i as int)),
        decreases parts.len() - i,
    {
        let ghost pre = views(parts@).subrange(0, i as int);
        let ghost post = views(parts@).subrange(0, i + 1);
        assert(post.drop_last() =~= pre);
        assert(post.last() == parts@[i as int]@);
        let t = trim_chars(&parts[i]);
        if !is_check_condition_exec(&t) {
            match split_once_exec(&t, &one('(')) {
                Some((rel, args)) => {
                    let name = to_lowercase(&trim_chars(&rel));
                    let ghost rv = views(rels@);
                    rels.push(name);
                    assert(views(rels@) =~= rv.push(name@));
                    let inner = strip_trailing_chars(&args, ')');
                    let pieces = split_exec(&inner, &one(','));
                    arg_vars_exec(&pieces, &mut bound);
                },
                None => {},
            }
        }
        i += 1;
    }
    assert(views(parts@).subrange(0, parts.len() as int) =~= views(parts@));
    (rels, bound)
}

fn vocabulary_error_exec(rel: &Vec<char>, similar: Option<Vec<char>>) -> (e: ValidationError)
    ensures
        e@ == vocabulary_error(
            rel@,
            match similar {
                Some(s) => Some(s@),
                None => None,
            },
        ),
{
    let mut message = chars_of("Relation '");
    push_all(&mut message, rel);
    push_str(&mut message, "' not found in schema catalog.");
    let suggestion = match similar {
        Some(s) => {
            let mut t = chars_of("Did you mean '");
            push_all(&mut t, &s);
            push_str(&mut t, "'?");
            Some(t)
        },
        None => None,
    };
    let e = make_error(message, slice(rel, 0, rel.len()), ValidationCategory::Vocabulary, suggestion);
    assert(rel@.subrange(0, rel@.len() as int) =~= rel@);
    e
}

fn scope_error_exec(var: &Vec<char>, lhs: &Vec<char>) -> (e: ValidationError)
    ensures
        e@ == scope_error(var@, lhs@),
{
    let mut message = chars_of("Variable '");
    push_all(&mut message, var);
    push_str(&mut message, "' used in condition but not bound in any body atom.");
    let mut hint = chars_of("Add a body atom that binds '");
    push_all(&mut hint, var);
    push_str(&mut hint, "', e.g. some_relation(");
    push_all(&mut hint, var);
    push_str(&mut hint, ").");
    let e = make_error(message, slice(lhs, 0, lhs.len()), ValidationCategory::Scope, Some(hint));
    assert(lhs@.subrange(0, lhs@.len() as int) =~= lhs@);
    e
}

impl DatalogChecker {
    fn vocabulary_errors_exec(&self, rels: &Vec<Vec<char>>, head_rel: &Vec<char>) -> (r: Vec<
        ValidationError,
    >)
        ensures
            error_views(r@) == vocabulary_errors(self@, views(rels@), head_rel@),
    {
        let mut errors: Vec<ValidationError> = Vec::new();
        let mut i: usize = 0;
        while i < rels.len()
            invariant
                i <= rels.len(),
                error_views(errors@) == vocabulary_errors(
                    self@,
                    views(rels@).subrange(0, i as int),
                    head_rel@,
                ),
            decreases rels.len() - i,
        {
            let ghost pre = views(rels@).subrange(0, i as int);
            let ghost post = views(rels@).subrange(0, i + 1);
            assert(post.drop_last() =~= pre);
            assert(post.last() == rels@[i as int]@);
            let rel = &rels[i];
            if !text_eq(rel, head_rel) && self.lookup(rel).is_none() {
                let similar = self.find_similar_relation(rel);
                let e = vocabulary_error_exec(rel, similar);
                let ghost ev = error_views(errors@);
                errors.push(e);
                assert(error_views(errors@) =~= ev.push(e@));
            }
            i += 1;
        }
        assert(views(rels@).subrange(0, rels.len() as int) =~= views(rels@));
        errors
    }

    /// The field `col` of the first referenced relation that has it.
    fn column_of_exec(&self, rels: &Vec<Vec<char>>, col: &Vec<char>) -> (r: Option<(ColumnKind, Vec<char>)>)
        ensures
            r matches Some((k, label)) ==> column_of(self@, views(rels@), col@) matches Some(f)
                && f.kind == k && f.type_label == label@,
            r is None ==> column_of(self@, views(rels@), col@) is None,
    {
        let mut i: usize = 0;
        while i < rels.len()
            invariant
                i <= rels.len(),
                column_of(self@, views(rels@).subrange(0, i as int), col@) is None,
            decreases rels.len() - i,
        {
            let ghost pre = views(rels@).subrange(0, i as int);
            let ghost post = views(rels@).subrange(0, i + 1);
            assert(post.drop_last() =~= pre);
            assert(post.last() == rels@[i as int]@);
            match self.lookup(&rels[i]) {
                Some(schema) => {
                    let mut j: usize = 0;
                    while j < schema.fields.len()
                        invariant
                            j <= schema.fields.len(),
                            i < rels.len(),
                            field_named(schema@.subrange(0, j as int), col@) is None,
                            column_of(self@, pre, col@) is None,
                            schema_of(self@, rels@[i as int]@) == Some(schema@),
                            post.drop_last() == pre,
                            post.last() == rels@[i as int]@,
                            post == views(rels@).subrange(0, i + 1),
                        decreases schema.fields.len() - j,
                    {
                        let ghost fpre = schema@.subrange(0, j as int);
                        let ghost fpost = schema@.subrange(0, j + 1);
                        assert(fpost.drop_last() =~= fpre);
                        assert(fpost.last() == schema.fields@[j as int]@);
                        let name = chars_of(schema.fields[j].name.as_str());
                        if text_eq(&name, col) {
                            proof {
                                lemma_field_prefix(schema@, j + 1, col@);
                                lemma_column_prefix(self@, views(rels@), i + 1, col@);
                            }
                            let label = chars_of(schema.fields[j].type_label.as_str());
                            return Some((schema.fields[j].kind, label));
                        }
                        j += 1;
                    }
                    assert(schema@.subrange(0, schema.fields.len() as int) =~= schema@);
                },
                None => {},
            }
            i += 1;
        }
        assert(views(rels@).subrange(0, rels.len() as int) =~= views(rels@));
        None
    }
}

proof fn lemma_field_prefix(fields: Seq<FieldView>, n: int, col: Seq<char>)
    requires
        0 <= n <= fields.len(),
        field_named(fields.subrange(0, n), col) is Some,
    ensures
        field_named(fields, col) == field_named(fields.subrange(0, n), col),
    decreases fields.len() - n,
{
    if n < fields.len() {
        let s = fields.subrange(0, n + 1);
        assert(s.drop_last() =~= fields.subrange(0, n));
        lemma_field_prefix(fields, n + 1, col);
    } else {
        assert(fields.subrange(0, n) =~= fields);
    }
}

proof fn lemma_column_prefix(
    cat: Seq<(Seq<char>, Seq<FieldView>)>,
    rels: Seq<Seq<char>>,
    n: int,
    col: Seq<char>,
)
    requires
        0 <= n <= rels.len(),
        column_of(cat, rels.subrange(0, n), col) is Some,
    ensures
        column_of(cat, rels, col) == column_of(cat, rels.subrange(0, n), col),
    decreases rels.len() - n,
{
    if n < rels.len() {
        let s = rels.subrange(0, n + 1);
        assert(s.drop_last() =~= rels.subrange(0, n));
        lemma_column_prefix(cat, rels, n + 1, col);
    } else {
        assert(rels.subrange(0, n) =~= rels);
    }
}


fn mismatch_error_exec(cond: &Vec<char>, message: Vec<char>, suggestion: Vec<char>) -> (e: ValidationError)
    ensures
        e@ == mismatch_error(cond@, message@, suggestion@),
{
    let e = make_error(
        message,
        slice(cond, 0, cond.len()),
        ValidationCategory::TypeMismatch,
        Some(suggestion),
    );
    assert(cond@.subrange(0, cond@.len() as int) =~= cond@);
    e
}

fn is_single_upper_exec(v: &Vec<char>) -> (b: bool)
    ensures
        b == is_single_upper(v@),
{
    v.len() == 1 && 'A' <= v[0] && v[0] <= 'Z'
}

impl DatalogChecker {
    fn type_errors_exec(
        &self,
        rels: &Vec<Vec<char>>,
        col: &Vec<char>,
        cond: &Vec<char>,
        r: &Vec<char>,
    ) -> (errs: Vec<ValidationError>)
        ensures
            error_views(errs@) == type_errors(self@, views(rels@), col@, cond@, r@),
    {
        let mut errs: Vec<ValidationError> = Vec::new();
        match self.column_of_exec(rels, col) {
            None => {
                assert(error_views(errs@) =~= Seq::<ErrorView>::empty());
            },
            Some((kind, label)) => {
                let rhs = strip_trailing_chars(&trim_chars(&trim_chars(r)), '.');
                let mut numeric_hint = chars_of("Use a numeric literal, e.g. ");
                push_all(&mut numeric_hint, col);
                push_str(&mut numeric_hint, " > 0.9");
                match kind {
                    ColumnKind::Numeric => {
                        if quoted_exec(&rhs) {
                            let mut m = chars_of("Column '");
                            push_all(&mut m, col);
                            push_str(&mut m, "' is numeric (");
                            push_all(&mut m, &label);
                            push_str(&mut m, ") but compared against string literal '");
                            push_all(&mut m, &rhs);
                            push_str(&mut m, "'.");
                            let e = mismatch_error_exec(cond, m, numeric_hint);
                            errs.push(e);
                            assert(error_views(errs@) =~= seq![e@]);
                        } else if !is_float_literal_exec(&rhs) && !contains_exec(&rhs, &one('.'))
                            && !all_upper_exec(&rhs) {
                            let mut m = chars_of("Column '");
                            push_all(&mut m, col);
                            push_str(&mut m, "' is numeric (");
                            push_all(&mut m, &label);
                            push_str(&mut m, ") but compared against non-numeric value '");
                            push_all(&mut m, &rhs);
                            push_str(&mut m, "'.");
                            let e = mismatch_error_exec(cond, m, numeric_hint);
                            errs.push(e);
                            assert(error_views(errs@) =~= seq![e@]);
                        } else {
                            assert(error_views(errs@) =~= Seq::<ErrorView>::empty());
                        }
                    },
                    ColumnKind::Text => {
                        if !quoted_exec(&rhs) && !(contains_exec(&rhs, &one('.'))
                            || is_single_upper_exec(&rhs)) {
                            let mut m = chars_of("Column '");
                            push_all(&mut m, col);
                            push_str(&mut m, "' is string (");
                            push_all(&mut m, &label);
                            push_str(&mut m, ") but compared against unquoted value '");
                            push_all(&mut m, &rhs);
                            push_str(&mut m, "'.");
                            let mut hint = chars_of("Quote the value: ");
                            push_all(&mut hint, col);
                            push_str(&mut hint, " = '");
                            push_all(&mut hint, &rhs);
                            push_str(&mut hint, "'");
                            let e = mismatch_error_exec(cond, m, hint);
                            errs.push(e);
                            assert(error_views(errs@) =~= seq![e@]);
                        } else {
                            assert(error_views(errs@) =~= Seq::<ErrorView>::empty());
                        }
                    },
                    ColumnKind::Other => {
                        assert(error_views(errs@) =~= Seq::<ErrorView>::empty());
                    },
                }
            },
        }
        errs
    }

    fn part_errors_exec(
        &self,
        rels: &Vec<Vec<char>>,
        bound: &Vec<Vec<char>>,
        t: &Vec<char>,
        out: &mut Vec<ValidationError>,
    )
        ensures
            error_views(final(out)@) == error_views(old(out)@) + part_errors(
                self@,
                views(rels@),
                views(bound@),
                t@,
            ),
    {
        let ghost start = error_views(out@);
        if !is_check_condition_exec(t) {
            assert(error_views(out@) =~= start + Seq::<ErrorView>::empty());
            return;
        }
        match split_first_op(t) {
            Some((_, l, r)) => {
                let lhs = trim_chars(&l);
                match split_once_exec(&lhs, &one('.')) {
                    Some((var, col)) => {
                        let v = to_uppercase(&trim_chars(&var));
                        let ghost scope: Seq<ErrorView> = if views(bound@).contains(v@) {
                            Seq::empty()
                        } else {
                            seq![scope_error(v@, lhs@)]
                        };
                        if !contains_text(bound, &v) {
                            let e = scope_error_exec(&v, &lhs);
                            out.push(e);
                            assert(error_views(out@) =~= start + scope);
                        } else {
                            assert(error_views(out@) =~= start + scope);
                        }
                        let col_name = to_lowercase(&trim_chars(&col));
                        let more = self.type_errors_exec(rels, &col_name, t, &r);
                        let ghost before = error_views(out@);
                        let mut k: usize = 0;
                        while k < more.len()
                            invariant
                                k <= more.len(),
                                error_views(out@) == before + error_views(more@).subrange(
                                    0,
                                    k as int,
                                ),
                            decreases more.len() - k,
                        {
                            let e = make_error(
                                chars_of(more[k].message.as_str()),
                                chars_of(more[k].offending_fragment.as_str()),
                                more[k].category,
                                match &more[k].suggestion {
                                    Some(s) => Some(chars_of(s.as_str())),
                                    None => None,
                                },
                            );
                            assert(e@ == more@[k as int]@);
                            let ghost ov = error_views(out@);
                            out.push(e);
                            assert(error_views(out@) =~= ov.push(e@));
                            assert(error_views(more@).subrange(0, k + 1) =~= error_views(
                                more@,
                            ).subrange(0, k as int).push(more@[k as int]@));
                            k += 1;
                        }
                        assert(error_views(more@).subrange(0, more.len() as int) =~= error_views(
                            more@,
                        ));
                        assert(error_views(out@) =~= start + (scope + error_views(more@)));
                    },
                    None => {
                        assert(error_views(out@) =~= start + Seq::<ErrorView>::empty());
                    },
                }
            },
            None => {
                assert(error_views(out@) =~= start + Seq::<ErrorView>::empty());
            },
        }
    }

    fn condition_errors_exec(
        &self,
        rels: &Vec<Vec<char>>,
        bound: &Vec<Vec<char>>,
        parts: &Vec<Vec<char>>,
        out: &mut Vec<ValidationError>,
    )
        ensures
            error_views(final(out)@) == error_views(old(out)@) + condition_errors(
                self@,
                views(rels@),
                views(bound@),
                views(parts@),
            ),
    {
        let ghost start = error_views(out@);
        let mut i: usize = 0;
        assert(error_views(out@) =~= start + condition_errors(
            self@,
            views(rels@),
            views(bound@),
            views(parts@).subrange(0, 0),
        ));
        while i < parts.len()
            invariant
                i <= parts.len(),
                error_views(out@) == start + condition_errors(
                    self@,
                    views(rels@),
                    views(bound@),
                    views(parts@).subrange(0, i as int),
                ),
            decreases parts.len() - i,
        {
            let ghost pre = views(parts@).subrange(0, i as int);
            let ghost post = views(parts@).subrange(0, i + 1);
            assert(post.drop_last() =~= pre);
            assert(post.last() == parts@[i as int]@);
            let t = trim_chars(&parts[i]);
            self.part_errors_exec(rels, bound, &t, out);
            i += 1;
        }
        assert(views(parts@).subrange(0, parts.len() as int) =~= views(parts@));
    }

    /// Validate a Datalog rule or constraint expression (see
    /// [`validate_spec`] for what is reported).
    pub fn validate(&self, source: &str) -> (r: ValidationResult)
        requires
            self.wf(),
        ensures
            r@ == validate_spec(self@, source@),
    {
        let src = trim_chars(&chars_of(source));
        if src.len() == 0 {
            let e = make_error(
                chars_of("Empty Datalog source."),
                Vec::new(),
                ValidationCategory::Syntax,
                Some(chars_of("Provide a valid Datalog rule.")),
            );
            let mut errors: Vec<ValidationError> = Vec::new();
            errors.push(e);
            let r = ValidationResult { is_valid: false, errors };
            assert(e@.fragment =~= Seq::<char>::empty());
            assert(r@.errors =~= seq![empty_source_error()]);
            return r;
        }
        let sep = vec![':', '-'];
        assert(sep@ =~= seq![':', '-']);
        match split_once_exec(&src, &sep) {
            Some((head, body)) => {
                let body2 = strip_trailing_chars(&trim_chars(&body), '.');
                let raw = split_exec(&body2, &one(','));
                let parts = trim_all(&raw);
                let (rels, bound) = scan_atoms(&parts);
                let head_name = match split_once_exec(&head, &one('(')) {
                    Some((h, _)) => h,
                    None => slice(&head, 0, head.len()),
                };
                assert(head@.subrange(0, head@.len() as int) =~= head@);
                let head_rel = to_lowercase(&trim_chars(&head_name));
                let mut errors = self.vocabulary_errors_exec(&rels, &head_rel);
                self.condition_errors_exec(&rels, &bound, &parts, &mut errors);
                if errors.len() == 0 {
                    let r = ValidationResult::valid();
                    assert(r@.errors =~= rule_errors(self@, head@, body@));
                    r
                } else {
                    ValidationResult { is_valid: false, errors }
                }
            },
            None => {
                let r = ValidationResult::valid();
                assert(r@.errors =~= Seq::<ErrorView>::empty());
                r
            },
        }
    }
}

impl Default for DatalogChecker {
    fn default() -> (r: Self)
        ensures
            r.wf(),
            r@.len() == 0,
    {
        Self::new()
    }
}

} // verus!
