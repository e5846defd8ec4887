//! What a session attaches to query results as provenance, the reasoning
//! tree it reads back from them, and the provenance mode a configuration
//! names.

use vstd::prelude::*;

use crate::kernel::provenance::{
    bincode_terms, bincode_terms_decoded, explain_text, merged_terms, token_text, PolynomialSemiring,
    ProvenanceMode, ProvenanceToken, Semiring,
};
use crate::text::{chars_of, decimal, decimal_chars, push_all, push_str, str_lowercase, string_of, text_eq, to_lowercase};

verus! {

// ── The provenance mode of a configuration ─────────────────────────────

/// The mode a configuration's `provenance_mode` names: `boolean` or
/// `bool`, `probability` or `prob` (in any letter case); anything else is
/// polynomial.
pub open spec fn config_mode_spec(value: Seq<char>) -> ProvenanceMode {
    let v = str_lowercase(value);
    if v == "boolean"@ || v == "bool"@ {
        ProvenanceMode::Boolean
    } else if v == "probability"@ || v == "prob"@ {
        ProvenanceMode::Probability
    } else {
        ProvenanceMode::Polynomial
    }
}

/// The provenance mode a configuration value names (see
/// [`config_mode_spec`]).
pub fn config_provenance_mode(value: &str) -> (m: ProvenanceMode)
    ensures
        m == config_mode_spec(value@),
{
    let v = to_lowercase(&chars_of(value));
    if text_eq(&v, &chars_of("boolean")) || text_eq(&v, &chars_of("bool")) {
        ProvenanceMode::Boolean
    } else if text_eq(&v, &chars_of("probability")) || text_eq(&v, &chars_of("prob")) {
        ProvenanceMode::Probability
    } else {
        ProvenanceMode::Polynomial
    }
}

/// A value of a nested TOML table, as the library reads it.
#[derive(Debug, Clone, PartialEq, Eq)]
pub enum TomlScalar {
    /// A string.
    Text(String),
    /// A boolean.
    Flag(bool),
    /// Any other value (a number, a date, an array or a deeper table).
    Other,
}

/// A value of a top-level TOML key, as the library reads it.
#[derive(Debug, Clone, PartialEq, Eq)]
pub enum TomlValue {
    /// A string.
    Text(String),
    /// A boolean.
    Flag(bool),
    /// A table, with its entries.
    Table(Vec<(String, TomlScalar)>),
    /// Any other value (a number, a date or an array).
    Other,
}

/// The value of a [`TomlScalar`].
pub enum ScalarView {
    Text(Seq<char>),
    Flag(bool),
    Other,
}

/// The value of a [`TomlValue`].
pub enum TomlView {
    Text(Seq<char>),
    Flag(bool),
    Table(Seq<(Seq<char>, ScalarView)>),
    Other,
}

impl View for TomlScalar {
    type V = ScalarView;

    open spec fn view(&self) -> ScalarView {
        match self {
            TomlScalar::Text(s) => ScalarView::Text(s@),
            TomlScalar::Flag(b) => ScalarView::Flag(*b),
            TomlScalar::Other => ScalarView::Other,
        }
    }
}

/// The entries of a nested table as values.
pub open spec fn scalar_entry_views(t: Seq<(String, TomlScalar)>) -> Seq<(Seq<char>, ScalarView)> {
    t.map_values(|e: (String, TomlScalar)| (e.0@, e.1@))
}

impl View for TomlValue {
    type V = TomlView;

    open spec fn view(&self) -> TomlView {
        match self {
            TomlValue::Text(s) => TomlView::Text(s@),
            TomlValue::Flag(b) => TomlView::Flag(*b),
            TomlValue::Table(t) => TomlView::Table(scalar_entry_views(t@)),
            TomlValue::Other => TomlView::Other,
        }
    }
}

/// The entries of a top-level table as values.
pub open spec fn toml_entry_views(t: Seq<(String, TomlValue)>) -> Seq<(Seq<char>, TomlView)> {
    t.map_values(|e: (String, TomlValue)| (e.0@, e.1@))
}

/// A parse result as a value.
pub open spec fn toml_result_view(
    r: std::result::Result<Vec<(String, TomlValue)>, String>,
) -> std::result::Result<Seq<(Seq<char>, TomlView)>, Seq<char>> {
    match r {
        Ok(t) => Ok(toml_entry_views(t@)),
        Err(e) => Err(e@),
    }
}

/// What `toml::from_str` into a `toml::Table` reads from a text: its
/// entries, in the order the table holds them, each value read as a
/// [`TomlValue`]; or the parser's error message.
pub uninterp spec fn toml_table(text: Seq<char>) -> std::result::Result<
    Seq<(Seq<char>, TomlView)>,
    Seq<char>,
>;

/// `toml::from_str` of a text into a `toml::Table`, each entry converted
/// to a [`TomlValue`] (the entries of a nested table to [`TomlScalar`]s).
/// The result is named by [`toml_table`].
#[verifier::external_body]
fn parse_toml_table(text: &str) -> (r: std::result::Result<Vec<(String, TomlValue)>, String>)
    ensures
        toml_result_view(r) == toml_table(text@),
{
    let table: toml::Table = toml::from_str(text).map_err(|e| e.to_string())?;
    Ok(table.into_iter().map(|(k, v)| (k, match v {
        toml::Value::String(s) => TomlValue::Text(s),
        toml::Value::Boolean(b) => TomlValue::Flag(b),
        toml::Value::Table(m) => TomlValue::Table(m.into_iter().map(|(k, v)| (k, match v {
            toml::Value::String(s) => TomlScalar::Text(s),
            toml::Value::Boolean(b) => TomlScalar::Flag(b),
            _ => TomlScalar::Other,
        })).collect()),
        _ => TomlValue::Other,
    })).collect())
}

/// The value of the first top-level entry named `key`.
pub open spec fn toml_lookup(t: Seq<(Seq<char>, TomlView)>, key: Seq<char>) -> Option<TomlView>
    decreases t.len(),
{
    if t.len() == 0 {
        None
    } else if t[0].0 == key {
        Some(t[0].1)
    } else {
        toml_lookup(t.drop_first(), key)
    }
}

/// The value of the first entry of a nested table named `key`.
pub open spec fn scalar_lookup(t: Seq<(Seq<char>, ScalarView)>, key: Seq<char>) -> Option<ScalarView>
    decreases t.len(),
{
    if t.len() == 0 {
        None
    } else if t[0].0 == key {
        Some(t[0].1)
    } else {
        scalar_lookup(t.drop_first(), key)
    }
}

/// The engine settings of a configuration: the `[engine]` table's
/// `provenance_mode` when it is a string and `gpu` when it is a boolean.
pub open spec fn engine_settings_spec(t: Seq<(Seq<char>, TomlView)>) -> (Option<Seq<char>>, Option<bool>) {
    match toml_lookup(t, "engine"@) {
        Some(TomlView::Table(e)) => (
            match scalar_lookup(e, "provenance_mode"@) {
                Some(ScalarView::Text(s)) => Some(s),
                _ => None,
            },
            match scalar_lookup(e, "gpu"@) {
                Some(ScalarView::Flag(b)) => Some(b),
                _ => None,
            },
        ),
        _ => (None, None),
    }
}

fn find_entry<'a>(t: &'a Vec<(String, TomlValue)>, key: &str) -> (r: Option<&'a TomlValue>)
    ensures
        match toml_lookup(toml_entry_views(t@), key@) {
            Some(v) => r matches Some(x) && x@ == v,
            None => r is None,
        },
{
    let k = chars_of(key);
    let mut i: usize = 0;
    assert(toml_entry_views(t@).subrange(0, t@.len() as int) =~= toml_entry_views(t@));
    while i < t.len()
        invariant
            i <= t.len(),
            k@ == key@,
            toml_lookup(toml_entry_views(t@), key@) == toml_lookup(
                toml_entry_views(t@).subrange(i as int, t@.len() as int),
                key@,
            ),
        decreases t.len() - i,
    {
        let ghost rest = toml_entry_views(t@).subrange(i as int, t@.len() as int);
        assert(rest[0] == toml_entry_views(t@)[i as int]);
        assert(rest.drop_first() =~= toml_entry_views(t@).subrange(i + 1, t@.len() as int));
        if text_eq(&chars_of(t[i].0.as_str()), &k) {
            return Some(&t[i].1);
        }
        i += 1;
    }
    None
}

fn find_scalar<'a>(t: &'a Vec<(String, TomlScalar)>, key: &str) -> (r: Option<&'a TomlScalar>)
    ensures
        match scalar_lookup(scalar_entry_views(t@), key@) {
            Some(v) => r matches Some(x) && x@ == v,
            None => r is None,
        },
{
    let k = chars_of(key);
    let mut i: usize = 0;
    assert(scalar_entry_views(t@).subrange(0, t@.len() as int) =~= scalar_entry_views(t@));
    while i < t.len()
        invariant
            i <= t.len(),
            k@ == key@,
            scalar_lookup(scalar_entry_views(t@), key@) == scalar_lookup(
                scalar_entry_views(t@).subrange(i as int, t@.len() as int),
                key@,
            ),
        decreases t.len() - i,
    {
        let ghost rest = scalar_entry_views(t@).subrange(i as int, t@.len() as int);
        assert(rest[0] == scalar_entry_views(t@)[i as int]);
        assert(rest.drop_first() =~= scalar_entry_views(t@).subrange(i + 1, t@.len() as int));
        if text_eq(&chars_of(t[i].0.as_str()), &k) {
            return Some(&t[i].1);
        }
        i += 1;
    }
    None
}

/// The engine settings of a parsed configuration (see
/// [`engine_settings_spec`]).
pub fn engine_settings(t: &Vec<(String, TomlValue)>) -> (r: (Option<String>, Option<bool>))
    ensures
        (match r.0 {
            Some(s) => Some(s@),
            None => None,
        }, r.1) == engine_settings_spec(toml_entry_views(t@)),
{
    match find_entry(t, "engine") {
        Some(TomlValue::Table(e)) => {
            let mode = match find_scalar(e, "provenance_mode") {
                Some(TomlScalar::Text(s)) => Some(string_of(&chars_of(s.as_str()))),
                _ => None,
            };
            let gpu = match find_scalar(e, "gpu") {
                Some(TomlScalar::Flag(b)) => Some(*b),
                _ => None,
            };
            (mode, gpu)
        },
        _ => (None, None),
    }
}

/// The engine settings of a configuration file's text: the provenance
/// mode its `provenance_mode` names (see [`config_mode_spec`]) and its
/// `gpu` flag, each when present (see [`engine_settings_spec`]); the
/// parser's message when the text is not TOML.
pub fn engine_config_from_toml(text: &str) -> (r: std::result::Result<(Option<ProvenanceMode>, Option<bool>), String>)
    ensures
        match toml_table(text@) {
            Err(e) => r matches Err(m) && m@ == e,
            Ok(t) => r matches Ok((m, g)) && g == engine_settings_spec(t).1 && m == match engine_settings_spec(t).0 {
                Some(s) => Some(config_mode_spec(s)),
                None => None,
            },
        },
{
    match parse_toml_table(text) {
        Err(e) => Err(e),
        Ok(t) => {
            let (mode, gpu) = engine_settings(&t);
            let m = match mode {
                Some(s) => Some(config_provenance_mode(s.as_str())),
                None => None,
            };
            Ok((m, gpu))
        },
    }
}

// ── The provenance column of a query result ────────────────────────────

/// The little-endian bytes of the `f64` probability 1.
pub open spec fn probability_one_bytes() -> Seq<u8> {
    seq![0u8, 0u8, 0u8, 0u8, 0u8, 0u8, 0xf0u8, 0x3fu8]
}

/// The token of a query's `row`-th output row:
/// `query_pipeline:sql:[row_<row>]`.
pub open spec fn row_token_text(row: nat) -> Seq<char> {
    token_text("query_pipeline"@, "sql"@, seq!["row_"@ + decimal(row)])
}

/// The provenance a query attaches to its `row`-th output row: a true
/// boolean, the probability 1, or the encoded singleton polynomial of the
/// row's token.
pub open spec fn provenance_cell_ok(mode: ProvenanceMode, row: nat, bytes: Seq<u8>) -> bool {
    match mode {
        ProvenanceMode::Boolean => bytes == seq![1u8],
        ProvenanceMode::Probability => bytes == probability_one_bytes(),
        ProvenanceMode::Polynomial => bytes == bincode_terms(seq![(row_token_text(row), 1usize)]),
    }
}

fn polynomial_cell(row: u64) -> (r: Vec<u8>)
    ensures
        provenance_cell_ok(ProvenanceMode::Polynomial, row as nat, r@),
{
    let mut src = chars_of("row_");
    push_all(&mut src, &decimal_chars(row));
    let source = string_of(&src);
    let ghost sv = source@;
    let sources = vec![source];
    assert(sources@.map_values(|s: String| s@) =~= seq![sv]);
    let token = ProvenanceToken {
        model_ver_id: string_of(&chars_of("query_pipeline")),
        func_id: string_of(&chars_of("sql")),
        source_record_ids: sources,
    };
    let poly = PolynomialSemiring::singleton(token);
    assert(poly.entries()[0].0 == row_token_text(row as nat));
    match poly.to_bytes() {
        Ok(b) => b,
        Err(_) => Vec::new(),
    }
}

/// The provenance column a query attaches to a batch of `num_rows` rows
/// (see [`provenance_cell_ok`]).
pub fn provenance_cells(mode: ProvenanceMode, num_rows: usize) -> (r: Vec<Vec<u8>>)
    ensures
        r.len() == num_rows,
        forall|i: int| 0 <= i < num_rows ==> provenance_cell_ok(mode, i as nat, #[trigger] r@[i]@),
{
    let mut r: Vec<Vec<u8>> = Vec::new();
    let mut i: usize = 0;
    while i < num_rows
        invariant
            i <= num_rows,
            r.len() == i,
            forall|k: int| 0 <= k < i ==> provenance_cell_ok(mode, k as nat, #[trigger] r@[k]@),
        decreases num_rows - i,
    {
        let cell = match mode {
            ProvenanceMode::Boolean => {
                let v = vec![1u8];
                assert(v@ =~= seq![1u8]);
                v
            },
            ProvenanceMode::Probability => {
                let v = vec![0u8, 0u8, 0u8, 0u8, 0u8, 0u8, 0xf0u8, 0x3fu8];
                assert(v@ =~= probability_one_bytes());
                v
            },
            ProvenanceMode::Polynomial => polynomial_cell(i as u64),
        };
        r.push(cell);
        i += 1;
    }
    r
}

// ── The reasoning tree ─────────────────────────────────────────────────

/// The provenance column of a result batch, as the reasoning tree reads
/// it.
pub struct ProvenanceColumn {
    /// The batch's row count.
    pub num_rows: usize,
    /// The column's cells, when it holds bytes; `None` for a null cell.
    pub cells: Option<Vec<Option<Vec<u8>>>>,
}

/// The value of a [`ProvenanceColumn`].
pub struct ColumnView {
    pub num_rows: nat,
    pub cells: Option<Seq<Option<Seq<u8>>>>,
}

/// The cells as byte sequences.
pub open spec fn cell_views(cells: Seq<Option<Vec<u8>>>) -> Seq<Option<Seq<u8>>> {
    cells.map_values(
        |c: Option<Vec<u8>>|
            match c {
                Some(b) => Some(b@),
                None => None,
            },
    )
}

impl View for ProvenanceColumn {
    type V = ColumnView;

    open spec fn view(&self) -> ColumnView {
        ColumnView {
            num_rows: self.num_rows as nat,
            cells: match self.cells {
                Some(c) => Some(cell_views(c@)),
                None => None,
            },
        }
    }
}

/// The batches' provenance columns as values (`None` for a batch without
/// one).
pub open spec fn column_views(cols: Seq<Option<ProvenanceColumn>>) -> Seq<Option<ColumnView>> {
    cols.map_values(
        |c: Option<ProvenanceColumn>|
            match c {
                Some(p) => Some(p@),
                None => None,
            },
    )
}

/// What a row's provenance reads as: its polynomial explained, or the
/// count of bytes that do not decode as one.
pub open spec fn cell_reading(bytes: Seq<u8>) -> Seq<char> {
    match bincode_terms_decoded(bytes) {
        Some(t) => explain_text(merged_terms(t)),
        None => "<raw "@ + decimal(bytes.len()) + " bytes>"@,
    }
}

/// The lines of the non-null cells among the first `n`.
pub open spec fn cell_lines(cells: Seq<Option<Seq<u8>>>, n: int) -> Seq<char>
    decreases n,
{
    if n <= 0 {
        Seq::empty()
    } else {
        cell_lines(cells, n - 1) + match cells[n - 1] {
            Some(b) => "  row "@ + decimal((n - 1) as nat) + ": "@ + cell_reading(b) + "\n"@,
            None => Seq::empty(),
        }
    }
}

/// The part of the tree of the `i`-th batch.
pub open spec fn batch_section(i: nat, col: Option<ColumnView>) -> Seq<char> {
    match col {
        None => Seq::empty(),
        Some(c) => "── Batch "@ + decimal(i) + " ("@ + decimal(c.num_rows) + " rows) ──\n"@ + match c.cells {
            Some(cells) => cell_lines(cells, cells.len() as int),
            None => Seq::empty(),
        },
    }
}

/// The sections of the first `n` batches.
pub open spec fn tree_text(cols: Seq<Option<ColumnView>>, n: int) -> Seq<char>
    decreases n,
{
    if n <= 0 {
        Seq::empty()
    } else {
        tree_text(cols, n - 1) + batch_section((n - 1) as nat, cols[n - 1])
    }
}

/// The reasoning tree of a query result: none under boolean provenance or
/// when no batch has a provenance column; otherwise each such batch's
/// header and the reading of each non-null cell.
pub open spec fn reasoning_tree_spec(mode: ProvenanceMode, cols: Seq<Option<ColumnView>>) -> Option<
    Seq<char>,
> {
    if mode == ProvenanceMode::Boolean {
        None
    } else {
        let t = tree_text(cols, cols.len() as int);
        if t.len() == 0 {
            None
        } else {
            Some(t)
        }
    }
}

fn cell_reading_exec(bytes: &Vec<u8>) -> (r: Vec<char>)
    ensures
        r@ == cell_reading(bytes@),
{
    match <PolynomialSemiring as Semiring>::from_bytes(bytes.as_slice()) {
        Ok(p) => chars_of(p.explain().as_str()),
        Err(_) => {
            let mut r = chars_of("<raw ");
            push_all(&mut r, &decimal_chars(bytes.len() as u64));
            push_str(&mut r, " bytes>");
            r
        },
    }
}

fn push_cell_lines(out: &mut Vec<char>, cells: &Vec<Option<Vec<u8>>>)
    ensures
        final(out)@ == old(out)@ + cell_lines(cell_views(cells@), cells.len() as int),
{
    let ghost cv = cell_views(cells@);
    let ghost start = out@;
    let mut row: usize = 0;
    while row < cells.len()
        invariant
            row <= cells.len(),
            cv == cell_views(cells@),
            out@ == start + cell_lines(cv, row as int),
        decreases cells.len() - row,
    {
        let ghost before = out@;
        match &cells[row] {
            Some(b) => {
                push_str(out, "  row ");
                push_all(out, &decimal_chars(row as u64));
                push_str(out, ": ");
                push_all(out, &cell_reading_exec(b));
                push_str(out, "\n");
                assert(out@ =~= before + ("  row "@ + decimal(row as nat) + ": "@ + cell_reading(b@)
                    + "\n"@));
            },
            None => {},
        }
        row += 1;
    }
}

/// The reasoning tree of a query result (see [`reasoning_tree_spec`]).
pub fn reasoning_tree(mode: ProvenanceMode, columns: &Vec<Option<ProvenanceColumn>>) -> (r: Option<String>)
    ensures
        match reasoning_tree_spec(mode, column_views(columns@)) {
            Some(t) => r matches Some(s) && s@ == t,
            None => r is None,
        },
{
    if mode == ProvenanceMode::Boolean {
        return None;
    }
    let ghost cols = column_views(columns@);
    let mut tree: Vec<char> = Vec::new();
    let mut i: usize = 0;
    while i < columns.len()
        invariant
            i <= columns.len(),
            cols == column_views(columns@),
            tree@ == tree_text(cols, i as int),
        decreases columns.len() - i,
    {
        let ghost before = tree@;
        match &columns[i] {
            Some(col) => {
                push_str(&mut tree, "── Batch ");
                push_all(&mut tree, &decimal_chars(i as u64));
                push_str(&mut tree, " (");
                push_all(&mut tree, &decimal_chars(col.num_rows as u64));
                push_str(&mut tree, " rows) ──\n");
                match &col.cells {
                    Some(cells) => push_cell_lines(&mut tree, cells),
                    None => {},
                }
                assert(tree@ =~= before + batch_section(i as nat, cols[i as int]));
            },
            None => {
                assert(tree@ =~= before + batch_section(i as nat, cols[i as int]));
            },
        }
        i += 1;
    }
    if tree.len() == 0 {
        None
    } else {
        Some(string_of(&tree))
    }
}

} // verus!
