//! Fact tables of the Datalog engine and the joins between them.
//!
//! A batch of facts holds named columns and rows of cells; each cell holds
//! the text by which the engine compares values when it joins relations
//! (a string as it is, a number as it displays).

use vstd::prelude::*;

use crate::logic::engine::string_views;
use crate::text::{chars_of, string_of, text_eq};

verus! {

// ── Batches ─────────────────────────────────────────────────────────────

/// A batch of facts: named columns and rows of cells, every row as wide as
/// the columns.
#[derive(Debug)]
pub struct FactBatch {
    columns: Vec<String>,
    rows: Vec<Vec<String>>,
}

/// The value of a [`FactBatch`].
pub struct BatchView {
    pub columns: Seq<Seq<char>>,
    pub rows: Seq<Seq<Seq<char>>>,
}

/// The views of the rows of a batch.
pub open spec fn row_views(rows: Seq<Vec<String>>) -> Seq<Seq<Seq<char>>> {
    rows.map_values(|r: Vec<String>| string_views(r@))
}

impl View for FactBatch {
    type V = BatchView;

    closed spec fn view(&self) -> BatchView {
        BatchView { columns: string_views(self.columns@), rows: row_views(self.rows@) }
    }
}

/// Every row has one cell per column.
pub open spec fn batch_wf(b: BatchView) -> bool {
    forall|i: int| 0 <= i < b.rows.len() ==> #[trigger] b.rows[i].len() == b.columns.len()
}

/// Every row has one cell per column.
pub open spec fn rows_fit(columns: Seq<Seq<char>>, rows: Seq<Seq<Seq<char>>>) -> bool {
    forall|i: int| 0 <= i < rows.len() ==> #[trigger] rows[i].len() == columns.len()
}

pub fn copy_string(s: &String) -> (r: String)
    ensures
        r@ == s@,
{
    string_of(&chars_of(s.as_str()))
}

fn copy_strings(v: &Vec<String>) -> (r: Vec<String>)
    ensures
        string_views(r@) == string_views(v@),
{
    let mut r: Vec<String> = Vec::new();
    let mut i: usize = 0;
    while i < v.len()
        invariant
            i <= v.len(),
            string_views(r@) == string_views(v@).subrange(0, i as int),
        decreases v.len() - i,
    {
        let ghost before = string_views(r@);
        r.push(copy_string(&v[i]));
        assert(string_views(r@) =~= before.push(v@[i as int]@));
        assert(string_views(v@).subrange(0, i + 1) =~= string_views(v@).subrange(0, i as int).push(
            v@[i as int]@,
        ));
        i += 1;
    }
    assert(string_views(v@).subrange(0, v.len() as int) =~= string_views(v@));
    r
}

fn same_text(a: &String, b: &String) -> (r: bool)
    ensures
        r == (a@ == b@),
{
    text_eq(&chars_of(a.as_str()), &chars_of(b.as_str()))
}

impl FactBatch {
    #[verifier::type_invariant]
    spec fn fits(self) -> bool {
        rows_fit(string_views(self.columns@), row_views(self.rows@))
    }

    /// A batch of the given columns and rows; `None` when a row is not as
    /// wide as the columns.
    pub fn try_new(columns: Vec<String>, rows: Vec<Vec<String>>) -> (r: Option<FactBatch>)
        ensures
            r is Some <==> rows_fit(string_views(columns@), row_views(rows@)),
            r matches Some(b) ==> b@ == (BatchView {
                columns: string_views(columns@),
                rows: row_views(rows@),
            }) && batch_wf(b@),
    {
        let mut i: usize = 0;
        while i < rows.len()
            invariant
                i <= rows.len(),
                forall|k: int| 0 <= k < i ==> #[trigger] rows@[k]@.len() == columns@.len(),
            decreases rows.len() - i,
        {
            if rows[i].len() != columns.len() {
                assert(row_views(rows@)[i as int].len() != string_views(columns@).len());
                return None;
            }
            i += 1;
        }
        assert forall|k: int| 0 <= k < row_views(rows@).len() implies #[trigger] row_views(
            rows@,
        )[k].len() == string_views(columns@).len() by {
            assert(rows@[k]@.len() == columns@.len());
        }
        Some(FactBatch { columns, rows })
    }

    /// The column names.
    pub fn columns(&self) -> (r: &Vec<String>)
        ensures
            string_views(r@) == self@.columns,
    {
        &self.columns
    }

    /// The rows.
    pub fn rows(&self) -> (r: &Vec<Vec<String>>)
        ensures
            row_views(r@) == self@.rows,
    {
        &self.rows
    }

    /// The number of rows.
    pub fn num_rows(&self) -> (n: usize)
        ensures
            n == self@.rows.len(),
    {
        self.rows.len()
    }

    /// A copy of the batch.
    pub fn duplicate(&self) -> (r: FactBatch)
        ensures
            r@ == self@,
    {
        proof {
            use_type_invariant(self);
        }
        let columns = copy_strings(&self.columns);
        let mut rows: Vec<Vec<String>> = Vec::new();
        let mut i: usize = 0;
        while i < self.rows.len()
            invariant
                i <= self.rows.len(),
                row_views(rows@) == row_views(self.rows@).subrange(0, i as int),
            decreases self.rows.len() - i,
        {
            let ghost before = row_views(rows@);
            let row = copy_strings(&self.rows[i]);
            rows.push(row);
            assert(row_views(rows@) =~= before.push(string_views(self.rows@[i as int]@)));
            assert(row_views(self.rows@).subrange(0, i + 1) =~= row_views(self.rows@).subrange(
                0,
                i as int,
            ).push(string_views(self.rows@[i as int]@)));
            i += 1;
        }
        assert(row_views(self.rows@).subrange(0, self.rows.len() as int) =~= row_views(
            self.rows@,
        ));
        assert(string_views(columns@) =~= string_views(self.columns@));
        assert(row_views(rows@) =~= row_views(self.rows@));
        let r = FactBatch { columns, rows };
        assert(r@.columns =~= self@.columns);
        assert(r@.rows =~= self@.rows);
        r
    }
}

// ── Joins ───────────────────────────────────────────────────────────────

/// The most rows a cross product of two batches may have.
pub const MAX_CROSS_ROWS: usize = 10000;

/// The position of the first column named `name`; the number of columns
/// when there is none.
pub open spec fn first_index(cols: Seq<Seq<char>>, name: Seq<char>) -> int
    decreases cols.len(),
{
    if cols.len() == 0 {
        0
    } else if cols[0] == name {
        0
    } else {
        1 + first_index(cols.drop_first(), name)
    }
}

proof fn lemma_first_index(cols: Seq<Seq<char>>, name: Seq<char>)
    ensures
        0 <= first_index(cols, name) <= cols.len(),
        cols.contains(name) ==> first_index(cols, name) < cols.len() && cols[first_index(
            cols,
            name,
        )] == name,
    decreases cols.len(),
{
    if cols.len() > 0 && cols[0] != name {
        lemma_first_index(cols.drop_first(), name);
        if cols.contains(name) {
            let k = choose|k: int| 0 <= k < cols.len() && cols[k] == name;
            assert(cols.drop_first()[k - 1] == name);
        }
    }
}

/// The columns of `lc` that `rc` also has, in the order of `lc`.
pub open spec fn shared_columns(lc: Seq<Seq<char>>, rc: Seq<Seq<char>>) -> Seq<Seq<char>>
    decreases lc.len(),
{
    if lc.len() == 0 {
        Seq::empty()
    } else {
        let s = shared_columns(lc.drop_last(), rc);
        if rc.contains(lc.last()) {
            s.push(lc.last())
        } else {
            s
        }
    }
}

proof fn lemma_shared_in_both(lc: Seq<Seq<char>>, rc: Seq<Seq<char>>)
    ensures
        forall|k: int|
            0 <= k < shared_columns(lc, rc).len() ==> lc.contains(#[trigger] shared_columns(
                lc,
                rc,
            )[k]) && rc.contains(shared_columns(lc, rc)[k]),
    decreases lc.len(),
{
    if lc.len() > 0 {
        lemma_shared_in_both(lc.drop_last(), rc);
        let s = shared_columns(lc.drop_last(), rc);
        assert forall|k: int| 0 <= k < s.len() implies lc.contains(#[trigger] s[k]) by {
            let j = choose|j: int| 0 <= j < lc.drop_last().len() && lc.drop_last()[j] == s[k];
            assert(lc[j] == s[k]);
        }
        assert(lc[lc.len() - 1] == lc.last());
    }
}

/// The join key of a row: its cells at the shared columns.
pub open spec fn join_key(b: BatchView, names: Seq<Seq<char>>, row: int) -> Seq<Seq<char>> {
    Seq::new(names.len(), |k: int| b.rows[row][first_index(b.columns, names[k])])
}

/// The cells among the first `n` of `cells` whose column is not shared.
pub open spec fn kept(cols: Seq<Seq<char>>, cells: Seq<Seq<char>>, shared: Seq<Seq<char>>, n: int) -> Seq<Seq<char>>
    decreases n,
{
    if n <= 0 {
        Seq::empty()
    } else {
        let k = kept(cols, cells, shared, n - 1);
        if shared.contains(cols[n - 1]) {
            k
        } else {
            k.push(cells[n - 1])
        }
    }
}

proof fn lemma_kept_len(cols: Seq<Seq<char>>, a: Seq<Seq<char>>, b: Seq<Seq<char>>, shared: Seq<Seq<char>>, n: int)
    ensures
        kept(cols, a, shared, n).len() == kept(cols, b, shared, n).len(),
    decreases n,
{
    if n > 0 {
        lemma_kept_len(cols, a, b, shared, n - 1);
    }
}

/// The joined rows of left row `lrow` with the first `n` right rows: each
/// right row whose key agrees gives the left row followed by the right
/// row's cells at the columns not shared.
pub open spec fn matched_rows(l: BatchView, r: BatchView, shared: Seq<Seq<char>>, lrow: int, n: int) -> Seq<Seq<Seq<char>>>
    decreases n,
{
    if n <= 0 {
        Seq::empty()
    } else {
        let m = matched_rows(l, r, shared, lrow, n - 1);
        if join_key(l, shared, lrow) == join_key(r, shared, n - 1) {
            m.push(l.rows[lrow] + kept(r.columns, r.rows[n - 1], shared, r.columns.len() as int))
        } else {
            m
        }
    }
}

/// The joined rows of the first `m` left rows, left row by left row.
pub open spec fn joined_rows(l: BatchView, r: BatchView, shared: Seq<Seq<char>>, m: int) -> Seq<Seq<Seq<char>>>
    decreases m,
{
    if m <= 0 {
        Seq::empty()
    } else {
        joined_rows(l, r, shared, m - 1) + matched_rows(l, r, shared, m - 1, r.rows.len() as int)
    }
}

/// Every pairing of the first `m` left rows with the right rows.
pub open spec fn cross_rows(l: BatchView, r: BatchView, m: int) -> Seq<Seq<Seq<char>>>
    decreases m,
{
    if m <= 0 {
        Seq::empty()
    } else {
        cross_rows(l, r, m - 1) + Seq::new(r.rows.len(), |j: int| l.rows[m - 1] + r.rows[j])
    }
}

/// The cross product of two batches: the left columns then the right
/// ones, every left row paired with every right row.
pub open spec fn cross_spec(l: BatchView, r: BatchView) -> BatchView {
    BatchView { columns: l.columns + r.columns, rows: cross_rows(l, r, l.rows.len() as int) }
}

/// The join of two batches on the columns they share. With none shared it
/// is their cross product, unless that would exceed [`MAX_CROSS_ROWS`]
/// rows (then nothing). Otherwise the left columns and the right columns
/// not shared, over the rows whose keys agree; nothing when no row does.
pub open spec fn hash_join_spec(l: BatchView, r: BatchView) -> Option<BatchView> {
    let shared = shared_columns(l.columns, r.columns);
    if shared.len() == 0 {
        if l.rows.len() * r.rows.len() > MAX_CROSS_ROWS {
            None
        } else {
            Some(cross_spec(l, r))
        }
    } else {
        let rows = joined_rows(l, r, shared, l.rows.len() as int);
        if rows.len() == 0 {
            None
        } else {
            Some(
                BatchView {
                    columns: l.columns + kept(r.columns, r.columns, shared, r.columns.len() as int),
                    rows,
                },
            )
        }
    }
}

fn contains_string(v: &Vec<String>, x: &String) -> (r: bool)
    ensures
        r == string_views(v@).contains(x@),
{
    let mut i: usize = 0;
    while i < v.len()
        invariant
            i <= v.len(),
            forall|k: int| 0 <= k < i ==> v@[k]@ != x@,
        decreases v.len() - i,
    {
        if same_text(&v[i], x) {
            assert(string_views(v@)[i as int] == x@);
            return true;
        }
        i += 1;
    }
    assert forall|k: int| 0 <= k < string_views(v@).len() implies string_views(v@)[k] != x@ by {
        assert(v@[k]@ != x@);
    }
    false
}

fn first_index_exec(cols: &Vec<String>, name: &String) -> (r: usize)
    ensures
        r == first_index(string_views(cols@), name@),
{
    let ghost c = string_views(cols@);
    let mut i: usize = 0;
    assert(c.subrange(0, c.len() as int) =~= c);
    while i < cols.len()
        invariant
            i <= cols.len(),
            c == string_views(cols@),
            c.len() == cols@.len(),
            first_index(c, name@) == i + first_index(c.subrange(i as int, c.len() as int), name@),
        decreases cols.len() - i,
    {
        let ghost sub = c.subrange(i as int, c.len() as int);
        if same_text(&cols[i], name) {
            assert(sub[0] == name@);
            return i;
        }
        assert(sub.drop_first() =~= c.subrange(i + 1, c.len() as int));
        i += 1;
    }
    assert(c.subrange(i as int, c.len() as int) =~= Seq::<Seq<char>>::empty());
    i
}

fn shared_exec(lc: &Vec<String>, rc: &Vec<String>) -> (r: Vec<String>)
    ensures
        string_views(r@) == shared_columns(string_views(lc@), string_views(rc@)),
{
    let ghost l = string_views(lc@);
    let ghost rr = string_views(rc@);
    let mut out: Vec<String> = Vec::new();
    let mut i: usize = 0;
    assert(string_views(out@) =~= shared_columns(l.subrange(0, 0), rr));
    while i < lc.len()
        invariant
            i <= lc.len(),
            l == string_views(lc@),
            rr == string_views(rc@),
            l.len() == lc@.len(),
            string_views(out@) == shared_columns(l.subrange(0, i as int), rr),
        decreases lc.len() - i,
    {
        let ghost post = l.subrange(0, i + 1);
        assert(post.drop_last() =~= l.subrange(0, i as int));
        assert(post.last() == lc@[i as int]@);
        if contains_string(rc, &lc[i]) {
            let ghost before = string_views(out@);
            out.push(copy_string(&lc[i]));
            assert(string_views(out@) =~= before.push(lc@[i as int]@));
        }
        i += 1;
    }
    assert(l.subrange(0, lc.len() as int) =~= l);
    out
}

fn positions(cols: &Vec<String>, names: &Vec<String>) -> (r: Vec<usize>)
    requires
        forall|k: int| 0 <= k < names@.len() ==> string_views(cols@).contains(#[trigger] names@[k]@),
    ensures
        r@.len() == names@.len(),
        forall|k: int|
            0 <= k < r@.len() ==> #[trigger] r@[k] == first_index(string_views(cols@), names@[k]@)
                && r@[k] < cols@.len(),
{
    let mut r: Vec<usize> = Vec::new();
    let mut k: usize = 0;
    while k < names.len()
        invariant
            k <= names.len(),
            r@.len() == k,
            forall|j: int| 0 <= j < names@.len() ==> string_views(cols@).contains(#[trigger] names@[j]@),
            forall|j: int|
                0 <= j < k ==> #[trigger] r@[j] == first_index(string_views(cols@), names@[j]@)
                    && r@[j] < cols@.len(),
        decreases names.len() - k,
    {
        let p = first_index_exec(cols, &names[k]);
        proof {
            lemma_first_index(string_views(cols@), names@[k as int]@);
            assert(string_views(cols@).contains(names@[k as int]@));
            assert(string_views(cols@).len() == cols@.len());
        }
        let ghost before = r@;
        r.push(p);
        assert(r@ == before.push(p));
        k += 1;
    }
    r
}

fn key_of(b: &FactBatch, names: &Vec<String>, pos: &Vec<usize>, row: usize) -> (r: Vec<String>)
    requires
        row < b@.rows.len(),
        pos@.len() == names@.len(),
        forall|k: int|
            0 <= k < pos@.len() ==> #[trigger] pos@[k] == first_index(b@.columns, names@[k]@)
                && pos@[k] < b@.columns.len(),
    ensures
        string_views(r@) == join_key(b@, string_views(names@), row as int),
{
    proof {
        use_type_invariant(b);
    }
    let ghost target = join_key(b@, string_views(names@), row as int);
    let mut r: Vec<String> = Vec::new();
    let mut k: usize = 0;
    while k < pos.len()
        invariant
            k <= pos.len(),
            row < b@.rows.len(),
            rows_fit(string_views(b.columns@), row_views(b.rows@)),
            pos@.len() == names@.len(),
            forall|j: int|
                0 <= j < pos@.len() ==> #[trigger] pos@[j] == first_index(b@.columns, names@[j]@)
                    && pos@[j] < b@.columns.len(),
            target == join_key(b@, string_views(names@), row as int),
            string_views(r@) == target.subrange(0, k as int),
        decreases pos.len() - k,
    {
        assert(b@.rows[row as int].len() == b@.columns.len());
        assert(b.rows@[row as int]@.len() == b@.columns.len());
        assert(b@.columns.len() == b.columns@.len());
        assert(pos@[k as int] < b@.columns.len());
        let cell = copy_string(&b.rows[row][pos[k]]);
        let ghost before = string_views(r@);
        r.push(cell);
        assert(string_views(r@) =~= before.push(cell@));
        assert(target.subrange(0, k + 1) =~= target.subrange(0, k as int).push(target[k as int]));
        k += 1;
    }
    assert(target.subrange(0, pos.len() as int) =~= target);
    r
}

fn keys_equal(a: &Vec<String>, b: &Vec<String>) -> (r: bool)
    ensures
        r == (string_views(a@) == string_views(b@)),
{
    if a.len() != b.len() {
        assert(string_views(a@).len() != string_views(b@).len());
        return false;
    }
    let mut i: usize = 0;
    while i < a.len()
        invariant
            i <= a.len(),
            a.len() == b.len(),
            forall|k: int| 0 <= k < i ==> a@[k]@ == b@[k]@,
        decreases a.len() - i,
    {
        if !same_text(&a[i], &b[i]) {
            assert(string_views(a@)[i as int] != string_views(b@)[i as int]);
            return false;
        }
        i += 1;
    }
    assert(string_views(a@) =~= string_views(b@));
    true
}

fn keep_flags(cols: &Vec<String>, shared: &Vec<String>) -> (r: Vec<bool>)
    ensures
        r@.len() == cols@.len(),
        forall|j: int| 0 <= j < r@.len() ==> r@[j] == !string_views(shared@).contains(#[trigger] cols@[j]@),
{
    let mut r: Vec<bool> = Vec::new();
    let mut j: usize = 0;
    while j < cols.len()
        invariant
            j <= cols.len(),
            r@.len() == j,
            forall|k: int| 0 <= k < j ==> r@[k] == !string_views(shared@).contains(#[trigger] cols@[k]@),
        decreases cols.len() - j,
    {
        let c = contains_string(shared, &cols[j]);
        r.push(!c);
        j += 1;
    }
    r
}

fn append_kept(out: &mut Vec<String>, cols: &Vec<String>, cells: &Vec<String>, shared: &Vec<String>, keep: &Vec<bool>)
    requires
        cells@.len() == cols@.len(),
        keep@.len() == cols@.len(),
        forall|j: int| 0 <= j < keep@.len() ==> keep@[j] == !string_views(shared@).contains(#[trigger] cols@[j]@),
    ensures
        string_views(final(out)@) == string_views(old(out)@) + kept(
            string_views(cols@),
            string_views(cells@),
            string_views(shared@),
            cols@.len() as int,
        ),
{
    let ghost start = string_views(out@);
    let ghost c = string_views(cols@);
    let ghost v = string_views(cells@);
    let ghost sh = string_views(shared@);
    let mut j: usize = 0;
    assert(start + kept(c, v, sh, 0) =~= start);
    while j < cols.len()
        invariant
            j <= cols.len(),
            cells@.len() == cols@.len(),
            keep@.len() == cols@.len(),
            forall|k: int| 0 <= k < keep@.len() ==> keep@[k] == !string_views(shared@).contains(#[trigger] cols@[k]@),
            c == string_views(cols@),
            v == string_views(cells@),
            sh == string_views(shared@),
            string_views(out@) == start + kept(c, v, sh, j as int),
        decreases cols.len() - j,
    {
        assert(c[j as int] == cols@[j as int]@);
        if keep[j] {
            let ghost before = string_views(out@);
            let x = copy_string(&cells[j]);
            out.push(x);
            assert(string_views(out@) =~= before.push(x@));
            assert(v[j as int] == x@);
            assert(start + kept(c, v, sh, j + 1) =~= (start + kept(c, v, sh, j as int)).push(v[j as int]));
        }
        j += 1;
    }
}

fn cross_product(left: &FactBatch, right: &FactBatch) -> (r: FactBatch)
    ensures
        r@ == cross_spec(left@, right@),
{
    proof {
        use_type_invariant(left);
        use_type_invariant(right);
    }
    let mut columns = copy_strings(&left.columns);
    let ghost lc = string_views(left.columns@);
    let ghost rc = string_views(right.columns@);
    let mut j: usize = 0;
    while j < right.columns.len()
        invariant
            j <= right.columns.len(),
            lc == string_views(left.columns@),
            rc == string_views(right.columns@),
            string_views(columns@) == lc + rc.subrange(0, j as int),
        decreases right.columns.len() - j,
    {
        let ghost before = string_views(columns@);
        let x = copy_string(&right.columns[j]);
        columns.push(x);
        assert(string_views(columns@) =~= before.push(x@));
        assert(lc + rc.subrange(0, j + 1) =~= (lc + rc.subrange(0, j as int)).push(rc[j as int]));
        j += 1;
    }
    assert(rc.subrange(0, right.columns.len() as int) =~= rc);
    let ghost l = left@;
    let ghost r = right@;
    let mut rows: Vec<Vec<String>> = Vec::new();
    let mut a: usize = 0;
    while a < left.rows.len()
        invariant
            a <= left.rows.len(),
            l == left@,
            r == right@,
            rows_fit(string_views(left.columns@), row_views(left.rows@)),
            rows_fit(string_views(right.columns@), row_views(right.rows@)),
            row_views(rows@) == cross_rows(l, r, a as int),
            rows_fit(l.columns + r.columns, row_views(rows@)),
        decreases left.rows.len() - a,
    {
        let ghost base = row_views(rows@);
        let ghost block = Seq::new(r.rows.len(), |k: int| l.rows[a as int] + r.rows[k]);
        let mut b: usize = 0;
        assert(base + block.subrange(0, 0) =~= base);
        while b < right.rows.len()
            invariant
                a < left.rows.len(),
                b <= right.rows.len(),
                l == left@,
                r == right@,
                rows_fit(string_views(left.columns@), row_views(left.rows@)),
                rows_fit(string_views(right.columns@), row_views(right.rows@)),
                block == Seq::new(r.rows.len(), |k: int| l.rows[a as int] + r.rows[k]),
                row_views(rows@) == base + block.subrange(0, b as int),
                rows_fit(l.columns + r.columns, row_views(rows@)),
            decreases right.rows.len() - b,
        {
            let mut row = copy_strings(&left.rows[a]);
            let mut k: usize = 0;
            let ghost lr = string_views(left.rows@[a as int]@);
            let ghost rr = string_views(right.rows@[b as int]@);
            while k < right.rows[b].len()
                invariant
                    k <= right.rows@[b as int]@.len(),
                    b < right.rows@.len(),
                    lr == string_views(left.rows@[a as int]@),
                    rr == string_views(right.rows@[b as int]@),
                    string_views(row@) == lr + rr.subrange(0, k as int),
                decreases right.rows@[b as int]@.len() - k,
            {
                let ghost before = string_views(row@);
                let x = copy_string(&right.rows[b][k]);
                row.push(x);
                assert(string_views(row@) =~= before.push(x@));
                assert(lr + rr.subrange(0, k + 1) =~= (lr + rr.subrange(0, k as int)).push(rr[k as int]));
                k += 1;
            }
            assert(rr.subrange(0, right.rows@[b as int]@.len() as int) =~= rr);
            assert(l.rows[a as int] == lr);
            assert(r.rows[b as int] == rr);
            assert(block[b as int] == string_views(row@));
            assert(lr.len() == l.columns.len());
            assert(rr.len() == r.columns.len());
            let ghost before = row_views(rows@);
            rows.push(row);
            assert(row_views(rows@) =~= before.push(block[b as int]));
            assert(base + block.subrange(0, b + 1) =~= (base + block.subrange(0, b as int)).push(block[b as int]));
            b += 1;
        }
        assert(block.subrange(0, r.rows.len() as int) =~= block);
        a += 1;
    }
    let out = FactBatch { columns, rows };
    assert(out@.columns == l.columns + r.columns);
    out
}

/// Join two batches on the columns they share (see [`hash_join_spec`]).
pub fn hash_join(left: &FactBatch, right: &FactBatch) -> (r: Option<FactBatch>)
    ensures
        match r {
            Some(b) => hash_join_spec(left@, right@) == Some(b@),
            None => hash_join_spec(left@, right@) is None,
        },
{
    proof {
        use_type_invariant(left);
        use_type_invariant(right);
    }
    let shared = shared_exec(&left.columns, &right.columns);
    let ghost sh = string_views(shared@);
    let ghost l = left@;
    let ghost r = right@;
    if shared.len() == 0 {
        let x = left.rows.len() as u128;
        let y = right.rows.len() as u128;
        assert(x * y <= 0xffff_ffff_ffff_ffff * 0xffff_ffff_ffff_ffffu128) by (nonlinear_arith)
            requires
                x <= 0xffff_ffff_ffff_ffffu128,
                y <= 0xffff_ffff_ffff_ffffu128,
        ;
        let prod: u128 = x * y;
        if prod > 10000 {
            return None;
        }
        return Some(cross_product(left, right));
    }
    proof {
        lemma_shared_in_both(l.columns, r.columns);
        assert forall|k: int| 0 <= k < shared@.len() implies string_views(left.columns@).contains(
            #[trigger] shared@[k]@,
        ) && string_views(right.columns@).contains(shared@[k]@) by {
            assert(sh[k] == shared@[k]@);
        }
    }
    let lpos = positions(&left.columns, &shared);
    let rpos = positions(&right.columns, &shared);
    let keep = keep_flags(&right.columns, &shared);
    let mut columns = copy_strings(&left.columns);
    append_kept(&mut columns, &right.columns, &right.columns, &shared, &keep);
    let ghost width = kept(r.columns, r.columns, sh, r.columns.len() as int).len();
    let mut rows: Vec<Vec<String>> = Vec::new();
    let mut a: usize = 0;
    while a < left.rows.len()
        invariant
            a <= left.rows.len(),
            l == left@,
            r == right@,
            sh == string_views(shared@),
            rows_fit(string_views(left.columns@), row_views(left.rows@)),
            rows_fit(string_views(right.columns@), row_views(right.rows@)),
            lpos@.len() == shared@.len(),
            rpos@.len() == shared@.len(),
            forall|k: int|
                0 <= k < lpos@.len() ==> #[trigger] lpos@[k] == first_index(l.columns, shared@[k]@)
                    && lpos@[k] < l.columns.len(),
            forall|k: int|
                0 <= k < rpos@.len() ==> #[trigger] rpos@[k] == first_index(r.columns, shared@[k]@)
                    && rpos@[k] < r.columns.len(),
            keep@.len() == right.columns@.len(),
            forall|j: int|
                0 <= j < keep@.len() ==> keep@[j] == !sh.contains(#[trigger] right.columns@[j]@),
            width == kept(r.columns, r.columns, sh, r.columns.len() as int).len(),
            row_views(rows@) == joined_rows(l, r, sh, a as int),
            rows_fit(l.columns + kept(r.columns, r.columns, sh, r.columns.len() as int), row_views(rows@)),
        decreases left.rows.len() - a,
    {
        let lkey = key_of(left, &shared, &lpos, a);
        let ghost base = row_views(rows@);
        let mut b: usize = 0;
        assert(base + matched_rows(l, r, sh, a as int, 0) =~= base);
        while b < right.rows.len()
            invariant
                a < left.rows.len(),
                b <= right.rows.len(),
                l == left@,
                r == right@,
                sh == string_views(shared@),
                rows_fit(string_views(left.columns@), row_views(left.rows@)),
                rows_fit(string_views(right.columns@), row_views(right.rows@)),
                rpos@.len() == shared@.len(),
                forall|k: int|
                    0 <= k < rpos@.len() ==> #[trigger] rpos@[k] == first_index(r.columns, shared@[k]@)
                        && rpos@[k] < r.columns.len(),
                keep@.len() == right.columns@.len(),
                forall|j: int|
                    0 <= j < keep@.len() ==> keep@[j] == !sh.contains(#[trigger] right.columns@[j]@),
                string_views(lkey@) == join_key(l, sh, a as int),
                row_views(rows@) == base + matched_rows(l, r, sh, a as int, b as int),
                rows_fit(l.columns + kept(r.columns, r.columns, sh, r.columns.len() as int), row_views(rows@)),
            decreases right.rows.len() - b,
        {
            let rkey = key_of(right, &shared, &rpos, b);
            if keys_equal(&lkey, &rkey) {
                assert(l.rows[a as int].len() == l.columns.len());
                assert(r.rows[b as int].len() == r.columns.len());
                assert(right.rows@[b as int]@.len() == right.columns@.len());
                let mut row = copy_strings(&left.rows[a]);
                append_kept(&mut row, &right.columns, &right.rows[b], &shared, &keep);
                proof {
                    lemma_kept_len(r.columns, r.rows[b as int], r.columns, sh, r.columns.len() as int);
                    assert(string_views(right.rows@[b as int]@) == r.rows[b as int]);
                }
                let ghost before = row_views(rows@);
                let ghost rv = string_views(row@);
                rows.push(row);
                assert(row_views(rows@) =~= before.push(rv));
            }
            b += 1;
        }
        assert(joined_rows(l, r, sh, a + 1) == joined_rows(l, r, sh, a as int) + matched_rows(
            l,
            r,
            sh,
            a as int,
            r.rows.len() as int,
        ));
        a += 1;
    }
    if rows.len() == 0 {
        assert(row_views(rows@).len() == 0);
        return None;
    }
    let out = FactBatch { columns, rows };
    Some(out)
}

// ── Joins as row indices ────────────────────────────────────────────────

/// The pairs `(left row, right row)` of left row `a` with the first `n`
/// right rows whose keys agree, in right-row order.
pub open spec fn row_pairs(l: BatchView, r: BatchView, shared: Seq<Seq<char>>, a: int, n: int) -> Seq<(int, int)>
    decreases n,
{
    if n <= 0 {
        Seq::empty()
    } else {
        let p = row_pairs(l, r, shared, a, n - 1);
        if join_key(l, shared, a) == join_key(r, shared, n - 1) {
            p.push((a, n - 1))
        } else {
            p
        }
    }
}

/// The agreeing pairs of the first `m` left rows, left row by left row.
pub open spec fn key_pairs(l: BatchView, r: BatchView, shared: Seq<Seq<char>>, m: int) -> Seq<(int, int)>
    decreases m,
{
    if m <= 0 {
        Seq::empty()
    } else {
        key_pairs(l, r, shared, m - 1) + row_pairs(l, r, shared, m - 1, r.rows.len() as int)
    }
}

/// Every pair of one of the first `m` left rows with a right row.
pub open spec fn all_pairs(left_rows: int, right_rows: int, m: int) -> Seq<(int, int)>
    decreases m,
{
    if m <= 0 {
        Seq::empty()
    } else {
        all_pairs(left_rows, right_rows, m - 1) + Seq::new(right_rows as nat, |b: int| (m - 1, b))
    }
}

/// The positions among the first `n` right columns that are not shared.
pub open spec fn kept_positions(rc: Seq<Seq<char>>, shared: Seq<Seq<char>>, n: int) -> Seq<int>
    decreases n,
{
    if n <= 0 {
        Seq::empty()
    } else {
        let k = kept_positions(rc, shared, n - 1);
        if shared.contains(rc[n - 1]) {
            k
        } else {
            k.push(n - 1)
        }
    }
}

/// How two batches join, as row indices: the shared columns, the pairs of
/// rows that make the output (left row, right row) and the right columns
/// the output keeps. With no shared column every pair, and every right
/// column, unless there would be more than [`MAX_CROSS_ROWS`] pairs (then
/// nothing); otherwise the pairs whose keys agree, nothing when none does.
pub open spec fn join_indices_spec(l: BatchView, r: BatchView) -> Option<(Seq<Seq<char>>, Seq<(int, int)>, Seq<int>)> {
    let shared = shared_columns(l.columns, r.columns);
    if shared.len() == 0 {
        if l.rows.len() * r.rows.len() > MAX_CROSS_ROWS {
            None
        } else {
            Some(
                (
                    shared,
                    all_pairs(l.rows.len() as int, r.rows.len() as int, l.rows.len() as int),
                    Seq::new(r.columns.len(), |j: int| j),
                ),
            )
        }
    } else {
        let pairs = key_pairs(l, r, shared, l.rows.len() as int);
        if pairs.len() == 0 {
            None
        } else {
            Some((shared, pairs, kept_positions(r.columns, shared, r.columns.len() as int)))
        }
    }
}

/// The row pairs and kept right columns of a join.
#[derive(Debug)]
pub struct JoinIndices {
    /// The columns both sides have, in left order.
    pub shared: Vec<String>,
    /// `(left row, right row)` of each output row, in output order.
    pub pairs: Vec<(usize, usize)>,
    /// The right columns the output keeps after the left ones.
    pub right_kept: Vec<usize>,
}

/// The pairs as integers.
pub open spec fn pair_ints(v: Seq<(usize, usize)>) -> Seq<(int, int)> {
    v.map_values(|p: (usize, usize)| (p.0 as int, p.1 as int))
}

/// The positions as integers.
pub open spec fn index_ints(v: Seq<usize>) -> Seq<int> {
    v.map_values(|i: usize| i as int)
}

/// How two batches join (see [`join_indices_spec`]).
pub fn join_indices(left: &FactBatch, right: &FactBatch) -> (r: Option<JoinIndices>)
    ensures
        match join_indices_spec(left@, right@) {
            Some((sh, pairs, kept)) => r matches Some(j) && string_views(j.shared@) == sh && pair_ints(
                j.pairs@,
            ) == pairs && index_ints(j.right_kept@) == kept,
            None => r is None,
        },
{
    proof {
        use_type_invariant(left);
        use_type_invariant(right);
    }
    let shared = shared_exec(&left.columns, &right.columns);
    let ghost sh = string_views(shared@);
    let ghost l = left@;
    let ghost r = right@;
    let nl = left.rows.len();
    let nr = right.rows.len();
    if shared.len() == 0 {
        let x = nl as u128;
        let y = nr as u128;
        assert(x * y <= 0xffff_ffff_ffff_ffff * 0xffff_ffff_ffff_ffffu128) by (nonlinear_arith)
            requires
                x <= 0xffff_ffff_ffff_ffffu128,
                y <= 0xffff_ffff_ffff_ffffu128,
        ;
        if x * y > 10000 {
            return None;
        }
        let mut pairs: Vec<(usize, usize)> = Vec::new();
        let mut a: usize = 0;
        while a < nl
            invariant
                a <= nl,
                nl == l.rows.len(),
                nr == r.rows.len(),
                pair_ints(pairs@) == all_pairs(nl as int, nr as int, a as int),
            decreases nl - a,
        {
            let ghost base = pair_ints(pairs@);
            let mut b: usize = 0;
            while b < nr
                invariant
                    a < nl,
                    b <= nr,
                    pair_ints(pairs@) == base + Seq::new(nr as nat, |k: int| (a as int, k)).subrange(0, b as int),
                decreases nr - b,
            {
                let ghost before = pair_ints(pairs@);
                pairs.push((a, b));
                assert(pair_ints(pairs@) =~= before.push((a as int, b as int)));
                assert(base + Seq::new(nr as nat, |k: int| (a as int, k)).subrange(0, b + 1) =~= (base
                    + Seq::new(nr as nat, |k: int| (a as int, k)).subrange(0, b as int)).push((a as int, b as int)));
                b += 1;
            }
            assert(Seq::new(nr as nat, |k: int| (a as int, k)).subrange(0, nr as int) =~= Seq::new(
                nr as nat,
                |k: int| (a as int, k),
            ));
            a += 1;
        }
        let mut kept: Vec<usize> = Vec::new();
        let mut j: usize = 0;
        while j < right.columns.len()
            invariant
                j <= right.columns.len(),
                index_ints(kept@) == Seq::new(j as nat, |k: int| k),
            decreases right.columns.len() - j,
        {
            let ghost before = index_ints(kept@);
            kept.push(j);
            assert(index_ints(kept@) =~= before.push(j as int));
            assert(Seq::new((j + 1) as nat, |k: int| k) =~= Seq::new(j as nat, |k: int| k).push(j as int));
            j += 1;
        }
        assert(r.columns.len() == right.columns@.len());
        return Some(JoinIndices { shared, pairs, right_kept: kept });
    }
    proof {
        lemma_shared_in_both(l.columns, r.columns);
        assert forall|k: int| 0 <= k < shared@.len() implies string_views(left.columns@).contains(
            #[trigger] shared@[k]@,
        ) && string_views(right.columns@).contains(shared@[k]@) by {
            assert(sh[k] == shared@[k]@);
        }
    }
    let lpos = positions(&left.columns, &shared);
    let rpos = positions(&right.columns, &shared);
    let keep = keep_flags(&right.columns, &shared);
    let mut kept: Vec<usize> = Vec::new();
    let mut j: usize = 0;
    while j < right.columns.len()
        invariant
            j <= right.columns.len(),
            r == right@,
            sh == string_views(shared@),
            keep@.len() == right.columns@.len(),
            forall|q: int| 0 <= q < keep@.len() ==> keep@[q] == !sh.contains(#[trigger] right.columns@[q]@),
            index_ints(kept@) == kept_positions(r.columns, sh, j as int),
        decreases right.columns.len() - j,
    {
        assert(r.columns[j as int] == right.columns@[j as int]@);
        if keep[j] {
            let ghost before = index_ints(kept@);
            kept.push(j);
            assert(index_ints(kept@) =~= before.push(j as int));
        }
        j += 1;
    }
    let mut pairs: Vec<(usize, usize)> = Vec::new();
    let mut a: usize = 0;
    while a < nl
        invariant
            a <= nl,
            nl == l.rows.len(),
            nr == r.rows.len(),
            l == left@,
            r == right@,
            sh == string_views(shared@),
            lpos@.len() == shared@.len(),
            rpos@.len() == shared@.len(),
            forall|k: int|
                0 <= k < lpos@.len() ==> #[trigger] lpos@[k] == first_index(l.columns, shared@[k]@)
                    && lpos@[k] < l.columns.len(),
            forall|k: int|
                0 <= k < rpos@.len() ==> #[trigger] rpos@[k] == first_index(r.columns, shared@[k]@)
                    && rpos@[k] < r.columns.len(),
            pair_ints(pairs@) == key_pairs(l, r, sh, a as int),
        decreases nl - a,
    {
        let lkey = key_of(left, &shared, &lpos, a);
        let ghost base = pair_ints(pairs@);
        let mut b: usize = 0;
        assert(base + row_pairs(l, r, sh, a as int, 0) =~= base);
        while b < nr
            invariant
                a < nl,
                b <= nr,
                nr == r.rows.len(),
                r == right@,
                sh == string_views(shared@),
                rpos@.len() == shared@.len(),
                forall|k: int|
                    0 <= k < rpos@.len() ==> #[trigger] rpos@[k] == first_index(r.columns, shared@[k]@)
                        && rpos@[k] < r.columns.len(),
                string_views(lkey@) == join_key(l, sh, a as int),
                pair_ints(pairs@) == base + row_pairs(l, r, sh, a as int, b as int),
            decreases nr - b,
        {
            let rkey = key_of(right, &shared, &rpos, b);
            if keys_equal(&lkey, &rkey) {
                let ghost before = pair_ints(pairs@);
                pairs.push((a, b));
                assert(pair_ints(pairs@) =~= before.push((a as int, b as int)));
            }
            b += 1;
        }
        a += 1;
    }
    if pairs.len() == 0 {
        assert(pair_ints(pairs@).len() == 0);
        return None;
    }
    Some(JoinIndices { shared, pairs, right_kept: kept })
}

// ── The fact store ──────────────────────────────────────────────────────

/// The batches stored for `relation`, in the order they were added.
pub open spec fn facts_of(store: Seq<(Seq<char>, BatchView)>, relation: Seq<char>) -> Seq<BatchView>
    decreases store.len(),
{
    if store.len() == 0 {
        Seq::empty()
    } else {
        let rest = facts_of(store.drop_last(), relation);
        if store.last().0 == relation {
            rest.push(store.last().1)
        } else {
            rest
        }
    }
}

/// The non-empty joins of `left` with each of the first `n` batches of
/// `right`, in order.
pub open spec fn batch_joins(left: BatchView, right: Seq<BatchView>, n: int) -> Seq<BatchView>
    decreases n,
{
    if n <= 0 {
        Seq::empty()
    } else {
        let rest = batch_joins(left, right, n - 1);
        match hash_join_spec(left, right[n - 1]) {
            Some(b) => if b.rows.len() > 0 {
                rest.push(b)
            } else {
                rest
            },
            None => rest,
        }
    }
}

/// The non-empty joins of every batch of `current` with every batch of
/// `right`, left batch by left batch.
pub open spec fn pair_joins(current: Seq<BatchView>, right: Seq<BatchView>) -> Seq<BatchView>
    decreases current.len(),
{
    if current.len() == 0 {
        Seq::empty()
    } else {
        pair_joins(current.drop_last(), right) + batch_joins(
            current.last(),
            right,
            right.len() as int,
        )
    }
}

/// The batches of a chain of relations joined left to right: the first
/// relation's facts, then at each step the pairwise joins with the next
/// relation's facts; nothing as soon as a relation has no facts.
pub open spec fn joined_relations(store: Seq<(Seq<char>, BatchView)>, relations: Seq<Seq<char>>) -> Seq<BatchView>
    decreases relations.len(),
{
    if relations.len() == 0 {
        Seq::empty()
    } else if relations.len() == 1 {
        facts_of(store, relations[0])
    } else {
        let right = facts_of(store, relations.last());
        if right.len() == 0 {
            Seq::empty()
        } else {
            pair_joins(joined_relations(store, relations.drop_last()), right)
        }
    }
}

/// The views of a sequence of batches.
pub open spec fn batch_views(v: Seq<FactBatch>) -> Seq<BatchView> {
    v.map_values(|b: FactBatch| b@)
}

/// The facts of the engine: batches by relation, in the order added.
#[derive(Debug)]
pub struct FactStore {
    facts: Vec<(String, FactBatch)>,
}

impl View for FactStore {
    type V = Seq<(Seq<char>, BatchView)>;

    closed spec fn view(&self) -> Seq<(Seq<char>, BatchView)> {
        self.facts@.map_values(|e: (String, FactBatch)| (e.0@, e.1@))
    }
}

impl FactStore {
    /// A store with no facts.
    pub fn new() -> (r: Self)
        ensures
            r@.len() == 0,
    {
        let r = FactStore { facts: Vec::new() };
        assert(r@ =~= Seq::<(Seq<char>, BatchView)>::empty());
        r
    }

    /// A copy of the store.
    pub fn duplicate(&self) -> (r: Self)
        ensures
            r@ == self@,
    {
        let mut facts: Vec<(String, FactBatch)> = Vec::new();
        let mut i: usize = 0;
        while i < self.facts.len()
            invariant
                i <= self.facts.len(),
                facts@.map_values(|e: (String, FactBatch)| (e.0@, e.1@)) == self@.subrange(0, i as int),
            decreases self.facts.len() - i,
        {
            let ghost before = facts@.map_values(|e: (String, FactBatch)| (e.0@, e.1@));
            let e = (copy_string(&self.facts[i].0), self.facts[i].1.duplicate());
            facts.push(e);
            assert(facts@.map_values(|e: (String, FactBatch)| (e.0@, e.1@)) =~= before.push((e.0@, e.1@)));
            assert(self@.subrange(0, i + 1) =~= self@.subrange(0, i as int).push(self@[i as int]));
            i += 1;
        }
        assert(self@.subrange(0, self.facts.len() as int) =~= self@);
        FactStore { facts }
    }

    /// Add batches of facts for a relation, after those already there.
    pub fn add_facts(&mut self, relation: &str, batches: Vec<FactBatch>)
        ensures
            final(self)@ == old(self)@ + batch_views(batches@).map_values(|b: BatchView| (relation@, b)),
    {
        let ghost start = self@;
        let ghost added = batch_views(batches@).map_values(|b: BatchView| (relation@, b));
        let mut rest = batches;
        let mut taken: usize = 0;
        let ghost all = batches@;
        assert(all.len() == rest.len());
        assert(start + added.subrange(0, 0) =~= start);
        while rest.len() > 0
            invariant
                taken + rest@.len() == all.len(),
                all.len() <= usize::MAX,
                rest@ == all.subrange(taken as int, all.len() as int),
                added == batch_views(all).map_values(|b: BatchView| (relation@, b)),
                self@ == start + added.subrange(0, taken as int),
            decreases rest.len(),
        {
            let ghost r0 = rest@;
            let b = rest.remove(0);
            assert(b == all[taken as int]);
            let ghost before = self@;
            self.facts.push((string_of(&chars_of(relation)), b));
            assert(self@ =~= before.push((relation@, b@)));
            assert(added[taken as int] == (relation@, b@));
            assert(start + added.subrange(0, taken + 1) =~= (start + added.subrange(0, taken as int)).push(
                added[taken as int],
            ));
            assert(rest@ =~= all.subrange(taken + 1, all.len() as int));
            taken += 1;
        }
        assert(added.subrange(0, all.len() as int) =~= added);
    }

    /// Copies of the batches stored for `relation`, in order.
    pub fn batches_of(&self, relation: &String) -> (r: Vec<FactBatch>)
        ensures
            batch_views(r@) == facts_of(self@, relation@),
    {
        let ghost s = self@;
        let mut r: Vec<FactBatch> = Vec::new();
        let mut i: usize = 0;
        assert(batch_views(r@) =~= facts_of(s.subrange(0, 0), relation@));
        while i < self.facts.len()
            invariant
                i <= self.facts.len(),
                s == self@,
                s.len() == self.facts@.len(),
                batch_views(r@) == facts_of(s.subrange(0, i as int), relation@),
            decreases self.facts.len() - i,
        {
            let ghost post = s.subrange(0, i + 1);
            assert(post.drop_last() =~= s.subrange(0, i as int));
            assert(post.last() == (self.facts@[i as int].0@, self.facts@[i as int].1@));
            if same_text(&self.facts[i].0, relation) {
                let ghost before = batch_views(r@);
                let b = self.facts[i].1.duplicate();
                r.push(b);
                assert(batch_views(r@) =~= before.push(b@));
            }
            i += 1;
        }
        assert(s.subrange(0, self.facts.len() as int) =~= s);
        r
    }

    /// Join a chain of relations on their shared columns (see
    /// [`joined_relations`]).
    pub fn join_relations(&self, relations: &[String]) -> (r: Vec<FactBatch>)
        ensures
            batch_views(r@) == joined_relations(self@, relations@.map_values(|s: String| s@)),
    {
        let ghost rels = relations@.map_values(|s: String| s@);
        if relations.len() == 0 {
            let r: Vec<FactBatch> = Vec::new();
            assert(batch_views(r@) =~= Seq::<BatchView>::empty());
            return r;
        }
        let mut current = self.batches_of(&relations[0]);
        assert(rels.subrange(0, 1) =~= seq![rels[0]]);
        let mut i: usize = 1;
        while i < relations.len()
            invariant
                1 <= i <= relations@.len(),
                rels == relations@.map_values(|s: String| s@),
                batch_views(current@) == joined_relations(self@, rels.subrange(0, i as int)),
            decreases relations.len() - i,
        {
            let ghost post = rels.subrange(0, i + 1);
            assert(post.drop_last() =~= rels.subrange(0, i as int));
            assert(post.last() == relations@[i as int]@);
            let right = self.batches_of(&relations[i]);
            if right.len() == 0 {
                let r: Vec<FactBatch> = Vec::new();
                assert forall|k: int| i < k <= rels.len() implies joined_relations(self@, rels.subrange(0, k)).len() == 0 by {
                    lemma_joined_stays_empty(self@, rels, i + 1, k);
                }
                assert(rels.subrange(0, rels.len() as int) =~= rels);
                assert(batch_views(r@) =~= Seq::<BatchView>::empty());
                return r;
            }
            let ghost cur = batch_views(current@);
            let ghost rv = batch_views(right@);
            let mut joined: Vec<FactBatch> = Vec::new();
            let mut a: usize = 0;
            assert(batch_views(joined@) =~= pair_joins(cur.subrange(0, 0), rv));
            while a < current.len()
                invariant
                    a <= current.len(),
                    cur == batch_views(current@),
                    rv == batch_views(right@),
                    batch_views(joined@) == pair_joins(cur.subrange(0, a as int), rv),
                decreases current.len() - a,
            {
                let ghost pa = cur.subrange(0, a + 1);
                assert(pa.drop_last() =~= cur.subrange(0, a as int));
                let ghost base = batch_views(joined@);
                let mut b: usize = 0;
                assert(base + batch_joins(cur[a as int], rv, 0) =~= base);
                while b < right.len()
                    invariant
                        a < current.len(),
                        b <= right.len(),
                        cur == batch_views(current@),
                        rv == batch_views(right@),
                        batch_views(joined@) == base + batch_joins(cur[a as int], rv, b as int),
                    decreases right.len() - b,
                {
                    match hash_join(&current[a], &right[b]) {
                        Some(x) => {
                            if x.num_rows() > 0 {
                                let ghost before = batch_views(joined@);
                                joined.push(x);
                                assert(batch_views(joined@) =~= before.push(x@));
                            }
                        },
                        None => {},
                    }
                    b += 1;
                }
                a += 1;
            }
            assert(cur.subrange(0, current.len() as int) =~= cur);
            current = joined;
            i += 1;
        }
        assert(rels.subrange(0, relations.len() as int) =~= rels);
        current
    }
}

proof fn lemma_joined_stays_empty(store: Seq<(Seq<char>, BatchView)>, rels: Seq<Seq<char>>, from: int, k: int)
    requires
        2 <= from <= k <= rels.len(),
        facts_of(store, rels[from - 1]).len() == 0,
    ensures
        joined_relations(store, rels.subrange(0, k)).len() == 0,
    decreases k - from,
{
    let p = rels.subrange(0, k);
    if k == from {
        assert(p.last() == rels[from - 1]);
    } else {
        lemma_joined_stays_empty(store, rels, from, k - 1);
        assert(p.drop_last() =~= rels.subrange(0, k - 1));
        lemma_pair_joins_empty(facts_of(store, p.last()));
    }
}

/// Reading facts after adding batches for a relation gives the batches
/// that were there followed by the added ones; other relations read as
/// before.
pub proof fn lemma_facts_after_add(
    store: Seq<(Seq<char>, BatchView)>,
    relation: Seq<char>,
    added: Seq<BatchView>,
    other: Seq<char>,
)
    ensures
        facts_of(store + added.map_values(|b: BatchView| (relation, b)), relation) == facts_of(
            store,
            relation,
        ) + added,
        other != relation ==> facts_of(store + added.map_values(|b: BatchView| (relation, b)), other)
            == facts_of(store, other),
    decreases added.len(),
{
    let tagged = added.map_values(|b: BatchView| (relation, b));
    if added.len() == 0 {
        assert(store + tagged =~= store);
        assert(facts_of(store, relation) + added =~= facts_of(store, relation));
    } else {
        let shorter = added.drop_last();
        lemma_facts_after_add(store, relation, shorter, other);
        let t2 = shorter.map_values(|b: BatchView| (relation, b));
        assert((store + tagged).drop_last() =~= store + t2);
        assert((store + tagged).last() == (relation, added.last()));
        assert(facts_of(store, relation) + added =~= (facts_of(store, relation) + shorter).push(
            added.last(),
        ));
    }
}

/// A cross product has one row for each pair of a left row and a right row.
pub proof fn lemma_cross_rows_len(l: BatchView, r: BatchView, m: int)
    requires
        0 <= m,
    ensures
        cross_rows(l, r, m).len() == m * r.rows.len(),
    decreases m,
{
    let n = r.rows.len() as int;
    if m > 0 {
        lemma_cross_rows_len(l, r, m - 1);
        assert((m - 1) * n + n == m * n) by (nonlinear_arith);
    } else {
        assert(m * n == 0) by (nonlinear_arith)
            requires
                m == 0,
        ;
    }
}

/// Every row of a join pairs a left row with a right row whose cells agree
/// on all shared columns: the row starts with the left row, and the join
/// key of the left row is that of some right row.
pub proof fn lemma_joined_rows_agree(l: BatchView, r: BatchView, shared: Seq<Seq<char>>, m: int, k: int)
    requires
        0 <= m <= l.rows.len(),
        0 <= k < joined_rows(l, r, shared, m).len(),
    ensures
        exists|a: int, b: int|
            0 <= a < m && 0 <= b < r.rows.len() && join_key(l, shared, a) == join_key(r, shared, b)
                && joined_rows(l, r, shared, m)[k] == l.rows[a] + kept(
                r.columns,
                r.rows[b],
                shared,
                r.columns.len() as int,
            ),
    decreases m,
{
    let prev = joined_rows(l, r, shared, m - 1);
    let here = matched_rows(l, r, shared, m - 1, r.rows.len() as int);
    if k < prev.len() {
        lemma_joined_rows_agree(l, r, shared, m - 1, k);
        let (a, b) = choose|a: int, b: int|
            0 <= a < m - 1 && 0 <= b < r.rows.len() && join_key(l, shared, a) == join_key(r, shared, b)
                && prev[k] == l.rows[a] + kept(r.columns, r.rows[b], shared, r.columns.len() as int);
        assert(joined_rows(l, r, shared, m)[k] == prev[k]);
    } else {
        lemma_matched_rows_agree(l, r, shared, m - 1, r.rows.len() as int, k - prev.len());
        assert(joined_rows(l, r, shared, m)[k] == here[k - prev.len()]);
    }
}

proof fn lemma_matched_rows_agree(l: BatchView, r: BatchView, shared: Seq<Seq<char>>, a: int, n: int, k: int)
    requires
        0 <= n <= r.rows.len(),
        0 <= k < matched_rows(l, r, shared, a, n).len(),
    ensures
        exists|b: int|
            0 <= b < n && join_key(l, shared, a) == join_key(r, shared, b) && matched_rows(
                l,
                r,
                shared,
                a,
                n,
            )[k] == l.rows[a] + kept(r.columns, r.rows[b], shared, r.columns.len() as int),
    decreases n,
{
    let prev = matched_rows(l, r, shared, a, n - 1);
    if k < prev.len() {
        lemma_matched_rows_agree(l, r, shared, a, n - 1, k);
        let b = choose|b: int|
            0 <= b < n - 1 && join_key(l, shared, a) == join_key(r, shared, b) && prev[k] == l.rows[a]
                + kept(r.columns, r.rows[b], shared, r.columns.len() as int);
        assert(matched_rows(l, r, shared, a, n)[k] == prev[k]);
    } else {
        assert(matched_rows(l, r, shared, a, n)[k] == l.rows[a] + kept(
            r.columns,
            r.rows[n - 1],
            shared,
            r.columns.len() as int,
        ));
    }
}

/// A column that both sides have is among the shared columns.
proof fn lemma_in_both_is_shared(lc: Seq<Seq<char>>, rc: Seq<Seq<char>>, c: Seq<char>)
    requires
        lc.contains(c),
        rc.contains(c),
    ensures
        shared_columns(lc, rc).contains(c),
    decreases lc.len(),
{
    let s = shared_columns(lc.drop_last(), rc);
    if lc.last() == c {
        assert(s.push(c)[s.len() as int] == c);
    } else {
        let j = choose|j: int| 0 <= j < lc.len() && lc[j] == c;
        assert(lc.drop_last()[j] == c);
        lemma_in_both_is_shared(lc.drop_last(), rc, c);
        let k = choose|k: int| 0 <= k < s.len() && s[k] == c;
        if rc.contains(lc.last()) {
            assert(s.push(lc.last())[k] == c);
        }
    }
}

/// Rows whose join keys on the shared columns agree have equal cells at
/// every column that both sides have.
proof fn lemma_equal_keys_equal_cells(l: BatchView, r: BatchView, a: int, b: int)
    requires
        join_key(l, shared_columns(l.columns, r.columns), a) == join_key(
            r,
            shared_columns(l.columns, r.columns),
            b,
        ),
    ensures
        forall|c: Seq<char>|
            #![trigger l.columns.contains(c), r.columns.contains(c)]
            l.columns.contains(c) && r.columns.contains(c) ==> l.rows[a][first_index(l.columns, c)]
                == r.rows[b][first_index(r.columns, c)],
{
    let shared = shared_columns(l.columns, r.columns);
    assert forall|c: Seq<char>|
        #![trigger l.columns.contains(c), r.columns.contains(c)]
        l.columns.contains(c) && r.columns.contains(c) implies l.rows[a][first_index(l.columns, c)]
        == r.rows[b][first_index(r.columns, c)] by {
        lemma_in_both_is_shared(l.columns, r.columns, c);
        let i = choose|i: int| 0 <= i < shared.len() && shared[i] == c;
        assert(join_key(l, shared, a)[i] == join_key(r, shared, b)[i]);
    }
}

/// Every row of a join on shared columns is a left row followed by the
/// cells that a right row has at the columns not shared, where the two
/// rows hold equal cells at every column that both batches have.
pub proof fn lemma_hash_join_rows_agree_on_cells(l: BatchView, r: BatchView, k: int)
    requires
        shared_columns(l.columns, r.columns).len() > 0,
        hash_join_spec(l, r) is Some,
        0 <= k < hash_join_spec(l, r)->0.rows.len(),
    ensures
        exists|a: int, b: int|
            0 <= a < l.rows.len() && 0 <= b < r.rows.len() && (forall|c: Seq<char>|
                #![trigger l.columns.contains(c), r.columns.contains(c)]
                l.columns.contains(c) && r.columns.contains(c) ==> l.rows[a][first_index(
                    l.columns,
                    c,
                )] == r.rows[b][first_index(r.columns, c)]) && hash_join_spec(l, r)->0.rows[k]
                == l.rows[a] + kept(
                r.columns,
                r.rows[b],
                shared_columns(l.columns, r.columns),
                r.columns.len() as int,
            ),
{
    let shared = shared_columns(l.columns, r.columns);
    lemma_joined_rows_agree(l, r, shared, l.rows.len() as int, k);
    let (a, b) = choose|a: int, b: int|
        0 <= a < l.rows.len() && 0 <= b < r.rows.len() && join_key(l, shared, a) == join_key(
            r,
            shared,
            b,
        ) && joined_rows(l, r, shared, l.rows.len() as int)[k] == l.rows[a] + kept(
            r.columns,
            r.rows[b],
            shared,
            r.columns.len() as int,
        );
    lemma_equal_keys_equal_cells(l, r, a, b);
}

proof fn lemma_row_pairs_agree(l: BatchView, r: BatchView, shared: Seq<Seq<char>>, a: int, n: int, k: int)
    requires
        0 <= n <= r.rows.len(),
        0 <= k < row_pairs(l, r, shared, a, n).len(),
    ensures
        row_pairs(l, r, shared, a, n)[k].0 == a,
        0 <= row_pairs(l, r, shared, a, n)[k].1 < n,
        join_key(l, shared, a) == join_key(r, shared, row_pairs(l, r, shared, a, n)[k].1),
    decreases n,
{
    let prev = row_pairs(l, r, shared, a, n - 1);
    if k < prev.len() {
        lemma_row_pairs_agree(l, r, shared, a, n - 1, k);
        assert(row_pairs(l, r, shared, a, n)[k] == prev[k]);
    }
}

proof fn lemma_key_pairs_agree(l: BatchView, r: BatchView, shared: Seq<Seq<char>>, m: int, k: int)
    requires
        0 <= m <= l.rows.len(),
        0 <= k < key_pairs(l, r, shared, m).len(),
    ensures
        0 <= key_pairs(l, r, shared, m)[k].0 < m,
        0 <= key_pairs(l, r, shared, m)[k].1 < r.rows.len(),
        join_key(l, shared, key_pairs(l, r, shared, m)[k].0) == join_key(
            r,
            shared,
            key_pairs(l, r, shared, m)[k].1,
        ),
    decreases m,
{
    let prev = key_pairs(l, r, shared, m - 1);
    if k < prev.len() {
        lemma_key_pairs_agree(l, r, shared, m - 1, k);
        assert(key_pairs(l, r, shared, m)[k] == prev[k]);
    } else {
        lemma_row_pairs_agree(l, r, shared, m - 1, r.rows.len() as int, k - prev.len());
        assert(key_pairs(l, r, shared, m)[k] == row_pairs(
            l,
            r,
            shared,
            m - 1,
            r.rows.len() as int,
        )[k - prev.len()]);
    }
}

/// Every row pair that a join on shared columns lists names a left row and
/// a right row that hold equal cells at every column both batches have.
pub proof fn lemma_join_pairs_agree_on_cells(l: BatchView, r: BatchView, k: int)
    requires
        shared_columns(l.columns, r.columns).len() > 0,
        join_indices_spec(l, r) is Some,
        0 <= k < (join_indices_spec(l, r)->0).1.len(),
    ensures
        ({
            let (a, b) = (join_indices_spec(l, r)->0).1[k];
            &&& 0 <= a < l.rows.len()
            &&& 0 <= b < r.rows.len()
            &&& forall|c: Seq<char>|
                #![trigger l.columns.contains(c), r.columns.contains(c)]
                l.columns.contains(c) && r.columns.contains(c) ==> l.rows[a][first_index(
                    l.columns,
                    c,
                )] == r.rows[b][first_index(r.columns, c)]
        }),
{
    let shared = shared_columns(l.columns, r.columns);
    lemma_key_pairs_agree(l, r, shared, l.rows.len() as int, k);
    let (a, b) = key_pairs(l, r, shared, l.rows.len() as int)[k];
    lemma_equal_keys_equal_cells(l, r, a, b);
}

/// Rows with equal cells at every column both sides have agree on their
/// join keys.
proof fn lemma_equal_cells_equal_keys(l: BatchView, r: BatchView, a: int, b: int)
    requires
        forall|c: Seq<char>|
            #![trigger l.columns.contains(c), r.columns.contains(c)]
            l.columns.contains(c) && r.columns.contains(c) ==> l.rows[a][first_index(l.columns, c)]
                == r.rows[b][first_index(r.columns, c)],
    ensures
        join_key(l, shared_columns(l.columns, r.columns), a) == join_key(
            r,
            shared_columns(l.columns, r.columns),
            b,
        ),
{
    let shared = shared_columns(l.columns, r.columns);
    lemma_shared_in_both(l.columns, r.columns);
    assert forall|k: int| 0 <= k < shared.len() implies #[trigger] join_key(l, shared, a)[k]
        == join_key(r, shared, b)[k] by {
        assert(l.columns.contains(shared[k]) && r.columns.contains(shared[k]));
    }
    assert(join_key(l, shared, a) =~= join_key(r, shared, b));
}

proof fn lemma_row_pairs_complete(l: BatchView, r: BatchView, shared: Seq<Seq<char>>, a: int, n: int, b: int)
    requires
        0 <= b < n,
        join_key(l, shared, a) == join_key(r, shared, b),
    ensures
        row_pairs(l, r, shared, a, n).contains((a, b)),
    decreases n,
{
    let prev = row_pairs(l, r, shared, a, n - 1);
    if b < n - 1 {
        lemma_row_pairs_complete(l, r, shared, a, n - 1, b);
        let k = choose|k: int| 0 <= k < prev.len() && prev[k] == (a, b);
        if join_key(l, shared, a) == join_key(r, shared, n - 1) {
            assert(prev.push((a, n - 1))[k] == (a, b));
        }
    } else {
        assert(prev.push((a, b))[prev.len() as int] == (a, b));
    }
}

proof fn lemma_key_pairs_complete(l: BatchView, r: BatchView, shared: Seq<Seq<char>>, m: int, a: int, b: int)
    requires
        0 <= a < m,
        0 <= b < r.rows.len(),
        join_key(l, shared, a) == join_key(r, shared, b),
    ensures
        key_pairs(l, r, shared, m).contains((a, b)),
    decreases m,
{
    let prev = key_pairs(l, r, shared, m - 1);
    let here = row_pairs(l, r, shared, m - 1, r.rows.len() as int);
    if a < m - 1 {
        lemma_key_pairs_complete(l, r, shared, m - 1, a, b);
        let k = choose|k: int| 0 <= k < prev.len() && prev[k] == (a, b);
        assert((prev + here)[k] == (a, b));
    } else {
        lemma_row_pairs_complete(l, r, shared, a, r.rows.len() as int, b);
        let k = choose|k: int| 0 <= k < here.len() && here[k] == (a, b);
        assert((prev + here)[prev.len() + k] == (a, b));
    }
}

/// A join on shared columns lists every pair of a left row and a right row
/// that hold equal cells at every column both batches have; so such a pair
/// also means the join is not empty.
pub proof fn lemma_join_pairs_complete(l: BatchView, r: BatchView, a: int, b: int)
    requires
        shared_columns(l.columns, r.columns).len() > 0,
        0 <= a < l.rows.len(),
        0 <= b < r.rows.len(),
        forall|c: Seq<char>|
            #![trigger l.columns.contains(c), r.columns.contains(c)]
            l.columns.contains(c) && r.columns.contains(c) ==> l.rows[a][first_index(l.columns, c)]
                == r.rows[b][first_index(r.columns, c)],
    ensures
        join_indices_spec(l, r) is Some,
        (join_indices_spec(l, r)->0).1.contains((a, b)),
{
    let shared = shared_columns(l.columns, r.columns);
    lemma_equal_cells_equal_keys(l, r, a, b);
    lemma_key_pairs_complete(l, r, shared, l.rows.len() as int, a, b);
}

proof fn lemma_matched_rows_complete(l: BatchView, r: BatchView, shared: Seq<Seq<char>>, a: int, n: int, b: int)
    requires
        0 <= b < n,
        join_key(l, shared, a) == join_key(r, shared, b),
    ensures
        matched_rows(l, r, shared, a, n).contains(
            l.rows[a] + kept(r.columns, r.rows[b], shared, r.columns.len() as int),
        ),
    decreases n,
{
    let row = l.rows[a] + kept(r.columns, r.rows[b], shared, r.columns.len() as int);
    let prev = matched_rows(l, r, shared, a, n - 1);
    if b < n - 1 {
        lemma_matched_rows_complete(l, r, shared, a, n - 1, b);
        let k = choose|k: int| 0 <= k < prev.len() && prev[k] == row;
        if join_key(l, shared, a) == join_key(r, shared, n - 1) {
            assert(prev.push(
                l.rows[a] + kept(r.columns, r.rows[n - 1], shared, r.columns.len() as int),
            )[k] == row);
        }
    } else {
        assert(prev.push(row)[prev.len() as int] == row);
    }
}

proof fn lemma_joined_rows_complete(l: BatchView, r: BatchView, shared: Seq<Seq<char>>, m: int, a: int, b: int)
    requires
        0 <= a < m,
        0 <= b < r.rows.len(),
        join_key(l, shared, a) == join_key(r, shared, b),
    ensures
        joined_rows(l, r, shared, m).contains(
            l.rows[a] + kept(r.columns, r.rows[b], shared, r.columns.len() as int),
        ),
    decreases m,
{
    let row = l.rows[a] + kept(r.columns, r.rows[b], shared, r.columns.len() as int);
    let prev = joined_rows(l, r, shared, m - 1);
    let here = matched_rows(l, r, shared, m - 1, r.rows.len() as int);
    if a < m - 1 {
        lemma_joined_rows_complete(l, r, shared, m - 1, a, b);
        let k = choose|k: int| 0 <= k < prev.len() && prev[k] == row;
        assert((prev + here)[k] == row);
    } else {
        lemma_matched_rows_complete(l, r, shared, a, r.rows.len() as int, b);
        let k = choose|k: int| 0 <= k < here.len() && here[k] == row;
        assert((prev + here)[prev.len() + k] == row);
    }
}

/// A join on shared columns holds a row for every pair of a left row and a
/// right row with equal cells at every column both batches have: the left
/// row followed by the right row's cells at the columns not shared.
pub proof fn lemma_hash_join_rows_complete(l: BatchView, r: BatchView, a: int, b: int)
    requires
        shared_columns(l.columns, r.columns).len() > 0,
        0 <= a < l.rows.len(),
        0 <= b < r.rows.len(),
        forall|c: Seq<char>|
            #![trigger l.columns.contains(c), r.columns.contains(c)]
            l.columns.contains(c) && r.columns.contains(c) ==> l.rows[a][first_index(l.columns, c)]
                == r.rows[b][first_index(r.columns, c)],
    ensures
        hash_join_spec(l, r) is Some,
        hash_join_spec(l, r)->0.rows.contains(
            l.rows[a] + kept(
                r.columns,
                r.rows[b],
                shared_columns(l.columns, r.columns),
                r.columns.len() as int,
            ),
        ),
{
    let shared = shared_columns(l.columns, r.columns);
    lemma_equal_cells_equal_keys(l, r, a, b);
    lemma_joined_rows_complete(l, r, shared, l.rows.len() as int, a, b);
}

proof fn lemma_pair_joins_empty(right: Seq<BatchView>)
    ensures
        pair_joins(Seq::empty(), right).len() == 0,
{
}

} // verus!
