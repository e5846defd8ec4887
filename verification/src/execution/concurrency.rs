//! Concurrency control: strategies, transactions, the optimistic
//! write-write validation and the set of active transactions.

use vstd::prelude::*;

use crate::text::{chars_of, push_str, string_of, text_eq};

verus! {

/// Concurrency control strategy.
#[derive(Debug, Clone, Copy, PartialEq, Eq, Structural)]
pub enum ConcurrencyMode {
    /// Optimistic concurrency control: validate at commit time.
    Occ,
    /// Strict two-phase locking: acquire locks eagerly.
    Strict2pl,
    /// The controller selects the strategy dynamically.
    Adaptive,
}

impl ConcurrencyMode {
    /// The displayed name.
    pub open spec fn label(self) -> Seq<char> {
        match self {
            ConcurrencyMode::Occ => "OCC"@,
            ConcurrencyMode::Strict2pl => "Strict2PL"@,
            ConcurrencyMode::Adaptive => "Adaptive"@,
        }
    }

    /// The displayed name.
    pub fn to_string(&self) -> (r: String)
        ensures
            r@ == self.label(),
    {
        let s = match self {
            ConcurrencyMode::Occ => "OCC",
            ConcurrencyMode::Strict2pl => "Strict2PL",
            ConcurrencyMode::Adaptive => "Adaptive",
        };
        string_of(&chars_of(s))
    }
}

/// Transaction state.
#[derive(Debug, Clone)]
pub struct Transaction {
    /// Unique transaction ID.
    pub txn_id: String,
    /// Which strategy this transaction uses.
    pub strategy: ConcurrencyMode,
    /// Start timestamp (microseconds since epoch).
    pub start_us: u64,
    /// Table names read during this transaction.
    pub read_set: Vec<String>,
    /// Table names written during this transaction.
    pub write_set: Vec<String>,
}

/// The value of a [`Transaction`].
pub struct TxnView {
    pub txn_id: Seq<char>,
    pub strategy: ConcurrencyMode,
    pub start_us: u64,
    pub read_set: Seq<Seq<char>>,
    pub write_set: Seq<Seq<char>>,
}

impl View for Transaction {
    type V = TxnView;

    open spec fn view(&self) -> TxnView {
        TxnView {
            txn_id: self.txn_id@,
            strategy: self.strategy,
            start_us: self.start_us,
            read_set: self.read_set@.map_values(|s: String| s@),
            write_set: self.write_set@.map_values(|s: String| s@),
        }
    }
}

/// The views of a sequence of transactions.
pub open spec fn txn_views(v: Seq<Transaction>) -> Seq<TxnView> {
    v.map_values(|t: Transaction| t@)
}

/// Another active transaction writes a table that `txn` writes.
pub open spec fn write_conflict(txn: TxnView, active: Seq<TxnView>) -> bool {
    exists|i: int, j: int, k: int|
        0 <= i < active.len() && active[i].txn_id != txn.txn_id && 0 <= j < txn.write_set.len() && 0
            <= k < active[i].write_set.len() && #[trigger] active[i].write_set[k]
            == #[trigger] txn.write_set[j]
}

fn write_sets_meet(a: &Vec<String>, b: &Vec<String>) -> (r: bool)
    ensures
        r == exists|j: int, k: int|
            0 <= j < a@.len() && 0 <= k < b@.len() && #[trigger] b@[k]@ == #[trigger] a@[j]@,
{
    let mut j: usize = 0;
    while j < a.len()
        invariant
            j <= a.len(),
            forall|jj: int, k: int| 0 <= jj < j && 0 <= k < b@.len() ==> b@[k]@ != a@[jj]@,
        decreases a.len() - j,
    {
        let x = chars_of(a[j].as_str());
        let mut k: usize = 0;
        while k < b.len()
            invariant
                j < a.len(),
                k <= b.len(),
                x@ == a@[j as int]@,
                forall|jj: int, kk: int| 0 <= jj < j && 0 <= kk < b@.len() ==> b@[kk]@ != a@[jj]@,
                forall|kk: int| 0 <= kk < k ==> b@[kk]@ != a@[j as int]@,
            decreases b.len() - k,
        {
            if text_eq(&chars_of(b[k].as_str()), &x) {
                assert(b@[k as int]@ == a@[j as int]@);
                return true;
            }
            k += 1;
        }
        j += 1;
    }
    false
}

/// Optimistic validation: whether another active transaction writes one
/// of the tables that `txn` writes.
pub fn has_write_conflict(txn: &Transaction, active: &Vec<Transaction>) -> (r: bool)
    ensures
        r == write_conflict(txn@, txn_views(active@)),
{
    let id = chars_of(txn.txn_id.as_str());
    let ghost av = txn_views(active@);
    let mut i: usize = 0;
    while i < active.len()
        invariant
            i <= active.len(),
            id@ == txn@.txn_id,
            av == txn_views(active@),
            forall|ii: int, j: int, k: int|
                0 <= ii < i && av[ii].txn_id != txn@.txn_id && 0 <= j < txn@.write_set.len() && 0 <= k
                    < av[ii].write_set.len() ==> av[ii].write_set[k] != txn@.write_set[j],
        decreases active.len() - i,
    {
        let other = &active[i];
        assert(av[i as int] == other@);
        if !text_eq(&chars_of(other.txn_id.as_str()), &id) && write_sets_meet(
            &txn.write_set,
            &other.write_set,
        ) {
            proof {
                let (j, k) = choose|j: int, k: int|
                    0 <= j < txn.write_set@.len() && 0 <= k < other.write_set@.len() && #[trigger] other.write_set@[k]@
                        == #[trigger] txn.write_set@[j]@;
                assert(av[i as int].write_set[k] == txn@.write_set[j]);
            }
            return true;
        }
        proof {
            if av[i as int].txn_id != txn@.txn_id {
                assert forall|j: int, k: int|
                    0 <= j < txn@.write_set.len() && 0 <= k < av[i as int].write_set.len() implies av[i as int].write_set[k]
                    != txn@.write_set[j] by {
                    assert(av[i as int].write_set[k] == other.write_set@[k]@);
                    assert(txn@.write_set[j] == txn.write_set@[j]@);
                }
            }
        }
        i += 1;
    }
    false
}

/// The active set without the transaction `txn_id`.
pub open spec fn without_txn(active: Seq<TxnView>, txn_id: Seq<char>) -> Seq<TxnView>
    decreases active.len(),
{
    if active.len() == 0 {
        Seq::empty()
    } else if active.last().txn_id == txn_id {
        without_txn(active.drop_last(), txn_id)
    } else {
        without_txn(active.drop_last(), txn_id).push(active.last())
    }
}

/// Remove a transaction from the active set, keeping the others in order.
pub fn remove_active(active: &mut Vec<Transaction>, txn_id: &str)
    ensures
        txn_views(final(active)@) == without_txn(txn_views(old(active)@), txn_id@),
{
    let id = chars_of(txn_id);
    let mut kept: Vec<Transaction> = Vec::new();
    let mut rest: Vec<Transaction> = Vec::new();
    std::mem::swap(&mut rest, active);
    let ghost all = txn_views(rest@);
    assert(all.len() == rest@.len());
    assert(rest@.len() == rest.len());
    let mut i: usize = 0;
    while rest.len() > 0
        invariant
            i + rest.len() == all.len(),
            id@ == txn_id@,
            txn_views(rest@) == all.subrange(i as int, all.len() as int),
            txn_views(kept@) == without_txn(all.subrange(0, i as int), txn_id@),
            all == txn_views(old(active)@),
            all.len() <= usize::MAX,
        decreases rest.len(),
    {
        let ghost r0 = rest@;
        assert(txn_views(r0)[0] == all[i as int]);
        let t = rest.remove(0);
        let ghost tv = t@;
        assert(all[i as int] == tv);
        let ghost pre = all.subrange(0, i as int);
        let ghost post = all.subrange(0, i + 1);
        assert(post.drop_last() =~= pre);
        assert(post.last() == tv);
        if !text_eq(&chars_of(t.txn_id.as_str()), &id) {
            let ghost kv = txn_views(kept@);
            kept.push(t);
            assert(txn_views(kept@) =~= kv.push(tv));
        }
        assert(rest@ == r0.remove(0));
        assert forall|k: int| 0 <= k < rest@.len() implies #[trigger] txn_views(rest@)[k] == all[i + 1
            + k] by {
            assert(rest@[k] == r0[k + 1]);
            assert(txn_views(r0)[k + 1] == all.subrange(i as int, all.len() as int)[k + 1]);
        }
        i += 1;
        assert(txn_views(rest@) =~= all.subrange(i as int, all.len() as int));
    }
    assert(all.subrange(0, all.len() as int) =~= all);
    *active = kept;
}

/// Taking a transaction out of the active set leaves no entry with its id
/// and keeps every entry with another id.
pub proof fn lemma_without_txn(active: Seq<TxnView>, txn_id: Seq<char>)
    ensures
        without_txn(active, txn_id).len() <= active.len(),
        forall|k: int|
            0 <= k < without_txn(active, txn_id).len() ==> (#[trigger] without_txn(active, txn_id)[k]).txn_id
                != txn_id,
        forall|k: int|
            0 <= k < active.len() && (#[trigger] active[k]).txn_id != txn_id ==> without_txn(
                active,
                txn_id,
            ).contains(active[k]),
        forall|t: TxnView| #[trigger] without_txn(active, txn_id).contains(t) ==> active.contains(t),
    decreases active.len(),
{
    if active.len() > 0 {
        let init = active.drop_last();
        lemma_without_txn(init, txn_id);
        let w = without_txn(init, txn_id);
        let last = active.last();
        assert forall|k: int| 0 <= k < active.len() && (#[trigger] active[k]).txn_id != txn_id implies without_txn(
            active,
            txn_id,
        ).contains(active[k]) by {
            if k < active.len() - 1 {
                assert(init[k] == active[k]);
                let j = choose|j: int| 0 <= j < w.len() && w[j] == init[k];
                if last.txn_id != txn_id {
                    assert(w.push(last)[j] == active[k]);
                }
            } else {
                assert(w.push(last)[w.len() as int] == last);
            }
        }
        assert forall|t: TxnView| #[trigger] without_txn(active, txn_id).contains(t) implies active.contains(t) by {
            let j = choose|j: int| 0 <= j < without_txn(active, txn_id).len() && without_txn(active, txn_id)[j] == t;
            if j < w.len() {
                assert(w.contains(t));
                let i = choose|i: int| 0 <= i < init.len() && init[i] == t;
                assert(active[i] == t);
            } else {
                assert(active[active.len() - 1] == t);
            }
        }
        if last.txn_id != txn_id {
            assert forall|k: int| 0 <= k < w.push(last).len() implies (#[trigger] w.push(last)[k]).txn_id
                != txn_id by {
                if k < w.len() {
                    assert(w.push(last)[k] == w[k]);
                }
            }
        }
    }
}

/// Another transaction `x` writes a table that `txn` writes.
pub open spec fn writes_meet(txn: TxnView, x: TxnView) -> bool {
    exists|j: int, k: int|
        0 <= j < txn.write_set.len() && 0 <= k < x.write_set.len() && #[trigger] x.write_set[k]
            == #[trigger] txn.write_set[j]
}

/// Adding one transaction to the active set adds a conflict exactly when
/// it is another transaction that writes one of the same tables.
proof fn lemma_write_conflict_push(txn: TxnView, active: Seq<TxnView>, x: TxnView)
    ensures
        write_conflict(txn, active.push(x)) == (write_conflict(txn, active) || (x.txn_id
            != txn.txn_id && writes_meet(txn, x))),
{
    let a = active.push(x);
    if write_conflict(txn, a) {
        let (i, j, k) = choose|i: int, j: int, k: int|
            0 <= i < a.len() && a[i].txn_id != txn.txn_id && 0 <= j < txn.write_set.len() && 0 <= k
                < a[i].write_set.len() && #[trigger] a[i].write_set[k] == #[trigger] txn.write_set[j];
        if i < active.len() {
            assert(active[i].write_set[k] == txn.write_set[j]);
        } else {
            assert(x.write_set[k] == txn.write_set[j]);
        }
    }
    if write_conflict(txn, active) {
        let (i, j, k) = choose|i: int, j: int, k: int|
            0 <= i < active.len() && active[i].txn_id != txn.txn_id && 0 <= j < txn.write_set.len()
                && 0 <= k < active[i].write_set.len() && #[trigger] active[i].write_set[k]
                == #[trigger] txn.write_set[j];
        assert(a[i] == active[i]);
        assert(a[i].write_set[k] == txn.write_set[j]);
    }
    if x.txn_id != txn.txn_id && writes_meet(txn, x) {
        let (j, k) = choose|j: int, k: int|
            0 <= j < txn.write_set.len() && 0 <= k < x.write_set.len() && #[trigger] x.write_set[k]
                == #[trigger] txn.write_set[j];
        let i = active.len() as int;
        assert(a[i] == x);
        assert(a[i].write_set[k] == txn.write_set[j]);
    }
}

/// A transaction never conflicts with itself: alone in the active set it
/// has no write conflict, an entry with its own id (such as the one that
/// beginning it registered) changes nothing, and the verdict is the same
/// once every entry with its id is taken out. Two transactions with
/// different ids that write the same table do conflict.
pub proof fn lemma_own_entry_never_conflicts(txn: TxnView, active: Seq<TxnView>, x: TxnView)
    ensures
        !write_conflict(txn, seq![txn]),
        x.txn_id == txn.txn_id ==> write_conflict(txn, active.push(x)) == write_conflict(
            txn,
            active,
        ),
        write_conflict(txn, without_txn(active, txn.txn_id)) == write_conflict(txn, active),
        x.txn_id != txn.txn_id && writes_meet(txn, x) ==> write_conflict(txn, seq![x]),
    decreases active.len(),
{
    lemma_write_conflict_push(txn, Seq::empty(), txn);
    assert(Seq::<TxnView>::empty().push(txn) =~= seq![txn]);
    assert(!write_conflict(txn, Seq::empty()));
    lemma_write_conflict_push(txn, active, x);
    lemma_write_conflict_push(txn, Seq::empty(), x);
    assert(Seq::<TxnView>::empty().push(x) =~= seq![x]);
    if active.len() > 0 {
        let init = active.drop_last();
        let last = active.last();
        assert(init.push(last) =~= active);
        lemma_own_entry_never_conflicts(txn, init, x);
        lemma_write_conflict_push(txn, init, last);
        if last.txn_id != txn.txn_id {
            lemma_write_conflict_push(txn, without_txn(init, txn.txn_id), last);
        }
    } else {
        assert(without_txn(active, txn.txn_id) =~= active);
    }
}

} // verus!
