//! BCNF Policy Catalog.
//!
//! A relational catalog that stores Datalog rules and constraints keyed by
//! policy id. Every node of a cluster holds a replica; updates propagate as
//! version-stamped changesets.

use vstd::prelude::*;

use crate::kernel::error::{AnamError, Result};
use crate::text::{chars_of, decimal, decimal_chars, join, join_exec, push_all, push_str, string_of, views};

verus! {

/// A single policy entry in the BCNF catalog.
#[derive(Debug, Clone)]
pub struct PolicyEntry {
    /// Unique policy identifier.
    pub policy_id: String,
    /// The Datalog rule body.
    pub datalog: String,
    /// Which relation(s) this policy applies to.
    pub relations: Vec<String>,
    /// Human-readable description.
    pub description: String,
    /// Version of this policy (monotonically increasing).
    pub version: u64,
    /// Whether this policy is active.
    pub active: bool,
}

/// The value of a [`PolicyEntry`].
pub struct PolicyView {
    pub policy_id: Seq<char>,
    pub datalog: Seq<char>,
    pub relations: Seq<Seq<char>>,
    pub description: Seq<char>,
    pub version: u64,
    pub active: bool,
}

/// The views of a sequence of strings.
pub open spec fn string_views(v: Seq<String>) -> Seq<Seq<char>> {
    v.map_values(|s: String| s@)
}

impl View for PolicyEntry {
    type V = PolicyView;

    open spec fn view(&self) -> PolicyView {
        PolicyView {
            policy_id: self.policy_id@,
            datalog: self.datalog@,
            relations: string_views(self.relations@),
            description: self.description@,
            version: self.version,
            active: self.active,
        }
    }
}

/// Copy a vector of strings.
pub fn clone_strings(v: &Vec<String>) -> (r: Vec<String>)
    ensures
        string_views(r@) == string_views(v@),
{
    let mut r: Vec<String> = Vec::new();
    let mut i: usize = 0;
    while i < v.len()
        invariant
            i <= v.len(),
            string_views(r@) == string_views(v@).subrange(0, i as int),
        decreases v.len() - i,
    {
        let s = v[i].clone();
        let ghost rv = string_views(r@);
        r.push(s);
        assert(string_views(r@) =~= rv.push(v@[i as int]@));
        assert(string_views(v@).subrange(0, i + 1) =~= string_views(v@).subrange(
            0,
            i as int,
        ).push(v@[i as int]@));
        i += 1;
    }
    assert(string_views(v@).subrange(0, v.len() as int) =~= string_views(v@));
    r
}

impl PolicyEntry {
    /// A copy of this entry.
    pub fn duplicate(&self) -> (r: PolicyEntry)
        ensures
            r@ == self@,
    {
        PolicyEntry {
            policy_id: self.policy_id.clone(),
            datalog: self.datalog.clone(),
            relations: clone_strings(&self.relations),
            description: self.description.clone(),
            version: self.version,
            active: self.active,
        }
    }
}

/// A version-stamped changeset for catalog replication.
#[derive(Debug, Clone)]
pub struct CatalogChangeset {
    /// Global catalog version after this changeset.
    pub catalog_version: u64,
    /// Policies added or updated.
    pub upserts: Vec<PolicyEntry>,
    /// Policy IDs removed.
    pub deletes: Vec<String>,
    /// Timestamp (Unix millis).
    pub timestamp_ms: u64,
}

/// The value of a [`CatalogChangeset`].
pub struct ChangesetView {
    pub catalog_version: u64,
    pub upserts: Seq<PolicyView>,
    pub deletes: Seq<Seq<char>>,
    pub timestamp_ms: u64,
}

/// The views of a sequence of policy entries.
pub open spec fn entry_views(v: Seq<PolicyEntry>) -> Seq<PolicyView> {
    v.map_values(|e: PolicyEntry| e@)
}

impl View for CatalogChangeset {
    type V = ChangesetView;

    open spec fn view(&self) -> ChangesetView {
        ChangesetView {
            catalog_version: self.catalog_version,
            upserts: entry_views(self.upserts@),
            deletes: string_views(self.deletes@),
            timestamp_ms: self.timestamp_ms,
        }
    }
}

fn clone_entries(v: &Vec<PolicyEntry>) -> (r: Vec<PolicyEntry>)
    ensures
        entry_views(r@) == entry_views(v@),
{
    let mut r: Vec<PolicyEntry> = Vec::new();
    let mut i: usize = 0;
    while i < v.len()
        invariant
            i <= v.len(),
            entry_views(r@) == entry_views(v@).subrange(0, i as int),
        decreases v.len() - i,
    {
        let e = v[i].duplicate();
        let ghost rv = entry_views(r@);
        r.push(e);
        assert(entry_views(r@) =~= rv.push(v@[i as int]@));
        assert(entry_views(v@).subrange(0, i + 1) =~= entry_views(v@).subrange(
            0,
            i as int,
        ).push(v@[i as int]@));
        i += 1;
    }
    assert(entry_views(v@).subrange(0, v.len() as int) =~= entry_views(v@));
    r
}

impl CatalogChangeset {
    /// A copy of this changeset.
    pub fn duplicate(&self) -> (r: CatalogChangeset)
        ensures
            r@ == self@,
    {
        CatalogChangeset {
            catalog_version: self.catalog_version,
            upserts: clone_entries(&self.upserts),
            deletes: clone_strings(&self.deletes),
            timestamp_ms: self.timestamp_ms,
        }
    }
}

/// The value of a [`BcnfCatalog`]: its policies by id, its version and its
/// changeset history.
pub struct CatalogView {
    pub policies: Map<Seq<char>, PolicyView>,
    pub version: u64,
    pub history: Seq<ChangesetView>,
}

/// The map of policies that a sequence of entries holds (a later entry with
/// the same id replaces an earlier one).
pub open spec fn policy_map(s: Seq<PolicyView>) -> Map<Seq<char>, PolicyView>
    decreases s.len(),
{
    if s.len() == 0 {
        Map::empty()
    } else {
        policy_map(s.drop_last()).insert(s.last().policy_id, s.last())
    }
}

/// No two entries share a policy id.
pub open spec fn ids_distinct(s: Seq<PolicyView>) -> bool {
    forall|i: int, j: int|
        0 <= i < s.len() && 0 <= j < s.len() && i != j ==> s[i].policy_id != s[j].policy_id
}

/// `e` with its version set to `v`.
pub open spec fn stamped(e: PolicyView, v: u64) -> PolicyView {
    PolicyView { version: v, ..e }
}

/// `e` deactivated and stamped with version `v`.
pub open spec fn deactivated(e: PolicyView, v: u64) -> PolicyView {
    PolicyView { version: v, active: false, ..e }
}

/// Insert every upsert in order.
pub open spec fn upsert_all(m: Map<Seq<char>, PolicyView>, ups: Seq<PolicyView>) -> Map<
    Seq<char>,
    PolicyView,
>
    decreases ups.len(),
{
    if ups.len() == 0 {
        m
    } else {
        upsert_all(m, ups.drop_last()).insert(ups.last().policy_id, ups.last())
    }
}

/// Remove every deleted id in order.
pub open spec fn delete_all(m: Map<Seq<char>, PolicyView>, dels: Seq<Seq<char>>) -> Map<
    Seq<char>,
    PolicyView,
>
    decreases dels.len(),
{
    if dels.len() == 0 {
        m
    } else {
        delete_all(m, dels.drop_last()).remove(dels.last())
    }
}

/// The catalog after applying a changeset from another node: upserts,
/// then deletes; the version advances to the changeset's if that is newer.
/// The history is not touched.
pub open spec fn apply_changeset_spec(c: CatalogView, cs: ChangesetView) -> CatalogView {
    CatalogView {
        policies: delete_all(upsert_all(c.policies, cs.upserts), cs.deletes),
        version: if cs.catalog_version > c.version {
            cs.catalog_version
        } else {
            c.version
        },
        history: c.history,
    }
}

/// The changeset that an update of a single entry at version `v` emits.
pub open spec fn single_upsert(cs: ChangesetView, e: PolicyView, v: u64) -> bool {
    &&& cs.catalog_version == v
    &&& cs.upserts == seq![e]
    &&& cs.deletes == Seq::<Seq<char>>::empty()
}

/// The BCNF-normalized policy catalog.
///
/// All rules are stored keyed by policy id; the catalog supports
/// version-stamped changesets for cluster-wide replication.
#[derive(Debug)]
pub struct BcnfCatalog {
    /// The policies, one per id.
    policies: Vec<PolicyEntry>,
    /// Monotonically increasing catalog version.
    version: u64,
    /// Changeset history for replication.
    history: Vec<CatalogChangeset>,
}

/// The views of a sequence of changesets.
pub open spec fn changeset_views(v: Seq<CatalogChangeset>) -> Seq<ChangesetView> {
    v.map_values(|c: CatalogChangeset| c@)
}

impl View for BcnfCatalog {
    type V = CatalogView;

    closed spec fn view(&self) -> CatalogView {
        CatalogView {
            policies: policy_map(entry_views(self.policies@)),
            version: self.version,
            history: changeset_views(self.history@),
        }
    }
}

// ── Lemmas about the entry store ───────────────────────────────────────

proof fn lemma_policy_map_contains(s: Seq<PolicyView>, k: Seq<char>)
    ensures
        policy_map(s).contains_key(k) <==> exists|i: int| 0 <= i < s.len() && s[i].policy_id == k,
    decreases s.len(),
{
    if s.len() > 0 {
        lemma_policy_map_contains(s.drop_last(), k);
        if policy_map(s.drop_last()).contains_key(k) {
            let i = choose|i: int| 0 <= i < s.drop_last().len() && s.drop_last()[i].policy_id == k;
            assert(s[i] == s.drop_last()[i]);
        }
        if exists|i: int| 0 <= i < s.len() && s[i].policy_id == k {
            let i = choose|i: int| 0 <= i < s.len() && s[i].policy_id == k;
            if i < s.len() - 1 {
                assert(s.drop_last()[i] == s[i]);
            }
        }
    }
}

proof fn lemma_policy_map_at(s: Seq<PolicyView>, i: int)
    requires
        ids_distinct(s),
        0 <= i < s.len(),
    ensures
        policy_map(s).contains_key(s[i].policy_id),
        policy_map(s)[s[i].policy_id] == s[i],
    decreases s.len(),
{
    if i < s.len() - 1 {
        let t = s.drop_last();
        assert(t[i] == s[i]);
        assert forall|a: int, b: int|
            0 <= a < t.len() && 0 <= b < t.len() && a != b implies t[a].policy_id
            != t[b].policy_id by {
            assert(t[a] == s[a] && t[b] == s[b]);
        }
        lemma_policy_map_at(t, i);
        assert(s.last().policy_id != s[i].policy_id);
    }
}

proof fn lemma_policy_map_update(s: Seq<PolicyView>, i: int, e: PolicyView)
    requires
        ids_distinct(s),
        0 <= i < s.len(),
        e.policy_id == s[i].policy_id,
    ensures
        policy_map(s.update(i, e)) == policy_map(s).insert(e.policy_id, e),
        ids_distinct(s.update(i, e)),
    decreases s.len(),
{
    let u = s.update(i, e);
    assert forall|a: int, b: int|
        0 <= a < u.len() && 0 <= b < u.len() && a != b implies u[a].policy_id
        != u[b].policy_id by {
        assert(u[a].policy_id == s[a].policy_id);
        assert(u[b].policy_id == s[b].policy_id);
    }
    if i == s.len() - 1 {
        assert(u.drop_last() =~= s.drop_last());
        assert(policy_map(u) =~= policy_map(s).insert(e.policy_id, e));
    } else {
        let t = s.drop_last();
        assert forall|a: int, b: int|
            0 <= a < t.len() && 0 <= b < t.len() && a != b implies t[a].policy_id
            != t[b].policy_id by {
            assert(t[a] == s[a] && t[b] == s[b]);
        }
        assert(t[i] == s[i]);
        lemma_policy_map_update(t, i, e);
        assert(u.drop_last() =~= t.update(i, e));
        assert(u.last() == s.last());
        assert(s.last().policy_id != e.policy_id);
        assert(policy_map(u) =~= policy_map(s).insert(e.policy_id, e));
    }
}

proof fn lemma_distinct_push(s: Seq<PolicyView>, e: PolicyView)
    requires
        ids_distinct(s),
        forall|i: int| 0 <= i < s.len() ==> s[i].policy_id != e.policy_id,
    ensures
        ids_distinct(s.push(e)),
{
    let u = s.push(e);
    assert forall|a: int, b: int|
        0 <= a < u.len() && 0 <= b < u.len() && a != b implies u[a].policy_id
        != u[b].policy_id by {
        if a < s.len() {
            assert(u[a] == s[a]);
        }
        if b < s.len() {
            assert(u[b] == s[b]);
        }
    }
}

proof fn lemma_policy_map_remove(s: Seq<PolicyView>, i: int)
    requires
        ids_distinct(s),
        0 <= i < s.len(),
    ensures
        policy_map(s.remove(i)) == policy_map(s).remove(s[i].policy_id),
        ids_distinct(s.remove(i)),
    decreases s.len(),
{
    let u = s.remove(i);
    assert forall|a: int, b: int|
        0 <= a < u.len() && 0 <= b < u.len() && a != b implies u[a].policy_id
        != u[b].policy_id by {
        let a2 = if a < i { a } else { a + 1 };
        let b2 = if b < i { b } else { b + 1 };
        assert(u[a] == s[a2]);
        assert(u[b] == s[b2]);
    }
    let k = s[i].policy_id;
    if i == s.len() - 1 {
        assert(u =~= s.drop_last());
        lemma_policy_map_contains(s.drop_last(), k);
        assert forall|j: int| 0 <= j < s.drop_last().len() implies s.drop_last()[j].policy_id
            != k by {
            assert(s.drop_last()[j] == s[j]);
        }
        assert(policy_map(u) =~= policy_map(s).remove(k));
    } else {
        let t = s.drop_last();
        assert forall|a: int, b: int|
            0 <= a < t.len() && 0 <= b < t.len() && a != b implies t[a].policy_id
            != t[b].policy_id by {
            assert(t[a] == s[a] && t[b] == s[b]);
        }
        assert(t[i] == s[i]);
        lemma_policy_map_remove(t, i);
        assert(u.drop_last() =~= t.remove(i));
        assert(u.last() == s.last());
        assert(s.last().policy_id != k);
        assert(policy_map(u) =~= policy_map(s).remove(k));
    }
}

// ── Catalog operations ──────────────────────────────────────────────────

/// The current time in Unix milliseconds (`SystemTime::now` of std);
/// nothing is promised of the value.
#[verifier::external_body]
fn now_millis() -> u64 {
    std::time::SystemTime::now().duration_since(std::time::UNIX_EPOCH).unwrap_or_default().as_millis() as u64
}

fn strings_equal(a: &Vec<char>, b: &Vec<char>) -> (r: bool)
    ensures
        r == (a@ == b@),
{
    if a.len() != b.len() {
        return false;
    }
    let mut i: usize = 0;
    while i < a.len()
        invariant
            a.len() == b.len(),
            i <= a.len(),
            forall|k: int| 0 <= k < i ==> a@[k] == b@[k],
        decreases a.len() - i,
    {
        if a[i] != b[i] {
            return false;
        }
        i += 1;
    }
    assert(a@ =~= b@);
    true
}

/// Replacing one entry changes the number of active entries by what the
/// old and new entry contribute.
proof fn lemma_active_after_update(s: Seq<PolicyView>, i: int, x: PolicyView)
    requires
        0 <= i < s.len(),
    ensures
        s.update(i, x).filter(|p: PolicyView| p.active).len() == s.filter(|p: PolicyView| p.active).len()
            - (if s[i].active {
            1int
        } else {
            0int
        }) + (if x.active {
            1int
        } else {
            0int
        }),
    decreases s.len(),
{
    reveal_with_fuel(Seq::filter, 1);
    let u = s.update(i, x);
    if i == s.len() - 1 {
        assert(u.drop_last() =~= s.drop_last());
        assert(u.last() == x);
    } else {
        lemma_active_after_update(s.drop_last(), i, x);
        assert(u.drop_last() =~= s.drop_last().update(i, x));
        assert(u.last() == s.last());
    }
}

impl BcnfCatalog {
    /// Policy ids are unique in the store.
    pub closed spec fn wf(&self) -> bool {
        ids_distinct(entry_views(self.policies@))
    }

    /// The stored entries, in storage order.
    pub closed spec fn entries(&self) -> Seq<PolicyView> {
        entry_views(self.policies@)
    }

    /// The stored entries make up the policy map.
    pub proof fn lemma_entries(&self)
        requires
            self.wf(),
        ensures
            policy_map(self.entries()) == self@.policies,
            ids_distinct(self.entries()),
            forall|i: int|
                0 <= i < self.entries().len() ==> self@.policies.contains_key(
                    #[trigger] self.entries()[i].policy_id,
                ) && self@.policies[self.entries()[i].policy_id] == self.entries()[i],
            forall|k: Seq<char>|
                #[trigger] self@.policies.contains_key(k) ==> exists|i: int|
                    0 <= i < self.entries().len() && self.entries()[i].policy_id == k,
    {
        assert forall|i: int| 0 <= i < self.entries().len() implies self@.policies.contains_key(
            #[trigger] self.entries()[i].policy_id,
        ) && self@.policies[self.entries()[i].policy_id] == self.entries()[i] by {
            lemma_policy_map_at(self.entries(), i);
        }
        assert forall|k: Seq<char>| #[trigger] self@.policies.contains_key(k) implies exists|
            i: int,
        | 0 <= i < self.entries().len() && self.entries()[i].policy_id == k by {
            lemma_policy_map_contains(self.entries(), k);
        }
    }

    /// Create an empty catalog.
    pub fn new() -> (c: Self)
        ensures
            c.wf(),
            c@.policies == Map::<Seq<char>, PolicyView>::empty(),
            c@.version == 0,
            c@.history == Seq::<ChangesetView>::empty(),
    {
        let c = BcnfCatalog { policies: Vec::new(), version: 0, history: Vec::new() };
        assert(entry_views(c.policies@) =~= Seq::<PolicyView>::empty());
        assert(changeset_views(c.history@) =~= Seq::<ChangesetView>::empty());
        c
    }

    /// Current catalog version.
    pub fn version(&self) -> (v: u64)
        ensures
            v == self@.version,
    {
        self.version
    }

    /// Number of active policies.
    pub fn active_count(&self) -> (n: usize)
        ensures
            n == self.entries().filter(|p: PolicyView| p.active).len(),
    {
        let mut n: usize = 0;
        let mut i: usize = 0;
        while i < self.policies.len()
            invariant
                i <= self.policies.len(),
                n == self.entries().subrange(0, i as int).filter(|p: PolicyView| p.active).len(),
                n <= i,
            decreases self.policies.len() - i,
        {
            proof {
                let s = self.entries().subrange(0, i + 1);
                assert(s.drop_last() =~= self.entries().subrange(0, i as int));
                reveal_with_fuel(Seq::filter, 1);
            }
            if self.policies[i].active {
                n += 1;
            }
            i += 1;
        }
        assert(self.entries().subrange(0, self.policies.len() as int) =~= self.entries());
        n
    }

    /// Total policies (active + inactive).
    pub fn total_count(&self) -> (n: usize)
        requires
            self.wf(),
        ensures
            n == self@.policies.len(),
    {
        proof {
            self.lemma_entries();
            lemma_policy_map_len(self.entries());
        }
        self.policies.len()
    }

    fn find_index(&self, id: &Vec<char>) -> (r: Option<usize>)
        requires
            self.wf(),
        ensures
            r matches Some(i) ==> i < self.policies.len() && self.entries()[i as int].policy_id
                == id@,
            r is None ==> !self@.policies.contains_key(id@),
    {
        let mut i: usize = 0;
        while i < self.policies.len()
            invariant
                i <= self.policies.len(),
                forall|k: int| 0 <= k < i ==> self.entries()[k].policy_id != id@,
            decreases self.policies.len() - i,
        {
            let pid = chars_of(self.policies[i].policy_id.as_str());
            if strings_equal(&pid, id) {
                return Some(i);
            }
            i += 1;
        }
        proof {
            lemma_policy_map_contains(self.entries(), id@);
        }
        None
    }

    /// Insert or update a policy, producing a changeset.
    ///
    /// The entry is stamped with the next catalog version.
    pub fn upsert_policy(&mut self, entry: PolicyEntry) -> (r: Result<CatalogChangeset>)
        requires
            old(self).wf(),
            old(self)@.version < u64::MAX,
        ensures
            final(self).wf(),
            r matches Ok(cs) && ({
                let v = (old(self)@.version + 1) as u64;
                let e = stamped(entry@, v);
                &&& single_upsert(cs@, e, v)
                &&& final(self)@.policies == old(self)@.policies.insert(entry@.policy_id, e)
                &&& final(self)@.version == v
                &&& final(self)@.history == old(self)@.history.push(cs@)
            }),
    {
        let new_version = self.version + 1;
        self.version = new_version;
        let mut entry = entry;
        entry.version = new_version;
        let id = chars_of(entry.policy_id.as_str());
        let ghost before = entry_views(self.policies@);
        match self.find_index(&id) {
            Some(i) => {
                let stored = entry.duplicate();
                self.policies.set(i, stored);
                proof {
                    assert(entry_views(self.policies@) =~= before.update(i as int, entry@));
                    lemma_policy_map_update(before, i as int, entry@);
                }
            },
            None => {
                let stored = entry.duplicate();
                self.policies.push(stored);
                proof {
                    assert(entry_views(self.policies@) =~= before.push(entry@));
                    assert(before.push(entry@).drop_last() =~= before);
                    lemma_policy_map_contains(before, entry@.policy_id);
                    lemma_distinct_push(before, entry@);
                }
            },
        }
        let mut upserts: Vec<PolicyEntry> = Vec::new();
        upserts.push(entry);
        let changeset = CatalogChangeset {
            catalog_version: new_version,
            upserts,
            deletes: Vec::new(),
            timestamp_ms: now_millis(),
        };
        assert(changeset@.upserts =~= seq![stamped(entry@, new_version)]) by {
            assert(entry_views(changeset.upserts@) =~= seq![changeset.upserts@[0]@]);
        }
        assert(changeset@.deletes =~= Seq::<Seq<char>>::empty());
        let ghost hv = changeset_views(self.history@);
        self.history.push(changeset.duplicate());
        assert(changeset_views(self.history@) =~= hv.push(changeset@));
        Ok(changeset)
    }

    /// Deactivate a policy (soft delete), producing a changeset.
    ///
    /// Fails with [`AnamError::Logic`] when no policy has the id.
    pub fn deactivate_policy(&mut self, policy_id: &str) -> (r: Result<CatalogChangeset>)
        requires
            old(self).wf(),
            old(self)@.policies.contains_key(policy_id@) ==> old(self)@.version < u64::MAX,
        ensures
            final(self).wf(),
            r is Err <==> !old(self)@.policies.contains_key(policy_id@),
            r is Err ==> (r matches Err(AnamError::Logic(_))),
            r is Err ==> final(self)@ == old(self)@,
            r matches Ok(cs) ==> ({
                let v = (old(self)@.version + 1) as u64;
                let e = deactivated(old(self)@.policies[policy_id@], v);
                &&& single_upsert(cs@, e, v)
                &&& final(self)@.policies == old(self)@.policies.insert(policy_id@, e)
                &&& final(self)@.version == v
                &&& final(self)@.history == old(self)@.history.push(cs@)
                &&& final(self).entries().len() == old(self).entries().len()
                &&& final(self).entries().filter(|p: PolicyView| p.active).len() == old(self).entries().filter(
                    |p: PolicyView| p.active,
                ).len() - if old(self)@.policies[policy_id@].active {
                    1int
                } else {
                    0int
                }
            }),
    {
        let id = chars_of(policy_id);
        let found = self.find_index(&id);
        let i = match found {
            Some(i) => i,
            None => {
                let mut msg: Vec<char> = Vec::new();
                push_str(&mut msg, "policy '");
                push_all(&mut msg, &id);
                push_str(&mut msg, "' not found in BCNF catalog");
                return Err(AnamError::Logic(string_of(&msg)));
            },
        };
        proof {
            self.lemma_entries();
        }
        let ghost before = entry_views(self.policies@);
        let new_version = self.version + 1;
        let mut entry = self.policies[i].duplicate();
        entry.active = false;
        entry.version = new_version;
        assert(entry@ == deactivated(before[i as int], new_version));
        self.policies.set(i, entry.duplicate());
        self.version = new_version;
        proof {
            assert(entry_views(self.policies@) =~= before.update(i as int, entry@));
            lemma_policy_map_update(before, i as int, entry@);
            lemma_active_after_update(before, i as int, entry@);
            assert(before[i as int] == old(self)@.policies[policy_id@]);
        }
        let mut upserts: Vec<PolicyEntry> = Vec::new();
        upserts.push(entry);
        let changeset = CatalogChangeset {
            catalog_version: new_version,
            upserts,
            deletes: Vec::new(),
            timestamp_ms: now_millis(),
        };
        assert(changeset@.upserts =~= seq![deactivated(before[i as int], new_version)]) by {
            assert(entry_views(changeset.upserts@) =~= seq![changeset.upserts@[0]@]);
        }
        assert(changeset@.deletes =~= Seq::<Seq<char>>::empty());
        let ghost hv = changeset_views(self.history@);
        self.history.push(changeset.duplicate());
        assert(changeset_views(self.history@) =~= hv.push(changeset@));
        Ok(changeset)
    }

    /// Get a policy by ID.
    pub fn get_policy(&self, policy_id: &str) -> (r: Option<&PolicyEntry>)
        requires
            self.wf(),
        ensures
            r matches Some(e) ==> self@.policies.contains_key(policy_id@) && e@
                == self@.policies[policy_id@],
            r is None ==> !self@.policies.contains_key(policy_id@),
    {
        let id = chars_of(policy_id);
        match self.find_index(&id) {
            Some(i) => {
                proof {
                    self.lemma_entries();
                }
                Some(&self.policies[i])
            },
            None => None,
        }
    }

    /// List all active policies, in storage order.
    pub fn list_active(&self) -> (r: Vec<&PolicyEntry>)
        ensures
            r@.map_values(|e: &PolicyEntry| e@) == self.entries().filter(|p: PolicyView| p.active),
    {
        let mut r: Vec<&PolicyEntry> = Vec::new();
        let mut i: usize = 0;
        while i < self.policies.len()
            invariant
                i <= self.policies.len(),
                r@.map_values(|e: &PolicyEntry| e@) == self.entries().subrange(0, i as int).filter(
                    |p: PolicyView| p.active,
                ),
            decreases self.policies.len() - i,
        {
            proof {
                let s = self.entries().subrange(0, i + 1);
                assert(s.drop_last() =~= self.entries().subrange(0, i as int));
                reveal_with_fuel(Seq::filter, 1);
            }
            let ghost rv = r@.map_values(|e: &PolicyEntry| e@);
            if self.policies[i].active {
                r.push(&self.policies[i]);
                assert(r@.map_values(|e: &PolicyEntry| e@) =~= rv.push(self.entries()[i as int]));
            }
            i += 1;
        }
        assert(self.entries().subrange(0, self.policies.len() as int) =~= self.entries());
        r
    }

    /// Get changesets since a given version (for incremental replication),
    /// in history order.
    pub fn changesets_since(&self, since_version: u64) -> (r: Vec<&CatalogChangeset>)
        ensures
            r@.map_values(|c: &CatalogChangeset| c@) == self@.history.filter(
                |c: ChangesetView| c.catalog_version > since_version,
            ),
    {
        let mut r: Vec<&CatalogChangeset> = Vec::new();
        let mut i: usize = 0;
        while i < self.history.len()
            invariant
                i <= self.history.len(),
                r@.map_values(|c: &CatalogChangeset| c@) == self@.history.subrange(
                    0,
                    i as int,
                ).filter(|c: ChangesetView| c.catalog_version > since_version),
            decreases self.history.len() - i,
        {
            proof {
                let s = self@.history.subrange(0, i + 1);
                assert(s.drop_last() =~= self@.history.subrange(0, i as int));
                reveal_with_fuel(Seq::filter, 1);
            }
            let ghost rv = r@.map_values(|c: &CatalogChangeset| c@);
            if self.history[i].catalog_version > since_version {
                r.push(&self.history[i]);
                assert(r@.map_values(|c: &CatalogChangeset| c@) =~= rv.push(
                    self@.history[i as int],
                ));
            }
            i += 1;
        }
        assert(self@.history.subrange(0, self.history.len() as int) =~= self@.history);
        r
    }

    fn upsert_entry(&mut self, entry: &PolicyEntry)
        requires
            old(self).wf(),
        ensures
            final(self).wf(),
            final(self)@.policies == old(self)@.policies.insert(entry@.policy_id, entry@),
            final(self)@.version == old(self)@.version,
            final(self)@.history == old(self)@.history,
    {
        let id = chars_of(entry.policy_id.as_str());
        let ghost before = entry_views(self.policies@);
        match self.find_index(&id) {
            Some(i) => {
                self.policies.set(i, entry.duplicate());
                proof {
                    assert(entry_views(self.policies@) =~= before.update(i as int, entry@));
                    lemma_policy_map_update(before, i as int, entry@);
                }
            },
            None => {
                self.policies.push(entry.duplicate());
                proof {
                    assert(entry_views(self.policies@) =~= before.push(entry@));
                    assert(before.push(entry@).drop_last() =~= before);
                    lemma_policy_map_contains(before, entry@.policy_id);
                    lemma_distinct_push(before, entry@);
                }
            },
        }
    }

    fn remove_entry(&mut self, id: &str)
        requires
            old(self).wf(),
        ensures
            final(self).wf(),
            final(self)@.policies == old(self)@.policies.remove(id@),
            final(self)@.version == old(self)@.version,
            final(self)@.history == old(self)@.history,
    {
        let key = chars_of(id);
        let ghost before = entry_views(self.policies@);
        match self.find_index(&key) {
            Some(i) => {
                self.policies.remove(i);
                proof {
                    assert(entry_views(self.policies@) =~= before.remove(i as int));
                    lemma_policy_map_remove(before, i as int);
                }
            },
            None => {
                assert(policy_map(before) =~= policy_map(before).remove(id@));
            },
        }
    }

    /// Apply a changeset from another node (replica sync).
    pub fn apply_changeset(&mut self, changeset: &CatalogChangeset) -> (r: Result<()>)
        requires
            old(self).wf(),
        ensures
            final(self).wf(),
            r is Ok,
            final(self)@ == apply_changeset_spec(old(self)@, changeset@),
    {
        let ghost start = self@.policies;
        let mut i: usize = 0;
        while i < changeset.upserts.len()
            invariant
                self.wf(),
                i <= changeset.upserts.len(),
                self@.policies == upsert_all(start, changeset@.upserts.subrange(0, i as int)),
                self@.version == old(self)@.version,
                self@.history == old(self)@.history,
            decreases changeset.upserts.len() - i,
        {
            self.upsert_entry(&changeset.upserts[i]);
            proof {
                let s = changeset@.upserts.subrange(0, i + 1);
                assert(s.drop_last() =~= changeset@.upserts.subrange(0, i as int));
            }
            i += 1;
        }
        assert(changeset@.upserts.subrange(0, changeset.upserts.len() as int)
            =~= changeset@.upserts);
        let ghost mid = self@.policies;
        let mut j: usize = 0;
        while j < changeset.deletes.len()
            invariant
                self.wf(),
                j <= changeset.deletes.len(),
                self@.policies == delete_all(mid, changeset@.deletes.subrange(0, j as int)),
                self@.version == old(self)@.version,
                self@.history == old(self)@.history,
            decreases changeset.deletes.len() - j,
        {
            self.remove_entry(changeset.deletes[j].as_str());
            proof {
                let s = changeset@.deletes.subrange(0, j + 1);
                assert(s.drop_last() =~= changeset@.deletes.subrange(0, j as int));
            }
            j += 1;
        }
        assert(changeset@.deletes.subrange(0, changeset.deletes.len() as int)
            =~= changeset@.deletes);
        if changeset.catalog_version > self.version {
            self.version = changeset.catalog_version;
        }
        Ok(())
    }
}

proof fn lemma_policy_map_len(s: Seq<PolicyView>)
    requires
        ids_distinct(s),
    ensures
        policy_map(s).dom().finite(),
        policy_map(s).len() == s.len(),
    decreases s.len(),
{
    if s.len() > 0 {
        let t = s.drop_last();
        assert forall|a: int, b: int|
            0 <= a < t.len() && 0 <= b < t.len() && a != b implies t[a].policy_id
            != t[b].policy_id by {
            assert(t[a] == s[a] && t[b] == s[b]);
        }
        lemma_policy_map_len(t);
        lemma_policy_map_contains(t, s.last().policy_id);
        assert forall|j: int| 0 <= j < t.len() implies t[j].policy_id != s.last().policy_id by {
            assert(t[j] == s[j]);
        }
    }
}


/// The ids of the active policies of a policy map.
pub open spec fn active_ids(m: Map<Seq<char>, PolicyView>) -> Set<Seq<char>> {
    m.dom().filter(|k: Seq<char>| m[k].active)
}

/// Entries with distinct ids: the active ones among them are as many as
/// the active ids of the map they make up.
pub proof fn lemma_active_entries_count(s: Seq<PolicyView>)
    requires
        ids_distinct(s),
    ensures
        active_ids(policy_map(s)).finite(),
        s.filter(|p: PolicyView| p.active).len() == active_ids(policy_map(s)).len(),
    decreases s.len(),
{
    reveal_with_fuel(Seq::filter, 1);
    lemma_policy_map_len(s);
    if s.len() == 0 {
        assert(active_ids(policy_map(s)) =~= Set::<Seq<char>>::empty());
    } else {
        let t = s.drop_last();
        let x = s.last();
        assert forall|a: int, b: int|
            0 <= a < t.len() && 0 <= b < t.len() && a != b implies t[a].policy_id
            != t[b].policy_id by {
            assert(t[a] == s[a] && t[b] == s[b]);
        }
        lemma_active_entries_count(t);
        lemma_policy_map_len(t);
        lemma_policy_map_contains(t, x.policy_id);
        assert forall|j: int| 0 <= j < t.len() implies t[j].policy_id != x.policy_id by {
            assert(t[j] == s[j]);
        }
        let mt = policy_map(t);
        let ms = policy_map(s);
        assert(!mt.contains_key(x.policy_id));
        if x.active {
            assert(active_ids(ms) =~= active_ids(mt).insert(x.policy_id));
        } else {
            assert(active_ids(ms) =~= active_ids(mt));
        }
    }
}

/// Catalogs with the same policies have the same number of policies and
/// of active policies, whatever order they store them in.
pub proof fn lemma_equal_policies_equal_counts(a: BcnfCatalog, b: BcnfCatalog)
    requires
        a.wf(),
        b.wf(),
        a@.policies == b@.policies,
    ensures
        a.entries().len() == b.entries().len(),
        a.entries().filter(|p: PolicyView| p.active).len() == b.entries().filter(|p: PolicyView| p.active).len(),
{
    a.lemma_entries();
    b.lemma_entries();
    lemma_policy_map_len(a.entries());
    lemma_policy_map_len(b.entries());
    lemma_active_entries_count(a.entries());
    lemma_active_entries_count(b.entries());
}

impl Default for BcnfCatalog {
    /// An empty catalog.
    fn default() -> (c: Self)
        ensures
            c.wf(),
            c@ == empty_catalog(),
    {
        let c = Self::new();
        assert(c@.policies =~= Map::<Seq<char>, PolicyView>::empty());
        c
    }
}

// ── Summary text ────────────────────────────────────────────────────────

/// The summary line of one active policy.
pub open spec fn policy_line(e: PolicyView) -> Seq<char> {
    "  • [v"@ + decimal(e.version as nat) + "] "@ + e.policy_id + " → "@ + e.datalog + " ("@
        + join(e.relations, ", "@) + ")"@
}

/// The catalog summary: a header with the version, the counts, then one
/// line per active policy, joined by newlines.
pub open spec fn catalog_summary(version: u64, active: Seq<PolicyView>, total: nat) -> Seq<char> {
    join(
        seq![
            "═══ BCNF Policy Catalog (v"@ + decimal(version as nat) + ") ═══"@,
            "  "@ + decimal(active.len()) + " active / "@ + decimal(total) + " total policies"@,
        ] + active.map_values(|e: PolicyView| policy_line(e)),
        "\n"@,
    )
}

fn strings_to_chars(v: &Vec<String>) -> (r: Vec<Vec<char>>)
    ensures
        views(r@) == string_views(v@),
{
    let mut r: Vec<Vec<char>> = Vec::new();
    let mut i: usize = 0;
    while i < v.len()
        invariant
            i <= v.len(),
            views(r@) == string_views(v@).subrange(0, i as int),
        decreases v.len() - i,
    {
        let c = chars_of(v[i].as_str());
        let ghost rv = views(r@);
        r.push(c);
        assert(views(r@) =~= rv.push(v@[i as int]@));
        assert(string_views(v@).subrange(0, i + 1) =~= string_views(v@).subrange(
            0,
            i as int,
        ).push(v@[i as int]@));
        i += 1;
    }
    assert(string_views(v@).subrange(0, v.len() as int) =~= string_views(v@));
    r
}

impl BcnfCatalog {
    /// Get a formatted summary.
    pub fn summary(&self) -> (r: String)
        requires
            self.wf(),
        ensures
            r@ == catalog_summary(
                self@.version,
                self.entries().filter(|p: PolicyView| p.active),
                self@.policies.len(),
            ),
    {
        let active = self.list_active();
        let ghost act = self.entries().filter(|p: PolicyView| p.active);
        let mut lines: Vec<Vec<char>> = Vec::new();
        let mut h: Vec<char> = Vec::new();
        push_str(&mut h, "═══ BCNF Policy Catalog (v");
        push_all(&mut h, &decimal_chars(self.version()));
        push_str(&mut h, ") ═══");
        lines.push(h);
        let mut c: Vec<char> = Vec::new();
        push_str(&mut c, "  ");
        let na = self.active_count();
        assert(act.len() == na);
        push_all(&mut c, &decimal_chars(na as u64));
        push_str(&mut c, " active / ");
        let nt = self.total_count();
        push_all(&mut c, &decimal_chars(nt as u64));
        push_str(&mut c, " total policies");
        lines.push(c);
        let ghost head = views(lines@);
        let mut i: usize = 0;
        while i < active.len()
            invariant
                i <= active.len(),
                active@.map_values(|e: &PolicyEntry| e@) == act,
                views(lines@) == head + act.map_values(|e: PolicyView| policy_line(e)).subrange(
                    0,
                    i as int,
                ),
            decreases active.len() - i,
        {
            let e = active[i];
            assert(e@ == act[i as int]);
            let mut l: Vec<char> = Vec::new();
            push_str(&mut l, "  • [v");
            push_all(&mut l, &decimal_chars(e.version));
            push_str(&mut l, "] ");
            push_all(&mut l, &chars_of(e.policy_id.as_str()));
            push_str(&mut l, " → ");
            push_all(&mut l, &chars_of(e.datalog.as_str()));
            push_str(&mut l, " (");
            let rels = strings_to_chars(&e.relations);
            push_all(&mut l, &join_exec(&rels, &chars_of(", ")));
            push_str(&mut l, ")");
            let ghost lv = views(lines@);
            let ghost x = l@;
            lines.push(l);
            assert(views(lines@) =~= lv.push(x));
            assert(act.map_values(|e: PolicyView| policy_line(e)).subrange(0, i + 1)
                =~= act.map_values(|e: PolicyView| policy_line(e)).subrange(0, i as int).push(x));
            i += 1;
        }
        assert(act.map_values(|e: PolicyView| policy_line(e)).subrange(0, active.len() as int)
            =~= act.map_values(|e: PolicyView| policy_line(e)));
        assert(head =~= seq![
            "═══ BCNF Policy Catalog (v"@ + decimal(self@.version as nat) + ") ═══"@,
            "  "@ + decimal(act.len()) + " active / "@ + decimal(self@.policies.len())
                + " total policies"@,
        ]);
        string_of(&join_exec(&lines, &chars_of("\n")))
    }
}

// ── Laws ────────────────────────────────────────────────────────────────

/// A catalog with no policies, at version 0, with no history.
pub open spec fn empty_catalog() -> CatalogView {
    CatalogView {
        policies: Map::empty(),
        version: 0,
        history: Seq::empty(),
    }
}

/// Apply changesets in order.
pub open spec fn replay(c: CatalogView, hs: Seq<ChangesetView>) -> CatalogView
    decreases hs.len(),
{
    if hs.len() == 0 {
        c
    } else {
        apply_changeset_spec(replay(c, hs.drop_last()), hs.last())
    }
}

/// One update of a primary catalog, as `upsert_policy` and
/// `deactivate_policy` make it: a single entry stamped with the next version
/// replaces the entry with its id, and the changeset that says so is logged.
pub open spec fn primary_step(before: CatalogView, after: CatalogView) -> bool {
    &&& before.version < u64::MAX
    &&& exists|cs: ChangesetView, e: PolicyView|
        {
            &&& #[trigger] single_upsert(cs, e, (before.version + 1) as u64)
            &&& after.policies == before.policies.insert(e.policy_id, e)
            &&& after.version == before.version + 1
            &&& after.history == before.history.push(cs)
        }
}

/// Replication: a replica that holds the same policies at the same version
/// as the primary, and applies the changeset that the primary emitted for
/// one update, ends with the primary's new policies and version.
pub proof fn lemma_replica_follows(
    primary_before: CatalogView,
    primary_after: CatalogView,
    replica: CatalogView,
    cs: ChangesetView,
    e: PolicyView,
)
    requires
        primary_before.version < u64::MAX,
        single_upsert(cs, e, (primary_before.version + 1) as u64),
        primary_after.policies == primary_before.policies.insert(e.policy_id, e),
        primary_after.version == primary_before.version + 1,
        replica.policies == primary_before.policies,
        replica.version == primary_before.version,
    ensures
        apply_changeset_spec(replica, cs).policies == primary_after.policies,
        apply_changeset_spec(replica, cs).version == primary_after.version,
{
    assert(cs.upserts.len() == 1);
    assert(cs.upserts.last() == e);
    assert(cs.upserts.drop_last() =~= Seq::<PolicyView>::empty());
    assert(upsert_all(replica.policies, cs.upserts.drop_last()) == replica.policies);
    assert(upsert_all(replica.policies, cs.upserts) == replica.policies.insert(e.policy_id, e));
    assert(cs.deletes.len() == 0);
}

/// Incremental sync: replaying the whole history of a primary that was
/// built from an empty catalog by single-entry updates, on an empty replica,
/// reproduces the primary's policies and version.
pub proof fn lemma_history_replay(states: Seq<CatalogView>)
    requires
        states.len() > 0,
        states[0] == empty_catalog(),
        forall|i: int| 0 <= i < states.len() - 1 ==> primary_step(#[trigger] states[i], states[i + 1]),
    ensures
        replay(empty_catalog(), states.last().history).policies == states.last().policies,
        replay(empty_catalog(), states.last().history).version == states.last().version,
    decreases states.len(),
{
    if states.len() == 1 {
        assert(states.last() == states[0]);
    } else {
        let prev = states.drop_last();
        assert forall|i: int| 0 <= i < prev.len() - 1 implies primary_step(
            #[trigger] prev[i],
            prev[i + 1],
        ) by {
            assert(prev[i] == states[i] && prev[i + 1] == states[i + 1]);
            assert(primary_step(states[i], states[i + 1]));
        }
        assert(prev[0] == states[0]);
        lemma_history_replay(prev);
        let a = states[states.len() - 2];
        let b = states.last();
        assert(prev.last() == a);
        assert(primary_step(a, b));
        let (cs, e) = choose|cs: ChangesetView, e: PolicyView|
            {
                &&& #[trigger] single_upsert(cs, e, (a.version + 1) as u64)
                &&& b.policies == a.policies.insert(e.policy_id, e)
                &&& b.version == a.version + 1
                &&& b.history == a.history.push(cs)
            };
        assert(b.history.drop_last() =~= a.history);
        assert(b.history.last() == cs);
        let r = replay(empty_catalog(), a.history);
        lemma_replica_follows(a, b, r, cs, e);
    }
}

/// A read after an update gives back what the update stored.
pub proof fn lemma_read_after_upsert(
    before: CatalogView,
    after: CatalogView,
    entry: PolicyView,
    v: u64,
)
    requires
        after.policies == before.policies.insert(entry.policy_id, stamped(entry, v)),
    ensures
        after.policies.contains_key(entry.policy_id),
        after.policies[entry.policy_id] == stamped(entry, v),
        after.policies[entry.policy_id].version == v,
        forall|k: Seq<char>|
            k != entry.policy_id ==> (#[trigger] after.policies.contains_key(k)
                == before.policies.contains_key(k)) && (before.policies.contains_key(k)
                ==> after.policies[k] == before.policies[k]),
{
}

/// A deactivated policy stays in the catalog and is inactive.
pub proof fn lemma_deactivate_keeps_entry(
    before: CatalogView,
    after: CatalogView,
    id: Seq<char>,
    v: u64,
)
    requires
        before.policies.contains_key(id),
        after.policies == before.policies.insert(id, deactivated(before.policies[id], v)),
    ensures
        after.policies.contains_key(id),
        !after.policies[id].active,
        after.policies[id].policy_id == before.policies[id].policy_id,
        after.policies[id].datalog == before.policies[id].datalog,
        after.policies.dom() == before.policies.dom(),
{
    assert(after.policies.dom() =~= before.policies.dom());
}

} // verus!
