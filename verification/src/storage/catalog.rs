//! Catalog entries for registered tables and rules, and the upsert and
//! removal by name that the persistent catalog performs on them.

use vstd::prelude::*;

use crate::text::{chars_of, string_of, text_eq};

verus! {

/// A registered table.
#[derive(Debug, Clone)]
pub struct TableEntry {
    /// Logical table name used in SQL queries.
    pub name: String,
    /// Filesystem path to the Lance dataset.
    pub lance_path: String,
}

/// A registered Datalog rule.
#[derive(Debug, Clone)]
pub struct RuleEntry {
    /// Rule name.
    pub name: String,
    /// Datalog source expression.
    pub datalog: String,
}

impl View for TableEntry {
    type V = (Seq<char>, Seq<char>);

    open spec fn view(&self) -> (Seq<char>, Seq<char>) {
        (self.name@, self.lance_path@)
    }
}

impl View for RuleEntry {
    type V = (Seq<char>, Seq<char>);

    open spec fn view(&self) -> (Seq<char>, Seq<char>) {
        (self.name@, self.datalog@)
    }
}

/// The views of table entries.
pub open spec fn table_views(v: Seq<TableEntry>) -> Seq<(Seq<char>, Seq<char>)> {
    v.map_values(|e: TableEntry| e@)
}

/// The views of rule entries.
pub open spec fn rule_views(v: Seq<RuleEntry>) -> Seq<(Seq<char>, Seq<char>)> {
    v.map_values(|e: RuleEntry| e@)
}

/// The entries not named `name`, in order.
pub open spec fn without_name(s: Seq<(Seq<char>, Seq<char>)>, name: Seq<char>) -> Seq<
    (Seq<char>, Seq<char>),
>
    decreases s.len(),
{
    if s.len() == 0 {
        Seq::empty()
    } else if s.last().0 == name {
        without_name(s.drop_last(), name)
    } else {
        without_name(s.drop_last(), name).push(s.last())
    }
}

/// The entries after upserting `(name, value)`: any entry of that name
/// removed, the new one appended.
pub open spec fn upserted(s: Seq<(Seq<char>, Seq<char>)>, name: Seq<char>, value: Seq<char>) -> Seq<
    (Seq<char>, Seq<char>),
> {
    without_name(s, name).push((name, value))
}

/// The value of the last entry named `name`.
pub open spec fn lookup(s: Seq<(Seq<char>, Seq<char>)>, name: Seq<char>) -> Option<Seq<char>>
    decreases s.len(),
{
    if s.len() == 0 {
        None
    } else if s.last().0 == name {
        Some(s.last().1)
    } else {
        lookup(s.drop_last(), name)
    }
}

/// The number of entries named `name`.
pub open spec fn name_count(s: Seq<(Seq<char>, Seq<char>)>, name: Seq<char>) -> nat
    decreases s.len(),
{
    if s.len() == 0 {
        0
    } else if s.last().0 == name {
        name_count(s.drop_last(), name) + 1
    } else {
        name_count(s.drop_last(), name)
    }
}

/// Register (or replace) a table.
pub fn upsert_table(tables: &mut Vec<TableEntry>, name: &str, lance_path: &str)
    ensures
        table_views(final(tables)@) == upserted(table_views(old(tables)@), name@, lance_path@),
{
    remove_table(tables, name);
    let e = TableEntry { name: string_of(&chars_of(name)), lance_path: string_of(&chars_of(lance_path)) };
    let ghost before = table_views(tables@);
    tables.push(e);
    assert(table_views(tables@) =~= before.push((name@, lance_path@)));
}

/// Remove every table named `name`.
pub fn remove_table(tables: &mut Vec<TableEntry>, name: &str)
    ensures
        table_views(final(tables)@) == without_name(table_views(old(tables)@), name@),
{
    let key = chars_of(name);
    let mut kept: Vec<TableEntry> = Vec::new();
    let mut i: usize = 0;
    while i < tables.len()
        invariant
            i <= tables.len(),
            key@ == name@,
            tables@ == old(tables)@,
            table_views(kept@) == without_name(table_views(tables@).subrange(0, i as int), name@),
        decreases tables.len() - i,
    {
        let ghost pre = table_views(tables@).subrange(0, i as int);
        let ghost post = table_views(tables@).subrange(0, i + 1);
        assert(post.drop_last() =~= pre);
        assert(post.last() == tables@[i as int]@);
        let t = &tables[i];
        if !text_eq(&chars_of(t.name.as_str()), &key) {
            let copy = TableEntry {
                name: string_of(&chars_of(t.name.as_str())),
                lance_path: string_of(&chars_of(t.lance_path.as_str())),
            };
            let ghost kv = table_views(kept@);
            kept.push(copy);
            assert(table_views(kept@) =~= kv.push(t@));
        }
        i += 1;
    }
    assert(table_views(tables@).subrange(0, tables.len() as int) =~= table_views(tables@));
    *tables = kept;
}

/// Register (or replace) a rule.
pub fn upsert_rule(rules: &mut Vec<RuleEntry>, name: &str, datalog: &str)
    ensures
        rule_views(final(rules)@) == upserted(rule_views(old(rules)@), name@, datalog@),
{
    remove_rule(rules, name);
    let e = RuleEntry { name: string_of(&chars_of(name)), datalog: string_of(&chars_of(datalog)) };
    let ghost before = rule_views(rules@);
    rules.push(e);
    assert(rule_views(rules@) =~= before.push((name@, datalog@)));
}

/// Remove every rule named `name`.
pub fn remove_rule(rules: &mut Vec<RuleEntry>, name: &str)
    ensures
        rule_views(final(rules)@) == without_name(rule_views(old(rules)@), name@),
{
    let key = chars_of(name);
    let mut kept: Vec<RuleEntry> = Vec::new();
    let mut i: usize = 0;
    while i < rules.len()
        invariant
            i <= rules.len(),
            key@ == name@,
            rules@ == old(rules)@,
            rule_views(kept@) == without_name(rule_views(rules@).subrange(0, i as int), name@),
        decreases rules.len() - i,
    {
        let ghost pre = rule_views(rules@).subrange(0, i as int);
        let ghost post = rule_views(rules@).subrange(0, i + 1);
        assert(post.drop_last() =~= pre);
        assert(post.last() == rules@[i as int]@);
        let r = &rules[i];
        if !text_eq(&chars_of(r.name.as_str()), &key) {
            let copy = RuleEntry {
                name: string_of(&chars_of(r.name.as_str())),
                datalog: string_of(&chars_of(r.datalog.as_str())),
            };
            let ghost kv = rule_views(kept@);
            kept.push(copy);
            assert(rule_views(kept@) =~= kv.push(r@));
        }
        i += 1;
    }
    assert(rule_views(rules@).subrange(0, rules.len() as int) =~= rule_views(rules@));
    *rules = kept;
}

proof fn lemma_without_name(s: Seq<(Seq<char>, Seq<char>)>, name: Seq<char>, other: Seq<char>)
    ensures
        name_count(without_name(s, name), name) == 0,
        other != name ==> lookup(without_name(s, name), other) == lookup(s, other),
        other != name ==> name_count(without_name(s, name), other) == name_count(s, other),
    decreases s.len(),
{
    if s.len() > 0 {
        lemma_without_name(s.drop_last(), name, other);
        let w = without_name(s.drop_last(), name);
        if s.last().0 != name {
            let x = w.push(s.last());
            assert(x.drop_last() =~= w);
            assert(x.last() == s.last());
        }
    }
}

/// Reading a catalog after an upsert gives the value just written, and the
/// name occurs exactly once; every other name reads as before.
pub proof fn lemma_read_after_upsert(
    s: Seq<(Seq<char>, Seq<char>)>,
    name: Seq<char>,
    value: Seq<char>,
    other: Seq<char>,
)
    ensures
        lookup(upserted(s, name, value), name) == Some(value),
        name_count(upserted(s, name, value), name) == 1,
        other != name ==> lookup(upserted(s, name, value), other) == lookup(s, other),
        other != name ==> name_count(upserted(s, name, value), other) == name_count(s, other),
{
    lemma_without_name(s, name, other);
    let u = upserted(s, name, value);
    assert(u.drop_last() =~= without_name(s, name));
}

/// After removal nothing of that name is left, and every other name reads
/// as before.
pub proof fn lemma_read_after_remove(s: Seq<(Seq<char>, Seq<char>)>, name: Seq<char>, other: Seq<char>)
    ensures
        lookup(without_name(s, name), name) is None,
        other != name ==> lookup(without_name(s, name), other) == lookup(s, other),
{
    lemma_without_name(s, name, other);
    lemma_count_zero_lookup(without_name(s, name), name);
}

proof fn lemma_count_zero_lookup(s: Seq<(Seq<char>, Seq<char>)>, name: Seq<char>)
    requires
        name_count(s, name) == 0,
    ensures
        lookup(s, name) is None,
    decreases s.len(),
{
    if s.len() > 0 {
        lemma_count_zero_lookup(s.drop_last(), name);
    }
}

} // verus!
