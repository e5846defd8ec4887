//! The model registry: the AI-Tables catalog of models by id, and the
//! function-as-operator registry by `(function id, version)`.
//!
//! The registry keeps what it is given as it is: a model entry under its
//! id, an operator under its key together with the id of the model that
//! runs it.

use vstd::prelude::*;

use crate::kernel::error::{AnamError, Result};
use crate::text::{
    chars_of, lemma_lex_le_refl, lemma_lex_le_total, lemma_lex_le_trans, lex_le, lex_le_exec, push_str,
    string_of, text_eq,
};

verus! {

/// The key of a registered operator and the model that backs it.
#[derive(Debug, PartialEq, Eq)]
pub struct OperatorKey {
    pub function_id: String,
    pub version: String,
    pub model_id: String,
}

/// The value of an [`OperatorKey`].
pub struct KeyView {
    pub function_id: Seq<char>,
    pub version: Seq<char>,
    pub model_id: Seq<char>,
}

impl View for OperatorKey {
    type V = KeyView;

    open spec fn view(&self) -> KeyView {
        KeyView {
            function_id: self.function_id@,
            version: self.version@,
            model_id: self.model_id@,
        }
    }
}

/// The catalog entries with their ids as text.
pub open spec fn entry_views<M>(v: Seq<(String, M)>) -> Seq<(Seq<char>, M)> {
    v.map_values(|e: (String, M)| (e.0@, e.1))
}

/// The operators with their keys as values.
pub open spec fn op_views<O>(v: Seq<(OperatorKey, O)>) -> Seq<(KeyView, O)> {
    v.map_values(|e: (OperatorKey, O)| (e.0@, e.1))
}

/// The catalog without the entries of `id`, in order.
pub open spec fn models_without<M>(s: Seq<(Seq<char>, M)>, id: Seq<char>) -> Seq<(Seq<char>, M)>
    decreases s.len(),
{
    if s.len() == 0 {
        Seq::empty()
    } else if s.last().0 == id {
        models_without(s.drop_last(), id)
    } else {
        models_without(s.drop_last(), id).push(s.last())
    }
}

/// The entry of model `id`: the last one of that id.
pub open spec fn model_named<M>(s: Seq<(Seq<char>, M)>, id: Seq<char>) -> Option<M>
    decreases s.len(),
{
    if s.len() == 0 {
        None
    } else if s.last().0 == id {
        Some(s.last().1)
    } else {
        model_named(s.drop_last(), id)
    }
}

/// The operators without the one under `(function_id, version)`.
pub open spec fn ops_without_key<O>(s: Seq<(KeyView, O)>, function_id: Seq<char>, version: Seq<char>) -> Seq<(KeyView, O)>
    decreases s.len(),
{
    if s.len() == 0 {
        Seq::empty()
    } else if s.last().0.function_id == function_id && s.last().0.version == version {
        ops_without_key(s.drop_last(), function_id, version)
    } else {
        ops_without_key(s.drop_last(), function_id, version).push(s.last())
    }
}

/// The operators not backed by model `id`.
pub open spec fn ops_without_model<O>(s: Seq<(KeyView, O)>, id: Seq<char>) -> Seq<(KeyView, O)>
    decreases s.len(),
{
    if s.len() == 0 {
        Seq::empty()
    } else if s.last().0.model_id == id {
        ops_without_model(s.drop_last(), id)
    } else {
        ops_without_model(s.drop_last(), id).push(s.last())
    }
}

/// The operator under `(function_id, version)`: the last one of that key.
pub open spec fn op_named<O>(s: Seq<(KeyView, O)>, function_id: Seq<char>, version: Seq<char>) -> Option<(KeyView, O)>
    decreases s.len(),
{
    if s.len() == 0 {
        None
    } else if s.last().0.function_id == function_id && s.last().0.version == version {
        Some(s.last())
    } else {
        op_named(s.drop_last(), function_id, version)
    }
}

/// The operator of `function_id` with the greatest version, versions
/// ordered as strings; of equal versions the later one.
pub open spec fn latest_op<O>(s: Seq<(KeyView, O)>, function_id: Seq<char>) -> Option<(KeyView, O)>
    decreases s.len(),
{
    if s.len() == 0 {
        None
    } else {
        let rest = latest_op(s.drop_last(), function_id);
        let newer = match rest {
            Some(e) => lex_le(e.0.version, s.last().0.version),
            None => true,
        };
        if s.last().0.function_id == function_id && newer {
            Some(s.last())
        } else {
            rest
        }
    }
}

/// The operators of `function_id`, in order.
pub open spec fn variants<O>(s: Seq<(KeyView, O)>, function_id: Seq<char>) -> Seq<O>
    decreases s.len(),
{
    if s.len() == 0 {
        Seq::empty()
    } else if s.last().0.function_id == function_id {
        variants(s.drop_last(), function_id).push(s.last().1)
    } else {
        variants(s.drop_last(), function_id)
    }
}

/// The registry of models (entries of type `M`) and operators (of type
/// `O`).
#[derive(Debug)]
pub struct ModelRegistry<M, O> {
    catalog: Vec<(String, M)>,
    operators: Vec<(OperatorKey, O)>,
}

fn same(a: &String, b: &str) -> (r: bool)
    ensures
        r == (a@ == b@),
{
    text_eq(&chars_of(a.as_str()), &chars_of(b))
}

impl<M, O> ModelRegistry<M, O> {
    /// The catalog: model entries under their ids, in registration order.
    pub closed spec fn models(&self) -> Seq<(Seq<char>, M)> {
        entry_views(self.catalog@)
    }

    /// The operators under their keys, in registration order.
    pub closed spec fn ops(&self) -> Seq<(KeyView, O)> {
        op_views(self.operators@)
    }

    /// An empty registry.
    pub fn new() -> (r: Self)
        ensures
            r.models().len() == 0,
            r.ops().len() == 0,
    {
        let r = ModelRegistry { catalog: Vec::new(), operators: Vec::new() };
        assert(r.models() =~= Seq::<(Seq<char>, M)>::empty());
        assert(r.ops() =~= Seq::<(KeyView, O)>::empty());
        r
    }

    /// Register a model entry under its id, replacing one of the same id.
    pub fn register_model(&mut self, model_id: &str, entry: M) -> (r: Result<()>)
        ensures
            r is Ok,
            final(self).models() == models_without(old(self).models(), model_id@).push((model_id@, entry)),
            final(self).ops() == old(self).ops(),
    {
        self.remove_model_entry(model_id);
        let ghost before = self.models();
        self.catalog.push((string_of(&chars_of(model_id)), entry));
        assert(self.models() =~= before.push((model_id@, entry)));
        Ok(())
    }

    fn remove_model_entry(&mut self, model_id: &str) -> (found: bool)
        ensures
            final(self).models() == models_without(old(self).models(), model_id@),
            found == (model_named(old(self).models(), model_id@) is Some),
            final(self).ops() == old(self).ops(),
    {
        let mut rest: Vec<(String, M)> = Vec::new();
        std::mem::swap(&mut rest, &mut self.catalog);
        let ghost all = entry_views(rest@);
        let ghost n = rest@.len();
        let mut kept: Vec<(String, M)> = Vec::new();
        let mut found = false;
        let mut i: usize = 0;
        assert(all.subrange(0, 0) =~= Seq::<(Seq<char>, M)>::empty());
        assert(entry_views(kept@) =~= Seq::<(Seq<char>, M)>::empty());
        assert(rest@.len() == rest.len());
        while rest.len() > 0
            invariant
                i + rest@.len() == n,
                n == all.len(),
                n <= usize::MAX,
                all == old(self).models(),
                self.ops() == old(self).ops(),
                entry_views(rest@) == all.subrange(i as int, n as int),
                entry_views(kept@) == models_without(all.subrange(0, i as int), model_id@),
                found == (model_named(all.subrange(0, i as int), model_id@) is Some),
            decreases rest.len(),
        {
            let ghost r0 = rest@;
            assert(entry_views(r0)[0] == all[i as int]);
            let e = rest.remove(0);
            let ghost pre = all.subrange(0, i as int);
            let ghost post = all.subrange(0, i + 1);
            assert(post.drop_last() =~= pre);
            assert(post.last() == (e.0@, e.1));
            if same(&e.0, model_id) {
                found = true;
            } else {
                let ghost kv = entry_views(kept@);
                kept.push(e);
                assert(entry_views(kept@) =~= kv.push(post.last()));
            }
            assert(rest@ =~= r0.remove(0));
            assert forall|k: int| 0 <= k < rest@.len() implies #[trigger] entry_views(rest@)[k] == all[i + 1 + k] by {
                assert(rest@[k] == r0[k + 1]);
                assert(entry_views(r0)[k + 1] == all.subrange(i as int, n as int)[k + 1]);
            }
            assert(entry_views(rest@) =~= all.subrange(i + 1, n as int));
            i += 1;
        }
        assert(all.subrange(0, n as int) =~= all);
        self.catalog = kept;
        found
    }

    fn remove_ops_where(&mut self, model_id: Option<&str>, key: Option<(&str, &str)>)
        requires
            model_id is Some != key is Some,
        ensures
            model_id matches Some(id) ==> final(self).ops() == ops_without_model(old(self).ops(), id@),
            key matches Some((f, v)) ==> final(self).ops() == ops_without_key(old(self).ops(), f@, v@),
            final(self).models() == old(self).models(),
    {
        let mut rest: Vec<(OperatorKey, O)> = Vec::new();
        std::mem::swap(&mut rest, &mut self.operators);
        let ghost all = op_views(rest@);
        let ghost n = rest@.len();
        let mut kept: Vec<(OperatorKey, O)> = Vec::new();
        let mut i: usize = 0;
        assert(op_views(kept@) =~= Seq::<(KeyView, O)>::empty());
        assert(rest@.len() == rest.len());
        while rest.len() > 0
            invariant
                i + rest@.len() == n,
                n == all.len(),
                n <= usize::MAX,
                all == old(self).ops(),
                model_id is Some != key is Some,
                self.models() == old(self).models(),
                op_views(rest@) == all.subrange(i as int, n as int),
                model_id matches Some(id) ==> op_views(kept@)
                    == ops_without_model(all.subrange(0, i as int), id@),
                key matches Some((f, v)) ==> op_views(kept@)
                    == ops_without_key(all.subrange(0, i as int), f@, v@),
            decreases rest.len(),
        {
            let ghost r0 = rest@;
            assert(op_views(r0)[0] == all[i as int]);
            let e = rest.remove(0);
            let ghost pre = all.subrange(0, i as int);
            let ghost post = all.subrange(0, i + 1);
            assert(post.drop_last() =~= pre);
            assert(post.last() == (e.0@, e.1));
            let drop = match model_id {
                Some(id) => same(&e.0.model_id, id),
                None => match key {
                    Some((f, v)) => same(&e.0.function_id, f) && same(&e.0.version, v),
                    None => false,
                },
            };
            if !drop {
                let ghost kv = op_views(kept@);
                kept.push(e);
                assert(op_views(kept@) =~= kv.push(post.last()));
            }
            assert(rest@ =~= r0.remove(0));
            assert forall|k: int| 0 <= k < rest@.len() implies #[trigger] op_views(rest@)[k] == all[i + 1 + k] by {
                assert(rest@[k] == r0[k + 1]);
                assert(op_views(r0)[k + 1] == all.subrange(i as int, n as int)[k + 1]);
            }
            assert(op_views(rest@) =~= all.subrange(i + 1, n as int));
            i += 1;
        }
        assert(all.subrange(0, n as int) =~= all);
        self.operators = kept;
    }

    /// Remove a model and every operator it backs; an error when no model
    /// has that id.
    pub fn unregister_model(&mut self, model_id: &str) -> (r: Result<()>)
        ensures
            r is Ok <==> model_named(old(self).models(), model_id@) is Some,
            r is Ok ==> final(self).models() == models_without(old(self).models(), model_id@)
                && final(self).ops() == ops_without_model(old(self).ops(), model_id@),
            r is Err ==> final(self).models() == old(self).models() && final(self).ops() == old(
                self,
            ).ops(),
            r matches Err(e) ==> (e matches AnamError::ModelNotFound(m) && m@ == model_id@),
    {
        if self.remove_model_entry(model_id) {
            self.remove_ops_where(Some(model_id), None);
            Ok(())
        } else {
            proof {
                lemma_models_without_absent(old(self).models(), model_id@);
            }
            Err(AnamError::ModelNotFound(string_of(&chars_of(model_id))))
        }
    }

    /// The entry of a model; an error when no model has that id.
    pub fn get_model(&self, model_id: &str) -> (r: Result<&M>)
        ensures
            match model_named(self.models(), model_id@) {
                Some(m) => r matches Ok(x) && *x == m,
                None => r matches Err(e) && (e matches AnamError::ModelNotFound(t) && t@ == model_id@),
            },
    {
        let ghost s = self.models();
        let mut i: usize = self.catalog.len();
        assert(s.subrange(0, i as int) =~= s);
        while i > 0
            invariant
                i <= self.catalog.len(),
                s == self.models(),
                s.len() == self.catalog@.len(),
                model_named(s, model_id@) == model_named(s.subrange(0, i as int), model_id@),
            decreases i,
        {
            let ghost pre = s.subrange(0, i as int);
            assert(pre.last() == s[i - 1]);
            assert(pre.drop_last() =~= s.subrange(0, i - 1));
            if same(&self.catalog[i - 1].0, model_id) {
                return Ok(&self.catalog[i - 1].1);
            }
            i -= 1;
        }
        Err(AnamError::ModelNotFound(string_of(&chars_of(model_id))))
    }

    /// Every model entry, in registration order.
    pub fn list_models(&self) -> (r: Vec<&M>)
        ensures
            r@.len() == self.models().len(),
            forall|k: int| 0 <= k < r@.len() ==> *#[trigger] r@[k] == self.models()[k].1,
    {
        let mut r: Vec<&M> = Vec::new();
        let mut i: usize = 0;
        while i < self.catalog.len()
            invariant
                i <= self.catalog.len(),
                r@.len() == i,
                self.models().len() == self.catalog@.len(),
                forall|k: int| 0 <= k < i ==> *#[trigger] r@[k] == self.models()[k].1,
            decreases self.catalog.len() - i,
        {
            r.push(&self.catalog[i].1);
            i += 1;
        }
        r
    }

    /// Register an operator under its key, replacing one of the same key.
    pub fn register_operator(&mut self, key: OperatorKey, operator: O) -> (r: Result<()>)
        ensures
            r is Ok,
            final(self).ops() == ops_without_key(old(self).ops(), key.function_id@, key.version@).push(
                (key@, operator),
            ),
            final(self).models() == old(self).models(),
    {
        let f = string_of(&chars_of(key.function_id.as_str()));
        let v = string_of(&chars_of(key.version.as_str()));
        self.remove_ops_where(None, Some((f.as_str(), v.as_str())));
        let ghost before = self.ops();
        let ghost kv = key@;
        self.operators.push((key, operator));
        assert(self.ops() =~= before.push((kv, operator)));
        Ok(())
    }

    /// The operator under `(function_id, version)`; an error naming
    /// `function_id@version` when there is none.
    pub fn get_operator(&self, function_id: &str, version: &str) -> (r: Result<&O>)
        ensures
            match op_named(self.ops(), function_id@, version@) {
                Some(e) => r matches Ok(x) && *x == e.1,
                None => r matches Err(e) && (e matches AnamError::ModelNotFound(t) && t@ == function_id@
                    + "@"@ + version@),
            },
    {
        let ghost s = self.ops();
        let mut i: usize = self.operators.len();
        assert(s.subrange(0, i as int) =~= s);
        while i > 0
            invariant
                i <= self.operators.len(),
                s == self.ops(),
                s.len() == self.operators@.len(),
                op_named(s, function_id@, version@) == op_named(s.subrange(0, i as int), function_id@, version@),
            decreases i,
        {
            let ghost pre = s.subrange(0, i as int);
            assert(pre.last() == s[i - 1]);
            assert(pre.drop_last() =~= s.subrange(0, i - 1));
            if same(&self.operators[i - 1].0.function_id, function_id) && same(
                &self.operators[i - 1].0.version,
                version,
            ) {
                return Ok(&self.operators[i - 1].1);
            }
            i -= 1;
        }
        let mut m = chars_of(function_id);
        push_str(&mut m, "@");
        push_str(&mut m, version);
        Err(AnamError::ModelNotFound(string_of(&m)))
    }

    /// The operator of `function_id` with the greatest version (see
    /// [`latest_op`]); an error naming `function_id@latest` when it has
    /// none.
    pub fn get_latest_operator(&self, function_id: &str) -> (r: Result<&O>)
        ensures
            match latest_op(self.ops(), function_id@) {
                Some(e) => r matches Ok(x) && *x == e.1,
                None => r matches Err(e) && (e matches AnamError::ModelNotFound(t) && t@ == function_id@
                    + "@latest"@),
            },
    {
        let ghost s = self.ops();
        let mut best: Option<usize> = None;
        let mut i: usize = 0;
        while i < self.operators.len()
            invariant
                i <= self.operators.len(),
                s == self.ops(),
                s.len() == self.operators@.len(),
                match latest_op(s.subrange(0, i as int), function_id@) {
                    Some(e) => best matches Some(b) && b < i && s[b as int] == e,
                    None => best is None,
                },
            decreases self.operators.len() - i,
        {
            let ghost pre = s.subrange(0, i as int);
            let ghost post = s.subrange(0, i + 1);
            assert(post.drop_last() =~= pre);
            assert(post.last() == s[i as int]);
            if same(&self.operators[i].0.function_id, function_id) {
                let take = match best {
                    None => true,
                    Some(b) => lex_le_exec(
                        &chars_of(self.operators[b].0.version.as_str()),
                        &chars_of(self.operators[i].0.version.as_str()),
                    ),
                };
                if take {
                    best = Some(i);
                }
            }
            i += 1;
        }
        assert(s.subrange(0, self.operators.len() as int) =~= s);
        match best {
            Some(b) => Ok(&self.operators[b].1),
            None => {
                let mut m = chars_of(function_id);
                push_str(&mut m, "@latest");
                Err(AnamError::ModelNotFound(string_of(&m)))
            },
        }
    }

    /// The operators of `function_id`, in registration order.
    pub fn get_operator_variants(&self, function_id: &str) -> (r: Vec<&O>)
        ensures
            r@.map_values(|x: &O| *x) == variants(self.ops(), function_id@),
    {
        let ghost s = self.ops();
        let mut r: Vec<&O> = Vec::new();
        let mut i: usize = 0;
        assert(r@.map_values(|x: &O| *x) =~= variants(s.subrange(0, 0), function_id@));
        while i < self.operators.len()
            invariant
                i <= self.operators.len(),
                s == self.ops(),
                s.len() == self.operators@.len(),
                r@.map_values(|x: &O| *x) == variants(s.subrange(0, i as int), function_id@),
            decreases self.operators.len() - i,
        {
            let ghost post = s.subrange(0, i + 1);
            assert(post.drop_last() =~= s.subrange(0, i as int));
            assert(post.last() == s[i as int]);
            if same(&self.operators[i].0.function_id, function_id) {
                let ghost before = r@.map_values(|x: &O| *x);
                r.push(&self.operators[i].1);
                assert(r@.map_values(|x: &O| *x) =~= before.push(s[i as int].1));
            }
            i += 1;
        }
        assert(s.subrange(0, self.operators.len() as int) =~= s);
        r
    }

    /// Every operator, in registration order.
    pub fn list_operators(&self) -> (r: Vec<&O>)
        ensures
            r@.len() == self.ops().len(),
            forall|k: int| 0 <= k < r@.len() ==> *#[trigger] r@[k] == self.ops()[k].1,
    {
        let mut r: Vec<&O> = Vec::new();
        let mut i: usize = 0;
        while i < self.operators.len()
            invariant
                i <= self.operators.len(),
                r@.len() == i,
                self.ops().len() == self.operators@.len(),
                forall|k: int| 0 <= k < i ==> *#[trigger] r@[k] == self.ops()[k].1,
            decreases self.operators.len() - i,
        {
            r.push(&self.operators[i].1);
            i += 1;
        }
        r
    }
}

/// The latest operator of a function is one of its operators, and no
/// operator of that function has a greater version; a function has a
/// latest operator exactly when it has an operator.
pub proof fn lemma_latest_is_greatest<O>(s: Seq<(KeyView, O)>, function_id: Seq<char>)
    ensures
        latest_op(s, function_id) is Some <==> exists|k: int|
            0 <= k < s.len() && #[trigger] s[k].0.function_id == function_id,
        latest_op(s, function_id) matches Some(e) ==> s.contains(e) && e.0.function_id == function_id
            && forall|k: int|
            0 <= k < s.len() && #[trigger] s[k].0.function_id == function_id ==> lex_le(
                s[k].0.version,
                e.0.version,
            ),
    decreases s.len(),
{
    if s.len() > 0 {
        let t = s.drop_last();
        lemma_latest_is_greatest(t, function_id);
        let rest = latest_op(t, function_id);
        assert forall|k: int| 0 <= k < t.len() implies t[k] == s[k] by {}
        if s.last().0.function_id == function_id {
            lemma_lex_le_refl(s.last().0.version);
            match rest {
                Some(e) => {
                    lemma_lex_le_total(e.0.version, s.last().0.version);
                    if lex_le(e.0.version, s.last().0.version) {
                        assert forall|k: int|
                            0 <= k < s.len() && #[trigger] s[k].0.function_id == function_id implies lex_le(
                            s[k].0.version,
                            s.last().0.version,
                        ) by {
                            if k < t.len() {
                                assert(t[k].0.function_id == function_id);
                                lemma_lex_le_trans(s[k].0.version, e.0.version, s.last().0.version);
                            }
                        }
                        assert(s[s.len() - 1] == s.last());
                    } else {
                        let j = choose|j: int| 0 <= j < t.len() && t[j] == e;
                        assert(s[j] == e);
                        assert forall|k: int|
                            0 <= k < s.len() && #[trigger] s[k].0.function_id == function_id implies lex_le(
                            s[k].0.version,
                            e.0.version,
                        ) by {
                            if k < t.len() {
                                assert(t[k].0.function_id == function_id);
                            } else {
                                assert(s[k] == s.last());
                            }
                        }
                    }
                },
                None => {
                    assert forall|k: int|
                        0 <= k < s.len() && #[trigger] s[k].0.function_id == function_id implies lex_le(
                        s[k].0.version,
                        s.last().0.version,
                    ) by {
                        if k < t.len() {
                            assert(t[k].0.function_id == function_id);
                        } else {
                            assert(s[k] == s.last());
                        }
                    }
                    assert(s[s.len() - 1] == s.last());
                },
            }
        } else {
            match rest {
                Some(e) => {
                    let j = choose|j: int| 0 <= j < t.len() && t[j] == e;
                    assert(s[j] == e);
                    assert forall|k: int|
                        0 <= k < s.len() && #[trigger] s[k].0.function_id == function_id implies lex_le(
                        s[k].0.version,
                        e.0.version,
                    ) by {
                        if k < t.len() {
                            assert(t[k].0.function_id == function_id);
                        } else {
                            assert(s[k] == s.last());
                        }
                    }
                },
                None => {
                    if exists|k: int| 0 <= k < s.len() && #[trigger] s[k].0.function_id == function_id {
                        let k = choose|k: int| 0 <= k < s.len() && #[trigger] s[k].0.function_id == function_id;
                        if k < t.len() {
                            assert(t[k].0.function_id == function_id);
                        } else {
                            assert(s[k] == s.last());
                        }
                    }
                },
            }
        }
    }
}

/// After a model is removed, no remaining operator is backed by it, and
/// every operator backed by another model remains.
pub proof fn lemma_unregister_drops_operators<O>(s: Seq<(KeyView, O)>, id: Seq<char>)
    ensures
        forall|k: int| 0 <= k < ops_without_model(s, id).len() ==> #[trigger] ops_without_model(s, id)[k].0.model_id != id,
        forall|k: int| 0 <= k < s.len() && #[trigger] s[k].0.model_id != id ==> ops_without_model(s, id).contains(s[k]),
    decreases s.len(),
{
    if s.len() > 0 {
        let t = s.drop_last();
        lemma_unregister_drops_operators(t, id);
        let w = ops_without_model(t, id);
        assert forall|k: int| 0 <= k < s.len() && #[trigger] s[k].0.model_id != id implies ops_without_model(
            s,
            id,
        ).contains(s[k]) by {
            if k < t.len() {
                assert(t[k] == s[k]);
                assert(t[k].0.model_id != id);
                let j = choose|j: int| 0 <= j < w.len() && w[j] == t[k];
                assert(ops_without_model(s, id)[j] == s[k]);
            } else {
                assert(s[k] == s.last());
                assert(ops_without_model(s, id)[w.len() as int] == s[k]);
            }
        }
    }
}

/// Reading an operator after registering it gives it back; other keys read
/// as before.
pub proof fn lemma_operator_read_after_register<O>(
    s: Seq<(KeyView, O)>,
    key: KeyView,
    op: O,
    function_id: Seq<char>,
    version: Seq<char>,
)
    ensures
        op_named(ops_without_key(s, key.function_id, key.version).push((key, op)), key.function_id, key.version)
            == Some((key, op)),
        !(function_id == key.function_id && version == key.version) ==> op_named(
            ops_without_key(s, key.function_id, key.version).push((key, op)),
            function_id,
            version,
        ) == op_named(s, function_id, version),
{
    let w = ops_without_key(s, key.function_id, key.version);
    assert(w.push((key, op)).drop_last() =~= w);
    lemma_ops_without_key_read(s, key.function_id, key.version, function_id, version);
}

proof fn lemma_ops_without_key_read<O>(
    s: Seq<(KeyView, O)>,
    f: Seq<char>,
    v: Seq<char>,
    function_id: Seq<char>,
    version: Seq<char>,
)
    ensures
        !(function_id == f && version == v) ==> op_named(ops_without_key(s, f, v), function_id, version)
            == op_named(s, function_id, version),
    decreases s.len(),
{
    if s.len() > 0 {
        lemma_ops_without_key_read(s.drop_last(), f, v, function_id, version);
        let w = ops_without_key(s.drop_last(), f, v);
        if !(s.last().0.function_id == f && s.last().0.version == v) {
            assert(w.push(s.last()).drop_last() =~= w);
        }
    }
}

proof fn lemma_models_without_absent<M>(s: Seq<(Seq<char>, M)>, id: Seq<char>)
    requires
        model_named(s, id) is None,
    ensures
        models_without(s, id) == s,
    decreases s.len(),
{
    if s.len() > 0 {
        lemma_models_without_absent(s.drop_last(), id);
        assert(models_without(s.drop_last(), id).push(s.last()) =~= s);
    } else {
        assert(models_without(s, id) =~= s);
    }
}

} // verus!
