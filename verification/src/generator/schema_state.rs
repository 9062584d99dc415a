//! The schema that the generator builds: its namespaces, each with the
//! common types, entity types and actions it declares by name, and how
//! each step of building changes it.
//!
//! A declaration either comes from the schema stub, of which the generator
//! reads only what deduplication needs, or was added by the generator.

use crate::generator::dedup::{copy_namespace, copy_strings, ns_view};
use crate::generator::err::SchemaGeneratorError;
use crate::generator::model::{
    action_decl_view, attrs_view, ctype_view, entity_decl_view, err_view, op_view, ops_view,
    ActionDecl, ActionDeclV, CType, CTypeV, EntityDecl, EntityDeclV, GenErr, Op, OpV,
};
use crate::generator::plan::{
    attr_type_view, existing_view, occupant_view, AttrType, AttrTypeV, ExistingEntity, ExistingV, Occupant,
    OccupantV,
};
use crate::strmap::{
    has_key, lemma_map_vals_has_key, lemma_map_vals_insert, lemma_map_vals_lookup, lookup, map_insert,
    map_vals, sorted_keys, StrMap,
};
use crate::text::strings_of;
use vstd::prelude::*;

verus! {

// ---------------------------------------------------------------------------
// The schema and its content.
// ---------------------------------------------------------------------------
/// An entity type of the schema: one the stub declares, as deduplication
/// reads it, or one the generator added.
#[derive(Debug)]
pub enum EntitySlot {
    Stub(ExistingEntity),
    New(EntityDecl),
}

/// What a namespace declares, by name: common types, entity types and
/// actions. A common type or an action is `None` when the stub declares
/// it.
#[derive(Debug)]
pub struct NsDecls {
    pub commons: StrMap<Option<CType>>,
    pub entities: StrMap<EntitySlot>,
    pub actions: StrMap<Option<ActionDecl>>,
}

/// A schema: its namespaces, each at most once, with their declarations.
#[derive(Debug)]
pub struct SchemaState {
    pub namespaces: Vec<(Option<Vec<String>>, NsDecls)>,
}

/// The content of an entity type of the schema.
pub enum EntitySlotV {
    Stub(ExistingV),
    New(EntityDeclV),
}

pub open spec fn slot_view(s: EntitySlot) -> EntitySlotV {
    match s {
        EntitySlot::Stub(e) => EntitySlotV::Stub(existing_view(e)),
        EntitySlot::New(d) => EntitySlotV::New(entity_decl_view(d)),
    }
}

/// The content of a namespace: its declarations by name, in name order.
pub struct NsV {
    pub commons: Seq<(Seq<char>, Option<CTypeV>)>,
    pub entities: Seq<(Seq<char>, EntitySlotV)>,
    pub actions: Seq<(Seq<char>, Option<ActionDeclV>)>,
}

pub open spec fn common_fn() -> spec_fn(Option<CType>) -> Option<CTypeV> {
    |o: Option<CType>|
        match o {
            Some(t) => Some(ctype_view(t)),
            None => None,
        }
}

pub open spec fn entity_fn() -> spec_fn(EntitySlot) -> EntitySlotV {
    |s: EntitySlot| slot_view(s)
}

pub open spec fn action_fn() -> spec_fn(Option<ActionDecl>) -> Option<ActionDeclV> {
    |o: Option<ActionDecl>|
        match o {
            Some(a) => Some(action_decl_view(a)),
            None => None,
        }
}

pub open spec fn decls_view(d: NsDecls) -> NsV {
    NsV {
        commons: map_vals(d.commons@, common_fn()),
        entities: map_vals(d.entities@, entity_fn()),
        actions: map_vals(d.actions@, action_fn()),
    }
}

/// The content of a schema: each namespace with the content of its
/// declarations.
pub open spec fn state_view(s: Seq<(Option<Vec<String>>, NsDecls)>) -> Seq<
    (Option<Seq<Seq<char>>>, NsV),
> {
    s.map_values(|e: (Option<Vec<String>>, NsDecls)| (ns_view(e.0), decls_view(e.1)))
}

impl View for SchemaState {
    type V = Seq<(Option<Seq<Seq<char>>>, NsV)>;

    open spec fn view(&self) -> Seq<(Option<Seq<Seq<char>>>, NsV)> {
        state_view(self.namespaces@)
    }
}

// ---------------------------------------------------------------------------
// Steps.
// ---------------------------------------------------------------------------
/// Where the namespace `n` is in the schema, if it is there.
pub open spec fn ns_pos(s: Seq<(Option<Seq<Seq<char>>>, NsV)>, n: Option<Seq<Seq<char>>>) -> Option<int>
    decreases s.len(),
{
    if s.len() == 0 {
        None
    } else if s[0].0 == n {
        Some(0)
    } else {
        match ns_pos(s.drop_first(), n) {
            Some(i) => Some(i + 1),
            None => None,
        }
    }
}

/// A namespace that declares nothing.
pub open spec fn empty_ns() -> NsV {
    NsV { commons: Seq::empty(), entities: Seq::empty(), actions: Seq::empty() }
}

/// Whether a namespace declares nothing.
pub open spec fn declares_nothing(v: NsV) -> bool {
    v.commons.len() == 0 && v.entities.len() == 0 && v.actions.len() == 0
}

/// The schema with the namespace `n` in it (added last when it was not),
/// and where it is.
pub open spec fn with_ns(s: Seq<(Option<Seq<Seq<char>>>, NsV)>, n: Option<Seq<Seq<char>>>) -> (
    Seq<(Option<Seq<Seq<char>>>, NsV)>,
    int,
) {
    match ns_pos(s, n) {
        Some(i) => (s, i),
        None => (s.push((n, empty_ns())), s.len() as int),
    }
}

/// The schema after a step, or the error the step ends with. A type
/// declared under a name the namespace already gives a type of the same
/// kind is an error when the step says so, and leaves the schema as it is
/// otherwise; an action replaces one of the same name; a namespace that a
/// step declares in is added when it is missing.
pub open spec fn spec_apply(s: Seq<(Option<Seq<Seq<char>>>, NsV)>, o: OpV) -> Result<
    Seq<(Option<Seq<Seq<char>>>, NsV)>,
    GenErr,
> {
    match o {
        OpV::AddNamespace(n) => Ok(with_ns(s, n).0),
        OpV::DropIfEmpty(n) => match ns_pos(s, n) {
            Some(i) => if declares_nothing(s[i].1) {
                Ok(s.remove(i))
            } else {
                Ok(s)
            },
            None => Ok(s),
        },
        OpV::AddCommon(n, name, t, error_if_exists) => {
            let (s1, i) = with_ns(s, n);
            let d = s1[i].1;
            if has_key(d.commons, name) {
                if error_if_exists {
                    Err(GenErr::Conflict(name))
                } else {
                    Ok(s)
                }
            } else {
                Ok(s1.update(i, (n, NsV { commons: map_insert(d.commons, name, Some(t)), ..d })))
            }
        },
        OpV::AddEntity(n, name, e, error_if_exists) => {
            let (s1, i) = with_ns(s, n);
            let d = s1[i].1;
            if has_key(d.entities, name) {
                if error_if_exists {
                    Err(GenErr::Conflict(name))
                } else {
                    Ok(s)
                }
            } else {
                Ok(
                    s1.update(
                        i,
                        (n, NsV { entities: map_insert(d.entities, name, EntitySlotV::New(e)), ..d }),
                    ),
                )
            }
        },
        OpV::AddAction(n, name, a) => {
            let (s1, i) = with_ns(s, n);
            let d = s1[i].1;
            Ok(s1.update(i, (n, NsV { actions: map_insert(d.actions, name, Some(a)), ..d })))
        },
    }
}

/// The schema after the steps, in order, or the error of the first step
/// that fails.
pub open spec fn spec_run(s: Seq<(Option<Seq<Seq<char>>>, NsV)>, ops: Seq<OpV>) -> Result<
    Seq<(Option<Seq<Seq<char>>>, NsV)>,
    GenErr,
>
    decreases ops.len(),
{
    if ops.len() == 0 {
        Ok(s)
    } else {
        match spec_run(s, ops.drop_last()) {
            Err(e) => Err(e),
            Ok(s1) => spec_apply(s1, ops.last()),
        }
    }
}

/// What becomes of a schema when the steps of a translation are taken as
/// they are made: the error of the first step that fails, or else the
/// outcome of the translation with the schema after its steps.
pub open spec fn spec_outcome<X>(
    s: Seq<(Option<Seq<Seq<char>>>, NsV)>,
    steps: (Seq<OpV>, Result<X, GenErr>),
) -> Result<(Seq<(Option<Seq<Seq<char>>>, NsV)>, X), GenErr> {
    match spec_run(s, steps.0) {
        Err(e) => Err(e),
        Ok(s1) => match steps.1 {
            Err(e) => Err(e),
            Ok(x) => Ok((s1, x)),
        },
    }
}

/// Where `ns_pos` finds a namespace, it is there; where it finds none,
/// no entry is the namespace.
pub proof fn lemma_ns_pos(s: Seq<(Option<Seq<Seq<char>>>, NsV)>, n: Option<Seq<Seq<char>>>)
    ensures
        match ns_pos(s, n) {
            Some(i) => 0 <= i < s.len() && s[i].0 == n && forall|j: int| 0 <= j < i ==> (#[trigger] s[j]).0 != n,
            None => forall|j: int| 0 <= j < s.len() ==> (#[trigger] s[j]).0 != n,
        },
    decreases s.len(),
{
    if s.len() > 0 && s[0].0 != n {
        lemma_ns_pos(s.drop_first(), n);
        assert forall|j: int| 1 <= j < s.len() implies #[trigger] s[j] == s.drop_first()[j - 1] by {}
    }
}

proof fn lemma_state_view_push(s: Seq<(Option<Vec<String>>, NsDecls)>, e: (Option<Vec<String>>, NsDecls))
    ensures
        state_view(s.push(e)) == state_view(s).push((ns_view(e.0), decls_view(e.1))),
{
    assert(state_view(s.push(e)) =~= state_view(s).push((ns_view(e.0), decls_view(e.1))));
}

impl SchemaState {
    /// Where the namespace `ns` is, if it is there.
    pub fn position(&self, ns: &Option<Vec<String>>) -> (r: Option<usize>)
        ensures
            match r {
                Some(i) => ns_pos(self@, ns_view(*ns)) == Some(i as int) && i < self.namespaces@.len(),
                None => ns_pos(self@, ns_view(*ns)) is None,
            },
    {
        let ghost s = self@;
        let mut i: usize = 0;
        assert(s.skip(0) =~= s);
        while i < self.namespaces.len()
            invariant
                0 <= i <= self.namespaces@.len(),
                s == self@,
                s.len() == self.namespaces@.len(),
                ns_pos(s, ns_view(*ns)) == match ns_pos(s.skip(i as int), ns_view(*ns)) {
                    Some(j) => Some(j + i),
                    None => None::<int>,
                },
            decreases self.namespaces@.len() - i,
        {
            assert(s.skip(i as int)[0] == s[i as int]);
            assert(s[i as int].0 == ns_view(self.namespaces@[i as int].0));
            assert(s.skip(i as int).drop_first() =~= s.skip(i + 1));
            if crate::generator::plan::same_namespace(&self.namespaces[i].0, ns) {
                return Some(i);
            }
            i = i + 1;
        }
        assert(s.skip(i as int).len() == 0);
        None
    }

    /// Adds the namespace `ns` last when it is missing; where it is.
    fn ensure_ns(&mut self, ns: Option<Vec<String>>) -> (r: usize)
        ensures
            final(self)@ == with_ns(old(self)@, ns_view(ns)).0,
            r as int == with_ns(old(self)@, ns_view(ns)).1,
            r < final(self).namespaces@.len(),
    {
        let ghost s0 = self@;
        assert(s0.len() == self.namespaces@.len());
        proof {
            lemma_ns_pos(s0, ns_view(ns));
        }
        match self.position(&ns) {
            Some(i) => {
                assert(i as int == with_ns(s0, ns_view(ns)).1);
                i
            },
            None => {
                let ghost before = self.namespaces@;
                let d = NsDecls { commons: StrMap::new(), entities: StrMap::new(), actions: StrMap::new() };
                let i = self.namespaces.len();
                self.namespaces.push((ns, d));
                proof {
                    lemma_state_view_push(before, self.namespaces@.last());
                    assert(decls_view(d) == empty_ns()) by {
                        assert(decls_view(d).commons =~= Seq::<(Seq<char>, Option<CTypeV>)>::empty());
                        assert(decls_view(d).entities =~= Seq::<(Seq<char>, EntitySlotV)>::empty());
                        assert(decls_view(d).actions =~= Seq::<(Seq<char>, Option<ActionDeclV>)>::empty());
                    }
                    assert(i as int == s0.len());
                    assert(with_ns(s0, ns_view(ns)).1 == s0.len());
                }
                i
            },
        }
    }

    /// Takes the declarations of the `i`-th namespace out, to change them.
    fn take_ns(&mut self, i: usize) -> (r: (Option<Vec<String>>, NsDecls))
        requires
            i < old(self).namespaces@.len(),
        ensures
            r == old(self).namespaces@[i as int],
            final(self).namespaces@ == old(self).namespaces@.remove(i as int),
    {
        self.namespaces.remove(i)
    }

    /// Puts the changed declarations of the `i`-th namespace back.
    fn put_ns(&mut self, i: usize, e: (Option<Vec<String>>, NsDecls))
        requires
            i <= old(self).namespaces@.len(),
        ensures
            final(self).namespaces@ == old(self).namespaces@.insert(i as int, e),
    {
        self.namespaces.insert(i, e);
    }

    fn drop_step(&mut self, ns: Option<Vec<String>>)
        ensures
            spec_apply(old(self)@, OpV::DropIfEmpty(ns_view(ns))) == Ok::<Seq<(Option<Seq<Seq<char>>>, NsV)>, GenErr>(final(self)@),
    {
        let ghost s0 = self@;
        proof {
            lemma_ns_pos(s0, ns_view(ns));
        }
        match self.position(&ns) {
            None => {},
            Some(i) => {
                let d = &self.namespaces[i].1;
                let empty = d.commons.is_empty() && d.entities.is_empty() && d.actions.is_empty();
                proof {
                    assert(s0[i as int].1 == decls_view(self.namespaces@[i as int].1));
                }
                if empty {
                    let _ = self.namespaces.remove(i);
                    assert(self@ =~= s0.remove(i as int));
                }
            },
        }
    }

    fn add_common_step(&mut self, ns: Option<Vec<String>>, name: String, ty: CType, error_if_exists: bool) -> (r: Result<(), SchemaGeneratorError>)
        ensures
            match spec_apply(old(self)@, OpV::AddCommon(ns_view(ns), name@, ctype_view(ty), error_if_exists)) {
                Ok(s) => r is Ok && final(self)@ == s,
                Err(e) => r matches Err(x) && err_view(x) == e && final(self)@ == old(self)@,
            },
    {
        let ghost s0 = self@;
        let ghost n = ns_view(ns);
        proof {
            lemma_ns_pos(s0, n);
        }
        let i = self.ensure_ns(ns);
        let ghost s1 = self@;
        let ghost v1 = self.namespaces@;
        let (k, mut d) = self.take_ns(i);
        proof {
            assert(s1[i as int] == (ns_view(k), decls_view(d)));
            lemma_map_vals_has_key(d.commons@, common_fn(), name@);
            if ns_pos(s0, n) is None {
                assert(s1[i as int].1 == empty_ns());
            }
        }
        if d.commons.contains_key(name.as_str()) {
            self.put_ns(i, (k, d));
            assert(self.namespaces@ =~= v1);
            if error_if_exists {
                return Err(SchemaGeneratorError::conflicting_name(name));
            } else {
                return Ok(());
            }
        }
        let ghost old_c = d.commons@;
        let ghost val = Some(ty);
        let ghost tv = ctype_view(ty);
        d.commons.insert(name, Some(ty));
        let ghost e = (k, d);
        self.put_ns(i, (k, d));
        proof {
            lemma_map_vals_insert(old_c, common_fn(), name@, val);
            assert(common_fn()(val) == Some(tv));
            assert(self.namespaces@ =~= v1.update(i as int, e));
            assert(self@ =~= s1.update(i as int, (n, NsV { commons: map_insert(s1[i as int].1.commons, name@, Some(tv)), ..s1[i as int].1 })));
        }
        Ok(())
    }

    fn add_entity_step(&mut self, ns: Option<Vec<String>>, name: String, decl: EntityDecl, error_if_exists: bool) -> (r: Result<(), SchemaGeneratorError>)
        ensures
            match spec_apply(old(self)@, OpV::AddEntity(ns_view(ns), name@, entity_decl_view(decl), error_if_exists)) {
                Ok(s) => r is Ok && final(self)@ == s,
                Err(e) => r matches Err(x) && err_view(x) == e && final(self)@ == old(self)@,
            },
    {
        let ghost s0 = self@;
        let ghost n = ns_view(ns);
        proof {
            lemma_ns_pos(s0, n);
        }
        let i = self.ensure_ns(ns);
        let ghost s1 = self@;
        let ghost v1 = self.namespaces@;
        let (k, mut d) = self.take_ns(i);
        proof {
            assert(s1[i as int] == (ns_view(k), decls_view(d)));
            lemma_map_vals_has_key(d.entities@, entity_fn(), name@);
            if ns_pos(s0, n) is None {
                assert(s1[i as int].1 == empty_ns());
            }
        }
        if d.entities.contains_key(name.as_str()) {
            self.put_ns(i, (k, d));
            assert(self.namespaces@ =~= v1);
            if error_if_exists {
                return Err(SchemaGeneratorError::conflicting_name(name));
            } else {
                return Ok(());
            }
        }
        let ghost old_e = d.entities@;
        let ghost dv = entity_decl_view(decl);
        let ghost val = EntitySlot::New(decl);
        d.entities.insert(name, EntitySlot::New(decl));
        let ghost e = (k, d);
        self.put_ns(i, (k, d));
        proof {
            lemma_map_vals_insert(old_e, entity_fn(), name@, val);
            assert(entity_fn()(val) == EntitySlotV::New(dv));
            assert(self.namespaces@ =~= v1.update(i as int, e));
            assert(self@ =~= s1.update(i as int, (n, NsV { entities: map_insert(s1[i as int].1.entities, name@, EntitySlotV::New(dv)), ..s1[i as int].1 })));
        }
        Ok(())
    }

    fn add_action_step(&mut self, ns: Option<Vec<String>>, name: String, action: ActionDecl)
        ensures
            spec_apply(old(self)@, OpV::AddAction(ns_view(ns), name@, action_decl_view(action))) == Ok::<Seq<(Option<Seq<Seq<char>>>, NsV)>, GenErr>(final(self)@),
    {
        let ghost s0 = self@;
        let ghost n = ns_view(ns);
        proof {
            lemma_ns_pos(s0, n);
        }
        let i = self.ensure_ns(ns);
        let ghost s1 = self@;
        let ghost v1 = self.namespaces@;
        let (k, mut d) = self.take_ns(i);
        proof {
            assert(s1[i as int] == (ns_view(k), decls_view(d)));
        }
        let ghost old_a = d.actions@;
        let ghost av = action_decl_view(action);
        let ghost val = Some(action);
        d.actions.insert(name, Some(action));
        let ghost e = (k, d);
        self.put_ns(i, (k, d));
        proof {
            lemma_map_vals_insert(old_a, action_fn(), name@, val);
            assert(action_fn()(val) == Some(av));
            assert(self.namespaces@ =~= v1.update(i as int, e));
            assert(self@ =~= s1.update(i as int, (n, NsV { actions: map_insert(s1[i as int].1.actions, name@, Some(av)), ..s1[i as int].1 })));
        }
    }

    /// Takes a step (see `spec_apply`); a step that fails leaves the
    /// schema as it was.
    pub fn apply(&mut self, op: Op) -> (r: Result<(), SchemaGeneratorError>)
        ensures
            match spec_apply(old(self)@, op_view(op)) {
                Ok(s) => r is Ok && final(self)@ == s,
                Err(e) => r matches Err(x) && err_view(x) == e && final(self)@ == old(self)@,
            },
    {
        match op {
            Op::AddNamespace(ns) => {
                let _ = self.ensure_ns(ns);
                Ok(())
            },
            Op::DropIfEmpty(ns) => {
                self.drop_step(ns);
                Ok(())
            },
            Op::AddCommon { ns, name, ty, error_if_exists } => self.add_common_step(ns, name, ty, error_if_exists),
            Op::AddEntity { ns, name, decl, error_if_exists } => self.add_entity_step(ns, name, decl, error_if_exists),
            Op::AddAction { ns, name, action } => {
                self.add_action_step(ns, name, action);
                Ok(())
            },
        }
    }

    /// Takes the steps in order (see `spec_run`), up to the first that
    /// fails.
    pub fn run(&mut self, ops: Vec<Op>) -> (r: Result<(), SchemaGeneratorError>)
        ensures
            match spec_run(old(self)@, ops_view(ops@)) {
                Ok(s) => r is Ok && final(self)@ == s,
                Err(e) => r matches Err(x) && err_view(x) == e,
            },
    {
        let ghost all = ops_view(ops@);
        let ghost s0 = self@;
        let mut rest = ops;
        let ghost mut k: int = 0;
        assert(all.take(0) =~= Seq::<OpV>::empty());
        while rest.len() > 0
            invariant
                0 <= k <= all.len(),
                all == ops_view(ops@),
                ops_view(rest@) == all.skip(k),
                s0 == old(self)@,
                spec_run(s0, all.take(k)) == Ok::<Seq<(Option<Seq<Seq<char>>>, NsV)>, GenErr>(self@),
            decreases rest@.len(),
        {
            let ghost before = rest@;
            assert(ops_view(before).len() == before.len());
            let o = rest.remove(0);
            proof {
                assert(ops_view(rest@) =~= all.skip(k + 1)) by {
                    assert(rest@ =~= before.subrange(1, before.len() as int));
                    assert(ops_view(before).len() == before.len());
                    assert forall|j: int| 0 <= j < rest@.len() implies ops_view(rest@)[j] == all.skip(k + 1)[j] by {
                        assert(rest@[j] == before[j + 1]);
                        assert(ops_view(before)[j + 1] == all.skip(k)[j + 1]);
                    }
                }
                assert(op_view(o) == all[k]) by {
                    assert(all.skip(k)[0] == all[k]);
                }
                assert(all.take(k + 1).drop_last() =~= all.take(k));
            }
            let ghost pre = self@;
            let ghost ov = op_view(o);
            let r = self.apply(o);
            proof {
                assert(all.take(k + 1).last() == ov);
                assert(spec_run(s0, all.take(k + 1)) == spec_apply(pre, ov));
                k = k + 1;
            }
            match r {
                Err(e) => {
                    proof {
                        assert(spec_run(s0, all.take(k)) is Err);
                        lemma_run_err(s0, all, k);
                    }
                    return Err(e);
                },
                Ok(()) => {},
            }
        }
        assert(all.take(k) =~= all);
        Ok(())
    }
}

/// Once a step fails, so do the steps after it.
pub proof fn lemma_run_err(s: Seq<(Option<Seq<Seq<char>>>, NsV)>, ops: Seq<OpV>, k: int)
    requires
        0 <= k <= ops.len(),
        spec_run(s, ops.take(k)) is Err,
    ensures
        spec_run(s, ops) == spec_run(s, ops.take(k)),
    decreases ops.len() - k,
{
    if k < ops.len() {
        assert(ops.take(k + 1).drop_last() =~= ops.take(k));
        lemma_run_err(s, ops, k + 1);
    } else {
        assert(ops.take(k) =~= ops);
    }
}

} // verus!

verus! {

// ---------------------------------------------------------------------------
// Copies, so that a failed change can be undone.
// ---------------------------------------------------------------------------
/// A copy of a type with the same content.
pub fn copy_ctype(t: &CType) -> (r: CType)
    ensures
        ctype_view(r) == ctype_view(*t),
    decreases t,
{
    match t {
        CType::EntityOrCommon(n) => CType::EntityOrCommon(copy_strings(n)),
        CType::Entity(n) => CType::Entity(copy_strings(n)),
        CType::CommonRef(n) => CType::CommonRef(copy_strings(n)),
        CType::SetOf(e) => CType::SetOf(Box::new(copy_ctype(&**e))),
        CType::Record(attrs) => {
            assert(decreases_to!(t => attrs));
            CType::Record(copy_attrs(attrs))
        },
    }
}

/// A copy of the attributes of a record with the same content.
pub fn copy_attrs(a: &Vec<(String, CType, bool)>) -> (r: Vec<(String, CType, bool)>)
    ensures
        attrs_view(r@) == attrs_view(a@),
    decreases a,
{
    let mut out: Vec<(String, CType, bool)> = Vec::new();
    let mut i: usize = 0;
    assert(attrs_view(out@) =~= attrs_view(a@.take(0)));
    while i < a.len()
        invariant
            0 <= i <= a@.len(),
            attrs_view(out@) == attrs_view(a@.take(i as int)),
        decreases a@.len() - i,
    {
        let e = &a[i];
        assert(decreases_to!(a => a@));
        assert(decreases_to!(a@ => a@[i as int]));
        assert(decreases_to!(a@[i as int] => a@[i as int].1));
        let t = copy_ctype(&e.1);
        let ghost before = out@;
        let x = (e.0.clone(), t, e.2);
        out.push(x);
        proof {
            crate::generator::model::lemma_attrs_view_push(before, x);
            assert(a@.take(i + 1) =~= a@.take(i as int).push(a@[i as int]));
            crate::generator::model::lemma_attrs_view_push(a@.take(i as int), a@[i as int]);
        }
        i = i + 1;
    }
    assert(a@.take(a@.len() as int) =~= a@);
    out
}

fn copy_opt_ctype(t: &Option<CType>) -> (r: Option<CType>)
    ensures
        common_fn()(r) == common_fn()(*t),
{
    match t {
        Some(x) => Some(copy_ctype(x)),
        None => None,
    }
}

/// A copy of an entity type declaration with the same content.
pub fn copy_entity_decl(d: &EntityDecl) -> (r: EntityDecl)
    ensures
        entity_decl_view(r) == entity_decl_view(*d),
{
    match d {
        EntityDecl::Enum(cs) => EntityDecl::Enum(copy_strings(cs)),
        EntityDecl::Record(attrs, tags) => EntityDecl::Record(copy_attrs(attrs), copy_opt_ctype(tags)),
        EntityDecl::Opaque => EntityDecl::Opaque,
    }
}

fn copy_opt_strings(o: &Option<Vec<String>>) -> (r: Option<Vec<String>>)
    ensures
        match (r, *o) {
            (Some(x), Some(y)) => x@ == y@,
            (None, None) => true,
            _ => false,
        },
{
    match o {
        Some(v) => Some(copy_strings(v)),
        None => None,
    }
}

/// A copy of an action declaration with the same content.
pub fn copy_action_decl(a: &ActionDecl) -> (r: ActionDecl)
    ensures
        action_decl_view(r) == action_decl_view(*a),
{
    ActionDecl {
        principals: copy_strings(&a.principals),
        resources: copy_strings(&a.resources),
        context: copy_attrs(&a.context),
        member_of: copy_opt_strings(&a.member_of),
    }
}

fn copy_attr_type(a: &AttrType) -> (r: AttrType)
    ensures
        attr_type_view(r) == attr_type_view(*a),
{
    match a {
        AttrType::EntityOrCommon(n) => AttrType::EntityOrCommon(copy_strings(n)),
        AttrType::Entity(n) => AttrType::Entity(copy_strings(n)),
        AttrType::Other => AttrType::Other,
    }
}

/// A copy of an existing entity type with the same content.
pub fn copy_existing(e: &ExistingEntity) -> (r: ExistingEntity)
    ensures
        existing_view(r) == existing_view(*e),
{
    match e {
        ExistingEntity::Enum(cs) => ExistingEntity::Enum(copy_strings(cs)),
        ExistingEntity::Record(attrs) => {
            let mut out: Vec<(String, AttrType, bool)> = Vec::new();
            let mut i: usize = 0;
            while i < attrs.len()
                invariant
                    0 <= i <= attrs@.len(),
                    out@.len() == i,
                    forall|j: int|
                        0 <= j < i ==> (#[trigger] out@[j]).0@ == attrs@[j].0@ && attr_type_view(out@[j].1)
                            == attr_type_view(attrs@[j].1) && out@[j].2 == attrs@[j].2,
                decreases attrs@.len() - i,
            {
                let a = &attrs[i];
                out.push((a.0.clone(), copy_attr_type(&a.1), a.2));
                i = i + 1;
            }
            let r = ExistingEntity::Record(out);
            assert(existing_view(r) == existing_view(*e)) by {
                let f = |a: (String, AttrType, bool)| (a.0@, attr_type_view(a.1), a.2);
                assert(out@.map_values(f) =~= attrs@.map_values(f));
            }
            r
        },
        ExistingEntity::Other => ExistingEntity::Other,
    }
}

fn copy_slot(s: &EntitySlot) -> (r: EntitySlot)
    ensures
        slot_view(r) == slot_view(*s),
{
    match s {
        EntitySlot::Stub(e) => EntitySlot::Stub(copy_existing(e)),
        EntitySlot::New(d) => EntitySlot::New(copy_entity_decl(d)),
    }
}

fn copy_commons(m: &StrMap<Option<CType>>) -> (r: StrMap<Option<CType>>)
    ensures
        map_vals(r@, common_fn()) == map_vals(m@, common_fn()),
{
    let mut out: Vec<(String, Option<CType>)> = Vec::new();
    let mut i: usize = 0;
    let n = m.len();
    while i < n
        invariant
            0 <= i <= n,
            n == m@.len(),
            out@.len() == i,
            forall|j: int|
                0 <= j < i ==> (#[trigger] out@[j]).0@ == m@[j].0 && common_fn()(out@[j].1) == common_fn()(m@[j].1),
        decreases n - i,
    {
        let (k, v) = m.entry(i);
        out.push((k.clone(), copy_opt_ctype(v)));
        i = i + 1;
    }
    let ghost ov = out@.map_values(|e: (String, Option<CType>)| (e.0@, e.1));
    assert(sorted_keys(ov)) by {
        assert forall|a: int, b: int| 0 <= a < b < ov.len() implies crate::strmap::text_lt(
            #[trigger] ov[a].0,
            #[trigger] ov[b].0,
        ) by {
            assert(ov[a].0 == m@[a].0);
            assert(ov[b].0 == m@[b].0);
        }
    }
    let r = StrMap::from_sorted(out);
    assert(map_vals(r@, common_fn()) =~= map_vals(m@, common_fn()));
    r
}

fn copy_entities(m: &StrMap<EntitySlot>) -> (r: StrMap<EntitySlot>)
    ensures
        map_vals(r@, entity_fn()) == map_vals(m@, entity_fn()),
{
    let mut out: Vec<(String, EntitySlot)> = Vec::new();
    let mut i: usize = 0;
    let n = m.len();
    while i < n
        invariant
            0 <= i <= n,
            n == m@.len(),
            out@.len() == i,
            forall|j: int|
                0 <= j < i ==> (#[trigger] out@[j]).0@ == m@[j].0 && slot_view(out@[j].1) == slot_view(m@[j].1),
        decreases n - i,
    {
        let (k, v) = m.entry(i);
        out.push((k.clone(), copy_slot(v)));
        i = i + 1;
    }
    let ghost ov = out@.map_values(|e: (String, EntitySlot)| (e.0@, e.1));
    assert(sorted_keys(ov)) by {
        assert forall|a: int, b: int| 0 <= a < b < ov.len() implies crate::strmap::text_lt(
            #[trigger] ov[a].0,
            #[trigger] ov[b].0,
        ) by {
            assert(ov[a].0 == m@[a].0);
            assert(ov[b].0 == m@[b].0);
        }
    }
    let r = StrMap::from_sorted(out);
    assert(map_vals(r@, entity_fn()) =~= map_vals(m@, entity_fn()));
    r
}

fn copy_opt_action(a: &Option<ActionDecl>) -> (r: Option<ActionDecl>)
    ensures
        action_fn()(r) == action_fn()(*a),
{
    match a {
        Some(x) => Some(copy_action_decl(x)),
        None => None,
    }
}

fn copy_actions(m: &StrMap<Option<ActionDecl>>) -> (r: StrMap<Option<ActionDecl>>)
    ensures
        map_vals(r@, action_fn()) == map_vals(m@, action_fn()),
{
    let mut out: Vec<(String, Option<ActionDecl>)> = Vec::new();
    let mut i: usize = 0;
    let n = m.len();
    while i < n
        invariant
            0 <= i <= n,
            n == m@.len(),
            out@.len() == i,
            forall|j: int|
                0 <= j < i ==> (#[trigger] out@[j]).0@ == m@[j].0 && action_fn()(out@[j].1) == action_fn()(m@[j].1),
        decreases n - i,
    {
        let (k, v) = m.entry(i);
        out.push((k.clone(), copy_opt_action(v)));
        i = i + 1;
    }
    let ghost ov = out@.map_values(|e: (String, Option<ActionDecl>)| (e.0@, e.1));
    assert(sorted_keys(ov)) by {
        assert forall|a: int, b: int| 0 <= a < b < ov.len() implies crate::strmap::text_lt(
            #[trigger] ov[a].0,
            #[trigger] ov[b].0,
        ) by {
            assert(ov[a].0 == m@[a].0);
            assert(ov[b].0 == m@[b].0);
        }
    }
    let r = StrMap::from_sorted(out);
    assert(map_vals(r@, action_fn()) =~= map_vals(m@, action_fn()));
    r
}

impl SchemaState {
    /// A copy of the schema with the same content.
    pub fn copy(&self) -> (r: SchemaState)
        ensures
            r@ == self@,
    {
        let mut out: Vec<(Option<Vec<String>>, NsDecls)> = Vec::new();
        let mut i: usize = 0;
        while i < self.namespaces.len()
            invariant
                0 <= i <= self.namespaces@.len(),
                out@.len() == i,
                forall|j: int| 0 <= j < i ==> #[trigger] state_view(out@)[j] == state_view(self.namespaces@)[j],
            decreases self.namespaces@.len() - i,
        {
            let e = &self.namespaces[i];
            let d = NsDecls {
                commons: copy_commons(&e.1.commons),
                entities: copy_entities(&e.1.entities),
                actions: copy_actions(&e.1.actions),
            };
            let ghost before = out@;
            let x = (copy_namespace(&e.0), d);
            out.push(x);
            proof {
                lemma_state_view_push(before, x);
                assert(decls_view(d) == decls_view(e.1));
            }
            i = i + 1;
        }
        let r = SchemaState { namespaces: out };
        assert(r@ =~= self@);
        r
    }
}

} // verus!

verus! {

// ---------------------------------------------------------------------------
// What deduplication reads of the schema.
// ---------------------------------------------------------------------------
/// How deduplication reads the type of an attribute: a reference by name,
/// or another type.
pub open spec fn attr_of(t: CTypeV) -> AttrTypeV {
    match t {
        CTypeV::EntityOrCommon(n) => AttrTypeV::EntityOrCommon(n),
        CTypeV::Entity(n) => AttrTypeV::Entity(n),
        _ => AttrTypeV::Other,
    }
}

/// How deduplication reads an entity type the generator declared: an
/// enum, or a record (an entity type without attributes has an empty
/// one).
pub open spec fn existing_of(d: EntityDeclV) -> ExistingV {
    match d {
        EntityDeclV::Enum(cs) => ExistingV::Enum(cs),
        EntityDeclV::Record(attrs, _) => ExistingV::Record(
            attrs.map_values(|a: (Seq<char>, (CTypeV, bool))| (a.0, attr_of(a.1.0), a.1.1)),
        ),
        EntityDeclV::Opaque => ExistingV::Record(Seq::empty()),
    }
}

/// What the namespace `n` declares under `name`: a common type comes
/// before an entity type.
pub open spec fn spec_occupant(s: Seq<(Option<Seq<Seq<char>>>, NsV)>, n: Option<Seq<Seq<char>>>, name: Seq<char>) -> OccupantV {
    match ns_pos(s, n) {
        None => OccupantV::Free,
        Some(i) => if has_key(s[i].1.commons, name) {
            OccupantV::CommonType
        } else {
            match lookup(s[i].1.entities, name) {
                Some(EntitySlotV::Stub(e)) => OccupantV::Entity(e),
                Some(EntitySlotV::New(d)) => OccupantV::Entity(existing_of(d)),
                None => OccupantV::Free,
            }
        },
    }
}

fn attr_type_of(t: &CType) -> (r: AttrType)
    ensures
        attr_type_view(r) == attr_of(ctype_view(*t)),
{
    match t {
        CType::EntityOrCommon(n) => AttrType::EntityOrCommon(copy_strings(n)),
        CType::Entity(n) => AttrType::Entity(copy_strings(n)),
        _ => AttrType::Other,
    }
}

/// How deduplication reads an entity type the generator declared.
fn existing_of_decl(d: &EntityDecl) -> (r: ExistingEntity)
    ensures
        existing_view(r) == existing_of(entity_decl_view(*d)),
{
    match d {
        EntityDecl::Enum(cs) => ExistingEntity::Enum(copy_strings(cs)),
        EntityDecl::Record(attrs, _) => {
            proof {
                crate::generator::model::lemma_attrs_view_index(attrs@);
            }
            let mut out: Vec<(String, AttrType, bool)> = Vec::new();
            let mut i: usize = 0;
            while i < attrs.len()
                invariant
                    0 <= i <= attrs@.len(),
                    out@.len() == i,
                    forall|j: int|
                        0 <= j < i ==> (#[trigger] out@[j]).0@ == attrs@[j].0@ && attr_type_view(out@[j].1)
                            == attr_of(ctype_view(attrs@[j].1)) && out@[j].2 == attrs@[j].2,
                decreases attrs@.len() - i,
            {
                let a = &attrs[i];
                out.push((a.0.clone(), attr_type_of(&a.1), a.2));
                i = i + 1;
            }
            let r = ExistingEntity::Record(out);
            assert(existing_view(r) == existing_of(entity_decl_view(*d))) by {
                let f = |a: (String, AttrType, bool)| (a.0@, attr_type_view(a.1), a.2);
                let g = |a: (Seq<char>, (CTypeV, bool))| (a.0, attr_of(a.1.0), a.1.1);
                assert(out@.map_values(f) =~= attrs_view(attrs@).map_values(g));
            }
            r
        },
        EntityDecl::Opaque => {
            let v: Vec<(String, AttrType, bool)> = Vec::new();
            let r = ExistingEntity::Record(v);
            assert(existing_view(r) == existing_of(entity_decl_view(*d))) by {
                let f = |a: (String, AttrType, bool)| (a.0@, attr_type_view(a.1), a.2);
                assert(v@.map_values(f) =~= Seq::<(Seq<char>, AttrTypeV, bool)>::empty());
            }
            r
        },
    }
}

impl SchemaState {
    /// What the namespace `ns` declares under `name`, as deduplication
    /// reads it.
    pub fn occupant(&self, ns: &Option<Vec<String>>, name: &str) -> (r: Occupant)
        ensures
            occupant_view(r) == spec_occupant(self@, ns_view(*ns), name@),
    {
        match self.position(ns) {
            None => Occupant::Free,
            Some(i) => {
                let d = &self.namespaces[i].1;
                let _ = d.entities.len();
                proof {
                    assert(self@[i as int].1 == decls_view(*d));
                    lemma_map_vals_has_key(d.commons@, common_fn(), name@);
                    lemma_map_vals_lookup(d.entities@, entity_fn(), name@);
                }
                if d.commons.contains_key(name) {
                    Occupant::CommonType
                } else {
                    match d.entities.get(name) {
                        None => Occupant::Free,
                        Some(EntitySlot::Stub(e)) => Occupant::Entity(copy_existing(e)),
                        Some(EntitySlot::New(decl)) => Occupant::Entity(existing_of_decl(decl)),
                    }
                }
            },
        }
    }
}

// ---------------------------------------------------------------------------
// The schema of a stub.
// ---------------------------------------------------------------------------
/// The entries put in order into an empty map.
pub open spec fn inserted<V>(es: Seq<(Seq<char>, V)>) -> Seq<(Seq<char>, V)>
    decreases es.len(),
{
    if es.len() == 0 {
        Seq::empty()
    } else {
        map_insert(inserted(es.drop_last()), es.last().0, es.last().1)
    }
}

/// Each name with the same value.
pub open spec fn each_with<V>(names: Seq<Seq<char>>, v: V) -> Seq<(Seq<char>, V)> {
    names.map_values(|k: Seq<char>| (k, v))
}

/// A map with the names, each declared by the stub.
fn stub_names<T>(names: &Vec<String>) -> (r: StrMap<Option<T>>)
    ensures
        r@ == inserted(each_with(strings_of(names@), None::<T>)),
{
    let ghost es = each_with(strings_of(names@), None::<T>);
    let mut m: StrMap<Option<T>> = StrMap::new();
    let mut i: usize = 0;
    assert(es.take(0) =~= Seq::<(Seq<char>, Option<T>)>::empty());
    while i < names.len()
        invariant
            0 <= i <= names@.len(),
            es == each_with(strings_of(names@), None::<T>),
            es.len() == names@.len(),
            m@ == inserted(es.take(i as int)),
        decreases names@.len() - i,
    {
        m.insert(names[i].clone(), None);
        proof {
            assert(es.take(i + 1).drop_last() =~= es.take(i as int));
            assert(es.take(i + 1).last() == (names@[i as int]@, None::<T>));
        }
        i = i + 1;
    }
    assert(es.take(es.len() as int) =~= es);
    m
}

impl SchemaState {
    /// The schema of a stub with the one namespace `ns`: the names of its
    /// common types, its entity types with their shapes, and the names of
    /// its actions.
    pub fn from_stub(
        ns: Option<Vec<String>>,
        commons: &Vec<String>,
        entities: &Vec<(String, ExistingEntity)>,
        actions: &Vec<String>,
    ) -> (r: SchemaState)
        ensures
            r@ == seq![
                (
                    ns_view(ns),
                    NsV {
                        commons: inserted(each_with(strings_of(commons@), None::<CTypeV>)),
                        entities: inserted(
                            entities@.map_values(
                                |e: (String, ExistingEntity)| (e.0@, EntitySlotV::Stub(existing_view(e.1))),
                            ),
                        ),
                        actions: inserted(each_with(strings_of(actions@), None::<ActionDeclV>)),
                    },
                ),
            ],
    {
        let c: StrMap<Option<CType>> = stub_names(commons);
        let a: StrMap<Option<ActionDecl>> = stub_names(actions);
        let ghost ev = entities@.map_values(
            |e: (String, ExistingEntity)| (e.0@, EntitySlotV::Stub(existing_view(e.1))),
        );
        let mut m: StrMap<EntitySlot> = StrMap::new();
        let mut i: usize = 0;
        assert(ev.take(0) =~= Seq::<(Seq<char>, EntitySlotV)>::empty());
        assert(map_vals(m@, entity_fn()) =~= Seq::<(Seq<char>, EntitySlotV)>::empty());
        while i < entities.len()
            invariant
                0 <= i <= entities@.len(),
                ev == entities@.map_values(
                    |e: (String, ExistingEntity)| (e.0@, EntitySlotV::Stub(existing_view(e.1))),
                ),
                map_vals(m@, entity_fn()) == inserted(ev.take(i as int)),
            decreases entities@.len() - i,
        {
            let e = &entities[i];
            let ghost before = m@;
            let slot = EntitySlot::Stub(copy_existing(&e.1));
            let ghost sv = slot;
            m.insert(e.0.clone(), slot);
            proof {
                lemma_map_vals_insert(before, entity_fn(), entities@[i as int].0@, sv);
                assert(ev.take(i + 1).drop_last() =~= ev.take(i as int));
                assert(ev.take(i + 1).last() == ev[i as int]);
            }
            i = i + 1;
        }
        assert(ev.take(ev.len() as int) =~= ev);
        let d = NsDecls { commons: c, entities: m, actions: a };
        let ghost cv = inserted(each_with(strings_of(commons@), None::<CType>));
        proof {
            lemma_inserted_none(strings_of(commons@), common_fn());
            lemma_inserted_none(strings_of(actions@), action_fn());
        }
        let r = SchemaState { namespaces: vec![(ns, d)] };
        assert(r@ =~= seq![(ns_view(ns), decls_view(d))]);
        r
    }
}

/// Mapping the values of names declared by the stub.
proof fn lemma_inserted_none<V, W>(names: Seq<Seq<char>>, f: spec_fn(Option<V>) -> Option<W>)
    requires
        f(None) == None::<W>,
    ensures
        map_vals(inserted(each_with(names, None::<V>)), f) == inserted(each_with(names, None::<W>)),
    decreases names.len(),
{
    if names.len() > 0 {
        lemma_inserted_none(names.drop_last(), f);
        assert(each_with(names, None::<V>).drop_last() =~= each_with(names.drop_last(), None::<V>));
        assert(each_with(names, None::<W>).drop_last() =~= each_with(names.drop_last(), None::<W>));
        lemma_map_vals_insert(inserted(each_with(names.drop_last(), None::<V>)), f, names.last(), None::<V>);
    } else {
        assert(map_vals(Seq::<(Seq<char>, Option<V>)>::empty(), f) =~= Seq::<(Seq<char>, Option<W>)>::empty());
    }
}

} // verus!

verus! {

// ---------------------------------------------------------------------------
// Laws of the steps.
// ---------------------------------------------------------------------------
/// No namespace occurs twice.
pub open spec fn distinct_namespaces(s: Seq<(Option<Seq<Seq<char>>>, NsV)>) -> bool {
    forall|i: int, j: int| 0 <= i < j < s.len() ==> (#[trigger] s[i]).0 != (#[trigger] s[j]).0
}

/// The declarations of each namespace are in name order.
pub open spec fn state_wf(s: Seq<(Option<Seq<Seq<char>>>, NsV)>) -> bool {
    forall|i: int|
        0 <= i < s.len() ==> sorted_keys(#[trigger] s[i].1.commons) && sorted_keys(s[i].1.entities)
            && sorted_keys(s[i].1.actions)
}

/// A step keeps each namespace at most once in the schema.
pub proof fn lemma_step_keeps_namespaces_distinct(s: Seq<(Option<Seq<Seq<char>>>, NsV)>, o: OpV)
    requires
        distinct_namespaces(s),
    ensures
        spec_apply(s, o) matches Ok(s2) ==> distinct_namespaces(s2),
{
    let n = match o {
        OpV::AddNamespace(n) => n,
        OpV::DropIfEmpty(n) => n,
        OpV::AddCommon(n, _, _, _) => n,
        OpV::AddEntity(n, _, _, _) => n,
        OpV::AddAction(n, _, _) => n,
    };
    lemma_ns_pos(s, n);
    let w = with_ns(s, n).0;
    assert(distinct_namespaces(w)) by {
        assert forall|i: int, j: int| 0 <= i < j < w.len() implies (#[trigger] w[i]).0 != (#[trigger] w[j]).0 by {
            if ns_pos(s, n) is None && j == s.len() {
                assert(w[j].0 == n);
                assert(w[i] == s[i]);
            } else if ns_pos(s, n) is None {
                assert(w[i] == s[i]);
                assert(w[j] == s[j]);
            }
        }
    }
    match spec_apply(s, o) {
        Ok(s2) => {
            match o {
                OpV::DropIfEmpty(_) => {
                    match ns_pos(s, n) {
                        Some(i) => {
                            if declares_nothing(s[i].1) {
                                assert forall|a: int, b: int| 0 <= a < b < s2.len() implies (#[trigger] s2[a]).0 != (#[trigger] s2[b]).0 by {
                                    let a2 = if a < i { a } else { a + 1 };
                                    let b2 = if b < i { b } else { b + 1 };
                                    assert(s2[a] == s[a2]);
                                    assert(s2[b] == s[b2]);
                                }
                            }
                        },
                        None => {},
                    }
                },
                OpV::AddNamespace(_) => {},
                _ => {
                    let i = with_ns(s, n).1;
                    assert forall|a: int, b: int| 0 <= a < b < s2.len() implies (#[trigger] s2[a]).0 != (#[trigger] s2[b]).0 by {
                        if s2 != s {
                            assert(s2[a].0 == w[a].0);
                            assert(s2[b].0 == w[b].0);
                        }
                    }
                },
            }
        },
        Err(_) => {},
    }
}

/// Steps taken in order keep each namespace at most once in the schema.
pub proof fn lemma_run_keeps_namespaces_distinct(s: Seq<(Option<Seq<Seq<char>>>, NsV)>, ops: Seq<OpV>)
    requires
        distinct_namespaces(s),
    ensures
        spec_run(s, ops) matches Ok(s2) ==> distinct_namespaces(s2),
    decreases ops.len(),
{
    if ops.len() > 0 {
        lemma_run_keeps_namespaces_distinct(s, ops.drop_last());
        match spec_run(s, ops.drop_last()) {
            Ok(s1) => lemma_step_keeps_namespaces_distinct(s1, ops.last()),
            Err(_) => {},
        }
    }
}

/// Declaring a common type fails exactly when the declaration says so and
/// the namespace already declares a common type of that name; when it
/// succeeds, the namespace declares the name, with the new type if the
/// name was free.
pub proof fn lemma_declare_common(
    s: Seq<(Option<Seq<Seq<char>>>, NsV)>,
    n: Option<Seq<Seq<char>>>,
    name: Seq<char>,
    t: CTypeV,
    error_if_exists: bool,
)
    requires
        state_wf(s),
    ensures
        ({
            let taken = ns_pos(s, n) matches Some(i) && has_key(s[i].1.commons, name);
            match spec_apply(s, OpV::AddCommon(n, name, t, error_if_exists)) {
                Err(e) => error_if_exists && taken && e == GenErr::Conflict(name),
                Ok(s2) => !(error_if_exists && taken) && (ns_pos(s2, n) matches Some(j) && has_key(s2[j].1.commons, name)
                    && (!taken ==> lookup(s2[j].1.commons, name) == Some(Some(t)))),
            }
        }),
{
    lemma_ns_pos(s, n);
    let (s1, i) = with_ns(s, n);
    lemma_ns_pos(s1, n);
    if ns_pos(s, n) is None {
        assert(ns_pos(s1, n) == Some(i)) by {
            lemma_ns_pos_first(s1, n, i);
        }
    }
    match spec_apply(s, OpV::AddCommon(n, name, t, error_if_exists)) {
        Ok(s2) => {
            let d = s1[i].1;
            if !has_key(d.commons, name) {
                let s3 = s1.update(i, (n, NsV { commons: map_insert(d.commons, name, Some(t)), ..d }));
                assert(s2 == s3);
                lemma_ns_pos_first(s3, n, i);
                crate::strmap::lemma_lookup_after_insert(d.commons, name, Some(t), name);
            }
        },
        Err(_) => {},
    }
}

/// The first entry for a namespace is where `ns_pos` finds it.
pub proof fn lemma_ns_pos_first(s: Seq<(Option<Seq<Seq<char>>>, NsV)>, n: Option<Seq<Seq<char>>>, i: int)
    requires
        0 <= i < s.len(),
        s[i].0 == n,
        forall|j: int| 0 <= j < i ==> (#[trigger] s[j]).0 != n,
    ensures
        ns_pos(s, n) == Some(i),
    decreases i,
{
    if i > 0 {
        assert forall|j: int| 0 <= j < i - 1 implies (#[trigger] s.drop_first()[j]).0 != n by {
            assert(s.drop_first()[j] == s[j + 1]);
        }
        lemma_ns_pos_first(s.drop_first(), n, i - 1);
    }
}

/// Dropping a namespace that declares something leaves the schema as it
/// is; dropping one that declares nothing removes it.
pub proof fn lemma_drop_only_empty(s: Seq<(Option<Seq<Seq<char>>>, NsV)>, n: Option<Seq<Seq<char>>>)
    requires
        distinct_namespaces(s),
    ensures
        spec_apply(s, OpV::DropIfEmpty(n)) matches Ok(s2) && (match ns_pos(s, n) {
            Some(i) => if declares_nothing(s[i].1) {
                ns_pos(s2, n) is None && s2.len() == s.len() - 1
            } else {
                s2 == s
            },
            None => s2 == s,
        }),
{
    lemma_ns_pos(s, n);
    match ns_pos(s, n) {
        Some(i) => {
            if declares_nothing(s[i].1) {
                let s2 = s.remove(i);
                assert forall|j: int| 0 <= j < s2.len() implies (#[trigger] s2[j]).0 != n by {
                    let j2 = if j < i { j } else { j + 1 };
                    assert(s2[j] == s[j2]);
                }
                lemma_ns_pos(s2, n);
            }
        },
        None => {},
    }
}

} // verus!

verus! {

/// Where `with_ns` puts the namespace, and what it leaves as it was.
proof fn lemma_with_ns(s: Seq<(Option<Seq<Seq<char>>>, NsV)>, n: Option<Seq<Seq<char>>>)
    ensures
        ({
            let (w, k) = with_ns(s, n);
            &&& 0 <= k < w.len()
            &&& w[k].0 == n
            &&& k < s.len() ==> w == s
            &&& k == s.len() ==> w.len() == s.len() + 1 && w[k].1 == empty_ns()
            &&& s.len() <= w.len()
            &&& forall|i: int| 0 <= i < s.len() ==> #[trigger] w[i] == s[i]
        }),
{
    lemma_ns_pos(s, n);
}

/// A step keeps the declarations of each namespace in name order.
pub proof fn lemma_step_keeps_wf(s: Seq<(Option<Seq<Seq<char>>>, NsV)>, o: OpV)
    requires
        state_wf(s),
    ensures
        spec_apply(s, o) matches Ok(s2) ==> state_wf(s2),
{
    let n = match o {
        OpV::AddNamespace(n) => n,
        OpV::DropIfEmpty(n) => n,
        OpV::AddCommon(n, _, _, _) => n,
        OpV::AddEntity(n, _, _, _) => n,
        OpV::AddAction(n, _, _) => n,
    };
    lemma_ns_pos(s, n);
    lemma_with_ns(s, n);
    let (w, k) = with_ns(s, n);
    assert(state_wf(w)) by {
        assert forall|i: int| 0 <= i < w.len() implies sorted_keys(#[trigger] w[i].1.commons) && sorted_keys(
            w[i].1.entities,
        ) && sorted_keys(w[i].1.actions) by {
            if i < s.len() {
                assert(w[i] == s[i]);
            } else {
                assert(i == k);
            }
        }
    }
    let d = w[k].1;
    assert(sorted_keys(d.commons) && sorted_keys(d.entities) && sorted_keys(d.actions));
    match spec_apply(s, o) {
        Ok(s2) => {
            match o {
                OpV::DropIfEmpty(_) => {
                    if s2 != s {
                        let j = ns_pos(s, n)->Some_0;
                        assert(s2 == s.remove(j));
                        assert forall|i: int| 0 <= i < s2.len() implies sorted_keys(#[trigger] s2[i].1.commons)
                            && sorted_keys(s2[i].1.entities) && sorted_keys(s2[i].1.actions) by {
                            let i2 = if i < j { i } else { i + 1 };
                            assert(s2[i] == s[i2]);
                        }
                    }
                },
                OpV::AddNamespace(_) => {},
                OpV::AddCommon(_, name, t, _) => {
                    if s2 != s {
                        crate::strmap::lemma_lookup_after_insert(d.commons, name, Some(t), name);
                        assert forall|i: int| 0 <= i < s2.len() implies sorted_keys(#[trigger] s2[i].1.commons)
                            && sorted_keys(s2[i].1.entities) && sorted_keys(s2[i].1.actions) by {
                            if i != k {
                                assert(s2[i] == w[i]);
                            }
                        }
                    }
                },
                OpV::AddEntity(_, name, e, _) => {
                    if s2 != s {
                        crate::strmap::lemma_lookup_after_insert(d.entities, name, EntitySlotV::New(e), name);
                        assert forall|i: int| 0 <= i < s2.len() implies sorted_keys(#[trigger] s2[i].1.commons)
                            && sorted_keys(s2[i].1.entities) && sorted_keys(s2[i].1.actions) by {
                            if i != k {
                                assert(s2[i] == w[i]);
                            }
                        }
                    }
                },
                OpV::AddAction(_, name, a) => {
                    crate::strmap::lemma_lookup_after_insert(d.actions, name, Some(a), name);
                    assert forall|i: int| 0 <= i < s2.len() implies sorted_keys(#[trigger] s2[i].1.commons)
                        && sorted_keys(s2[i].1.entities) && sorted_keys(s2[i].1.actions) by {
                        if i != k {
                            assert(s2[i] == w[i]);
                        }
                    }
                },
            }
        },
        Err(_) => {},
    }
}

/// Steps taken in order keep the declarations of each namespace in name
/// order, and each namespace at most once.
pub proof fn lemma_run_keeps_wf(s: Seq<(Option<Seq<Seq<char>>>, NsV)>, ops: Seq<OpV>)
    requires
        state_wf(s),
        distinct_namespaces(s),
    ensures
        spec_run(s, ops) matches Ok(s2) ==> state_wf(s2) && distinct_namespaces(s2),
    decreases ops.len(),
{
    if ops.len() > 0 {
        lemma_run_keeps_wf(s, ops.drop_last());
        match spec_run(s, ops.drop_last()) {
            Ok(s1) => {
                lemma_step_keeps_wf(s1, ops.last());
                lemma_step_keeps_namespaces_distinct(s1, ops.last());
            },
            Err(_) => {},
        }
    }
}

/// Taking two lists of steps is taking the first, then the second.
pub proof fn lemma_run_append(s: Seq<(Option<Seq<Seq<char>>>, NsV)>, a: Seq<OpV>, b: Seq<OpV>)
    ensures
        spec_run(s, a + b) == match spec_run(s, a) {
            Ok(s1) => spec_run(s1, b),
            Err(e) => Err(e),
        },
    decreases b.len(),
{
    if b.len() == 0 {
        assert(a + b =~= a);
    } else {
        assert((a + b).drop_last() =~= a + b.drop_last());
        assert((a + b).last() == b.last());
        lemma_run_append(s, a, b.drop_last());
    }
}

/// The namespace `n` of the schema declares the action `a`.
pub open spec fn declares_action(s: Seq<(Option<Seq<Seq<char>>>, NsV)>, n: Option<Seq<Seq<char>>>, a: Seq<char>) -> bool {
    ns_pos(s, n) matches Some(i) && has_key(s[i].1.actions, a)
}

/// Where a namespace occurs once, `ns_pos` finds it there.
proof fn lemma_ns_pos_unique(s: Seq<(Option<Seq<Seq<char>>>, NsV)>, n: Option<Seq<Seq<char>>>, i: int)
    requires
        distinct_namespaces(s),
        0 <= i < s.len(),
        s[i].0 == n,
    ensures
        ns_pos(s, n) == Some(i),
{
    assert forall|j: int| 0 <= j < i implies (#[trigger] s[j]).0 != n by {}
    lemma_ns_pos_first(s, n, i);
}

/// No step takes away an action: a namespace that declares an action
/// still declares it after any step that succeeds.
pub proof fn lemma_step_keeps_action(
    s: Seq<(Option<Seq<Seq<char>>>, NsV)>,
    o: OpV,
    n: Option<Seq<Seq<char>>>,
    a: Seq<char>,
)
    requires
        state_wf(s),
        distinct_namespaces(s),
        declares_action(s, n, a),
    ensures
        spec_apply(s, o) matches Ok(s2) ==> declares_action(s2, n, a),
{
    let i = ns_pos(s, n)->Some_0;
    lemma_ns_pos(s, n);
    lemma_step_keeps_namespaces_distinct(s, o);
    let m = match o {
        OpV::AddNamespace(m) => m,
        OpV::DropIfEmpty(m) => m,
        OpV::AddCommon(m, _, _, _) => m,
        OpV::AddEntity(m, _, _, _) => m,
        OpV::AddAction(m, _, _) => m,
    };
    lemma_ns_pos(s, m);
    let (w, k) = with_ns(s, m);
    assert(w[i] == s[i]);
    match spec_apply(s, o) {
        Ok(s2) => {
            match o {
                OpV::DropIfEmpty(_) => {
                    if s2 != s {
                        let j = ns_pos(s, m)->Some_0;
                        assert(j != i) by {
                            if j == i {
                                assert(s[i].1.actions.len() > 0);
                            }
                        }
                        let i2 = if i < j { i } else { i - 1 };
                        assert(s2[i2] == s[i]);
                        lemma_ns_pos_unique(s2, n, i2);
                    } else {
                        lemma_ns_pos_unique(s2, n, i);
                    }
                },
                OpV::AddNamespace(_) => {
                    lemma_ns_pos_unique(s2, n, i);
                },
                OpV::AddAction(_, name, d) => {
                    assert(s2[i].0 == n);
                    lemma_ns_pos_unique(s2, n, i);
                    if k == i {
                        crate::strmap::lemma_lookup_after_insert(s[i].1.actions, name, Some(d), a);
                    } else {
                        assert(s2[i] == w[i]);
                    }
                },
                _ => {
                    if s2 == s {
                    } else {
                        assert(s2[i].0 == n);
                        assert(s2[i].1.actions == s[i].1.actions);
                        lemma_ns_pos_unique(s2, n, i);
                    }
                },
            }
        },
        Err(_) => {},
    }
}

/// Steps taken in order take away no action.
pub proof fn lemma_run_keeps_action(
    s: Seq<(Option<Seq<Seq<char>>>, NsV)>,
    ops: Seq<OpV>,
    n: Option<Seq<Seq<char>>>,
    a: Seq<char>,
)
    requires
        state_wf(s),
        distinct_namespaces(s),
        declares_action(s, n, a),
    ensures
        spec_run(s, ops) matches Ok(s2) ==> declares_action(s2, n, a),
    decreases ops.len(),
{
    if ops.len() > 0 {
        lemma_run_keeps_action(s, ops.drop_last(), n, a);
        lemma_run_keeps_wf(s, ops.drop_last());
        match spec_run(s, ops.drop_last()) {
            Ok(s1) => lemma_step_keeps_action(s1, ops.last(), n, a),
            Err(_) => {},
        }
    }
}

/// Declaring an action makes the namespace declare it.
pub proof fn lemma_add_action_declares(
    s: Seq<(Option<Seq<Seq<char>>>, NsV)>,
    n: Option<Seq<Seq<char>>>,
    a: Seq<char>,
    d: ActionDeclV,
)
    requires
        state_wf(s),
        distinct_namespaces(s),
    ensures
        spec_apply(s, OpV::AddAction(n, a, d)) matches Ok(s2) && declares_action(s2, n, a),
{
    lemma_step_keeps_namespaces_distinct(s, OpV::AddAction(n, a, d));
    lemma_ns_pos(s, n);
    let (w, k) = with_ns(s, n);
    let s2 = spec_apply(s, OpV::AddAction(n, a, d))->Ok_0;
    assert(s2[k].0 == n);
    lemma_ns_pos_unique(s2, n, k);
    assert(sorted_keys(w[k].1.actions)) by {
        if k < s.len() {
            assert(w[k] == s[k]);
        } else {
            assert(w[k].1 == empty_ns());
        }
    }
    crate::strmap::lemma_lookup_after_insert(w[k].1.actions, a, Some(d), a);
}

/// Steps that end by declaring an action and then dropping a namespace if
/// it is empty leave the action declared.
pub proof fn lemma_ends_with_action(
    s: Seq<(Option<Seq<Seq<char>>>, NsV)>,
    pre: Seq<OpV>,
    n: Option<Seq<Seq<char>>>,
    a: Seq<char>,
    d: ActionDeclV,
    m: Option<Seq<Seq<char>>>,
)
    requires
        state_wf(s),
        distinct_namespaces(s),
    ensures
        spec_run(s, pre + seq![OpV::AddAction(n, a, d), OpV::DropIfEmpty(m)]) matches Ok(s2) ==> declares_action(
            s2,
            n,
            a,
        ) && state_wf(s2) && distinct_namespaces(s2),
{
    let tail = seq![OpV::AddAction(n, a, d), OpV::DropIfEmpty(m)];
    lemma_run_append(s, pre, tail);
    lemma_run_keeps_wf(s, pre);
    lemma_run_keeps_wf(s, pre + tail);
    match spec_run(s, pre) {
        Ok(s1) => {
            assert(tail.drop_last() =~= seq![OpV::AddAction(n, a, d)]);
            assert(tail.drop_last().drop_last() =~= Seq::<OpV>::empty());
            lemma_add_action_declares(s1, n, a, d);
            let s2 = spec_apply(s1, OpV::AddAction(n, a, d))->Ok_0;
            lemma_step_keeps_wf(s1, OpV::AddAction(n, a, d));
            lemma_step_keeps_namespaces_distinct(s1, OpV::AddAction(n, a, d));
            lemma_step_keeps_action(s2, OpV::DropIfEmpty(m), n, a);
            assert(spec_run(s1, tail.drop_last().drop_last()) == Ok::<Seq<(Option<Seq<Seq<char>>>, NsV)>, GenErr>(s1));
            assert(tail.drop_last().last() == OpV::AddAction(n, a, d));
            assert(spec_run(s1, tail.drop_last()) == spec_apply(s1, OpV::AddAction(n, a, d)));
            assert(tail.last() == OpV::DropIfEmpty(m));
            assert(spec_run(s1, tail) == spec_apply(s2, OpV::DropIfEmpty(m)));
        },
        Err(_) => {},
    }
}

/// The namespace `n` of the schema declares the entity type `name`.
pub open spec fn declares_entity(s: Seq<(Option<Seq<Seq<char>>>, NsV)>, n: Option<Seq<Seq<char>>>, name: Seq<char>) -> bool {
    ns_pos(s, n) matches Some(i) && has_key(s[i].1.entities, name)
}

/// Declaring an entity type with no error for an existing one never fails,
/// and leaves the namespace declaring the name (the existing type where
/// there was one).
pub proof fn lemma_declare_entity_quietly(
    s: Seq<(Option<Seq<Seq<char>>>, NsV)>,
    n: Option<Seq<Seq<char>>>,
    name: Seq<char>,
    e: EntityDeclV,
)
    requires
        state_wf(s),
    ensures
        spec_apply(s, OpV::AddEntity(n, name, e, false)) matches Ok(s2) && declares_entity(s2, n, name),
        declares_entity(s, n, name) ==> spec_apply(s, OpV::AddEntity(n, name, e, false)) == Ok::<
            Seq<(Option<Seq<Seq<char>>>, NsV)>,
            GenErr,
        >(s),
{
    lemma_ns_pos(s, n);
    lemma_with_ns(s, n);
    let (s1, i) = with_ns(s, n);
    lemma_ns_pos(s1, n);
    if ns_pos(s, n) is None {
        lemma_ns_pos_first(s1, n, i);
    }
    let d = s1[i].1;
    assert(sorted_keys(d.entities)) by {
        if i < s.len() {
            assert(s1[i] == s[i]);
        }
    }
    if has_key(d.entities, name) {
        assert(i < s.len());
        assert(s1 == s);
    } else {
        let s3 = s1.update(i, (n, NsV { entities: map_insert(d.entities, name, EntitySlotV::New(e)), ..d }));
        lemma_ns_pos_first(s3, n, i);
        crate::strmap::lemma_lookup_after_insert(d.entities, name, EntitySlotV::New(e), name);
    }
}

} // verus!
