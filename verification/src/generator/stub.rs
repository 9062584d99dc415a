//! Reading a schema stub: the namespace the generated types go in, the
//! entity types marked as MCP principals and resources, the types marked
//! as shared context, and the actions marked as parents of the generated
//! ones; and which of the marks are kept in the generated schema.

use crate::generator::dedup::ns_view;
use crate::generator::err::SchemaGeneratorError;
use crate::generator::identifiers::{MCP_ACTION, MCP_CONTEXT, MCP_PRINCIPAL, MCP_RESOURCE};
use crate::strmap::{map_insert, StrMap};
use crate::text::{strings_of, text_eq};
use vstd::prelude::*;

verus! {

/// A declaration of a schema stub: its name and its annotations, each a
/// key and an optional value, in order.
#[derive(Clone, Debug)]
pub struct StubDecl {
    pub name: String,
    pub annotations: Vec<(String, Option<String>)>,
}

/// The declarations of a namespace of a schema stub, each kind in key
/// order, and each entity type by name with its shape as deduplication
/// reads it.
#[derive(Clone, Debug)]
pub struct StubNamespace {
    pub entity_types: Vec<StubDecl>,
    pub common_types: Vec<StubDecl>,
    pub actions: Vec<StubDecl>,
    pub entity_shapes: Vec<(String, crate::generator::plan::ExistingEntity)>,
}

/// What the generator reads of a schema stub: its namespaces in order,
/// the global one as `None`, with their declarations.
#[derive(Clone, Debug)]
pub struct StubSummary {
    pub namespaces: Vec<(Option<Vec<String>>, StubNamespace)>,
}

/// What the generator takes from a schema stub.
#[derive(Debug)]
pub struct GeneratorSetup {
    /// The namespace of the stub, where the actions go.
    pub namespace: Vec<String>,
    /// The entity types marked as principals, in key order.
    pub users: Vec<String>,
    /// The entity types marked as resources, in key order.
    pub resources: Vec<String>,
    /// Each context attribute, by the value of its mark, with its type.
    pub contexts: StrMap<String>,
    /// The actions marked as parents of the generated actions, if any.
    pub actions: Option<Vec<String>>,
}

/// An optional string as an optional text.
pub open spec fn opt_text(o: Option<String>) -> Option<Seq<char>> {
    match o {
        Some(v) => Some(v@),
        None => None,
    }
}

/// The value of the first annotation with key `key`, if there is one
/// (itself `None` for an annotation without a value).
pub open spec fn annotation(annos: Seq<(String, Option<String>)>, key: Seq<char>) -> Option<
    Option<Seq<char>>,
>
    decreases annos.len(),
{
    if annos.len() == 0 {
        None
    } else if annos[0].0@ == key {
        Some(opt_text(annos[0].1))
    } else {
        annotation(annos.drop_first(), key)
    }
}

/// The names of the declarations that carry the annotation `key`.
pub open spec fn marked(decls: Seq<StubDecl>, key: Seq<char>) -> Seq<Seq<char>>
    decreases decls.len(),
{
    if decls.len() == 0 {
        Seq::empty()
    } else {
        let rest = marked(decls.drop_last(), key);
        if annotation(decls.last().annotations@, key) is Some {
            rest.push(decls.last().name@)
        } else {
            rest
        }
    }
}

/// The context entries of declarations: for each one whose annotation
/// `mcp_context` has a value, that value and its name.
pub open spec fn context_entries(decls: Seq<StubDecl>) -> Seq<(Seq<char>, Seq<char>)>
    decreases decls.len(),
{
    if decls.len() == 0 {
        Seq::empty()
    } else {
        let rest = context_entries(decls.drop_last());
        match annotation(decls.last().annotations@, MCP_CONTEXT@) {
            Some(Some(v)) => rest.push((v, decls.last().name@)),
            _ => rest,
        }
    }
}

/// The map that putting the entries in order gives: a later entry under
/// the same key replaces an earlier one.
pub open spec fn map_of(entries: Seq<(Seq<char>, Seq<char>)>) -> Seq<(Seq<char>, Seq<char>)>
    decreases entries.len(),
{
    if entries.len() == 0 {
        Seq::empty()
    } else {
        map_insert(map_of(entries.drop_last()), entries.last().0, entries.last().1)
    }
}

/// The stub declares something in the global (unnamed) namespace.
pub open spec fn uses_global_namespace(stub: StubSummary) -> bool {
    exists|i: int| 0 <= i < stub.namespaces@.len() && (#[trigger] stub.namespaces@[i]).0 is None
}

/// The value of the first annotation with key `key`.
fn find_annotation<'a>(annos: &'a Vec<(String, Option<String>)>, key: &str) -> (r: Option<&'a Option<String>>)
    ensures
        match annotation(annos@, key@) {
            Some(v) => r matches Some(x) && opt_text(*x) == v,
            None => r is None,
        },
{
    let mut i: usize = 0;
    assert(annos@.skip(0) =~= annos@);
    while i < annos.len()
        invariant
            0 <= i <= annos@.len(),
            annotation(annos@, key@) == annotation(annos@.skip(i as int), key@),
        decreases annos@.len() - i,
    {
        assert(annos@.skip(i as int).drop_first() =~= annos@.skip(i + 1));
        assert(annos@.skip(i as int)[0] == annos@[i as int]);
        if text_eq(annos[i].0.as_str(), key) {
            return Some(&annos[i].1);
        }
        i = i + 1;
    }
    assert(annos@.skip(i as int).len() == 0);
    None
}

/// The names of the declarations that carry the annotation `key`.
fn marked_names(decls: &Vec<StubDecl>, key: &str) -> (r: Vec<String>)
    ensures
        strings_of(r@) == marked(decls@, key@),
{
    let mut out: Vec<String> = Vec::new();
    let mut i: usize = 0;
    while i < decls.len()
        invariant
            0 <= i <= decls@.len(),
            strings_of(out@) == marked(decls@.take(i as int), key@),
        decreases decls@.len() - i,
    {
        let d = &decls[i];
        proof {
            assert(decls@.take(i + 1).drop_last() =~= decls@.take(i as int));
            assert(decls@.take(i + 1).last() == decls@[i as int]);
        }
        if find_annotation(&d.annotations, key).is_some() {
            let ghost before = out@;
            out.push(d.name.clone());
            proof {
                crate::text::lemma_strings_of_push(before, out@.last());
            }
        }
        i = i + 1;
    }
    assert(decls@.take(decls@.len() as int) =~= decls@);
    out
}

/// Puts the context entries of `decls` into `contexts`, in order.
fn add_context_entries(contexts: &mut StrMap<String>, decls: &Vec<StubDecl>, Ghost(before): Ghost<
    Seq<(Seq<char>, Seq<char>)>,
>)
    requires
        contexts_view(old(contexts)@) == map_of(before),
    ensures
        contexts_view(final(contexts)@) == map_of(before + context_entries(decls@)),
{
    let mut i: usize = 0;
    while i < decls.len()
        invariant
            0 <= i <= decls@.len(),
            contexts_view(contexts@) == map_of(before + context_entries(decls@.take(i as int))),
        decreases decls@.len() - i,
    {
        let d = &decls[i];
        proof {
            assert(decls@.take(i + 1).drop_last() =~= decls@.take(i as int));
            assert(decls@.take(i + 1).last() == decls@[i as int]);
        }
        let ghost prefix = before + context_entries(decls@.take(i as int));
        match find_annotation(&d.annotations, MCP_CONTEXT) {
            Some(Some(v)) => {
                let ghost old_map = contexts@;
                contexts.insert(v.clone(), d.name.clone());
                proof {
                    lemma_contexts_view_insert(old_map, v@, d.name);
                    assert(prefix.push((v@, d.name@)).drop_last() =~= prefix);
                    assert(prefix.push((v@, d.name@)) =~= before + context_entries(
                        decls@.take(i + 1),
                    ));
                }
            },
            _ => {
                assert(prefix =~= before + context_entries(decls@.take(i + 1)));
            },
        }
        i = i + 1;
    }
    assert(decls@.take(decls@.len() as int) =~= decls@);
}

/// A context map with its types taken as texts.
pub open spec fn contexts_view(m: Seq<(Seq<char>, String)>) -> Seq<(Seq<char>, Seq<char>)> {
    m.map_values(|e: (Seq<char>, String)| (e.0, e.1@))
}

proof fn lemma_contexts_view_insert(m: Seq<(Seq<char>, String)>, k: Seq<char>, v: String)
    ensures
        contexts_view(map_insert(m, k, v)) == map_insert(contexts_view(m), k, v@),
{
    let f = |x: String| x@;
    crate::strmap::lemma_map_vals_insert(m, f, k, v);
    assert(contexts_view(map_insert(m, k, v)) =~= crate::strmap::map_vals(map_insert(m, k, v), f));
    assert(contexts_view(m) =~= crate::strmap::map_vals(m, f));
}

/// Reads what the generator takes from a schema stub: the stub must have exactly one
/// namespace, not the global one, with entity types marked as principals
/// and as resources.
pub fn read_stub(stub: &StubSummary) -> (r: Result<GeneratorSetup, SchemaGeneratorError>)
    ensures
        uses_global_namespace(*stub) ==> r matches Err(SchemaGeneratorError::GlobalNamespaceUsed),
        !uses_global_namespace(*stub) && stub.namespaces@.len() != 1 ==> r matches Err(
            SchemaGeneratorError::WrongNumberOfNamespaces,
        ),
        !uses_global_namespace(*stub) && stub.namespaces@.len() == 1 ==> {
            let decls = stub.namespaces@[0].1;
            let users = marked(decls.entity_types@, MCP_PRINCIPAL@);
            let resources = marked(decls.entity_types@, MCP_RESOURCE@);
            let actions = marked(decls.actions@, MCP_ACTION@);
            if users.len() == 0 {
                r matches Err(SchemaGeneratorError::NoPrincipalTypes)
            } else if resources.len() == 0 {
                r matches Err(SchemaGeneratorError::NoResourceTypes)
            } else {
                &&& r is Ok
                &&& Some(strings_of(r->Ok_0.namespace@)) == ns_view(stub.namespaces@[0].0)
                &&& strings_of(r->Ok_0.users@) == users
                &&& strings_of(r->Ok_0.resources@) == resources
                &&& contexts_view(r->Ok_0.contexts@) == map_of(
                    context_entries(decls.entity_types@) + context_entries(decls.common_types@),
                )
                &&& match r->Ok_0.actions {
                    Some(a) => actions.len() > 0 && strings_of(a@) == actions,
                    None => actions.len() == 0,
                }
            }
        },
{
    let mut i: usize = 0;
    while i < stub.namespaces.len()
        invariant
            0 <= i <= stub.namespaces@.len(),
            forall|j: int| 0 <= j < i ==> (#[trigger] stub.namespaces@[j]).0 is Some,
        decreases stub.namespaces@.len() - i,
    {
        if stub.namespaces[i].0.is_none() {
            return Err(SchemaGeneratorError::GlobalNamespaceUsed);
        }
        i = i + 1;
    }
    if stub.namespaces.len() != 1 {
        return Err(SchemaGeneratorError::WrongNumberOfNamespaces);
    }
    let (first, decls) = (&stub.namespaces[0].0, &stub.namespaces[0].1);
    let namespace = match first {
        None => return Err(SchemaGeneratorError::GlobalNamespaceUsed),
        Some(n) => n,
    };
    let users = marked_names(&decls.entity_types, MCP_PRINCIPAL);
    if users.len() == 0 {
        return Err(SchemaGeneratorError::NoPrincipalTypes);
    }
    let resources = marked_names(&decls.entity_types, MCP_RESOURCE);
    if resources.len() == 0 {
        return Err(SchemaGeneratorError::NoResourceTypes);
    }
    let mut contexts: StrMap<String> = StrMap::new();
    assert(contexts_view(contexts@) =~= map_of(Seq::empty()));
    add_context_entries(&mut contexts, &decls.entity_types, Ghost(Seq::empty()));
    let ghost from_entities = context_entries(decls.entity_types@);
    assert(Seq::<(Seq<char>, Seq<char>)>::empty() + from_entities =~= from_entities);
    add_context_entries(&mut contexts, &decls.common_types, Ghost(from_entities));
    let marked_actions = marked_names(&decls.actions, MCP_ACTION);
    let actions = if marked_actions.len() == 0 {
        None
    } else {
        Some(marked_actions)
    };
    Ok(GeneratorSetup { namespace: crate::generator::dedup::copy_strings(namespace), users, resources, contexts, actions })
}

/// The kinds of declarations of a schema.
#[derive(Clone, Copy, Debug, PartialEq, Eq, Structural)]
pub enum DeclKind {
    EntityType,
    CommonType,
    Action,
}

/// Whether erasing the generator's marks keeps an annotation with key
/// `key` of a declaration of kind `kind`: the marks that the generator reads
/// from that kind of declaration go, the rest stay.
pub open spec fn kept_annotation(kind: DeclKind, key: Seq<char>) -> bool {
    match kind {
        DeclKind::EntityType => key != MCP_CONTEXT@ && key != MCP_RESOURCE@ && key != MCP_PRINCIPAL@,
        DeclKind::CommonType => key != MCP_CONTEXT@,
        DeclKind::Action => key != MCP_ACTION@,
    }
}

/// Whether erasing the generator's marks keeps
/// an annotation with key `key` of a declaration of kind `kind`.
pub fn keeps_annotation(kind: DeclKind, key: &str) -> (r: bool)
    ensures
        r == kept_annotation(kind, key@),
{
    match kind {
        DeclKind::EntityType => !text_eq(key, MCP_CONTEXT) && !text_eq(key, MCP_RESOURCE) && !text_eq(
            key,
            MCP_PRINCIPAL,
        ),
        DeclKind::CommonType => !text_eq(key, MCP_CONTEXT),
        DeclKind::Action => !text_eq(key, MCP_ACTION),
    }
}

/// The annotations that erasing the generator's marks keeps, in order.
pub open spec fn erased(annos: Seq<(String, Option<String>)>, kind: DeclKind) -> Seq<(String, Option<String>)>
    decreases annos.len(),
{
    if annos.len() == 0 {
        Seq::empty()
    } else {
        let rest = erased(annos.drop_last(), kind);
        if kept_annotation(kind, annos.last().0@) {
            rest.push(annos.last())
        } else {
            rest
        }
    }
}

/// The annotations of a declaration of kind `kind` without the
/// generator's marks.
pub fn erase_annotations(annos: Vec<(String, Option<String>)>, kind: DeclKind) -> (r: Vec<(String, Option<String>)>)
    ensures
        r@ == erased(annos@, kind),
{
    let ghost a = annos@;
    let mut rest = annos;
    let mut out: Vec<(String, Option<String>)> = Vec::new();
    assert(a.take(0) =~= Seq::<(String, Option<String>)>::empty());
    assert(a.skip(0) =~= a);
    while rest.len() > 0
        invariant
            rest@.len() <= a.len(),
            rest@ == a.skip(a.len() - rest@.len()),
            out@ == erased(a.take(a.len() - rest@.len()), kind),
        decreases rest@.len(),
    {
        let ghost k = a.len() - rest@.len();
        let x = rest.remove(0);
        proof {
            assert(x == a[k]);
            assert(rest@ =~= a.skip(k + 1));
            assert(a.take(k + 1).drop_last() =~= a.take(k));
            assert(a.take(k + 1).last() == a[k]);
        }
        if keeps_annotation(kind, x.0.as_str()) {
            out.push(x);
        }
    }
    assert(a.take(a.len() as int) =~= a);
    out
}

/// Erasing keeps exactly the annotations that are not the generator's
/// marks for that kind of declaration, in order: what it keeps is no mark,
/// and every annotation that is no mark is kept.
pub proof fn lemma_erased(annos: Seq<(String, Option<String>)>, kind: DeclKind)
    ensures
        forall|j: int| 0 <= j < erased(annos, kind).len() ==> kept_annotation(kind, (#[trigger] erased(annos, kind)[j]).0@)
            && annos.contains(erased(annos, kind)[j]),
        forall|i: int| 0 <= i < annos.len() && kept_annotation(kind, (#[trigger] annos[i]).0@) ==> erased(annos, kind).contains(annos[i]),
    decreases annos.len(),
{
    if annos.len() > 0 {
        let a1 = annos.drop_last();
        lemma_erased(a1, kind);
        let r1 = erased(a1, kind);
        let r = erased(annos, kind);
        assert forall|j: int| 0 <= j < r.len() implies kept_annotation(kind, (#[trigger] r[j]).0@) && annos.contains(r[j]) by {
            if j < r1.len() {
                assert(r[j] == r1[j]);
                assert(a1.contains(r1[j]));
                let k = choose|k: int| 0 <= k < a1.len() && a1[k] == r1[j];
                assert(annos[k] == a1[k]);
            } else {
                assert(annos[annos.len() - 1] == annos.last());
            }
        }
        assert forall|i: int| 0 <= i < annos.len() && kept_annotation(kind, (#[trigger] annos[i]).0@) implies r.contains(annos[i]) by {
            if i < a1.len() {
                assert(annos[i] == a1[i]);
                assert(r1.contains(a1[i]));
                let k = choose|k: int| 0 <= k < r1.len() && r1[k] == a1[i];
                assert(r[k] == r1[k]);
            } else {
                assert(r[r.len() - 1] == annos.last());
            }
        }
    }
}

/// Erasing the generator's marks twice is erasing them once.
pub proof fn lemma_erase_idempotent(annos: Seq<(String, Option<String>)>, kind: DeclKind)
    ensures
        erased(erased(annos, kind), kind) == erased(annos, kind),
    decreases annos.len(),
{
    if annos.len() > 0 {
        let a1 = annos.drop_last();
        lemma_erase_idempotent(a1, kind);
        let r1 = erased(a1, kind);
        if kept_annotation(kind, annos.last().0@) {
            assert(r1.push(annos.last()).drop_last() =~= r1);
        }
    }
}

} // verus!
