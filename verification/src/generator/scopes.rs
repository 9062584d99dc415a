//! Finding a common type by name in the namespaces that contain a
//! namespace, innermost first, as a schema declares them.

use crate::generator::dedup::{child_ns, copy_namespace, ns_list_view, ns_view};
use crate::generator::err::SchemaGeneratorError;
use crate::generator::model::{err_view, GenErr};
use crate::generator::schema_state::{decls_view, ns_pos, NsV, SchemaState};
use crate::generator::translate::ns_text;
use crate::strmap::has_key;
use crate::text::{join_strings, strings_of};
use vstd::prelude::*;

verus! {

/// The namespaces that contain `ns`, innermost first: `ns` itself, then
/// each shorter prefix of it down to one identifier, then the global
/// namespace.
pub open spec fn containing(ns: Option<Seq<Seq<char>>>) -> Seq<Option<Seq<Seq<char>>>> {
    match ns {
        None => seq![None],
        Some(p) => Seq::new(p.len(), |i: int| Some(p.take(p.len() - i))).push(None),
    }
}

/// The namespaces that contain `namespace`, innermost first.
pub fn get_containing_namespaces(namespace: &Option<Vec<String>>) -> (r: Vec<Option<Vec<String>>>)
    ensures
        ns_list_view(r@) == containing(ns_view(*namespace)),
{
    let mut out: Vec<Option<Vec<String>>> = Vec::new();
    match namespace {
        None => {},
        Some(p) => {
            let ghost pv = strings_of(p@);
            let mut k: usize = p.len();
            while k > 0
                invariant
                    0 <= k <= p@.len(),
                    pv == strings_of(p@),
                    pv.len() == p@.len(),
                    out@.len() == p@.len() - k,
                    forall|i: int|
                        0 <= i < out@.len() ==> #[trigger] ns_view(out@[i]) == Some(pv.take(pv.len() - i)),
                decreases k,
            {
                let mut prefix: Vec<String> = Vec::new();
                let mut j: usize = 0;
                while j < k
                    invariant
                        0 <= j <= k <= p@.len(),
                        pv == strings_of(p@),
                        strings_of(prefix@) == pv.take(j as int),
                    decreases k - j,
                {
                    let ghost before = prefix@;
                    prefix.push(p[j].clone());
                    proof {
                        crate::text::lemma_strings_of_push(before, prefix@.last());
                        assert(pv.take(j + 1) =~= pv.take(j as int).push(pv[j as int]));
                    }
                    j = j + 1;
                }
                out.push(Some(prefix));
                k = k - 1;
            }
        },
    }
    out.push(None);
    proof {
        let c = containing(ns_view(*namespace));
        assert(ns_list_view(out@) =~= c);
    }
    out
}

/// Where the common type `name` is found from `ns`: the first namespace
/// of `cs` that declares it.
pub open spec fn found_in(
    s: Seq<(Option<Seq<Seq<char>>>, NsV)>,
    name: Seq<char>,
    cs: Seq<Option<Seq<Seq<char>>>>,
) -> Option<Option<Seq<Seq<char>>>>
    decreases cs.len(),
{
    if cs.len() == 0 {
        None
    } else if ns_pos(s, cs[0]) matches Some(i) && has_key(s[i].1.commons, name) {
        Some(cs[0])
    } else {
        found_in(s, name, cs.drop_first())
    }
}

/// The name by which the common type `name` is referred to from `ns`: unqualified when `ns` declares it, qualified by
/// the innermost containing namespace that declares it otherwise; an
/// error when no containing namespace does.
pub open spec fn spec_find_common(
    s: Seq<(Option<Seq<Seq<char>>>, NsV)>,
    name: Seq<char>,
    ns: Option<Seq<Seq<char>>>,
) -> Result<Seq<Seq<char>>, GenErr> {
    match found_in(s, name, containing(ns)) {
        None => Err(GenErr::UndefinedRef(name, ns_text(ns))),
        Some(c) => if c == ns {
            Ok(seq![name])
        } else {
            Ok(child_ns(c, name))
        },
    }
}

/// Finds the common type `name` from `namespace` (see `spec_find_common`).
pub fn find_common_types(schema: &SchemaState, name: &str, namespace: &Option<Vec<String>>) -> (r: Result<
    Vec<String>,
    SchemaGeneratorError,
>)
    ensures
        match spec_find_common(schema@, name@, ns_view(*namespace)) {
            Ok(p) => r matches Ok(v) && strings_of(v@) == p,
            Err(e) => r matches Err(x) && err_view(x) == e,
        },
{
    let cs = get_containing_namespaces(namespace);
    let ghost cv = ns_list_view(cs@);
    let ghost s = schema@;
    let mut i: usize = 0;
    assert(cv.skip(0) =~= cv);
    while i < cs.len()
        invariant
            0 <= i <= cs@.len(),
            cv == ns_list_view(cs@),
            cv == containing(ns_view(*namespace)),
            cv.len() == cs@.len(),
            s == schema@,
            found_in(s, name@, cv) == found_in(s, name@, cv.skip(i as int)),
        decreases cs@.len() - i,
    {
        proof {
            assert(cv.skip(i as int)[0] == cv[i as int]);
            assert(cv.skip(i as int).drop_first() =~= cv.skip(i + 1));
            assert(cv[i as int] == ns_view(cs@[i as int]));
        }
        match schema.position(&cs[i]) {
            Some(j) => {
                let d = &schema.namespaces[j].1;
                proof {
                    assert(s[j as int].1 == decls_view(*d));
                    crate::strmap::lemma_map_vals_has_key(
                        d.commons@,
                        crate::generator::schema_state::common_fn(),
                        name@,
                    );
                }
                if d.commons.contains_key(name) {
                    assert(found_in(s, name@, cv.skip(i as int)) == Some(cv[i as int]));
                    let c = copy_namespace(&cs[i]);
                    if crate::generator::plan::same_namespace(&c, namespace) {
                        let v = vec![name.to_string()];
                        assert(strings_of(v@) =~= seq![name@]);
                        return Ok(v);
                    }
                    return Ok(crate::generator::names::qualified_name(&c, name));
                }
            },
            None => {},
        }
        i = i + 1;
    }
    assert(cv.skip(i as int).len() == 0);
    let ns_text_exec = match namespace {
        None => String::new(),
        Some(p) => join_strings(p, "::"),
    };
    proof {
        reveal_strlit("::");
    }
    Err(SchemaGeneratorError::undefined_ref(name.to_string(), ns_text_exec))
}

} // verus!
