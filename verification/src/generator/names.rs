//! Names of generated types: qualifying them by namespace, removing a
//! namespace again, and flattening nested namespaces into one identifier.
//!
//! A name is a path of identifiers, outermost first; a namespace is a path,
//! or `None` for the global namespace.

use crate::generator::dedup::{child_ns, copy_strings, ns_view};
use crate::text::{join, join_strings, strings_of};
use vstd::prelude::*;

verus! {

/// The name `id` declared in `namespace`.
pub fn qualified_name(namespace: &Option<Vec<String>>, id: &str) -> (r: Vec<String>)
    ensures
        strings_of(r@) == child_ns(ns_view(*namespace), id@),
{
    let mut path = match namespace {
        Some(p) => copy_strings(p),
        None => Vec::new(),
    };
    let ghost before = path@;
    path.push(id.to_string());
    proof {
        crate::text::lemma_strings_of_push(before, path@.last());
        if namespace.is_none() {
            assert(strings_of(path@) =~= seq![id@]);
        }
    }
    path
}

/// `name` relative to `namespace`: its last identifier when it is declared
/// directly in `namespace`, otherwise `name` itself.
pub open spec fn unqualified(ns: Option<Seq<Seq<char>>>, name: Seq<Seq<char>>) -> Seq<Seq<char>> {
    match ns {
        None => name,
        Some(p) => if name.len() > 0 && name.drop_last() == p {
            seq![name.last()]
        } else {
            name
        },
    }
}

/// Whether the texts of two lists of strings are equal, up to `n` items.
fn same_prefix(a: &Vec<String>, b: &Vec<String>, n: usize) -> (r: bool)
    requires
        n <= a@.len(),
        n <= b@.len(),
    ensures
        r == (strings_of(a@).take(n as int) == strings_of(b@).take(n as int)),
{
    let mut i: usize = 0;
    while i < n
        invariant
            0 <= i <= n,
            n <= a@.len(),
            n <= b@.len(),
            strings_of(a@).take(i as int) == strings_of(b@).take(i as int),
        decreases n - i,
    {
        if !crate::text::text_eq(a[i].as_str(), b[i].as_str()) {
            assert(strings_of(a@).take(n as int)[i as int] != strings_of(b@).take(n as int)[i as int]);
            return false;
        }
        assert(strings_of(a@).take(i + 1) =~= strings_of(a@).take(i as int).push(a@[i as int]@));
        assert(strings_of(b@).take(i + 1) =~= strings_of(b@).take(i as int).push(b@[i as int]@));
        i = i + 1;
    }
    true
}

/// `name` relative to `namespace`: its last identifier
/// when it is declared directly in `namespace`, otherwise `name` itself.
pub fn unqualify_name(namespace: &Option<Vec<String>>, name: &Vec<String>) -> (r: Vec<String>)
    ensures
        strings_of(r@) == unqualified(ns_view(*namespace), strings_of(name@)),
{
    match namespace {
        None => copy_strings(name),
        Some(ns) => {
            let ghost n = strings_of(name@);
            if name.len() > 0 && name.len() - 1 == ns.len() && same_prefix(name, ns, ns.len()) {
                assert(n.drop_last() =~= strings_of(name@).take(ns@.len() as int));
                assert(strings_of(ns@).take(ns@.len() as int) =~= strings_of(ns@));
                let last = name[name.len() - 1].clone();
                let r = vec![last];
                assert(strings_of(r@) =~= seq![n.last()]);
                r
            } else {
                proof {
                    if name@.len() > 0 && n.drop_last() == strings_of(ns@) {
                        assert(n.drop_last() =~= strings_of(name@).take(ns@.len() as int));
                        assert(strings_of(ns@).take(ns@.len() as int) =~= strings_of(ns@));
                    }
                }
                copy_strings(name)
            }
        },
    }
}

/// The name that flattening namespaces gives `name`, declared under `root`:
/// the identifiers after the first (all of them under the global
/// namespace) joined by `_`, declared in `root`.
pub open spec fn flattened(root: Option<Seq<Seq<char>>>, name: Seq<Seq<char>>) -> Seq<Seq<char>> {
    let rest = match root {
        Some(_) => name.drop_first(),
        None => name,
    };
    child_ns(root, join(rest, "_"@))
}

/// Flattens `name`, declared under `root`, when `flatten` is set. Under a namespace, `name` has at least two
/// identifiers.
pub fn flatten_name(root: &Option<Vec<String>>, flatten: bool, name: &Vec<String>) -> (r: Vec<String>)
    requires
        root is Some ==> name@.len() >= 2,
    ensures
        strings_of(r@) == if flatten {
            flattened(ns_view(*root), strings_of(name@))
        } else {
            strings_of(name@)
        },
{
    if !flatten {
        return copy_strings(name);
    }
    let mut rest: Vec<String> = Vec::new();
    let first: usize = if root.is_some() { 1 } else { 0 };
    let mut i: usize = first;
    let ghost n = strings_of(name@);
    let ghost skip = if root is Some { n.drop_first() } else { n };
    assert(skip =~= n.subrange(first as int, n.len() as int));
    while i < name.len()
        invariant
            first <= i <= name@.len(),
            n == strings_of(name@),
            skip == n.subrange(first as int, n.len() as int),
            strings_of(rest@) == n.subrange(first as int, i as int),
        decreases name@.len() - i,
    {
        let ghost before = rest@;
        rest.push(name[i].clone());
        proof {
            crate::text::lemma_strings_of_push(before, rest@.last());
            assert(n.subrange(first as int, i + 1) =~= n.subrange(first as int, i as int).push(
                n[i as int],
            ));
        }
        i = i + 1;
    }
    let joined = join_strings(&rest, "_");
    proof {
        reveal_strlit("_");
    }
    qualified_name(root, joined.as_str())
}

/// The identifier that flattening gives the identifier `id` declared in
/// `namespace` under `root`, when `flatten` is set. Under a namespace, `namespace` is a
/// namespace with at least one identifier.
pub fn flatten_id(root: &Option<Vec<String>>, flatten: bool, id: &str, namespace: &Option<Vec<String>>) -> (r:
    String)
    requires
        root is Some ==> namespace is Some && namespace->Some_0@.len() > 0,
    ensures
        r@ == if flatten {
            flattened(ns_view(*root), child_ns(ns_view(*namespace), id@)).last()
        } else {
            id@
        },
{
    if !flatten {
        return id.to_string();
    }
    let name = qualified_name(namespace, id);
    proof {
        if root is Some {
            assert(strings_of(name@).len() >= 2);
        }
    }
    let flat = flatten_name(root, true, &name);
    assert(strings_of(flat@).last() == flat@[flat@.len() - 1]@);
    flat[flat.len() - 1].clone()
}

} // verus!
