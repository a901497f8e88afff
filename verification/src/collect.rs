//! The scheme collector: merges the declarations of both manifest groups
//! into one flat mapping keyed by dependency name.  The first group is
//! processed fully, then the second, inserting-or-overwriting by name, so a
//! name declared in both groups keeps the value from the second group.
use crate::manifest::{
    decls_view, or_empty, DeclView, Dependencies, DependencyDeclaration, ResolverView, SchemeValue,
    SchemeView, TableEntry,
};
use vstd::prelude::*;

verus! {

/// The first index at which `name` is declared, or `-1` when it is absent.
pub open spec fn find_name(m: Seq<DeclView>, name: Seq<u8>) -> int
    decreases m.len(),
{
    if m.len() == 0 {
        -1
    } else if m[0].name == name {
        0
    } else {
        let r = find_name(m.drop_first(), name);
        if r < 0 {
            -1
        } else {
            1 + r
        }
    }
}

pub proof fn lemma_find_name_props(m: Seq<DeclView>, name: Seq<u8>)
    ensures
        -1 <= find_name(m, name) < m.len(),
        find_name(m, name) >= 0 ==> m[find_name(m, name)].name == name,
        find_name(m, name) >= 0 ==> forall|j: int|
            0 <= j < find_name(m, name) ==> m[j].name != name,
        find_name(m, name) == -1 ==> forall|j: int| 0 <= j < m.len() ==> m[j].name != name,
    decreases m.len(),
{
    if m.len() > 0 && m[0].name != name {
        lemma_find_name_props(m.drop_first(), name);
        assert(forall|j: int| 1 <= j < m.len() ==> m[j] == m.drop_first()[j - 1]);
    }
}

/// `find_name` is determined by the first matching index.
pub proof fn lemma_find_name_first(m: Seq<DeclView>, name: Seq<u8>, i: int)
    requires
        0 <= i < m.len(),
        m[i].name == name,
        forall|j: int| 0 <= j < i ==> m[j].name != name,
    ensures
        find_name(m, name) == i,
    decreases m.len(),
{
    if i > 0 {
        assert(forall|j: int| 1 <= j < m.len() ==> m[j] == m.drop_first()[j - 1]);
        lemma_find_name_first(m.drop_first(), name, i - 1);
    }
}

pub proof fn lemma_find_name_none(m: Seq<DeclView>, name: Seq<u8>)
    requires
        forall|j: int| 0 <= j < m.len() ==> m[j].name != name,
    ensures
        find_name(m, name) == -1,
    decreases m.len(),
{
    if m.len() > 0 {
        assert(forall|j: int| 1 <= j < m.len() ==> m[j] == m.drop_first()[j - 1]);
        lemma_find_name_none(m.drop_first(), name);
    }
}

/// Inserting-or-overwriting one declaration, keyed by its name.
pub open spec fn insert_decl(m: Seq<DeclView>, d: DeclView) -> Seq<DeclView> {
    let i = find_name(m, d.name);
    if i < 0 {
        m.push(d)
    } else {
        m.update(i, d)
    }
}

/// One whole group merged into the mapping, in declaration order.
pub open spec fn collect_group(m: Seq<DeclView>, g: Seq<DeclView>) -> Seq<DeclView>
    decreases g.len(),
{
    if g.len() == 0 {
        m
    } else {
        collect_group(insert_decl(m, g[0]), g.drop_first())
    }
}

/// The merged mapping of a parsed manifest: the package group fully, then
/// the onchain group, inserting-or-overwriting by name.
pub open spec fn collect_spec(r: ResolverView) -> Seq<DeclView> {
    collect_group(collect_group(Seq::<DeclView>::empty(), or_empty(r.packages)), or_empty(r.onchain))
}

/// The scheme under `name` in a merged mapping.
pub open spec fn lookup(m: Seq<DeclView>, name: Seq<u8>) -> Option<SchemeView> {
    let i = find_name(m, name);
    if i < 0 {
        None
    } else {
        Some(m[i].scheme)
    }
}

/// The scheme of the last declaration of `name` within one group.
pub open spec fn last_scheme_of(g: Seq<DeclView>, name: Seq<u8>) -> Option<SchemeView>
    decreases g.len(),
{
    if g.len() == 0 {
        None
    } else {
        match last_scheme_of(g.drop_first(), name) {
            Some(s) => Some(s),
            None => if g[0].name == name {
                Some(g[0].scheme)
            } else {
                None
            },
        }
    }
}

/// Inserting one declaration changes exactly the looked-up value of its
/// own name.
pub proof fn lemma_lookup_insert(m: Seq<DeclView>, d: DeclView, name: Seq<u8>)
    ensures
        lookup(insert_decl(m, d), name) == if d.name == name {
            Some(d.scheme)
        } else {
            lookup(m, name)
        },
{
    lemma_find_name_props(m, d.name);
    lemma_find_name_props(m, name);
    let i = find_name(m, d.name);
    let m2 = insert_decl(m, d);
    if i < 0 {
        if d.name == name {
            lemma_find_name_first(m2, name, m.len() as int);
        } else {
            if find_name(m, name) >= 0 {
                lemma_find_name_first(m2, name, find_name(m, name));
            } else {
                lemma_find_name_none(m2, name);
            }
        }
    } else {
        if d.name == name {
            lemma_find_name_first(m2, name, i);
        } else {
            if find_name(m, name) >= 0 {
                lemma_find_name_first(m2, name, find_name(m, name));
            } else {
                lemma_find_name_none(m2, name);
            }
        }
    }
}

/// Merging a group: the group's own last declaration of a name wins, and
/// names the group does not declare keep their prior value.
pub proof fn lemma_collect_group_lookup(m: Seq<DeclView>, g: Seq<DeclView>, name: Seq<u8>)
    ensures
        lookup(collect_group(m, g), name) == match last_scheme_of(g, name) {
            Some(s) => Some(s),
            None => lookup(m, name),
        },
    decreases g.len(),
{
    if g.len() > 0 {
        lemma_lookup_insert(m, g[0], name);
        lemma_collect_group_lookup(insert_decl(m, g[0]), g.drop_first(), name);
    }
}

/// Merge policy: a name declared in both groups resolves to the value from
/// the second (onchain) group.
pub proof fn lemma_second_group_wins(r: ResolverView, name: Seq<u8>)
    requires
        last_scheme_of(or_empty(r.onchain), name) is Some,
    ensures
        lookup(collect_spec(r), name) == last_scheme_of(or_empty(r.onchain), name),
{
    lemma_collect_group_lookup(
        collect_group(Seq::<DeclView>::empty(), or_empty(r.packages)),
        or_empty(r.onchain),
        name,
    );
}

/// A name the second group does not declare keeps the first group's value.
pub proof fn lemma_first_group_otherwise(r: ResolverView, name: Seq<u8>)
    requires
        last_scheme_of(or_empty(r.onchain), name) is None,
    ensures
        lookup(collect_spec(r), name) == last_scheme_of(or_empty(r.packages), name),
{
    lemma_collect_group_lookup(
        collect_group(Seq::<DeclView>::empty(), or_empty(r.packages)),
        or_empty(r.onchain),
        name,
    );
    lemma_collect_group_lookup(Seq::<DeclView>::empty(), or_empty(r.packages), name);
    lemma_find_name_none(Seq::<DeclView>::empty(), name);
}

/// A manifest with no declarations in either group merges to the empty
/// mapping.
pub proof fn lemma_collect_empty(r: ResolverView)
    requires
        or_empty(r.packages).len() == 0,
        or_empty(r.onchain).len() == 0,
    ensures
        collect_spec(r).len() == 0,
{
}

fn clone_entry(e: &TableEntry) -> (r: TableEntry)
    ensures
        r@ == e@,
{
    TableEntry { key: crate::bytes::clone_bytes(&e.key), value: crate::bytes::clone_bytes(&e.value) }
}

fn clone_scheme(s: &SchemeValue) -> (r: SchemeValue)
    ensures
        r@ == s@,
{
    match s {
        SchemeValue::Plain(v) => SchemeValue::Plain(crate::bytes::clone_bytes(v)),
        SchemeValue::Structured(es) => {
            let mut out: Vec<TableEntry> = Vec::new();
            let mut i: usize = 0;
            while i < es.len()
                invariant
                    0 <= i <= es@.len(),
                    out@.len() == i,
                    forall|j: int| 0 <= j < i ==> out@[j]@ == es@[j]@,
                decreases es@.len() - i,
            {
                out.push(clone_entry(&es[i]));
                i = i + 1;
            }
            proof {
                assert(out@.map_values(|e: TableEntry| e@) =~~= es@.map_values(
                    |e: TableEntry| e@,
                ));
            }
            SchemeValue::Structured(out)
        },
    }
}

fn clone_decl(d: &DependencyDeclaration) -> (r: DependencyDeclaration)
    ensures
        r@ == d@,
{
    DependencyDeclaration { name: crate::bytes::clone_bytes(&d.name), scheme: clone_scheme(&d.scheme) }
}

fn find_decl(m: &Vec<DependencyDeclaration>, name: &[u8]) -> (r: Option<usize>)
    ensures
        match r {
            Some(i) => i < m@.len() && find_name(decls_view(m@), name@) == i as int,
            None => find_name(decls_view(m@), name@) == -1,
        },
{
    let mut i: usize = 0;
    while i < m.len()
        invariant
            0 <= i <= m@.len(),
            forall|j: int| 0 <= j < i ==> decls_view(m@)[j].name != name@,
        decreases m@.len() - i,
    {
        if crate::bytes::bytes_eq(m[i].name.as_slice(), name) {
            proof {
                lemma_find_name_first(decls_view(m@), name@, i as int);
            }
            return Some(i);
        }
        i = i + 1;
    }
    proof {
        lemma_find_name_none(decls_view(m@), name@);
    }
    None
}

fn collect_into(out: &mut Vec<DependencyDeclaration>, g: &Vec<DependencyDeclaration>)
    ensures
        decls_view(final(out)@) == collect_group(decls_view(old(out)@), decls_view(g@)),
{
    let ghost g0 = decls_view(g@);
    let mut i: usize = 0;
    proof {
        assert(g0.skip(0) =~= g0);
    }
    while i < g.len()
        invariant
            0 <= i <= g@.len(),
            g0 == decls_view(g@),
            collect_group(decls_view(old(out)@), g0) == collect_group(
                decls_view(out@),
                g0.skip(i as int),
            ),
        decreases g@.len() - i,
    {
        let ghost pre = decls_view(out@);
        let d = clone_decl(&g[i]);
        proof {
            assert(g0.skip(i as int)[0] == g0[i as int]);
            assert(g0.skip(i as int).drop_first() =~= g0.skip(i as int + 1));
        }
        match find_decl(out, d.name.as_slice()) {
            Some(j) => {
                out[j] = d;
                proof {
                    assert(decls_view(out@) =~~= pre.update(j as int, g0[i as int]));
                }
            },
            None => {
                out.push(d);
                proof {
                    assert(decls_view(out@) =~~= pre.push(g0[i as int]));
                }
            },
        }
        i = i + 1;
    }
    proof {
        assert(g0.skip(g0.len() as int) =~= Seq::<DeclView>::empty());
    }
}

/// Merges the declarations of both groups into a single mapping keyed by
/// dependency name: the package group fully, then the onchain group,
/// inserting-or-overwriting by name.  Scheme values pass through unread.
pub fn collect(deps: &Dependencies) -> (r: Vec<DependencyDeclaration>)
    ensures
        decls_view(r@) == collect_spec(deps@),
{
    let mut out: Vec<DependencyDeclaration> = Vec::new();
    proof {
        assert(decls_view(out@) =~= Seq::<DeclView>::empty());
    }
    match &deps.dependencies.movey.packages {
        Some(g) => collect_into(&mut out, g),
        None => (),
    }
    proof {
        assert(decls_view(out@) == collect_group(
            Seq::<DeclView>::empty(),
            or_empty(deps@.packages),
        ));
    }
    match &deps.dependencies.movey.onchain {
        Some(g) => collect_into(&mut out, g),
        None => (),
    }
    out
}

} // verus!
