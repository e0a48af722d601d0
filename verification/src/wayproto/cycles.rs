//! When ordering structs fails: exactly when some struct contains itself,
//! directly or through other structs.

use vstd::prelude::*;
use crate::wayproto::spec::{
    find_struct, insert_pos, lemma_insert_pos, order_loop, order_structs_spec, sort_names,
    struct_names_of, visit, visit_fields,
};
use crate::wayproto::laws::{
    dependencies_first, fields_placed_before, lemma_find_struct, lemma_find_struct_member,
    lemma_structs_ordered_dependencies_first, lemma_structs_ordered_once_each, placed_before,
};
use crate::wayproto::types::{ArgTypeView, ArgView, StructView};
use crate::wayproto::xml::{ErrorView, perr};

verus! {

/// A struct of `by` named `a` has a field of struct type `b`.
pub open spec fn depends_on(by: Seq<StructView>, a: Seq<char>, b: Seq<char>) -> bool {
    exists|j: int, k: int|
        0 <= j < by.len() && by[j].name == a && 0 <= k < by[j].fields.len()
            && #[trigger] by[j].fields[k].ty == ArgTypeView::Named(b)
}

/// The names `c` lead from struct to contained struct back to where they
/// started.
pub open spec fn is_cycle(by: Seq<StructView>, c: Seq<Seq<char>>) -> bool {
    &&& c.len() >= 2
    &&& c[0] == c[c.len() - 1]
    &&& forall|i: int| 0 <= i < c.len() - 1 ==> #[trigger] depends_on(by, c[i], c[i + 1])
}

/// Some struct of `by` contains itself, directly or through other structs.
pub open spec fn has_cycle(by: Seq<StructView>) -> bool {
    exists|c: Seq<Seq<char>>| #[trigger] is_cycle(by, c)
}

/// Every struct type that a field of `by` names is a struct of `by`.
pub open spec fn deps_declared(by: Seq<StructView>) -> bool {
    forall|j: int, k: int|
        0 <= j < by.len() && 0 <= k < by[j].fields.len() ==> match #[trigger] by[j].fields[k].ty {
            ArgTypeView::Named(b) => struct_names_of(by).contains(b),
            _ => true,
        }
}

pub open spec fn recursion_error(name: Seq<char>) -> ErrorView {
    perr(0, "recursive struct reference involving "@ + name)
}

/// The error comes from the cycle `c` of `by`, named by its first struct.
pub open spec fn cycle_error(by: Seq<StructView>, e: ErrorView) -> bool {
    exists|c: Seq<Seq<char>>| #[trigger] is_cycle(by, c) && e == recursion_error(c[0])
}

// ---------------------------------------------------------------------------
// A successful ordering leaves no cycle.

proof fn lemma_chain_descends(
    by: Seq<StructView>,
    out: Seq<StructView>,
    c: Seq<Seq<char>>,
    m: int,
    p: int,
)
    requires
        struct_names_of(by).no_duplicates(),
        dependencies_first(out),
        forall|j: int| 0 <= j < out.len() ==> by.contains(#[trigger] out[j]),
        is_cycle(by, c),
        0 <= m < c.len(),
        0 <= p < out.len(),
        out[p].name == c[m],
    ensures
        exists|q: int|
            0 <= q <= p && #[trigger] out[q].name == c[c.len() - 1] && (m < c.len() - 1 ==> q < p),
    decreases c.len() - m,
{
    if m == c.len() - 1 {
        assert(out[p].name == c[c.len() - 1]);
    } else {
        assert(depends_on(by, c[m], c[m + 1]));
        let (j, k) = choose|j: int, k: int|
            0 <= j < by.len() && by[j].name == c[m] && 0 <= k < by[j].fields.len()
                && #[trigger] by[j].fields[k].ty == ArgTypeView::Named(c[m + 1]);
        assert(by.contains(out[p]));
        let j2 = choose|j2: int| 0 <= j2 < by.len() && by[j2] == out[p];
        assert(struct_names_of(by)[j] == by[j].name);
        assert(struct_names_of(by)[j2] == by[j2].name);
        assert(j2 == j);
        assert(fields_placed_before(out, p));
        assert(out[p].fields[k].ty == ArgTypeView::Named(c[m + 1]));
        assert(placed_before(out, p, c[m + 1]));
        let q1 = choose|q1: int| 0 <= q1 < p && #[trigger] out[q1].name == c[m + 1];
        lemma_chain_descends(by, out, c, m + 1, q1);
    }
}

proof fn lemma_ok_acyclic(by: Seq<StructView>, c: Seq<Seq<char>>)
    requires
        struct_names_of(by).no_duplicates(),
        is_cycle(by, c),
    ensures
        order_structs_spec(by) is Err,
{
    lemma_structs_ordered_dependencies_first(by);
    lemma_structs_ordered_once_each(by);
    if let Ok(out) = order_structs_spec(by) {
        assert(depends_on(by, c[0], c[1]));
        let (j, k) = choose|j: int, k: int|
            0 <= j < by.len() && by[j].name == c[0] && 0 <= k < by[j].fields.len()
                && #[trigger] by[j].fields[k].ty == ArgTypeView::Named(c[1]);
        let on = struct_names_of(out);
        assert(on.contains(by[j].name));
        let p = choose|p: int| 0 <= p < on.len() && on[p] == by[j].name;
        assert(out[p].name == on[p]);
        lemma_chain_descends(by, out, c, 0, p);
        let q = choose|q: int|
            0 <= q <= p && #[trigger] out[q].name == c[c.len() - 1] && (0 < c.len() - 1 ==> q < p);
        assert(on[q] == out[q].name);
        assert(on[q] == on[p]);
    }
}

// ---------------------------------------------------------------------------
// A failed ordering comes from a cycle.

/// Each name of `visiting` is contained in the struct before it.
pub open spec fn is_chain(by: Seq<StructView>, visiting: Seq<Seq<char>>) -> bool {
    forall|i: int| 0 <= i < visiting.len() - 1 ==> #[trigger] depends_on(by, visiting[i], visiting[i + 1])
}

/// The stack of structs being visited: a chain of distinct declared names.
pub open spec fn stack_ok(by: Seq<StructView>, visiting: Seq<Seq<char>>) -> bool {
    &&& visiting.no_duplicates()
    &&& forall|i: int| 0 <= i < visiting.len() ==> struct_names_of(by).contains(#[trigger] visiting[i])
    &&& is_chain(by, visiting)
}

pub(crate) proof fn lemma_find_struct_some(by: Seq<StructView>, name: Seq<char>, i: int, j: int)
    requires
        0 <= i <= j < by.len(),
        by[j].name == name,
    ensures
        find_struct(by, name, i) is Some,
    decreases j - i,
{
    if by[i].name != name {
        lemma_find_struct_some(by, name, i + 1, j);
    }
}

proof fn lemma_stack_fits(by: Seq<StructView>, vs: Seq<Seq<char>>)
    requires
        vs.no_duplicates(),
        forall|i: int| 0 <= i < vs.len() ==> struct_names_of(by).contains(#[trigger] vs[i]),
    ensures
        vs.len() <= by.len(),
{
    let names = struct_names_of(by);
    broadcast use vstd::seq_lib::seq_to_set_is_finite;
    vs.unique_seq_to_set();
    names.lemma_cardinality_of_set();
    assert(vs.to_set().subset_of(names.to_set())) by {
        assert forall|n: Seq<char>| vs.to_set().contains(n) implies names.to_set().contains(n) by {
            let i = choose|i: int| 0 <= i < vs.len() && vs[i] == n;
            assert(names.contains(vs[i]));
        }
    }
    vstd::set_lib::lemma_len_subset(vs.to_set(), names.to_set());
}

proof fn lemma_visit_err(
    by: Seq<StructView>,
    name: Seq<char>,
    visiting: Seq<Seq<char>>,
    visited: Seq<Seq<char>>,
    out: Seq<StructView>,
)
    requires
        deps_declared(by),
        struct_names_of(by).contains(name),
        stack_ok(by, visiting),
        visiting.len() > 0 ==> depends_on(by, visiting[visiting.len() - 1], name),
    ensures
        visit(by, name, visiting, visited, out) matches Err(e) ==> cycle_error(by, e),
    decreases by.len() - visiting.len(), 0int, 0int,
{
    if visited.contains(name) {
        return;
    }
    if visiting.contains(name) {
        let m = choose|m: int| 0 <= m < visiting.len() && visiting[m] == name;
        let c = visiting.subrange(m, visiting.len() as int).push(name);
        assert forall|i: int| 0 <= i < c.len() - 1 implies #[trigger] depends_on(by, c[i], c[i + 1]) by {
            if i < c.len() - 2 {
                assert(c[i] == visiting[m + i]);
                assert(c[i + 1] == visiting[m + i + 1]);
                assert(depends_on(by, visiting[m + i], visiting[m + i + 1]));
            } else {
                assert(c[i] == visiting[visiting.len() - 1]);
                assert(c[i + 1] == name);
            }
        }
        assert(is_cycle(by, c));
        return;
    }
    let names = struct_names_of(by);
    let jn = choose|jn: int| 0 <= jn < names.len() && names[jn] == name;
    assert(by[jn].name == names[jn]);
    lemma_find_struct_some(by, name, 0, jn);
    let item = find_struct(by, name, 0)->Some_0;
    let vs = visiting.push(name);
    assert(stack_ok(by, vs)) by {
        assert forall|a: int, b: int| 0 <= a < vs.len() && 0 <= b < vs.len() && a != b implies vs[a]
            != vs[b] by {
            if a < visiting.len() && b < visiting.len() {
                assert(vs[a] == visiting[a] && vs[b] == visiting[b]);
            } else if a < visiting.len() {
                assert(vs[a] == visiting[a]);
            } else if b < visiting.len() {
                assert(vs[b] == visiting[b]);
            }
        }
        assert forall|i: int| 0 <= i < vs.len() implies names.contains(#[trigger] vs[i]) by {
            if i < visiting.len() {
                assert(vs[i] == visiting[i]);
            }
        }
        assert forall|i: int| 0 <= i < vs.len() - 1 implies #[trigger] depends_on(by, vs[i], vs[i + 1]) by {
            assert(vs[i] == visiting[i]);
            if i < visiting.len() - 1 {
                assert(vs[i + 1] == visiting[i + 1]);
            }
        }
    }
    lemma_stack_fits(by, vs);
    lemma_find_struct(by, name, 0);
    lemma_find_struct_member(by, name, 0);
    let jj = choose|jj: int| 0 <= jj < by.len() && by[jj] == item;
    lemma_visit_fields_err(by, item.fields, 0, vs, visited, out, jj);
}

proof fn lemma_visit_fields_err(
    by: Seq<StructView>,
    fields: Seq<ArgView>,
    k: int,
    visiting: Seq<Seq<char>>,
    visited: Seq<Seq<char>>,
    out: Seq<StructView>,
    jj: int,
)
    requires
        deps_declared(by),
        stack_ok(by, visiting),
        visiting.len() > 0,
        0 <= jj < by.len(),
        by[jj].fields == fields,
        by[jj].name == visiting[visiting.len() - 1],
        0 <= k,
    ensures
        visit_fields(by, fields, k, visiting, visited, out) matches Err(e) ==> cycle_error(by, e),
    decreases by.len() - visiting.len(), 1int, fields.len() - k,
{
    if k >= fields.len() || visiting.len() > by.len() {
        return;
    }
    match fields[k].ty {
        ArgTypeView::Named(dep) => {
            assert(by[jj].fields[k].ty == ArgTypeView::Named(dep));
            assert(depends_on(by, visiting[visiting.len() - 1], dep));
            lemma_visit_err(by, dep, visiting, visited, out);
            if let Ok((v2, o2)) = visit(by, dep, visiting, visited, out) {
                lemma_visit_fields_err(by, fields, k + 1, visiting, v2, o2, jj);
            }
        },
        _ => {
            lemma_visit_fields_err(by, fields, k + 1, visiting, visited, out, jj);
        },
    }
}

proof fn lemma_sorted_names_sound(names: Seq<Seq<char>>)
    ensures
        forall|n: Seq<char>| #[trigger] sort_names(names).contains(n) ==> names.contains(n),
    decreases names.len(),
{
    if names.len() > 0 {
        let prefix = names.drop_last();
        lemma_sorted_names_sound(prefix);
        let rest = sort_names(prefix);
        let x = names.last();
        let pos = insert_pos(x, rest, 0);
        lemma_insert_pos(x, rest, 0);
        let sorted = rest.insert(pos, x);
        assert(sorted == sort_names(names));
        assert forall|n: Seq<char>| #[trigger] sorted.contains(n) implies names.contains(n) by {
            let r = choose|r: int| 0 <= r < sorted.len() && sorted[r] == n;
            if r == pos {
                assert(names[names.len() - 1] == n);
            } else {
                let r2 = if r < pos {
                    r
                } else {
                    r - 1
                };
                assert(rest[r2] == n);
                assert(rest.contains(n));
                assert(prefix.contains(n));
                let m = choose|m: int| 0 <= m < prefix.len() && prefix[m] == n;
                assert(names[m] == n);
            }
        }
    }
}

proof fn lemma_order_loop_err(
    by: Seq<StructView>,
    names: Seq<Seq<char>>,
    i: int,
    visited: Seq<Seq<char>>,
    out: Seq<StructView>,
)
    requires
        deps_declared(by),
        forall|m: int| 0 <= m < names.len() ==> struct_names_of(by).contains(#[trigger] names[m]),
        0 <= i,
    ensures
        order_loop(by, names, i, visited, out) matches Err(e) ==> cycle_error(by, e),
    decreases names.len() - i,
{
    if i < names.len() {
        lemma_visit_err(by, names[i], Seq::empty(), visited, out);
        if let Ok((v2, o2)) = visit(by, names[i], Seq::empty(), visited, out) {
            lemma_order_loop_err(by, names, i + 1, v2, o2);
        }
    }
}

/// Where every struct type a field names is declared, once, ordering the
/// structs fails exactly when some struct contains itself, directly or
/// through other structs, and the error then names a struct on such a cycle.
pub proof fn lemma_order_fails_iff_cycle(structs: Seq<StructView>)
    requires
        struct_names_of(structs).no_duplicates(),
        deps_declared(structs),
    ensures
        order_structs_spec(structs) is Err <==> has_cycle(structs),
        order_structs_spec(structs) matches Err(e) ==> cycle_error(structs, e),
{
    let names = sort_names(struct_names_of(structs));
    lemma_sorted_names_sound(struct_names_of(structs));
    assert forall|m: int| 0 <= m < names.len() implies struct_names_of(structs).contains(
        #[trigger] names[m],
    ) by {
        assert(names.contains(names[m]));
    }
    lemma_order_loop_err(structs, names, 0, Seq::empty(), Seq::empty());
    if has_cycle(structs) {
        let c = choose|c: Seq<Seq<char>>| #[trigger] is_cycle(structs, c);
        lemma_ok_acyclic(structs, c);
    }
}

} // verus!
