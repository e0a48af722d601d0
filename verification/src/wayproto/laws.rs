//! What the struct ordering guarantees: every struct comes after each struct
//! its fields name, so that generated code can declare them in order.

use vstd::prelude::*;
use crate::wayproto::spec::{
    attr_of, enum_names_from, find_struct, order_loop, order_structs_spec, parse_protocol_spec,
    struct_names_from, struct_names_of, structs_from, u32_max, visit, visit_fields,
};
use crate::wayproto::xml::parse_document;
use crate::text::parse_unsigned;
use crate::wayproto::types::{ArgTypeView, ArgView, StructView};

verus! {

/// Some struct before position `i` of `out` is named `dep`.
pub open spec fn placed_before(out: Seq<StructView>, i: int, dep: Seq<char>) -> bool {
    exists|j: int| 0 <= j < i && #[trigger] out[j].name == dep
}

/// Every struct named by a field of `out[i]` comes before it.
pub open spec fn fields_placed_before(out: Seq<StructView>, i: int) -> bool {
    forall|k: int|
        0 <= k < out[i].fields.len() ==> match #[trigger] out[i].fields[k].ty {
            ArgTypeView::Named(dep) => placed_before(out, i, dep),
            _ => true,
        }
}

/// Each struct of `out` comes after every struct that its fields name.
pub open spec fn dependencies_first(out: Seq<StructView>) -> bool {
    forall|i: int| 0 <= i < out.len() ==> #[trigger] fields_placed_before(out, i)
}

/// Whether the struct-typed fields of `fields[k..]` all name one of `names`.
pub open spec fn field_deps_in(fields: Seq<ArgView>, k: int, names: Seq<Seq<char>>) -> bool {
    forall|m: int|
        k <= m < fields.len() ==> match #[trigger] fields[m].ty {
            ArgTypeView::Named(dep) => names.contains(dep),
            _ => true,
        }
}

pub(crate) proof fn lemma_find_struct(structs: Seq<StructView>, name: Seq<char>, i: int)
    ensures
        find_struct(structs, name, i) matches Some(s) ==> s.name == name,
    decreases structs.len() - i,
{
    if 0 <= i < structs.len() && structs[i].name != name {
        lemma_find_struct(structs, name, i + 1);
    }
}

/// A name among the names of `out` belongs to one of its structs.
proof fn lemma_name_placed(out: Seq<StructView>, dep: Seq<char>)
    requires
        struct_names_of(out).contains(dep),
    ensures
        placed_before(out, out.len() as int, dep),
{
    let j = choose|j: int| 0 <= j < struct_names_of(out).len() && struct_names_of(out)[j] == dep;
    assert(out[j].name == dep);
}

/// Appending structs keeps what was placed before a position.
proof fn lemma_extend_keeps_order(out: Seq<StructView>, o2: Seq<StructView>)
    requires
        dependencies_first(out),
        out.len() <= o2.len(),
        o2.subrange(0, out.len() as int) == out,
    ensures
        forall|i: int| 0 <= i < out.len() ==> #[trigger] fields_placed_before(o2, i),
{
    assert forall|i: int| 0 <= i < out.len() implies #[trigger] fields_placed_before(o2, i) by {
        assert(fields_placed_before(out, i));
        assert(o2[i] == out[i]);
        assert forall|k: int| 0 <= k < o2[i].fields.len() implies match #[trigger] o2[i].fields[k].ty {
            ArgTypeView::Named(dep) => placed_before(o2, i, dep),
            _ => true,
        } by {
            if let ArgTypeView::Named(dep) = o2[i].fields[k].ty {
                assert(out[i].fields[k].ty == o2[i].fields[k].ty);
                assert(placed_before(out, i, dep));
                let j = choose|j: int| 0 <= j < i && #[trigger] out[j].name == dep;
                assert(o2[j] == out[j]);
            }
        }
    }
}

proof fn lemma_visit(
    by: Seq<StructView>,
    name: Seq<char>,
    visiting: Seq<Seq<char>>,
    visited: Seq<Seq<char>>,
    out: Seq<StructView>,
)
    requires
        visited == struct_names_of(out),
        dependencies_first(out),
    ensures
        visit(by, name, visiting, visited, out) matches Ok((v2, o2)) ==> {
            &&& v2 == struct_names_of(o2)
            &&& dependencies_first(o2)
            &&& out.len() <= o2.len()
            &&& o2.subrange(0, out.len() as int) == out
            &&& v2.contains(name)
        },
    decreases by.len() - visiting.len(), 0int, 0int,
{
    if visited.contains(name) || visiting.contains(name) {
        return;
    }
    match find_struct(by, name, 0) {
        None => {},
        Some(item) => {
            if visiting.len() < by.len() {
                lemma_find_struct(by, name, 0);
                lemma_visit_fields(by, item.fields, 0, visiting.push(name), visited, out);
                match visit_fields(by, item.fields, 0, visiting.push(name), visited, out) {
                    Err(_) => {},
                    Ok((v2, o2)) => {
                        let o3 = o2.push(item);
                        let v3 = v2.push(name);
                        assert(v3 =~= struct_names_of(o3));
                        assert(o3.subrange(0, o2.len() as int) =~= o2);
                        lemma_extend_keeps_order(o2, o3);
                        assert(fields_placed_before(o3, o2.len() as int)) by {
                            assert forall|k: int| 0 <= k < o3[o2.len() as int].fields.len() implies match #[trigger] o3[o2.len() as int].fields[k].ty {
                                ArgTypeView::Named(dep) => placed_before(o3, o2.len() as int, dep),
                                _ => true,
                            } by {
                                if let ArgTypeView::Named(dep) = item.fields[k].ty {
                                    assert(v2.contains(dep));
                                    lemma_name_placed(o2, dep);
                                    let j = choose|j: int|
                                        0 <= j < o2.len() && #[trigger] o2[j].name == dep;
                                    assert(o3[j] == o2[j]);
                                }
                            }
                        }
                        assert(dependencies_first(o3)) by {
                            assert forall|i: int| 0 <= i < o3.len() implies #[trigger] fields_placed_before(
                                o3,
                                i,
                            ) by {
                                if i < o2.len() {
                                } else {
                                    assert(i == o2.len());
                                }
                            }
                        }
                        assert(o3.subrange(0, out.len() as int) =~= out) by {
                            assert(o2.subrange(0, out.len() as int) == out);
                        }
                        assert(v3[v3.len() - 1] == name);
                    },
                }
            }
        },
    }
}

proof fn lemma_visit_fields(
    by: Seq<StructView>,
    fields: Seq<ArgView>,
    k: int,
    visiting: Seq<Seq<char>>,
    visited: Seq<Seq<char>>,
    out: Seq<StructView>,
)
    requires
        visited == struct_names_of(out),
        dependencies_first(out),
        visiting.len() <= by.len(),
        0 <= k,
    ensures
        visit_fields(by, fields, k, visiting, visited, out) matches Ok((v2, o2)) ==> {
            &&& v2 == struct_names_of(o2)
            &&& dependencies_first(o2)
            &&& out.len() <= o2.len()
            &&& o2.subrange(0, out.len() as int) == out
            &&& field_deps_in(fields, k, v2)
        },
    decreases by.len() - visiting.len(), 1int, fields.len() - k,
{
    if k >= fields.len() {
        assert(out.subrange(0, out.len() as int) =~= out);
        return;
    }
    match fields[k].ty {
        ArgTypeView::Named(dep) => {
            lemma_visit(by, dep, visiting, visited, out);
            match visit(by, dep, visiting, visited, out) {
                Err(_) => {},
                Ok((v2, o2)) => {
                    lemma_visit_fields(by, fields, k + 1, visiting, v2, o2);
                    match visit_fields(by, fields, k + 1, visiting, v2, o2) {
                        Err(_) => {},
                        Ok((v3, o3)) => {
                            assert(o3.subrange(0, out.len() as int) =~= out) by {
                                assert(o3.subrange(0, o2.len() as int) == o2);
                                assert(o2.subrange(0, out.len() as int) == out);
                            }
                            assert(v3.contains(dep)) by {
                                let j = choose|j: int| 0 <= j < v2.len() && v2[j] == dep;
                                assert(o2[j].name == dep);
                                assert(o3[j] == o2[j]);
                                assert(v3[j] == dep);
                            }
                            assert(field_deps_in(fields, k, v3)) by {
                                assert forall|m: int| k <= m < fields.len() implies match #[trigger] fields[m].ty {
                                    ArgTypeView::Named(d) => v3.contains(d),
                                    _ => true,
                                } by {
                                    if m > k {
                                        assert(field_deps_in(fields, k + 1, v3));
                                    }
                                }
                            }
                        },
                    }
                },
            }
        },
        _ => {
            lemma_visit_fields(by, fields, k + 1, visiting, visited, out);
            match visit_fields(by, fields, k + 1, visiting, visited, out) {
                Err(_) => {},
                Ok((v3, o3)) => {
                    assert(field_deps_in(fields, k, v3)) by {
                        assert forall|m: int| k <= m < fields.len() implies match #[trigger] fields[m].ty {
                            ArgTypeView::Named(d) => v3.contains(d),
                            _ => true,
                        } by {
                            if m > k {
                                assert(field_deps_in(fields, k + 1, v3));
                            }
                        }
                    }
                },
            }
        },
    }
}

proof fn lemma_order_loop(
    by: Seq<StructView>,
    names: Seq<Seq<char>>,
    i: int,
    visited: Seq<Seq<char>>,
    out: Seq<StructView>,
)
    requires
        visited == struct_names_of(out),
        dependencies_first(out),
    ensures
        order_loop(by, names, i, visited, out) matches Ok(o) ==> dependencies_first(o),
    decreases names.len() - i,
{
    if 0 <= i < names.len() {
        lemma_visit(by, names[i], Seq::empty(), visited, out);
        match visit(by, names[i], Seq::empty(), visited, out) {
            Err(_) => {},
            Ok((v2, o2)) => {
                lemma_order_loop(by, names, i + 1, v2, o2);
            },
        }
    }
}

/// Ordering the named structs puts every struct after each struct that one
/// of its fields names, so that each can be declared before it is used.
pub proof fn lemma_structs_ordered_dependencies_first(structs: Seq<StructView>)
    ensures
        order_structs_spec(structs) matches Ok(out) ==> dependencies_first(out),
{
    assert(Seq::<Seq<char>>::empty() =~= struct_names_of(Seq::<StructView>::empty()));
    lemma_order_loop(
        structs,
        crate::wayproto::spec::sort_names(struct_names_of(structs)),
        0,
        Seq::empty(),
        Seq::empty(),
    );
}

/// Every struct in `out` is one of `by`.
pub open spec fn all_from(out: Seq<StructView>, by: Seq<StructView>) -> bool {
    forall|j: int| 0 <= j < out.len() ==> by.contains(#[trigger] out[j])
}

/// The names past position `from` in `v` are none of `excluded`.
pub open spec fn added_outside(v: Seq<Seq<char>>, from: int, excluded: Seq<Seq<char>>) -> bool {
    forall|j: int| from <= j < v.len() ==> !excluded.contains(#[trigger] v[j])
}

pub(crate) proof fn lemma_find_struct_member(structs: Seq<StructView>, name: Seq<char>, i: int)
    requires
        0 <= i,
    ensures
        find_struct(structs, name, i) matches Some(s) ==> structs.contains(s),
    decreases structs.len() - i,
{
    if 0 <= i < structs.len() {
        if structs[i].name == name {
            assert(structs[i] == structs[i]);
        } else {
            lemma_find_struct_member(structs, name, i + 1);
        }
    }
}

proof fn lemma_visit_once(
    by: Seq<StructView>,
    name: Seq<char>,
    visiting: Seq<Seq<char>>,
    visited: Seq<Seq<char>>,
    out: Seq<StructView>,
)
    requires
        visited == struct_names_of(out),
        visited.no_duplicates(),
        all_from(out, by),
    ensures
        visit(by, name, visiting, visited, out) matches Ok((v2, o2)) ==> {
            &&& v2 == struct_names_of(o2)
            &&& v2.no_duplicates()
            &&& all_from(o2, by)
            &&& visited.len() <= v2.len()
            &&& v2.subrange(0, visited.len() as int) == visited
            &&& added_outside(v2, visited.len() as int, visiting)
            &&& v2.contains(name)
        },
    decreases by.len() - visiting.len(), 0int, 0int,
{
    if visited.contains(name) {
        assert(visited.subrange(0, visited.len() as int) =~= visited);
        return;
    }
    if visiting.contains(name) {
        return;
    }
    match find_struct(by, name, 0) {
        None => {},
        Some(item) => {
            if visiting.len() < by.len() {
                lemma_find_struct(by, name, 0);
                lemma_find_struct_member(by, name, 0);
                let vis = visiting.push(name);
                lemma_visit_fields_once(by, item.fields, 0, vis, visited, out);
                match visit_fields(by, item.fields, 0, vis, visited, out) {
                    Err(_) => {},
                    Ok((v2, o2)) => {
                        let v3 = v2.push(name);
                        let o3 = o2.push(item);
                        assert(v3 =~= struct_names_of(o3));
                        assert(!v2.contains(name)) by {
                            if v2.contains(name) {
                                let j = choose|j: int| 0 <= j < v2.len() && v2[j] == name;
                                if j < visited.len() {
                                    assert(v2.subrange(0, visited.len() as int)[j] == name);
                                } else {
                                    assert(vis[vis.len() - 1] == name);
                                    assert(!vis.contains(v2[j]));
                                }
                            }
                        }
                        assert(v3.no_duplicates()) by {
                            assert forall|a: int, b: int|
                                0 <= a < v3.len() && 0 <= b < v3.len() && a != b implies v3[a]
                                != v3[b] by {
                                if a == v2.len() {
                                    assert(v2[b] == v3[b]);
                                } else if b == v2.len() {
                                    assert(v2[a] == v3[a]);
                                }
                            }
                        }
                        assert(all_from(o3, by)) by {
                            assert forall|j: int| 0 <= j < o3.len() implies by.contains(
                                #[trigger] o3[j],
                            ) by {
                                if j < o2.len() {
                                    assert(o3[j] == o2[j]);
                                }
                            }
                        }
                        assert(v3.subrange(0, visited.len() as int) =~= visited) by {
                            assert(v2.subrange(0, visited.len() as int) == visited);
                        }
                        assert(added_outside(v3, visited.len() as int, visiting)) by {
                            assert forall|j: int| visited.len() <= j < v3.len() implies !visiting.contains(
                                #[trigger] v3[j],
                            ) by {
                                if j < v2.len() {
                                    assert(v3[j] == v2[j]);
                                    if visiting.contains(v2[j]) {
                                        let k = choose|k: int|
                                            0 <= k < visiting.len() && visiting[k] == v2[j];
                                        assert(vis[k] == v2[j]);
                                    }
                                }
                            }
                        }
                        assert(v3[v3.len() - 1] == name);
                    },
                }
            }
        },
    }
}

proof fn lemma_visit_fields_once(
    by: Seq<StructView>,
    fields: Seq<ArgView>,
    k: int,
    visiting: Seq<Seq<char>>,
    visited: Seq<Seq<char>>,
    out: Seq<StructView>,
)
    requires
        visited == struct_names_of(out),
        visited.no_duplicates(),
        all_from(out, by),
        visiting.len() <= by.len(),
        0 <= k,
    ensures
        visit_fields(by, fields, k, visiting, visited, out) matches Ok((v2, o2)) ==> {
            &&& v2 == struct_names_of(o2)
            &&& v2.no_duplicates()
            &&& all_from(o2, by)
            &&& visited.len() <= v2.len()
            &&& v2.subrange(0, visited.len() as int) == visited
            &&& added_outside(v2, visited.len() as int, visiting)
        },
    decreases by.len() - visiting.len(), 1int, fields.len() - k,
{
    if k >= fields.len() {
        assert(visited.subrange(0, visited.len() as int) =~= visited);
        return;
    }
    let step = match fields[k].ty {
        ArgTypeView::Named(dep) => visit(by, dep, visiting, visited, out),
        _ => Ok((visited, out)),
    };
    match fields[k].ty {
        ArgTypeView::Named(dep) => {
            lemma_visit_once(by, dep, visiting, visited, out);
        },
        _ => {
            assert(visited.subrange(0, visited.len() as int) =~= visited);
        },
    }
    match step {
        Err(_) => {},
        Ok((v2, o2)) => {
            lemma_visit_fields_once(by, fields, k + 1, visiting, v2, o2);
            match visit_fields(by, fields, k + 1, visiting, v2, o2) {
                Err(_) => {},
                Ok((v3, o3)) => {
                    assert(v3.subrange(0, visited.len() as int) =~= visited) by {
                        assert(v3.subrange(0, v2.len() as int) == v2);
                        assert(v2.subrange(0, visited.len() as int) == visited);
                        assert forall|j: int| 0 <= j < visited.len() implies v3.subrange(
                            0,
                            visited.len() as int,
                        )[j] == visited[j] by {
                            assert(v3[j] == v3.subrange(0, v2.len() as int)[j]);
                            assert(v2[j] == v2.subrange(0, visited.len() as int)[j]);
                        }
                    }
                    assert(added_outside(v3, visited.len() as int, visiting)) by {
                        assert forall|j: int| visited.len() <= j < v3.len() implies !visiting.contains(
                            #[trigger] v3[j],
                        ) by {
                            if j < v2.len() {
                                assert(v3[j] == v3.subrange(0, v2.len() as int)[j]);
                                assert(!visiting.contains(v2[j]));
                            }
                        }
                    }
                },
            }
        },
    }
}

proof fn lemma_order_loop_once(
    by: Seq<StructView>,
    names: Seq<Seq<char>>,
    i: int,
    visited: Seq<Seq<char>>,
    out: Seq<StructView>,
)
    requires
        visited == struct_names_of(out),
        visited.no_duplicates(),
        all_from(out, by),
        0 <= i,
    ensures
        order_loop(by, names, i, visited, out) matches Ok(o) ==> {
            &&& struct_names_of(o).no_duplicates()
            &&& all_from(o, by)
            &&& forall|n: Seq<char>| #[trigger] visited.contains(n) ==> struct_names_of(o).contains(n)
            &&& forall|m: int| i <= m < names.len() ==> struct_names_of(o).contains(#[trigger] names[m])
        },
    decreases names.len() - i,
{
    if i >= names.len() {
        return;
    }
    lemma_visit_once(by, names[i], Seq::empty(), visited, out);
    match visit(by, names[i], Seq::empty(), visited, out) {
        Err(_) => {},
        Ok((v2, o2)) => {
            lemma_order_loop_once(by, names, i + 1, v2, o2);
            match order_loop(by, names, i + 1, v2, o2) {
                Err(_) => {},
                Ok(o) => {
                    assert forall|n: Seq<char>| #[trigger] visited.contains(n) implies struct_names_of(
                        o,
                    ).contains(n) by {
                        let j = choose|j: int| 0 <= j < visited.len() && visited[j] == n;
                        assert(v2.subrange(0, visited.len() as int)[j] == n);
                        assert(v2[j] == n);
                        assert(v2.contains(n));
                    }
                },
            }
        },
    }
}

proof fn lemma_sorted_names_complete(names: Seq<Seq<char>>)
    ensures
        forall|n: Seq<char>| #[trigger] names.contains(n) ==> crate::wayproto::spec::sort_names(
            names,
        ).contains(n),
    decreases names.len(),
{
    if names.len() > 0 {
        let prefix = names.drop_last();
        lemma_sorted_names_complete(prefix);
        let rest = crate::wayproto::spec::sort_names(prefix);
        let x = names.last();
        let pos = crate::wayproto::spec::insert_pos(x, rest, 0);
        crate::wayproto::spec::lemma_insert_pos(x, rest, 0);
        let sorted = rest.insert(pos, x);
        assert(sorted == crate::wayproto::spec::sort_names(names));
        assert forall|n: Seq<char>| #[trigger] names.contains(n) implies sorted.contains(n) by {
            let j = choose|j: int| 0 <= j < names.len() && names[j] == n;
            if j == names.len() - 1 {
                assert(sorted[pos] == n);
            } else {
                assert(prefix[j] == n);
                assert(prefix.contains(n));
                assert(rest.contains(n));
                let r = choose|r: int| 0 <= r < rest.len() && rest[r] == n;
                if r < pos {
                    assert(sorted[r] == n);
                } else {
                    assert(sorted[r + 1] == n);
                }
            }
        }
    }
}

/// Ordering the named structs loses none and repeats none: every struct of
/// the output is one of the input, no name occurs twice in it, and every
/// input struct's name occurs in it.
pub proof fn lemma_structs_ordered_once_each(structs: Seq<StructView>)
    ensures
        order_structs_spec(structs) matches Ok(out) ==> {
            &&& struct_names_of(out).no_duplicates()
            &&& forall|j: int| 0 <= j < out.len() ==> structs.contains(#[trigger] out[j])
            &&& forall|i: int|
                0 <= i < structs.len() ==> struct_names_of(out).contains(#[trigger] structs[i].name)
        },
{
    let names = struct_names_of(structs);
    let sorted = crate::wayproto::spec::sort_names(names);
    assert(Seq::<Seq<char>>::empty() =~= struct_names_of(Seq::<StructView>::empty()));
    lemma_order_loop_once(structs, sorted, 0, Seq::empty(), Seq::empty());
    lemma_sorted_names_complete(names);
    if let Ok(out) = order_structs_spec(structs) {
        assert forall|i: int| 0 <= i < structs.len() implies struct_names_of(out).contains(
            #[trigger] structs[i].name,
        ) by {
            assert(names[i] == structs[i].name);
            assert(names.contains(structs[i].name));
            assert(sorted.contains(structs[i].name));
            let m = choose|m: int| 0 <= m < sorted.len() && sorted[m] == structs[i].name;
            assert(struct_names_of(out).contains(sorted[m]));
        }
    }
}

/// A parsed protocol lists its named structs dependencies first, each name
/// once.
pub proof fn lemma_parsed_structs_dependencies_first(src: Seq<u8>)
    ensures
        parse_protocol_spec(src) matches Ok(p) ==> dependencies_first(p.structs)
            && struct_names_of(p.structs).no_duplicates(),
{
    if let Ok(root) = parse_document(src) {
        if root.name == "protocol"@ {
            if let (Some(_), Some(vs)) = (attr_of(root, "name"@), attr_of(root, "version"@)) {
                if parse_unsigned(vs, u32_max()) is Some {
                    let cs = root.children;
                    if let Ok(enames) = enum_names_from(cs, 0, Seq::empty()) {
                        if let Ok(snames) = struct_names_from(cs, 0, enames, Seq::empty()) {
                            if let Ok(parsed) = structs_from(cs, 0, snames, enames, Seq::empty()) {
                                lemma_structs_ordered_dependencies_first(parsed);
                                lemma_structs_ordered_once_each(parsed);
                            }
                        }
                    }
                }
            }
        }
    }
}

} // verus!
