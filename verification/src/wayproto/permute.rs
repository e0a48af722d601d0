//! The struct ordering does not depend on the order in which the structs are
//! given: names are visited in ascending order, and a struct is found by name.

use vstd::prelude::*;
use crate::wayproto::spec::{
    find_struct, insert_pos, lemma_insert_pos, lex_le, order_loop, order_structs_spec,
    sort_names, struct_names_of, visit, visit_fields,
};
use crate::wayproto::laws::{lemma_find_struct, lemma_find_struct_member};
use crate::wayproto::cycles::lemma_find_struct_some;
use crate::wayproto::types::{ArgTypeView, ArgView, StructView};

verus! {

// ---------------------------------------------------------------------------
// The order on names.

proof fn lemma_lex_total(a: Seq<char>, b: Seq<char>)
    ensures
        lex_le(a, b) || lex_le(b, a),
    decreases a.len(),
{
    if a.len() > 0 && b.len() > 0 {
        if a[0] == b[0] {
            lemma_lex_total(a.drop_first(), b.drop_first());
        } else {
            // Distinct characters have distinct code points.
            vstd::utf8::char_u32_cast(a[0], a[0] as u32);
            vstd::utf8::char_u32_cast(b[0], b[0] as u32);
            assert((a[0] as u32) != (b[0] as u32));
        }
    }
}

proof fn lemma_lex_antisymmetric(a: Seq<char>, b: Seq<char>)
    requires
        lex_le(a, b),
        lex_le(b, a),
    ensures
        a == b,
    decreases a.len(),
{
    if a.len() > 0 {
        lemma_lex_antisymmetric(a.drop_first(), b.drop_first());
        assert(a =~= seq![a[0]] + a.drop_first());
        assert(b =~= seq![b[0]] + b.drop_first());
    }
}

proof fn lemma_lex_transitive(a: Seq<char>, b: Seq<char>, c: Seq<char>)
    requires
        lex_le(a, b),
        lex_le(b, c),
    ensures
        lex_le(a, c),
    decreases a.len(),
{
    if a.len() > 0 && b.len() > 0 && c.len() > 0 && a[0] == b[0] && b[0] == c[0] {
        lemma_lex_transitive(a.drop_first(), b.drop_first(), c.drop_first());
    }
}

/// `s` is in ascending order.
pub open spec fn ascending(s: Seq<Seq<char>>) -> bool {
    forall|i: int, j: int| 0 <= i < j < s.len() ==> lex_le(#[trigger] s[i], #[trigger] s[j])
}

proof fn lemma_insert_pos_bounds(x: Seq<char>, s: Seq<Seq<char>>, j: int)
    requires
        0 <= j <= s.len(),
    ensures
        forall|i: int| j <= i < insert_pos(x, s, j) ==> !lex_le(x, #[trigger] s[i]),
        insert_pos(x, s, j) < s.len() ==> lex_le(x, s[insert_pos(x, s, j)]),
    decreases s.len() - j,
{
    if j < s.len() && !lex_le(x, s[j]) {
        lemma_insert_pos_bounds(x, s, j + 1);
    }
}

proof fn lemma_sort_names(names: Seq<Seq<char>>)
    ensures
        ascending(sort_names(names)),
        sort_names(names).len() == names.len(),
        forall|n: Seq<char>| #[trigger] sort_names(names).contains(n) <==> names.contains(n),
    decreases names.len(),
{
    if names.len() > 0 {
        let prefix = names.drop_last();
        lemma_sort_names(prefix);
        let rest = sort_names(prefix);
        let x = names.last();
        let pos = insert_pos(x, rest, 0);
        lemma_insert_pos(x, rest, 0);
        lemma_insert_pos_bounds(x, rest, 0);
        let sorted = rest.insert(pos, x);
        assert(sorted == sort_names(names));
        assert forall|i: int, j: int| 0 <= i < j < sorted.len() implies lex_le(
            #[trigger] sorted[i],
            #[trigger] sorted[j],
        ) by {
            if j < pos {
                assert(sorted[i] == rest[i] && sorted[j] == rest[j]);
            } else if j == pos {
                assert(sorted[i] == rest[i]);
                assert(!lex_le(x, rest[i]));
                lemma_lex_total(x, rest[i]);
            } else if i < pos {
                assert(sorted[i] == rest[i] && sorted[j] == rest[j - 1]);
                assert(!lex_le(x, rest[i]));
                lemma_lex_total(x, rest[i]);
                assert(lex_le(x, rest[pos]));
                if pos < j - 1 {
                    assert(lex_le(rest[pos], rest[j - 1]));
                    lemma_lex_transitive(x, rest[pos], rest[j - 1]);
                }
                lemma_lex_transitive(rest[i], x, rest[j - 1]);
            } else if i == pos {
                assert(sorted[j] == rest[j - 1]);
                assert(lex_le(x, rest[pos]));
                if pos < j - 1 {
                    assert(lex_le(rest[pos], rest[j - 1]));
                    lemma_lex_transitive(x, rest[pos], rest[j - 1]);
                }
            } else {
                assert(sorted[i] == rest[i - 1] && sorted[j] == rest[j - 1]);
            }
        }
        assert forall|n: Seq<char>| #[trigger] sorted.contains(n) <==> names.contains(n) by {
            if sorted.contains(n) {
                let r = choose|r: int| 0 <= r < sorted.len() && sorted[r] == n;
                if r == pos {
                    assert(names[names.len() - 1] == n);
                } else {
                    let r2 = if r < pos {
                        r
                    } else {
                        r - 1
                    };
                    assert(rest[r2] == n);
                    assert(rest.contains(n));
                    assert(prefix.contains(n));
                    let m = choose|m: int| 0 <= m < prefix.len() && prefix[m] == n;
                    assert(names[m] == n);
                }
            }
            if names.contains(n) {
                let m = choose|m: int| 0 <= m < names.len() && names[m] == n;
                if m == names.len() - 1 {
                    assert(sorted[pos] == n);
                } else {
                    assert(prefix[m] == n);
                    assert(prefix.contains(n));
                    assert(rest.contains(n));
                    let r = choose|r: int| 0 <= r < rest.len() && rest[r] == n;
                    if r < pos {
                        assert(sorted[r] == n);
                    } else {
                        assert(sorted[r + 1] == n);
                    }
                }
            }
        }
    }
}

/// Two ascending lists of the same length without repeats, holding the same
/// names, are equal.
proof fn lemma_ascending_unique(s: Seq<Seq<char>>, t: Seq<Seq<char>>)
    requires
        ascending(s),
        ascending(t),
        s.no_duplicates(),
        t.no_duplicates(),
        s.len() == t.len(),
        forall|n: Seq<char>| #[trigger] s.contains(n) <==> t.contains(n),
    ensures
        s == t,
    decreases s.len(),
{
    if s.len() > 0 {
        assert(s.contains(s[0]));
        assert(t.contains(t[0]));
        assert(t.contains(s[0]));
        assert(s.contains(t[0]));
        let k = choose|k: int| 0 <= k < t.len() && t[k] == s[0];
        let m = choose|m: int| 0 <= m < s.len() && s[m] == t[0];
        if k > 0 && m > 0 {
            assert(lex_le(t[0], t[k]));
            assert(lex_le(s[0], s[m]));
            lemma_lex_antisymmetric(s[0], t[0]);
        }
        assert(s[0] == t[0]);
        let s1 = s.drop_first();
        let t1 = t.drop_first();
        assert forall|n: Seq<char>| #[trigger] s1.contains(n) <==> t1.contains(n) by {
            if s1.contains(n) {
                let i = choose|i: int| 0 <= i < s1.len() && s1[i] == n;
                assert(s[i + 1] == n);
                assert(n != s[0]);
                assert(s.contains(n));
                assert(t.contains(n));
                let j = choose|j: int| 0 <= j < t.len() && t[j] == n;
                assert(j != 0);
                assert(t1[j - 1] == n);
            }
            if t1.contains(n) {
                let i = choose|i: int| 0 <= i < t1.len() && t1[i] == n;
                assert(t[i + 1] == n);
                assert(n != t[0]);
                assert(t.contains(n));
                assert(s.contains(n));
                let j = choose|j: int| 0 <= j < s.len() && s[j] == n;
                assert(j != 0);
                assert(s1[j - 1] == n);
            }
        }
        assert forall|i: int, j: int| 0 <= i < j < s1.len() implies lex_le(
            #[trigger] s1[i],
            #[trigger] s1[j],
        ) by {
            assert(s1[i] == s[i + 1] && s1[j] == s[j + 1]);
        }
        assert forall|i: int, j: int| 0 <= i < j < t1.len() implies lex_le(
            #[trigger] t1[i],
            #[trigger] t1[j],
        ) by {
            assert(t1[i] == t[i + 1] && t1[j] == t[j + 1]);
        }
        lemma_ascending_unique(s1, t1);
        assert(s =~= seq![s[0]] + s1);
        assert(t =~= seq![t[0]] + t1);
    }
}

// ---------------------------------------------------------------------------
// Finding a struct by name.

proof fn lemma_find_same(a: Seq<StructView>, b: Seq<StructView>, name: Seq<char>)
    requires
        struct_names_of(a).no_duplicates(),
        forall|s: StructView| #[trigger] a.contains(s) <==> b.contains(s),
    ensures
        find_struct(a, name, 0) == find_struct(b, name, 0),
{
    lemma_find_struct(a, name, 0);
    lemma_find_struct(b, name, 0);
    lemma_find_struct_member(a, name, 0);
    lemma_find_struct_member(b, name, 0);
    match (find_struct(a, name, 0), find_struct(b, name, 0)) {
        (Some(s1), Some(s2)) => {
            assert(a.contains(s2));
            let j1 = choose|j: int| 0 <= j < a.len() && a[j] == s1;
            let j2 = choose|j: int| 0 <= j < a.len() && a[j] == s2;
            assert(struct_names_of(a)[j1] == a[j1].name);
            assert(struct_names_of(a)[j2] == a[j2].name);
        },
        (None, Some(s2)) => {
            assert(a.contains(s2));
            let j2 = choose|j: int| 0 <= j < a.len() && a[j] == s2;
            lemma_find_struct_some(a, name, 0, j2);
        },
        (Some(s1), None) => {
            assert(b.contains(s1));
            let j1 = choose|j: int| 0 <= j < b.len() && b[j] == s1;
            lemma_find_struct_some(b, name, 0, j1);
        },
        (None, None) => {},
    }
}

// ---------------------------------------------------------------------------
// The visits see the structs only through their names.

/// `a` and `b` hold equally many structs and find the same struct by each
/// name.
pub open spec fn same_lookup(a: Seq<StructView>, b: Seq<StructView>) -> bool {
    &&& a.len() == b.len()
    &&& forall|n: Seq<char>| #[trigger] find_struct(a, n, 0) == find_struct(b, n, 0)
}

proof fn lemma_visit_same(
    a: Seq<StructView>,
    b: Seq<StructView>,
    name: Seq<char>,
    visiting: Seq<Seq<char>>,
    visited: Seq<Seq<char>>,
    out: Seq<StructView>,
)
    requires
        same_lookup(a, b),
    ensures
        visit(a, name, visiting, visited, out) == visit(b, name, visiting, visited, out),
    decreases a.len() - visiting.len(), 0int, 0int,
{
    if !visited.contains(name) && !visiting.contains(name) {
        assert(find_struct(a, name, 0) == find_struct(b, name, 0));
        if let Some(item) = find_struct(a, name, 0) {
            if visiting.len() < a.len() {
                lemma_visit_fields_same(a, b, item.fields, 0, visiting.push(name), visited, out);
            }
        }
    }
}

proof fn lemma_visit_fields_same(
    a: Seq<StructView>,
    b: Seq<StructView>,
    fields: Seq<ArgView>,
    k: int,
    visiting: Seq<Seq<char>>,
    visited: Seq<Seq<char>>,
    out: Seq<StructView>,
)
    requires
        same_lookup(a, b),
    ensures
        visit_fields(a, fields, k, visiting, visited, out) == visit_fields(
            b,
            fields,
            k,
            visiting,
            visited,
            out,
        ),
    decreases a.len() - visiting.len(), 1int, fields.len() - k,
{
    if 0 <= k < fields.len() && visiting.len() <= a.len() {
        match fields[k].ty {
            ArgTypeView::Named(dep) => {
                lemma_visit_same(a, b, dep, visiting, visited, out);
                if let Ok((v2, o2)) = visit(a, dep, visiting, visited, out) {
                    lemma_visit_fields_same(a, b, fields, k + 1, visiting, v2, o2);
                }
            },
            _ => {
                lemma_visit_fields_same(a, b, fields, k + 1, visiting, visited, out);
            },
        }
    }
}

proof fn lemma_order_loop_same(
    a: Seq<StructView>,
    b: Seq<StructView>,
    names: Seq<Seq<char>>,
    i: int,
    visited: Seq<Seq<char>>,
    out: Seq<StructView>,
)
    requires
        same_lookup(a, b),
    ensures
        order_loop(a, names, i, visited, out) == order_loop(b, names, i, visited, out),
    decreases names.len() - i,
{
    if 0 <= i < names.len() {
        lemma_visit_same(a, b, names[i], Seq::empty(), visited, out);
        if let Ok((v2, o2)) = visit(a, names[i], Seq::empty(), visited, out) {
            lemma_order_loop_same(a, b, names, i + 1, v2, o2);
        }
    }
}

/// Ordering two lists of the same structs, given in different orders, gives
/// the same result: the same order, or the same error.
pub proof fn lemma_order_ignores_input_order(a: Seq<StructView>, b: Seq<StructView>)
    requires
        struct_names_of(a).no_duplicates(),
        struct_names_of(b).no_duplicates(),
        a.len() == b.len(),
        forall|s: StructView| #[trigger] a.contains(s) <==> b.contains(s),
    ensures
        order_structs_spec(a) == order_structs_spec(b),
{
    let na = struct_names_of(a);
    let nb = struct_names_of(b);
    assert forall|n: Seq<char>| #[trigger] na.contains(n) <==> nb.contains(n) by {
        if na.contains(n) {
            let i = choose|i: int| 0 <= i < na.len() && na[i] == n;
            assert(a.contains(a[i]));
            assert(b.contains(a[i]));
            let j = choose|j: int| 0 <= j < b.len() && b[j] == a[i];
            assert(nb[j] == n);
        }
        if nb.contains(n) {
            let i = choose|i: int| 0 <= i < nb.len() && nb[i] == n;
            assert(b.contains(b[i]));
            assert(a.contains(b[i]));
            let j = choose|j: int| 0 <= j < a.len() && a[j] == b[i];
            assert(na[j] == n);
        }
    }
    lemma_sort_names(na);
    lemma_sort_names(nb);
    let sa = sort_names(na);
    let sb = sort_names(nb);
    assert forall|n: Seq<char>| #[trigger] sa.contains(n) <==> sb.contains(n) by {
        assert(sa.contains(n) <==> na.contains(n));
        assert(sb.contains(n) <==> nb.contains(n));
    }
    broadcast use vstd::seq_lib::seq_to_set_is_finite;
    na.unique_seq_to_set();
    nb.unique_seq_to_set();
    assert(sa.to_set() =~= na.to_set());
    assert(sb.to_set() =~= nb.to_set());
    sa.lemma_no_dup_set_cardinality();
    sb.lemma_no_dup_set_cardinality();
    lemma_ascending_unique(sa, sb);
    assert forall|n: Seq<char>| #[trigger] find_struct(a, n, 0) == find_struct(b, n, 0) by {
        lemma_find_same(a, b, n);
    }
    lemma_order_loop_same(a, b, sa, 0, Seq::empty(), Seq::empty());
}

} // verus!
