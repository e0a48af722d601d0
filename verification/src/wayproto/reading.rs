//! What reading single elements guarantees: an argument or field has the
//! name and the type its attributes give, an enum's entries have distinct
//! names and distinct values, and a struct's fields have distinct names.

use vstd::prelude::*;
use crate::wayproto::spec::{
    arg_names, attr_of, entry_names, entry_values, enum_entries, parse_enum_spec, parse_struct_spec,
    struct_fields, typed_field,
};
use crate::wayproto::types::{
    ArgTypeView, ArgView, EntryView, lemma_scalar_names_round_trip, scalar_type, wire_name,
};
use crate::wayproto::xml::SNode;

verus! {

/// An `<arg>` or `<field>` element is read as its attributes say: its name
/// is the `name` attribute; a scalar `type` gives the type of that name, an
/// `array` type an array of the scalar type its `element` names, and any
/// other type the struct or enum of that name.
pub proof fn lemma_typed_field_reads_attributes(
    n: SNode,
    snames: Seq<Seq<char>>,
    enames: Seq<Seq<char>>,
)
    ensures
        typed_field(n, snames, enames) matches Ok(a) ==> {
            &&& attr_of(n, "name"@) == Some(a.name)
            &&& attr_of(n, "type"@) matches Some(ty) && if ty == "array"@ {
                &&& a.ty is Array
                &&& attr_of(n, "element"@) matches Some(el) && wire_name(*a.ty->Array_0) == Some(el)
            } else {
                ||| wire_name(a.ty) == Some(ty) && scalar_type(ty) is Some
                ||| a.ty == ArgTypeView::Named(ty) && snames.contains(ty) && scalar_type(ty) is None
                ||| a.ty == ArgTypeView::Enum(ty) && enames.contains(ty) && scalar_type(ty) is None
            }
        },
{
    if let Some(ty) = attr_of(n, "type"@) {
        lemma_scalar_names_round_trip(ty, ArgTypeView::Bool);
        if let Some(el) = attr_of(n, "element"@) {
            lemma_scalar_names_round_trip(el, ArgTypeView::Bool);
        }
    }
}

proof fn lemma_entries_distinct(cs: Seq<SNode>, i: int, ename: Seq<char>, acc: Seq<EntryView>)
    requires
        entry_names(acc).no_duplicates(),
        entry_values(acc).no_duplicates(),
    ensures
        enum_entries(cs, i, ename, acc) matches Ok(e) ==> {
            &&& e.name == ename
            &&& e.entries.len() > 0
            &&& entry_names(e.entries).no_duplicates()
            &&& entry_values(e.entries).no_duplicates()
        },
    decreases cs.len() - i,
{
    if 0 <= i < cs.len() {
        let c = cs[i];
        if c.name == "entry"@ {
            if let Some(en) = attr_of(c, "name"@) {
                if !entry_names(acc).contains(en) {
                    if let Some(vs) = attr_of(c, "value"@) {
                        if let Some(v) = crate::text::parse_unsigned(vs, crate::wayproto::spec::u32_max()) {
                            if !entry_values(acc).contains(v as u32) {
                                let x = EntryView { name: en, value: v as u32 };
                                let a2 = acc.push(x);
                                assert(entry_names(a2) =~= entry_names(acc).push(en));
                                assert(entry_values(a2) =~= entry_values(acc).push(v as u32));
                                lemma_push_distinct(entry_names(acc), en);
                                lemma_push_distinct(entry_values(acc), v as u32);
                                lemma_entries_distinct(cs, i + 1, ename, a2);
                            }
                        }
                    }
                }
            }
        }
    }
}

proof fn lemma_push_distinct<A>(s: Seq<A>, x: A)
    requires
        s.no_duplicates(),
        !s.contains(x),
    ensures
        s.push(x).no_duplicates(),
{
    let t = s.push(x);
    assert forall|a: int, b: int| 0 <= a < t.len() && 0 <= b < t.len() && a != b implies t[a] != t[b] by {
        if a < s.len() && b < s.len() {
            assert(t[a] == s[a] && t[b] == s[b]);
        } else if a < s.len() {
            assert(t[a] == s[a]);
            assert(s.contains(s[a]));
        } else if b < s.len() {
            assert(t[b] == s[b]);
            assert(s.contains(s[b]));
        }
    }
}

/// An enum that is read has its `name` attribute as name, at least one
/// entry, and no two entries with the same name or the same value.
pub proof fn lemma_enum_entries_distinct(n: SNode)
    ensures
        parse_enum_spec(n) matches Ok(e) ==> {
            &&& attr_of(n, "name"@) == Some(e.name)
            &&& e.entries.len() > 0
            &&& entry_names(e.entries).no_duplicates()
            &&& entry_values(e.entries).no_duplicates()
        },
{
    if let Some(name) = attr_of(n, "name"@) {
        assert(entry_names(Seq::<EntryView>::empty()) =~= Seq::<Seq<char>>::empty());
        assert(entry_values(Seq::<EntryView>::empty()) =~= Seq::<u32>::empty());
        lemma_entries_distinct(n.children, 0, name, Seq::empty());
    }
}

proof fn lemma_fields_distinct(
    cs: Seq<SNode>,
    i: int,
    sname: Seq<char>,
    snames: Seq<Seq<char>>,
    enames: Seq<Seq<char>>,
    acc: Seq<ArgView>,
)
    requires
        arg_names(acc).no_duplicates(),
    ensures
        struct_fields(cs, i, sname, snames, enames, acc) matches Ok(st) ==> {
            &&& st.name == sname
            &&& st.fields.len() > 0
            &&& arg_names(st.fields).no_duplicates()
        },
    decreases cs.len() - i,
{
    if 0 <= i < cs.len() && cs[i].name == "field"@ {
        if let Ok(f) = typed_field(cs[i], snames, enames) {
            if !arg_names(acc).contains(f.name) {
                assert(arg_names(acc.push(f)) =~= arg_names(acc).push(f.name));
                lemma_push_distinct(arg_names(acc), f.name);
                lemma_fields_distinct(cs, i + 1, sname, snames, enames, acc.push(f));
            }
        }
    }
}

/// A struct that is read has its `name` attribute as name, at least one
/// field, and no two fields with the same name.
pub proof fn lemma_struct_fields_distinct(n: SNode, snames: Seq<Seq<char>>, enames: Seq<Seq<char>>)
    ensures
        parse_struct_spec(n, snames, enames) matches Ok(st) ==> {
            &&& attr_of(n, "name"@) == Some(st.name)
            &&& st.fields.len() > 0
            &&& arg_names(st.fields).no_duplicates()
        },
{
    if let Some(name) = attr_of(n, "name"@) {
        assert(arg_names(Seq::<ArgView>::empty()) =~= Seq::<Seq<char>>::empty());
        lemma_fields_distinct(n.children, 0, name, snames, enames, Seq::empty());
    }
}

} // verus!
