//! What a parsed protocol guarantees of its names: every struct or enum type
//! that a field or an argument names is declared in the protocol, type names
//! are declared once, and every file descriptor count path is valid. And what
//! it keeps of the document: its enums in document order, its structs as a
//! reordering of the `<struct>` elements.

use vstd::prelude::*;
use crate::wayproto::spec::{
    attr_of, check_paths, enum_entries, enum_names_from, enums_from, inbound_after, message_parts,
    messages_from, parse_enum_spec, parse_fds_spec, parse_message_spec, parse_struct_spec,
    order_structs_spec, parse_protocol_spec, struct_fields, u32_max, validate_fd_paths_spec, structs_from, struct_names_from, struct_names_of, typed_field,
};
use crate::wayproto::types::{
    ArgTypeView, ArgView, EntryView, EnumView, FdView, InboundKind, MessageView, ProtocolView,
    StructView,
};
use crate::wayproto::xml::{SNode, parse_document};
use crate::wayproto::laws::lemma_structs_ordered_once_each;
use crate::text::parse_unsigned;

verus! {

/// A type whose struct and enum names are among `snames` and `enames`.
pub open spec fn type_declared(t: ArgTypeView, snames: Seq<Seq<char>>, enames: Seq<Seq<char>>) -> bool {
    match t {
        ArgTypeView::Named(n) => snames.contains(n),
        ArgTypeView::Enum(n) => enames.contains(n),
        _ => true,
    }
}

/// Every type of `args` names only structs of `snames` and enums of `enames`.
pub open spec fn args_declared(args: Seq<ArgView>, snames: Seq<Seq<char>>, enames: Seq<Seq<char>>) -> bool {
    forall|k: int| 0 <= k < args.len() ==> type_declared(#[trigger] args[k].ty, snames, enames)
}

/// Every struct of `structs` has fields of declared types only.
pub open spec fn structs_declared(
    structs: Seq<StructView>,
    snames: Seq<Seq<char>>,
    enames: Seq<Seq<char>>,
) -> bool {
    forall|j: int| 0 <= j < structs.len() ==> args_declared(#[trigger] structs[j].fields, snames, enames)
}

proof fn lemma_typed_field(n: SNode, snames: Seq<Seq<char>>, enames: Seq<Seq<char>>)
    ensures
        typed_field(n, snames, enames) matches Ok(a) ==> type_declared(a.ty, snames, enames),
{
}

proof fn lemma_struct_fields(
    cs: Seq<SNode>,
    i: int,
    sname: Seq<char>,
    snames: Seq<Seq<char>>,
    enames: Seq<Seq<char>>,
    acc: Seq<ArgView>,
)
    requires
        args_declared(acc, snames, enames),
    ensures
        struct_fields(cs, i, sname, snames, enames, acc) matches Ok(st) ==> st.name == sname
            && args_declared(st.fields, snames, enames),
    decreases cs.len() - i,
{
    if 0 <= i < cs.len() && cs[i].name == "field"@ {
        lemma_typed_field(cs[i], snames, enames);
        if let Ok(f) = typed_field(cs[i], snames, enames) {
            let acc2 = acc.push(f);
            assert forall|k: int| 0 <= k < acc2.len() implies type_declared(
                #[trigger] acc2[k].ty,
                snames,
                enames,
            ) by {
                if k < acc.len() {
                    assert(acc2[k] == acc[k]);
                }
            }
            lemma_struct_fields(cs, i + 1, sname, snames, enames, acc2);
        }
    }
}

proof fn lemma_parse_struct(n: SNode, snames: Seq<Seq<char>>, enames: Seq<Seq<char>>)
    ensures
        parse_struct_spec(n, snames, enames) matches Ok(st) ==> attr_of(n, "name"@) == Some(st.name)
            && args_declared(st.fields, snames, enames),
{
    if let Some(name) = attr_of(n, "name"@) {
        lemma_struct_fields(n.children, 0, name, snames, enames, Seq::empty());
    }
}

/// The structs parsed from `cs[i..]` have fields of declared types, and carry
/// the names that the name pass read from the same children.
proof fn lemma_structs_from(
    cs: Seq<SNode>,
    i: int,
    snames: Seq<Seq<char>>,
    enames: Seq<Seq<char>>,
    enames2: Seq<Seq<char>>,
    accn: Seq<Seq<char>>,
    acc: Seq<StructView>,
)
    requires
        structs_declared(acc, snames, enames),
        struct_names_of(acc) == accn,
    ensures
        structs_from(cs, i, snames, enames, acc) matches Ok(r) ==> structs_declared(
            r,
            snames,
            enames,
        ),
        structs_from(cs, i, snames, enames, acc) matches Ok(r) ==> (struct_names_from(
            cs,
            i,
            enames2,
            accn,
        ) matches Ok(sn) ==> struct_names_of(r) == sn),
    decreases cs.len() - i,
{
    if 0 <= i < cs.len() {
        if cs[i].name != "struct"@ {
            lemma_structs_from(cs, i + 1, snames, enames, enames2, accn, acc);
        } else {
            lemma_parse_struct(cs[i], snames, enames);
            if let Ok(st) = parse_struct_spec(cs[i], snames, enames) {
                let acc2 = acc.push(st);
                assert forall|j: int| 0 <= j < acc2.len() implies args_declared(
                    #[trigger] acc2[j].fields,
                    snames,
                    enames,
                ) by {
                    if j < acc.len() {
                        assert(acc2[j] == acc[j]);
                    }
                }
                assert(struct_names_of(acc2) =~= accn.push(st.name));
                lemma_structs_from(cs, i + 1, snames, enames, enames2, accn.push(st.name), acc2);
            }
        }
    }
}

pub open spec fn enum_names_of(v: Seq<EnumView>) -> Seq<Seq<char>> {
    v.map_values(|e: EnumView| e.name)
}

proof fn lemma_enum_entries(cs: Seq<SNode>, i: int, ename: Seq<char>, acc: Seq<EntryView>)
    ensures
        enum_entries(cs, i, ename, acc) matches Ok(e) ==> e.name == ename,
    decreases cs.len() - i,
{
    if 0 <= i < cs.len() {
        let c = cs[i];
        if c.name == "entry"@ {
            if let Some(en) = attr_of(c, "name"@) {
                if let Some(vs) = attr_of(c, "value"@) {
                    if let Some(v) = crate::text::parse_unsigned(
                        vs,
                        crate::wayproto::spec::u32_max(),
                    ) {
                        lemma_enum_entries(
                            cs,
                            i + 1,
                            ename,
                            acc.push(EntryView { name: en, value: v as u32 }),
                        );
                    }
                }
            }
        }
    }
}

/// The enums parsed from `cs[i..]` carry the names that the name pass read
/// from the same children.
proof fn lemma_enums_from(
    cs: Seq<SNode>,
    i: int,
    accn: Seq<Seq<char>>,
    acc: Seq<EnumView>,
)
    requires
        enum_names_of(acc) == accn,
    ensures
        enums_from(cs, i, acc) matches Ok(r) ==> (enum_names_from(cs, i, accn) matches Ok(en)
            ==> enum_names_of(r) == en),
    decreases cs.len() - i,
{
    if 0 <= i < cs.len() {
        if cs[i].name != "enum"@ {
            lemma_enums_from(cs, i + 1, accn, acc);
        } else if let Some(name) = attr_of(cs[i], "name"@) {
            lemma_enum_entries(cs[i].children, 0, name, Seq::empty());
            if let Ok(e) = parse_enum_spec(cs[i]) {
                assert(enum_names_of(acc.push(e)) =~= accn.push(e.name));
                lemma_enums_from(cs, i + 1, accn.push(e.name), acc.push(e));
            }
        }
    }
}

proof fn lemma_enum_names_distinct(cs: Seq<SNode>, i: int, acc: Seq<Seq<char>>)
    requires
        acc.no_duplicates(),
    ensures
        enum_names_from(cs, i, acc) matches Ok(en) ==> en.no_duplicates(),
    decreases cs.len() - i,
{
    if 0 <= i < cs.len() {
        if cs[i].name != "enum"@ {
            lemma_enum_names_distinct(cs, i + 1, acc);
        } else if let Some(n) = attr_of(cs[i], "name"@) {
            if !acc.contains(n) {
                lemma_enum_names_distinct(cs, i + 1, acc.push(n));
            }
        }
    }
}

proof fn lemma_struct_names_distinct(
    cs: Seq<SNode>,
    i: int,
    enames: Seq<Seq<char>>,
    acc: Seq<Seq<char>>,
)
    requires
        acc.no_duplicates(),
        forall|j: int| 0 <= j < acc.len() ==> !enames.contains(#[trigger] acc[j]),
    ensures
        struct_names_from(cs, i, enames, acc) matches Ok(sn) ==> sn.no_duplicates() && forall|
            j: int,
        |
            0 <= j < sn.len() ==> !enames.contains(#[trigger] sn[j]),
    decreases cs.len() - i,
{
    if 0 <= i < cs.len() {
        if cs[i].name != "struct"@ {
            lemma_struct_names_distinct(cs, i + 1, enames, acc);
        } else if let Some(n) = attr_of(cs[i], "name"@) {
            if !acc.contains(n) && !enames.contains(n) {
                let acc2 = acc.push(n);
                assert forall|j: int| 0 <= j < acc2.len() implies !enames.contains(
                    #[trigger] acc2[j],
                ) by {
                    if j < acc.len() {
                        assert(acc2[j] == acc[j]);
                    }
                }
                lemma_struct_names_distinct(cs, i + 1, enames, acc2);
            }
        }
    }
}

/// Every message of `msgs` has arguments of declared types only.
pub open spec fn messages_declared(
    msgs: Seq<MessageView>,
    snames: Seq<Seq<char>>,
    enames: Seq<Seq<char>>,
) -> bool {
    forall|j: int| 0 <= j < msgs.len() ==> args_declared(#[trigger] msgs[j].args, snames, enames)
}

proof fn lemma_push_declared(
    args: Seq<ArgView>,
    a: ArgView,
    snames: Seq<Seq<char>>,
    enames: Seq<Seq<char>>,
)
    requires
        args_declared(args, snames, enames),
        type_declared(a.ty, snames, enames),
    ensures
        args_declared(args.push(a), snames, enames),
{
    let a2 = args.push(a);
    assert forall|k: int| 0 <= k < a2.len() implies type_declared(
        #[trigger] a2[k].ty,
        snames,
        enames,
    ) by {
        if k < args.len() {
            assert(a2[k] == args[k]);
        }
    }
}

proof fn lemma_message_parts(
    cs: Seq<SNode>,
    i: int,
    snames: Seq<Seq<char>>,
    enames: Seq<Seq<char>>,
    args: Seq<ArgView>,
    fds: FdView,
)
    requires
        args_declared(args, snames, enames),
    ensures
        message_parts(cs, i, snames, enames, args, fds) matches Ok(r) ==> args_declared(
            r.0,
            snames,
            enames,
        ),
    decreases cs.len() - i,
{
    if 0 <= i < cs.len() {
        let c = cs[i];
        if c.name == "arg"@ {
            lemma_typed_field(c, snames, enames);
            if let Ok(a) = typed_field(c, snames, enames) {
                lemma_push_declared(args, a, snames, enames);
                lemma_message_parts(cs, i + 1, snames, enames, args.push(a), fds);
            }
        } else if c.name == "fds"@ {
            if let Ok(f) = parse_fds_spec(c) {
                lemma_message_parts(cs, i + 1, snames, enames, args, f);
            }
        }
    }
}

proof fn lemma_parse_message(n: SNode, snames: Seq<Seq<char>>, enames: Seq<Seq<char>>)
    ensures
        parse_message_spec(n, snames, enames) matches Ok(m) ==> args_declared(
            m.args,
            snames,
            enames,
        ),
{
    lemma_message_parts(n.children, 0, snames, enames, Seq::empty(), FdView::NoFds);
}

proof fn lemma_push_message(
    msgs: Seq<MessageView>,
    m: MessageView,
    snames: Seq<Seq<char>>,
    enames: Seq<Seq<char>>,
)
    requires
        messages_declared(msgs, snames, enames),
        args_declared(m.args, snames, enames),
    ensures
        messages_declared(msgs.push(m), snames, enames),
{
    let m2 = msgs.push(m);
    assert forall|j: int| 0 <= j < m2.len() implies args_declared(
        #[trigger] m2[j].args,
        snames,
        enames,
    ) by {
        if j < msgs.len() {
            assert(m2[j] == msgs[j]);
        }
    }
}

proof fn lemma_messages_from(
    cs: Seq<SNode>,
    i: int,
    snames: Seq<Seq<char>>,
    enames: Seq<Seq<char>>,
    reqs: Seq<MessageView>,
    evs: Seq<MessageView>,
    kind: Option<InboundKind>,
)
    requires
        messages_declared(reqs, snames, enames),
        messages_declared(evs, snames, enames),
    ensures
        messages_from(cs, i, snames, enames, reqs, evs, kind) matches Ok(r) ==> messages_declared(
            r.0,
            snames,
            enames,
        ) && messages_declared(r.1, snames, enames),
    decreases cs.len() - i,
{
    if 0 <= i < cs.len() {
        let c = cs[i];
        lemma_parse_message(c, snames, enames);
        if c.name == "request"@ || c.name == "event_in"@ {
            let k = if c.name == "request"@ {
                InboundKind::Request
            } else {
                InboundKind::EventIn
            };
            if let Ok(k2) = inbound_after(kind, k) {
                if let Ok(m) = parse_message_spec(c, snames, enames) {
                    lemma_push_message(reqs, m, snames, enames);
                    lemma_messages_from(cs, i + 1, snames, enames, reqs.push(m), evs, k2);
                }
            }
        } else if c.name == "event"@ {
            if let Ok(m) = parse_message_spec(c, snames, enames) {
                lemma_push_message(evs, m, snames, enames);
                lemma_messages_from(cs, i + 1, snames, enames, reqs, evs.push(m), kind);
            }
        } else if c.name == "enum"@ || c.name == "struct"@ {
            lemma_messages_from(cs, i + 1, snames, enames, reqs, evs, kind);
        }
    }
}

/// Every `count_expr` path of message `m` starts at one of its arguments,
/// walks through struct fields only, and ends at a `u32` or `u64`.
pub open spec fn fd_paths_valid(m: MessageView, structs: Seq<StructView>) -> bool {
    m.fds matches FdView::Product(paths) ==> check_paths(m, paths, 0, structs) is Ok
}

proof fn lemma_validate_fd_paths(msgs: Seq<MessageView>, i: int, structs: Seq<StructView>)
    requires
        0 <= i,
    ensures
        validate_fd_paths_spec(msgs, i, structs) is Ok ==> forall|j: int|
            i <= j < msgs.len() ==> fd_paths_valid(#[trigger] msgs[j], structs),
    decreases msgs.len() - i,
{
    if i < msgs.len() {
        lemma_validate_fd_paths(msgs, i + 1, structs);
    }
}

proof fn lemma_args_declared_widen(
    args: Seq<ArgView>,
    s1: Seq<Seq<char>>,
    s2: Seq<Seq<char>>,
    enames: Seq<Seq<char>>,
)
    requires
        args_declared(args, s1, enames),
        forall|n: Seq<char>| #[trigger] s1.contains(n) ==> s2.contains(n),
    ensures
        args_declared(args, s2, enames),
{
    assert forall|k: int| 0 <= k < args.len() implies type_declared(
        #[trigger] args[k].ty,
        s2,
        enames,
    ) by {
        assert(type_declared(args[k].ty, s1, enames));
    }
}

/// What a parsed protocol promises of its type names: struct names and enum
/// names are each declared once and never both; every struct field and every
/// message argument of a struct or enum type names a struct or an enum of the
/// protocol; and every `count_expr` path of a message is valid.
pub open spec fn names_resolve(p: ProtocolView) -> bool {
    let snames = struct_names_of(p.structs);
    let enames = enum_names_of(p.enums);
    &&& enames.no_duplicates()
    &&& snames.no_duplicates()
    &&& forall|j: int| 0 <= j < snames.len() ==> !enames.contains(#[trigger] snames[j])
    &&& structs_declared(p.structs, snames, enames)
    &&& messages_declared(p.requests, snames, enames)
    &&& messages_declared(p.events, snames, enames)
    &&& forall|j: int| 0 <= j < p.requests.len() ==> fd_paths_valid(#[trigger] p.requests[j], p.structs)
    &&& forall|j: int| 0 <= j < p.events.len() ==> fd_paths_valid(#[trigger] p.events[j], p.structs)
}

proof fn lemma_messages_widen(
    msgs: Seq<MessageView>,
    s1: Seq<Seq<char>>,
    s2: Seq<Seq<char>>,
    enames: Seq<Seq<char>>,
)
    requires
        messages_declared(msgs, s1, enames),
        forall|n: Seq<char>| #[trigger] s1.contains(n) ==> s2.contains(n),
    ensures
        messages_declared(msgs, s2, enames),
{
    assert forall|j: int| 0 <= j < msgs.len() implies args_declared(
        #[trigger] msgs[j].args,
        s2,
        enames,
    ) by {
        lemma_args_declared_widen(msgs[j].args, s1, s2, enames);
    }
}

/// A successfully parsed protocol declares every type name it uses, declares
/// each name once, and has only valid file descriptor count paths.
pub proof fn lemma_parsed_names_resolve(src: Seq<u8>)
    ensures
        parse_protocol_spec(src) matches Ok(p) ==> names_resolve(p),
{
    if let Ok(root) = parse_document(src) {
        if root.name == "protocol"@ {
            if let (Some(_), Some(vs)) = (attr_of(root, "name"@), attr_of(root, "version"@)) {
                if parse_unsigned(vs, u32_max()) is Some {
                    let cs = root.children;
                    let e0 = Seq::<Seq<char>>::empty();
                    if let (Ok(enames), Ok(enums)) = (
                        enum_names_from(cs, 0, e0),
                        enums_from(cs, 0, Seq::empty()),
                    ) {
                        if let Ok(snames) = struct_names_from(cs, 0, enames, e0) {
                            if let Ok(parsed) = structs_from(cs, 0, snames, enames, Seq::empty()) {
                                if let Ok(out) = order_structs_spec(parsed) {
                                    if let Ok((reqs, evs, _)) = messages_from(
                                        cs,
                                        0,
                                        snames,
                                        enames,
                                        Seq::empty(),
                                        Seq::empty(),
                                        None,
                                    ) {
                                        lemma_resolve_parts(
                                            cs,
                                            enames,
                                            enums,
                                            snames,
                                            parsed,
                                            out,
                                            reqs,
                                            evs,
                                        );
                                        lemma_validate_fd_paths(reqs, 0, out);
                                        lemma_validate_fd_paths(evs, 0, out);
                                    }
                                }
                            }
                        }
                    }
                }
            }
        }
    }
}

proof fn lemma_resolve_parts(
    cs: Seq<SNode>,
    enames: Seq<Seq<char>>,
    enums: Seq<EnumView>,
    snames: Seq<Seq<char>>,
    parsed: Seq<StructView>,
    out: Seq<StructView>,
    reqs: Seq<MessageView>,
    evs: Seq<MessageView>,
)
    requires
        enum_names_from(cs, 0, Seq::empty()) == Ok::<_, crate::wayproto::xml::ErrorView>(enames),
        enums_from(cs, 0, Seq::empty()) == Ok::<_, crate::wayproto::xml::ErrorView>(enums),
        struct_names_from(cs, 0, enames, Seq::empty()) == Ok::<
            _,
            crate::wayproto::xml::ErrorView,
        >(snames),
        structs_from(cs, 0, snames, enames, Seq::empty()) == Ok::<
            _,
            crate::wayproto::xml::ErrorView,
        >(parsed),
        order_structs_spec(parsed) == Ok::<_, crate::wayproto::xml::ErrorView>(out),
        messages_from(cs, 0, snames, enames, Seq::empty(), Seq::empty(), None) matches Ok(r) && r.0
            == reqs && r.1 == evs,
    ensures
        enum_names_of(enums).no_duplicates(),
        struct_names_of(out).no_duplicates(),
        forall|j: int|
            0 <= j < struct_names_of(out).len() ==> !enum_names_of(enums).contains(
                #[trigger] struct_names_of(out)[j],
            ),
        structs_declared(out, struct_names_of(out), enum_names_of(enums)),
        messages_declared(reqs, struct_names_of(out), enum_names_of(enums)),
        messages_declared(evs, struct_names_of(out), enum_names_of(enums)),
{
    let e0 = Seq::<Seq<char>>::empty();
    assert(enum_names_of(Seq::<EnumView>::empty()) =~= e0);
    assert(struct_names_of(Seq::<StructView>::empty()) =~= e0);
    lemma_enums_from(cs, 0, e0, Seq::empty());
    lemma_enum_names_distinct(cs, 0, e0);
    lemma_struct_names_distinct(cs, 0, enames, e0);
    lemma_structs_from(cs, 0, snames, enames, enames, e0, Seq::empty());
    lemma_structs_ordered_once_each(parsed);
    lemma_messages_from(cs, 0, snames, enames, Seq::empty(), Seq::empty(), None);
    let on = struct_names_of(out);
    assert forall|n: Seq<char>| #[trigger] snames.contains(n) implies on.contains(n) by {
        let i = choose|i: int| 0 <= i < snames.len() && snames[i] == n;
        assert(struct_names_of(parsed)[i] == parsed[i].name);
    }
    assert forall|j: int| 0 <= j < on.len() implies !enames.contains(#[trigger] on[j]) by {
        assert(on[j] == out[j].name);
        assert(parsed.contains(out[j]));
        let k = choose|k: int| 0 <= k < parsed.len() && parsed[k] == out[j];
        assert(struct_names_of(parsed)[k] == parsed[k].name);
        assert(snames[k] == on[j]);
    }
    assert forall|j: int| 0 <= j < out.len() implies args_declared(
        #[trigger] out[j].fields,
        on,
        enames,
    ) by {
        assert(parsed.contains(out[j]));
        let k = choose|k: int| 0 <= k < parsed.len() && parsed[k] == out[j];
        assert(args_declared(parsed[k].fields, snames, enames));
        lemma_args_declared_widen(out[j].fields, snames, on, enames);
    }
    lemma_messages_widen(reqs, snames, on, enames);
    lemma_messages_widen(evs, snames, on, enames);
}

// ---------------------------------------------------------------------------
// What the protocol keeps of the document.

/// The children of `cs[i..]` whose element name is `tag`, in document order.
pub open spec fn tagged_from(cs: Seq<SNode>, i: int, tag: Seq<char>) -> Seq<SNode>
    decreases cs.len() - i,
{
    if i < 0 || i >= cs.len() {
        Seq::empty()
    } else if cs[i].name == tag {
        seq![cs[i]] + tagged_from(cs, i + 1, tag)
    } else {
        tagged_from(cs, i + 1, tag)
    }
}

proof fn lemma_enums_in_order(cs: Seq<SNode>, i: int, acc: Seq<EnumView>)
    requires
        0 <= i,
    ensures
        enums_from(cs, i, acc) matches Ok(r) ==> {
            let es = tagged_from(cs, i, "enum"@);
            &&& r.len() == acc.len() + es.len()
            &&& r.subrange(0, acc.len() as int) == acc
            &&& forall|k: int|
                0 <= k < es.len() ==> parse_enum_spec(#[trigger] es[k]) == Ok::<
                    _,
                    crate::wayproto::xml::ErrorView,
                >(r[acc.len() + k])
        },
    decreases cs.len() - i,
{
    if i < cs.len() {
        if cs[i].name != "enum"@ {
            lemma_enums_in_order(cs, i + 1, acc);
        } else if let Ok(e) = parse_enum_spec(cs[i]) {
            lemma_enums_in_order(cs, i + 1, acc.push(e));
            if let Ok(r) = enums_from(cs, i, acc) {
                let es = tagged_from(cs, i, "enum"@);
                let rest = tagged_from(cs, i + 1, "enum"@);
                assert(es =~= seq![cs[i]] + rest);
                let whole = r.subrange(0, (acc.len() + 1) as int);
                assert(whole == acc.push(e));
                assert(r.subrange(0, acc.len() as int) =~= acc) by {
                    assert forall|k: int| 0 <= k < acc.len() implies r[k] == acc[k] by {
                        assert(whole[k] == r[k]);
                        assert(acc.push(e)[k] == acc[k]);
                    }
                }
                assert(r[acc.len() as int] == whole[acc.len() as int]);
                assert forall|k: int| 0 <= k < es.len() implies parse_enum_spec(#[trigger] es[k])
                    == Ok::<_, crate::wayproto::xml::ErrorView>(r[acc.len() + k]) by {
                    if k > 0 {
                        assert(es[k] == rest[k - 1]);
                    }
                }
            }
        }
    }
}

proof fn lemma_structs_in_order(
    cs: Seq<SNode>,
    i: int,
    snames: Seq<Seq<char>>,
    enames: Seq<Seq<char>>,
    acc: Seq<StructView>,
)
    requires
        0 <= i,
    ensures
        structs_from(cs, i, snames, enames, acc) matches Ok(r) ==> {
            let ss = tagged_from(cs, i, "struct"@);
            &&& r.len() == acc.len() + ss.len()
            &&& r.subrange(0, acc.len() as int) == acc
            &&& forall|k: int|
                0 <= k < ss.len() ==> parse_struct_spec(#[trigger] ss[k], snames, enames) == Ok::<
                    _,
                    crate::wayproto::xml::ErrorView,
                >(r[acc.len() + k])
        },
    decreases cs.len() - i,
{
    if i < cs.len() {
        if cs[i].name != "struct"@ {
            lemma_structs_in_order(cs, i + 1, snames, enames, acc);
        } else if let Ok(st) = parse_struct_spec(cs[i], snames, enames) {
            lemma_structs_in_order(cs, i + 1, snames, enames, acc.push(st));
            if let Ok(r) = structs_from(cs, i, snames, enames, acc) {
                let ss = tagged_from(cs, i, "struct"@);
                let rest = tagged_from(cs, i + 1, "struct"@);
                assert(ss =~= seq![cs[i]] + rest);
                let whole = r.subrange(0, (acc.len() + 1) as int);
                assert(whole == acc.push(st));
                assert(r.subrange(0, acc.len() as int) =~= acc) by {
                    assert forall|k: int| 0 <= k < acc.len() implies r[k] == acc[k] by {
                        assert(whole[k] == r[k]);
                        assert(acc.push(st)[k] == acc[k]);
                    }
                }
                assert(r[acc.len() as int] == whole[acc.len() as int]);
                assert forall|k: int| 0 <= k < ss.len() implies parse_struct_spec(
                    #[trigger] ss[k],
                    snames,
                    enames,
                ) == Ok::<_, crate::wayproto::xml::ErrorView>(r[acc.len() + k]) by {
                    if k > 0 {
                        assert(ss[k] == rest[k - 1]);
                    }
                }
            }
        }
    }
}

/// Type name lists that declare the same names.
pub open spec fn same_names(a: Seq<Seq<char>>, b: Seq<Seq<char>>) -> bool {
    forall|n: Seq<char>| #[trigger] a.contains(n) <==> b.contains(n)
}

proof fn lemma_struct_fields_same_names(
    cs: Seq<SNode>,
    i: int,
    sname: Seq<char>,
    s1: Seq<Seq<char>>,
    s2: Seq<Seq<char>>,
    enames: Seq<Seq<char>>,
    acc: Seq<ArgView>,
)
    requires
        same_names(s1, s2),
    ensures
        struct_fields(cs, i, sname, s1, enames, acc) == struct_fields(cs, i, sname, s2, enames, acc),
    decreases cs.len() - i,
{
    if 0 <= i < cs.len() && cs[i].name == "field"@ {
        assert(typed_field(cs[i], s1, enames) == typed_field(cs[i], s2, enames));
        if let Ok(f) = typed_field(cs[i], s1, enames) {
            lemma_struct_fields_same_names(cs, i + 1, sname, s1, s2, enames, acc.push(f));
        }
    }
}

/// What a parsed protocol keeps of its document `root`: the `<enum>` elements
/// in document order, and the `<struct>` elements as a reordering, one struct
/// for each element, read against the protocol's own type names.
pub open spec fn keeps_document(p: ProtocolView, root: SNode) -> bool {
    let es = tagged_from(root.children, 0, "enum"@);
    let ss = tagged_from(root.children, 0, "struct"@);
    let snames = struct_names_of(p.structs);
    let enames = enum_names_of(p.enums);
    &&& p.enums.len() == es.len()
    &&& forall|k: int|
        0 <= k < es.len() ==> parse_enum_spec(#[trigger] es[k]) == Ok::<
            _,
            crate::wayproto::xml::ErrorView,
        >(p.enums[k])
    &&& p.structs.len() == ss.len()
    &&& forall|j: int|
        0 <= j < p.structs.len() ==> exists|k: int|
            0 <= k < ss.len() && parse_struct_spec(#[trigger] ss[k], snames, enames) == Ok::<
                _,
                crate::wayproto::xml::ErrorView,
            >(#[trigger] p.structs[j])
    &&& forall|k: int|
        0 <= k < ss.len() ==> exists|j: int|
            0 <= j < p.structs.len() && parse_struct_spec(#[trigger] ss[k], snames, enames)
                == Ok::<_, crate::wayproto::xml::ErrorView>(#[trigger] p.structs[j])
}

proof fn lemma_keeps_parts(
    cs: Seq<SNode>,
    enames: Seq<Seq<char>>,
    enums: Seq<EnumView>,
    snames: Seq<Seq<char>>,
    parsed: Seq<StructView>,
    out: Seq<StructView>,
)
    requires
        enum_names_from(cs, 0, Seq::empty()) == Ok::<_, crate::wayproto::xml::ErrorView>(enames),
        enums_from(cs, 0, Seq::empty()) == Ok::<_, crate::wayproto::xml::ErrorView>(enums),
        struct_names_from(cs, 0, enames, Seq::empty()) == Ok::<
            _,
            crate::wayproto::xml::ErrorView,
        >(snames),
        structs_from(cs, 0, snames, enames, Seq::empty()) == Ok::<
            _,
            crate::wayproto::xml::ErrorView,
        >(parsed),
        order_structs_spec(parsed) == Ok::<_, crate::wayproto::xml::ErrorView>(out),
    ensures
        ({
            let es = tagged_from(cs, 0, "enum"@);
            let ss = tagged_from(cs, 0, "struct"@);
            let on = struct_names_of(out);
            let en = enum_names_of(enums);
            &&& enums.len() == es.len()
            &&& forall|k: int|
                0 <= k < es.len() ==> parse_enum_spec(#[trigger] es[k]) == Ok::<
                    _,
                    crate::wayproto::xml::ErrorView,
                >(enums[k])
            &&& out.len() == ss.len()
            &&& forall|j: int|
                0 <= j < out.len() ==> exists|k: int|
                    0 <= k < ss.len() && parse_struct_spec(#[trigger] ss[k], on, en) == Ok::<
                        _,
                        crate::wayproto::xml::ErrorView,
                    >(#[trigger] out[j])
            &&& forall|k: int|
                0 <= k < ss.len() ==> exists|j: int|
                    0 <= j < out.len() && parse_struct_spec(#[trigger] ss[k], on, en) == Ok::<
                        _,
                        crate::wayproto::xml::ErrorView,
                    >(#[trigger] out[j])
        }),
{
    let e0 = Seq::<Seq<char>>::empty();
    let es = tagged_from(cs, 0, "enum"@);
    let ss = tagged_from(cs, 0, "struct"@);
    let on = struct_names_of(out);
    assert(enum_names_of(Seq::<EnumView>::empty()) =~= e0);
    assert(struct_names_of(Seq::<StructView>::empty()) =~= e0);
    lemma_enums_from(cs, 0, e0, Seq::empty());
    lemma_enums_in_order(cs, 0, Seq::empty());
    lemma_struct_names_distinct(cs, 0, enames, e0);
    lemma_structs_from(cs, 0, snames, enames, enames, e0, Seq::empty());
    lemma_structs_in_order(cs, 0, snames, enames, Seq::empty());
    lemma_structs_ordered_once_each(parsed);
    let en = enum_names_of(enums);
    assert(en == enames);
    // The ordered structs declare the same names as the document.
    assert forall|n: Seq<char>| #[trigger] snames.contains(n) <==> on.contains(n) by {
        if snames.contains(n) {
            let i = choose|i: int| 0 <= i < snames.len() && snames[i] == n;
            assert(struct_names_of(parsed)[i] == parsed[i].name);
        }
        if on.contains(n) {
            let j = choose|j: int| 0 <= j < on.len() && on[j] == n;
            assert(on[j] == out[j].name);
            assert(parsed.contains(out[j]));
            let k = choose|k: int| 0 <= k < parsed.len() && parsed[k] == out[j];
            assert(struct_names_of(parsed)[k] == parsed[k].name);
            assert(snames[k] == n);
        }
    }
    assert forall|k: int| 0 <= k < ss.len() implies parse_struct_spec(#[trigger] ss[k], on, en)
        == Ok::<_, crate::wayproto::xml::ErrorView>(parsed[k]) by {
        assert(parse_struct_spec(ss[k], snames, enames) == Ok::<
            _,
            crate::wayproto::xml::ErrorView,
        >(parsed[0 + k]));
        if let Some(name) = attr_of(ss[k], "name"@) {
            lemma_struct_fields_same_names(
                ss[k].children,
                0,
                name,
                snames,
                on,
                enames,
                Seq::empty(),
            );
        }
    }
    assert forall|j: int| 0 <= j < out.len() implies exists|k: int|
        0 <= k < ss.len() && parse_struct_spec(#[trigger] ss[k], on, en) == Ok::<
            _,
            crate::wayproto::xml::ErrorView,
        >(#[trigger] out[j]) by {
        assert(parsed.contains(out[j]));
        let k = choose|k: int| 0 <= k < parsed.len() && parsed[k] == out[j];
        assert(parse_struct_spec(ss[k], on, en) == Ok::<_, crate::wayproto::xml::ErrorView>(
            parsed[k],
        ));
    }
    assert forall|k: int| 0 <= k < ss.len() implies exists|j: int|
        0 <= j < out.len() && parse_struct_spec(#[trigger] ss[k], on, en) == Ok::<
            _,
            crate::wayproto::xml::ErrorView,
        >(#[trigger] out[j]) by {
        assert(parse_struct_spec(ss[k], on, en) == Ok::<_, crate::wayproto::xml::ErrorView>(
            parsed[k],
        ));
        assert(struct_names_of(parsed)[k] == parsed[k].name);
        assert(on.contains(parsed[k].name));
        let j = choose|j: int| 0 <= j < on.len() && on[j] == parsed[k].name;
        assert(on[j] == out[j].name);
        assert(parsed.contains(out[j]));
        let k2 = choose|k2: int| 0 <= k2 < parsed.len() && parsed[k2] == out[j];
        assert(struct_names_of(parsed)[k2] == parsed[k2].name);
        assert(snames[k2] == snames[k]);
        assert(k2 == k);
    }
    // Both name lists are free of duplicates and declare the same names, so
    // they are equally long.
    assert(on.to_set() =~= snames.to_set());
    on.unique_seq_to_set();
    snames.unique_seq_to_set();
    assert(struct_names_of(parsed).len() == parsed.len());
}

/// A successfully parsed protocol keeps its document: its enums are the
/// `<enum>` elements in document order, and its structs are the `<struct>`
/// elements, each once, reordered so that dependencies come first.
pub proof fn lemma_parsed_keeps_document(src: Seq<u8>)
    ensures
        parse_protocol_spec(src) matches Ok(p) ==> (parse_document(src) matches Ok(root)
            && keeps_document(p, root)),
{
    if let Ok(root) = parse_document(src) {
        if root.name == "protocol"@ {
            if let (Some(_), Some(vs)) = (attr_of(root, "name"@), attr_of(root, "version"@)) {
                if parse_unsigned(vs, u32_max()) is Some {
                    let cs = root.children;
                    let e0 = Seq::<Seq<char>>::empty();
                    if let (Ok(enames), Ok(enums)) = (
                        enum_names_from(cs, 0, e0),
                        enums_from(cs, 0, Seq::empty()),
                    ) {
                        if let Ok(snames) = struct_names_from(cs, 0, enames, e0) {
                            if let Ok(parsed) = structs_from(cs, 0, snames, enames, Seq::empty()) {
                                if let Ok(out) = order_structs_spec(parsed) {
                                    lemma_keeps_parts(cs, enames, enums, snames, parsed, out);
                                    if let Ok(p) = parse_protocol_spec(src) {
                                        assert(p.structs == out && p.enums == enums);
                                        assert(keeps_document(p, root));
                                    }
                                }
                            }
                        }
                    }
                }
            }
        }
    }
}

} // verus!
