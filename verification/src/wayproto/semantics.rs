//! Conversion of the elements of a protocol description into the model, each
//! function proved to compute its spec function in `spec.rs`.

use vstd::prelude::*;
use crate::text::{concat2, concat3, concat4, contains_string, owned, parse_unsigned_exec, split, split_exec, str_eq, strings_view, trim_exec, with_decimal};
use crate::wayproto::xml::{ErrorView, Node, ParseError, err_at};
use crate::wayproto::types::{Arg, ArgType, ArgView, EntryView, EnumEntry, FdSpec, FdView, InboundKind, Message, NamedEnum, NamedStruct, args_view, entries_view};
use crate::wayproto::spec::{arg_names, attr_from, attr_of, entry_names, entry_values, enum_entries, first_bad_operand, inbound_after, is_ident, is_ident_char, is_ident_path, message_parts, nonempty_trimmed, parse_enum_spec, parse_fds_spec, parse_message_spec, parse_struct_spec, struct_fields, typed_field, count_operands};

verus! {

/// `r` is what `s` describes: the same value, or the same error.
pub open spec fn same_result<T: View>(r: Result<T, ParseError>, s: Result<T::V, ErrorView>) -> bool {
    match s {
        Ok(v) => r matches Ok(x) && x@ == v,
        Err(e) => r matches Err(x) && x@ == e,
    }
}

/// The value of the first attribute of `n` named `key`.
pub fn node_attr<'b>(n: &'b Node, key: &str) -> (r: Option<&'b String>)
    ensures
        match attr_of(n@, key@) {
            Some(v) => r matches Some(x) && x@ == v,
            None => r is None,
        },
{
    let mut i: usize = 0;
    while i < n.attrs.len()
        invariant
            i <= n.attrs@.len(),
            n@.attrs.len() == n.attrs@.len(),
            attr_from(n@.attrs, key@, i as int) == attr_from(n@.attrs, key@, 0),
        decreases n.attrs@.len() - i,
    {
        assert(n@.attrs[i as int] == (n.attrs@[i as int].0@, n.attrs@[i as int].1@));
        if str_eq(n.attrs[i].0.as_str(), key) {
            return Some(&n.attrs[i].1);
        }
        i = i + 1;
    }
    None
}

fn err0(msg: String) -> (e: ParseError)
    ensures
        e@.pos == 0,
        e@.msg == msg@,
{
    err_at(0, msg)
}

/// A typed `<arg>` or `<field>` element.
pub fn parse_typed_field(node: &Node, snames: &Vec<String>, enames: &Vec<String>) -> (r: Result<
    Arg,
    ParseError,
>)
    ensures
        same_result(r, typed_field(node@, strings_view(snames@), strings_view(enames@))),
{
    let name = match node_attr(node, "name") {
        Some(n) => n,
        None => {
            return Err(err0(owned("<arg> missing name")));
        },
    };
    let ty_str = match node_attr(node, "type") {
        Some(t) => t,
        None => {
            return Err(err0(owned("<arg> missing type")));
        },
    };
    let ty = if str_eq(ty_str.as_str(), "array") {
        let elem_str = match node_attr(node, "element") {
            Some(e) => e,
            None => {
                return Err(err0(owned("<arg type=\"array\"> missing element")));
            },
        };
        let elem = match ArgType::parse(elem_str.as_str()) {
            Some(t) => t,
            None => {
                return Err(err0(concat2("unknown array element type ", elem_str.as_str())));
            },
        };
        match elem {
            ArgType::Bool | ArgType::Array(_) | ArgType::KvList => {
                return Err(err0(owned("arrays of bool / arrays / kv_list not supported")));
            },
            _ => ArgType::Array(Box::new(elem)),
        }
    } else {
        match ArgType::parse(ty_str.as_str()) {
            Some(t) => t,
            None => {
                if contains_string(snames, ty_str.as_str()) {
                    ArgType::Named(ty_str.clone())
                } else if contains_string(enames, ty_str.as_str()) {
                    ArgType::Enum(ty_str.clone())
                } else {
                    return Err(err0(concat2("unknown type ", ty_str.as_str())));
                }
            },
        }
    };
    Ok(Arg { name: name.clone(), ty })
}

/// Whether some entry of `entries` is named `name`.
fn has_entry_name(entries: &Vec<EnumEntry>, name: &str) -> (r: bool)
    ensures
        r == entry_names(entries_view(entries@)).contains(name@),
{
    let mut i: usize = 0;
    while i < entries.len()
        invariant
            i <= entries@.len(),
            forall|j: int| 0 <= j < i ==> entries@[j].name@ != name@,
        decreases entries@.len() - i,
    {
        if str_eq(entries[i].name.as_str(), name) {
            assert(entry_names(entries_view(entries@))[i as int] == name@);
            return true;
        }
        i = i + 1;
    }
    assert(!entry_names(entries_view(entries@)).contains(name@)) by {
        if entry_names(entries_view(entries@)).contains(name@) {
            let j = choose|j: int|
                0 <= j < entry_names(entries_view(entries@)).len() && entry_names(
                    entries_view(entries@),
                )[j] == name@;
            assert(entries@[j].name@ == name@);
        }
    }
    false
}

/// Whether some entry of `entries` has value `v`.
fn has_entry_value(entries: &Vec<EnumEntry>, v: u32) -> (r: bool)
    ensures
        r == entry_values(entries_view(entries@)).contains(v),
{
    let mut i: usize = 0;
    while i < entries.len()
        invariant
            i <= entries@.len(),
            forall|j: int| 0 <= j < i ==> entries@[j].value != v,
        decreases entries@.len() - i,
    {
        if entries[i].value == v {
            assert(entry_values(entries_view(entries@))[i as int] == v);
            return true;
        }
        i = i + 1;
    }
    assert(!entry_values(entries_view(entries@)).contains(v)) by {
        if entry_values(entries_view(entries@)).contains(v) {
            let j = choose|j: int|
                0 <= j < entry_values(entries_view(entries@)).len() && entry_values(
                    entries_view(entries@),
                )[j] == v;
            assert(entries@[j].value == v);
        }
    }
    false
}

/// An `<enum>` element.
#[verifier::loop_isolation(false)]
pub fn parse_enum(node: &Node) -> (r: Result<NamedEnum, ParseError>)
    ensures
        same_result(r, parse_enum_spec(node@)),
{
    let name = match node_attr(node, "name") {
        Some(n) => n.clone(),
        None => {
            return Err(err0(owned("<enum> missing name")));
        },
    };
    let mut entries: Vec<EnumEntry> = Vec::new();
    let mut i: usize = 0;
    assert(entries_view(entries@) =~= Seq::<EntryView>::empty());
    while i < node.children.len()
        invariant
            i <= node.children@.len(),
            node@.children.len() == node.children@.len(),
            forall|j: int| 0 <= j < node.children@.len() ==> node@.children[j] == node.children@[j]@,
            enum_entries(node@.children, 0, name@, Seq::empty()) == enum_entries(
                node@.children,
                i as int,
                name@,
                entries_view(entries@),
            ),
        decreases node.children@.len() - i,
    {
        let child = &node.children[i];
        if !str_eq(child.name.as_str(), "entry") {
            return Err(err0(concat3("unknown enum child <", child.name.as_str(), ">")));
        }
        let entry_name = match node_attr(child, "name") {
            Some(n) => n,
            None => {
                return Err(err0(owned("<entry> missing name")));
            },
        };
        if has_entry_name(&entries, entry_name.as_str()) {
            return Err(
                err0(concat4("duplicate entry ", entry_name.as_str(), " in enum ", name.as_str())),
            );
        }
        let value_str = match node_attr(child, "value") {
            Some(v) => v,
            None => {
                return Err(err0(owned("<entry> missing value")));
            },
        };
        let value = match parse_unsigned_exec(value_str.as_str(), 0xffff_ffff) {
            Some(v) => v as u32,
            None => {
                return Err(err0(concat3("entry ", entry_name.as_str(), " value is not u32")));
            },
        };
        if has_entry_value(&entries, value) {
            let mut m = with_decimal("duplicate value ", value as u64, " in enum ");
            m.append(name.as_str());
            return Err(err0(m));
        }
        let e = EnumEntry { name: entry_name.clone(), value };
        proof {
            assert(entries_view(entries@.push(e)) =~= entries_view(entries@).push(e@));
        }
        entries.push(e);
        i = i + 1;
    }
    if entries.len() == 0 {
        return Err(
            err0(concat3("enum ", name.as_str(), " must contain at least one entry")),
        );
    }
    Ok(NamedEnum { name, entries })
}

/// Whether some argument of `args` is named `name`.
fn has_arg_name(args: &Vec<Arg>, name: &str) -> (r: bool)
    ensures
        r == arg_names(args_view(args@)).contains(name@),
{
    let mut i: usize = 0;
    while i < args.len()
        invariant
            i <= args@.len(),
            forall|j: int| 0 <= j < i ==> args@[j].name@ != name@,
        decreases args@.len() - i,
    {
        if str_eq(args[i].name.as_str(), name) {
            assert(arg_names(args_view(args@))[i as int] == name@);
            return true;
        }
        i = i + 1;
    }
    assert(!arg_names(args_view(args@)).contains(name@)) by {
        if arg_names(args_view(args@)).contains(name@) {
            let j = choose|j: int|
                0 <= j < arg_names(args_view(args@)).len() && arg_names(args_view(args@))[j]
                    == name@;
            assert(args@[j].name@ == name@);
        }
    }
    false
}

/// A `<struct>` element.
#[verifier::loop_isolation(false)]
pub fn parse_struct(node: &Node, snames: &Vec<String>, enames: &Vec<String>) -> (r: Result<
    NamedStruct,
    ParseError,
>)
    ensures
        same_result(r, parse_struct_spec(node@, strings_view(snames@), strings_view(enames@))),
{
    let name = match node_attr(node, "name") {
        Some(n) => n.clone(),
        None => {
            return Err(err0(owned("<struct> missing name")));
        },
    };
    let ghost sn = strings_view(snames@);
    let ghost en = strings_view(enames@);
    let mut fields: Vec<Arg> = Vec::new();
    let mut i: usize = 0;
    assert(args_view(fields@) =~= Seq::<ArgView>::empty());
    while i < node.children.len()
        invariant
            i <= node.children@.len(),
            sn == strings_view(snames@),
            en == strings_view(enames@),
            node@.children.len() == node.children@.len(),
            forall|j: int| 0 <= j < node.children@.len() ==> node@.children[j] == node.children@[j]@,
            struct_fields(node@.children, 0, name@, sn, en, Seq::empty()) == struct_fields(
                node@.children,
                i as int,
                name@,
                sn,
                en,
                args_view(fields@),
            ),
        decreases node.children@.len() - i,
    {
        let child = &node.children[i];
        if !str_eq(child.name.as_str(), "field") {
            return Err(err0(concat3("unknown struct child <", child.name.as_str(), ">")));
        }
        let field = parse_typed_field(child, snames, enames)?;
        if has_arg_name(&fields, field.name.as_str()) {
            return Err(
                err0(concat4("duplicate field ", field.name.as_str(), " in struct ", name.as_str())),
            );
        }
        proof {
            assert(args_view(fields@.push(field)) =~= args_view(fields@).push(field@));
        }
        fields.push(field);
        i = i + 1;
    }
    if fields.len() == 0 {
        return Err(
            err0(concat3("struct ", name.as_str(), " must contain at least one field")),
        );
    }
    Ok(NamedStruct { name, fields })
}

fn is_ident_char_exec(c: char) -> (r: bool)
    ensures
        r == is_ident_char(c),
{
    ('0' <= c && c <= '9') || ('a' <= c && c <= 'z') || ('A' <= c && c <= 'Z') || c == '_'
}

/// Whether `s` is a non-empty run of identifier characters.
fn is_ident_exec(s: &str) -> (r: bool)
    ensures
        r == is_ident(s@),
{
    let n = s.unicode_len();
    if n == 0 {
        return false;
    }
    let mut i: usize = 0;
    while i < n
        invariant
            n == s@.len(),
            i <= n,
            forall|j: int| 0 <= j < i ==> is_ident_char(s@[j]),
        decreases n - i,
    {
        if !is_ident_char_exec(s.get_char(i)) {
            return false;
        }
        i = i + 1;
    }
    true
}

/// Whether `p` is identifiers joined by dots.
fn is_ident_path_exec(p: &str) -> (r: bool)
    ensures
        r == is_ident_path(p@),
{
    let segs = split_exec(p, '.');
    let mut i: usize = 0;
    while i < segs.len()
        invariant
            i <= segs@.len(),
            strings_view(segs@) == split(p@, '.'),
            forall|j: int| 0 <= j < i ==> is_ident(#[trigger] split(p@, '.')[j]),
        decreases segs@.len() - i,
    {
        assert(split(p@, '.')[i as int] == segs@[i as int]@);
        if !is_ident_exec(segs[i].as_str()) {
            return false;
        }
        i = i + 1;
    }
    true
}

/// An `<fds>` element.
#[verifier::loop_isolation(false)]
pub fn parse_fds(node: &Node) -> (r: Result<FdSpec, ParseError>)
    ensures
        same_result(r, parse_fds_spec(node@)),
{
    if let Some(s) = node_attr(node, "count") {
        let n = match parse_unsigned_exec(s.as_str(), 0xffff_ffff) {
            Some(n) => n as u32,
            None => {
                return Err(err0(owned("fds count not u32")));
            },
        };
        if n == 0 {
            Ok(FdSpec::NoFds)
        } else {
            Ok(FdSpec::Fixed(n))
        }
    } else if let Some(expr) = node_attr(node, "count_expr") {
        let pieces = split_exec(expr.as_str(), '*');
        let mut parts: Vec<String> = Vec::new();
        let mut i: usize = 0;
        while i < pieces.len()
            invariant
                i <= pieces@.len(),
                strings_view(pieces@) == split(expr@, '*'),
                strings_view(parts@) + nonempty_trimmed(strings_view(pieces@), i as int)
                    == count_operands(expr@),
            decreases pieces@.len() - i,
        {
            let t = trim_exec(pieces[i].as_str());
            assert(strings_view(pieces@)[i as int] == pieces@[i as int]@);
            if t.unicode_len() != 0 {
                proof {
                    assert(strings_view(parts@.push(t)) =~= strings_view(parts@).push(t@));
                    assert(strings_view(parts@) + nonempty_trimmed(strings_view(pieces@), i as int)
                        =~= strings_view(parts@.push(t)) + nonempty_trimmed(
                        strings_view(pieces@),
                        i + 1,
                    ));
                }
                parts.push(t);
            }
            i = i + 1;
        }
        assert(strings_view(parts@) =~= count_operands(expr@));
        if parts.len() == 0 {
            return Err(err0(owned("empty count_expr")));
        }
        let mut k: usize = 0;
        while k < parts.len()
            invariant
                k <= parts@.len(),
                strings_view(parts@) == count_operands(expr@),
                first_bad_operand(count_operands(expr@), k as int) == first_bad_operand(
                    count_operands(expr@),
                    0,
                ),
            decreases parts@.len() - k,
        {
            assert(count_operands(expr@)[k as int] == parts@[k as int]@);
            if !is_ident_path_exec(parts[k].as_str()) {
                return Err(err0(concat2("count_expr field not an ident path: ", parts[k].as_str())));
            }
            k = k + 1;
        }
        Ok(FdSpec::Product(parts))
    } else {
        Err(err0(owned("<fds> missing count or count_expr")))
    }
}

/// A `<request>`, `<event_in>` or `<event>` element.
#[verifier::loop_isolation(false)]
pub fn parse_message(node: &Node, snames: &Vec<String>, enames: &Vec<String>) -> (r: Result<
    Message,
    ParseError,
>)
    ensures
        same_result(r, parse_message_spec(node@, strings_view(snames@), strings_view(enames@))),
{
    let name = match node_attr(node, "name") {
        Some(n) => n.clone(),
        None => {
            return Err(err0(concat3("<", node.name.as_str(), "> missing name")));
        },
    };
    let opcode_str = match node_attr(node, "opcode") {
        Some(o) => o,
        None => {
            return Err(err0(concat3("<", node.name.as_str(), "> missing opcode")));
        },
    };
    let opcode = match parse_unsigned_exec(opcode_str.as_str(), 0xffff) {
        Some(o) => o as u16,
        None => {
            return Err(err0(owned("opcode not u16")));
        },
    };
    let ghost sn = strings_view(snames@);
    let ghost en = strings_view(enames@);
    let mut args: Vec<Arg> = Vec::new();
    let mut fds = FdSpec::NoFds;
    let mut i: usize = 0;
    assert(args_view(args@) =~= Seq::<ArgView>::empty());
    while i < node.children.len()
        invariant
            i <= node.children@.len(),
            sn == strings_view(snames@),
            en == strings_view(enames@),
            node@.children.len() == node.children@.len(),
            forall|j: int| 0 <= j < node.children@.len() ==> node@.children[j] == node.children@[j]@,
            message_parts(node@.children, 0, sn, en, Seq::empty(), FdView::NoFds) == message_parts(
                node@.children,
                i as int,
                sn,
                en,
                args_view(args@),
                fds@,
            ),
        decreases node.children@.len() - i,
    {
        let child = &node.children[i];
        if str_eq(child.name.as_str(), "arg") {
            let a = parse_typed_field(child, snames, enames)?;
            proof {
                assert(args_view(args@.push(a)) =~= args_view(args@).push(a@));
            }
            args.push(a);
        } else if str_eq(child.name.as_str(), "fds") {
            fds = parse_fds(child)?;
        } else {
            return Err(err0(concat3("unknown message child <", child.name.as_str(), ">")));
        }
        i = i + 1;
    }
    Ok(Message { name, opcode, args, fds })
}

/// Records the inbound naming style, refusing a mix of `<request>` and `<event_in>`.
pub fn set_inbound_kind(slot: &mut Option<InboundKind>, k: InboundKind) -> (r: Result<
    (),
    ParseError,
>)
    ensures
        match inbound_after(*old(slot), k) {
            Ok(s) => r is Ok && *final(slot) == s,
            Err(e) => r matches Err(x) && x@ == e && *final(slot) == *old(slot),
        },
{
    match *slot {
        Some(prev) if !inbound_eq(prev, k) => Err(
            err0(owned("protocol mixes <request> and <event_in>; pick exactly one")),
        ),
        _ => {
            *slot = Some(k);
            Ok(())
        },
    }
}

fn inbound_eq(a: InboundKind, b: InboundKind) -> (r: bool)
    ensures
        r == (a == b),
{
    match (a, b) {
        (InboundKind::Request, InboundKind::Request) => true,
        (InboundKind::EventIn, InboundKind::EventIn) => true,
        _ => false,
    }
}

} // verus!
