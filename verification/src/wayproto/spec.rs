//! What a protocol description means: the checks and conversions from the
//! element tree to the protocol model, written as spec functions. Every error
//! of this layer is reported at byte 0, as the reader has no positions left.

use vstd::prelude::*;
use crate::text::{decimal, parse_unsigned, split, trim};
use crate::wayproto::xml::{ErrorView, SNode, parse_document, perr};
use crate::wayproto::types::{ArgTypeView, ArgView, EntryView, EnumView, FdView, InboundKind, MessageView, ProtocolView, StructView, scalar_type};

verus! {

pub open spec fn u32_max() -> int {
    0xffff_ffff
}

/// The value of the first attribute of `attrs` at or after `i` named `key`.
pub open spec fn attr_from(attrs: Seq<(Seq<char>, Seq<char>)>, key: Seq<char>, i: int) -> Option<
    Seq<char>,
>
    decreases attrs.len() - i,
{
    if i < 0 || i >= attrs.len() {
        None
    } else if attrs[i].0 == key {
        Some(attrs[i].1)
    } else {
        attr_from(attrs, key, i + 1)
    }
}

/// The value of the first attribute named `key`.
pub open spec fn attr_of(n: SNode, key: Seq<char>) -> Option<Seq<char>> {
    attr_from(n.attrs, key, 0)
}

// ---------------------------------------------------------------------------
// Typed fields.

pub open spec fn is_bool_array_or_kv(t: ArgTypeView) -> bool {
    t is Bool || t is Array || t is KvList
}

/// A typed `<arg>` or `<field>` element.
pub open spec fn typed_field(n: SNode, snames: Seq<Seq<char>>, enames: Seq<Seq<char>>) -> Result<
    ArgView,
    ErrorView,
> {
    match attr_of(n, "name"@) {
        None => Err(perr(0, "<arg> missing name"@)),
        Some(name) => match attr_of(n, "type"@) {
            None => Err(perr(0, "<arg> missing type"@)),
            Some(ty) => if ty == "array"@ {
                match attr_of(n, "element"@) {
                    None => Err(perr(0, "<arg type=\"array\"> missing element"@)),
                    Some(el) => match scalar_type(el) {
                        None => Err(perr(0, "unknown array element type "@ + el)),
                        Some(t) => if is_bool_array_or_kv(t) {
                            Err(perr(0, "arrays of bool / arrays / kv_list not supported"@))
                        } else {
                            Ok(ArgView { name, ty: ArgTypeView::Array(Box::new(t)) })
                        },
                    },
                }
            } else {
                match scalar_type(ty) {
                    Some(t) => Ok(ArgView { name, ty: t }),
                    None => if snames.contains(ty) {
                        Ok(ArgView { name, ty: ArgTypeView::Named(ty) })
                    } else if enames.contains(ty) {
                        Ok(ArgView { name, ty: ArgTypeView::Enum(ty) })
                    } else {
                        Err(perr(0, "unknown type "@ + ty))
                    },
                }
            },
        },
    }
}

// ---------------------------------------------------------------------------
// Enums.

pub open spec fn entry_names(v: Seq<EntryView>) -> Seq<Seq<char>> {
    v.map_values(|e: EntryView| e.name)
}

pub open spec fn entry_values(v: Seq<EntryView>) -> Seq<u32> {
    v.map_values(|e: EntryView| e.value)
}

/// The entries of enum `ename` from child `i` on, after those in `acc`.
pub open spec fn enum_entries(cs: Seq<SNode>, i: int, ename: Seq<char>, acc: Seq<EntryView>) -> Result<
    EnumView,
    ErrorView,
>
    decreases cs.len() - i,
{
    if i < 0 || i >= cs.len() {
        if acc.len() == 0 {
            Err(perr(0, "enum "@ + ename + " must contain at least one entry"@))
        } else {
            Ok(EnumView { name: ename, entries: acc })
        }
    } else {
        let c = cs[i];
        if c.name != "entry"@ {
            Err(perr(0, "unknown enum child <"@ + c.name + ">"@))
        } else {
            match attr_of(c, "name"@) {
                None => Err(perr(0, "<entry> missing name"@)),
                Some(en) => if entry_names(acc).contains(en) {
                    Err(perr(0, "duplicate entry "@ + en + " in enum "@ + ename))
                } else {
                    match attr_of(c, "value"@) {
                        None => Err(perr(0, "<entry> missing value"@)),
                        Some(vs) => match parse_unsigned(vs, u32_max()) {
                            None => Err(perr(0, "entry "@ + en + " value is not u32"@)),
                            Some(v) => if entry_values(acc).contains(v as u32) {
                                Err(
                                    perr(
                                        0,
                                        "duplicate value "@ + decimal(v as nat) + " in enum "@
                                            + ename,
                                    ),
                                )
                            } else {
                                enum_entries(
                                    cs,
                                    i + 1,
                                    ename,
                                    acc.push(EntryView { name: en, value: v as u32 }),
                                )
                            },
                        },
                    }
                },
            }
        }
    }
}

/// An `<enum>` element.
pub open spec fn parse_enum_spec(n: SNode) -> Result<EnumView, ErrorView> {
    match attr_of(n, "name"@) {
        None => Err(perr(0, "<enum> missing name"@)),
        Some(name) => enum_entries(n.children, 0, name, Seq::empty()),
    }
}

// ---------------------------------------------------------------------------
// Structs.

pub open spec fn arg_names(v: Seq<ArgView>) -> Seq<Seq<char>> {
    v.map_values(|a: ArgView| a.name)
}

/// The fields of struct `sname` from child `i` on, after those in `acc`.
pub open spec fn struct_fields(
    cs: Seq<SNode>,
    i: int,
    sname: Seq<char>,
    snames: Seq<Seq<char>>,
    enames: Seq<Seq<char>>,
    acc: Seq<ArgView>,
) -> Result<StructView, ErrorView>
    decreases cs.len() - i,
{
    if i < 0 || i >= cs.len() {
        if acc.len() == 0 {
            Err(perr(0, "struct "@ + sname + " must contain at least one field"@))
        } else {
            Ok(StructView { name: sname, fields: acc })
        }
    } else {
        let c = cs[i];
        if c.name != "field"@ {
            Err(perr(0, "unknown struct child <"@ + c.name + ">"@))
        } else {
            match typed_field(c, snames, enames) {
                Err(e) => Err(e),
                Ok(f) => if arg_names(acc).contains(f.name) {
                    Err(perr(0, "duplicate field "@ + f.name + " in struct "@ + sname))
                } else {
                    struct_fields(cs, i + 1, sname, snames, enames, acc.push(f))
                },
            }
        }
    }
}

/// A `<struct>` element.
pub open spec fn parse_struct_spec(n: SNode, snames: Seq<Seq<char>>, enames: Seq<Seq<char>>) -> Result<
    StructView,
    ErrorView,
> {
    match attr_of(n, "name"@) {
        None => Err(perr(0, "<struct> missing name"@)),
        Some(name) => struct_fields(n.children, 0, name, snames, enames, Seq::empty()),
    }
}

// ---------------------------------------------------------------------------
// File descriptor counts.

pub open spec fn is_ident_char(c: char) -> bool {
    ('0' <= c <= '9') || ('a' <= c <= 'z') || ('A' <= c <= 'Z') || c == '_'
}

/// A non-empty run of identifier characters.
pub open spec fn is_ident(s: Seq<char>) -> bool {
    s.len() > 0 && forall|i: int| 0 <= i < s.len() ==> is_ident_char(s[i])
}

/// Identifiers joined by dots, such as `pool.count`.
pub open spec fn is_ident_path(p: Seq<char>) -> bool {
    forall|i: int| 0 <= i < split(p, '.').len() ==> is_ident(#[trigger] split(p, '.')[i])
}

/// The trimmed, non-empty pieces among `pieces[i..]`.
pub open spec fn nonempty_trimmed(pieces: Seq<Seq<char>>, i: int) -> Seq<Seq<char>>
    decreases pieces.len() - i,
{
    if i < 0 || i >= pieces.len() {
        Seq::empty()
    } else if trim(pieces[i]).len() == 0 {
        nonempty_trimmed(pieces, i + 1)
    } else {
        seq![trim(pieces[i])] + nonempty_trimmed(pieces, i + 1)
    }
}

/// The operands of a `count_expr`: the trimmed pieces between `*`, empty ones dropped.
pub open spec fn count_operands(expr: Seq<char>) -> Seq<Seq<char>> {
    nonempty_trimmed(split(expr, '*'), 0)
}

/// The first operand at or after `i` that is not an identifier path.
pub open spec fn first_bad_operand(parts: Seq<Seq<char>>, i: int) -> Option<Seq<char>>
    decreases parts.len() - i,
{
    if i < 0 || i >= parts.len() {
        None
    } else if !is_ident_path(parts[i]) {
        Some(parts[i])
    } else {
        first_bad_operand(parts, i + 1)
    }
}

/// An `<fds>` element.
pub open spec fn parse_fds_spec(n: SNode) -> Result<FdView, ErrorView> {
    match attr_of(n, "count"@) {
        Some(s) => match parse_unsigned(s, u32_max()) {
            None => Err(perr(0, "fds count not u32"@)),
            Some(v) => if v == 0 {
                Ok(FdView::NoFds)
            } else {
                Ok(FdView::Fixed(v as u32))
            },
        },
        None => match attr_of(n, "count_expr"@) {
            Some(expr) => {
                let parts = count_operands(expr);
                if parts.len() == 0 {
                    Err(perr(0, "empty count_expr"@))
                } else {
                    match first_bad_operand(parts, 0) {
                        Some(p) => Err(perr(0, "count_expr field not an ident path: "@ + p)),
                        None => Ok(FdView::Product(parts)),
                    }
                }
            },
            None => Err(perr(0, "<fds> missing count or count_expr"@)),
        },
    }
}

// ---------------------------------------------------------------------------
// Messages.

/// The arguments and file descriptors of a message from child `i` on.
pub open spec fn message_parts(
    cs: Seq<SNode>,
    i: int,
    snames: Seq<Seq<char>>,
    enames: Seq<Seq<char>>,
    args: Seq<ArgView>,
    fds: FdView,
) -> Result<(Seq<ArgView>, FdView), ErrorView>
    decreases cs.len() - i,
{
    if i < 0 || i >= cs.len() {
        Ok((args, fds))
    } else {
        let c = cs[i];
        if c.name == "arg"@ {
            match typed_field(c, snames, enames) {
                Err(e) => Err(e),
                Ok(a) => message_parts(cs, i + 1, snames, enames, args.push(a), fds),
            }
        } else if c.name == "fds"@ {
            match parse_fds_spec(c) {
                Err(e) => Err(e),
                Ok(f) => message_parts(cs, i + 1, snames, enames, args, f),
            }
        } else {
            Err(perr(0, "unknown message child <"@ + c.name + ">"@))
        }
    }
}

/// A `<request>`, `<event_in>` or `<event>` element.
pub open spec fn parse_message_spec(n: SNode, snames: Seq<Seq<char>>, enames: Seq<Seq<char>>) -> Result<
    MessageView,
    ErrorView,
> {
    match attr_of(n, "name"@) {
        None => Err(perr(0, "<"@ + n.name + "> missing name"@)),
        Some(name) => match attr_of(n, "opcode"@) {
            None => Err(perr(0, "<"@ + n.name + "> missing opcode"@)),
            Some(o) => match parse_unsigned(o, 0xffff) {
                None => Err(perr(0, "opcode not u16"@)),
                Some(op) => match message_parts(
                    n.children,
                    0,
                    snames,
                    enames,
                    Seq::empty(),
                    FdView::NoFds,
                ) {
                    Err(e) => Err(e),
                    Ok((args, fds)) => Ok(MessageView { name, opcode: op as u16, args, fds }),
                },
            },
        },
    }
}

/// Records the inbound naming style, refusing a mix of the two.
pub open spec fn inbound_after(slot: Option<InboundKind>, k: InboundKind) -> Result<
    Option<InboundKind>,
    ErrorView,
> {
    match slot {
        Some(prev) => if prev != k {
            Err(perr(0, "protocol mixes <request> and <event_in>; pick exactly one"@))
        } else {
            Ok(Some(k))
        },
        None => Ok(Some(k)),
    }
}

// ---------------------------------------------------------------------------
// File descriptor paths.

/// The type of the first argument named `name`.
pub open spec fn find_arg(args: Seq<ArgView>, name: Seq<char>, i: int) -> Option<ArgTypeView>
    decreases args.len() - i,
{
    if i < 0 || i >= args.len() {
        None
    } else if args[i].name == name {
        Some(args[i].ty)
    } else {
        find_arg(args, name, i + 1)
    }
}

/// The first struct named `name`.
pub open spec fn find_struct(structs: Seq<StructView>, name: Seq<char>, i: int) -> Option<
    StructView,
>
    decreases structs.len() - i,
{
    if i < 0 || i >= structs.len() {
        None
    } else if structs[i].name == name {
        Some(structs[i])
    } else {
        find_struct(structs, name, i + 1)
    }
}

pub open spec fn undeclared_struct(name: Seq<char>) -> ErrorView {
    perr(0, "struct "@ + name + " is not declared"@)
}

/// Follows the segments `segs[j..]` of `path` from a field of type `ty`.
pub open spec fn walk_path(
    segs: Seq<Seq<char>>,
    j: int,
    ty: ArgTypeView,
    path: Seq<char>,
    structs: Seq<StructView>,
) -> Result<(), ErrorView>
    decreases segs.len() - j,
{
    if j < 0 || j >= segs.len() {
        if ty is U32 || ty is U64 {
            Ok(())
        } else {
            Err(perr(0, "count_expr path "@ + path + " must resolve to u32 or u64"@))
        }
    } else {
        match ty {
            ArgTypeView::Named(sname) => match find_struct(structs, sname, 0) {
                None => Err(undeclared_struct(sname)),
                Some(st) => match find_arg(st.fields, segs[j], 0) {
                    None => Err(
                        perr(
                            0,
                            "count_expr path "@ + path + " has no field "@ + segs[j]
                                + " in struct "@ + sname,
                        ),
                    ),
                    Some(t) => walk_path(segs, j + 1, t, path, structs),
                },
            },
            _ => Err(
                perr(0, "count_expr path "@ + path + " traverses non-struct field "@ + segs[j]),
            ),
        }
    }
}

/// One `count_expr` path of message `m`.
pub open spec fn check_path(m: MessageView, path: Seq<char>, structs: Seq<StructView>) -> Result<
    (),
    ErrorView,
> {
    let segs = split(path, '.');
    match find_arg(m.args, segs[0], 0) {
        None => Err(
            perr(
                0,
                "count_expr path "@ + path + " does not start with a field of message "@ + m.name,
            ),
        ),
        Some(ty) => walk_path(segs, 1, ty, path, structs),
    }
}

/// The paths `paths[k..]` of message `m`.
pub open spec fn check_paths(
    m: MessageView,
    paths: Seq<Seq<char>>,
    k: int,
    structs: Seq<StructView>,
) -> Result<(), ErrorView>
    decreases paths.len() - k,
{
    if k < 0 || k >= paths.len() {
        Ok(())
    } else {
        match check_path(m, paths[k], structs) {
            Err(e) => Err(e),
            Ok(()) => check_paths(m, paths, k + 1, structs),
        }
    }
}

/// The `count_expr` paths of the messages `msgs[i..]`.
pub open spec fn validate_fd_paths_spec(
    msgs: Seq<MessageView>,
    i: int,
    structs: Seq<StructView>,
) -> Result<(), ErrorView>
    decreases msgs.len() - i,
{
    if i < 0 || i >= msgs.len() {
        Ok(())
    } else {
        match msgs[i].fds {
            FdView::Product(paths) => match check_paths(msgs[i], paths, 0, structs) {
                Err(e) => Err(e),
                Ok(()) => validate_fd_paths_spec(msgs, i + 1, structs),
            },
            _ => validate_fd_paths_spec(msgs, i + 1, structs),
        }
    }
}

// ---------------------------------------------------------------------------
// Ordering structs so that each comes after the structs it contains.

/// Lexicographic order on character sequences, which for strings is the
/// order of their UTF-8 bytes.
pub open spec fn lex_le(a: Seq<char>, b: Seq<char>) -> bool
    decreases a.len(),
{
    if a.len() == 0 {
        true
    } else if b.len() == 0 {
        false
    } else if a[0] != b[0] {
        (a[0] as u32) < (b[0] as u32)
    } else {
        lex_le(a.drop_first(), b.drop_first())
    }
}

/// The first index at or after `j` whose element is not below `x`.
pub open spec fn insert_pos(x: Seq<char>, s: Seq<Seq<char>>, j: int) -> int
    decreases s.len() - j,
{
    if j < 0 || j >= s.len() {
        s.len() as int
    } else if lex_le(x, s[j]) {
        j
    } else {
        insert_pos(x, s, j + 1)
    }
}

pub proof fn lemma_insert_pos(x: Seq<char>, s: Seq<Seq<char>>, j: int)
    requires
        0 <= j <= s.len(),
    ensures
        j <= insert_pos(x, s, j) <= s.len(),
    decreases s.len() - j,
{
    if j < s.len() && !lex_le(x, s[j]) {
        lemma_insert_pos(x, s, j + 1);
    }
}

/// `names` in ascending order (insertion sort).
pub open spec fn sort_names(names: Seq<Seq<char>>) -> Seq<Seq<char>>
    decreases names.len(),
{
    if names.len() == 0 {
        Seq::empty()
    } else {
        let rest = sort_names(names.drop_last());
        rest.insert(insert_pos(names.last(), rest, 0), names.last())
    }
}

pub open spec fn struct_names_of(v: Seq<StructView>) -> Seq<Seq<char>> {
    v.map_values(|s: StructView| s.name)
}

/// Depth-first visit of struct `name`: the visited names and the output after it.
pub open spec fn visit(
    by: Seq<StructView>,
    name: Seq<char>,
    visiting: Seq<Seq<char>>,
    visited: Seq<Seq<char>>,
    out: Seq<StructView>,
) -> Result<(Seq<Seq<char>>, Seq<StructView>), ErrorView>
    decreases by.len() - visiting.len(), 0int, 0int,
{
    if visited.contains(name) {
        Ok((visited, out))
    } else if visiting.contains(name) {
        Err(perr(0, "recursive struct reference involving "@ + name))
    } else {
        match find_struct(by, name, 0) {
            None => Err(undeclared_struct(name)),
            Some(item) => if visiting.len() >= by.len() {
                Err(undeclared_struct(name))
            } else {
                match visit_fields(by, item.fields, 0, visiting.push(name), visited, out) {
                    Err(e) => Err(e),
                    Ok((v2, o2)) => Ok((v2.push(name), o2.push(item))),
                }
            },
        }
    }
}

/// The visits of the struct-typed fields `fields[k..]`.
pub open spec fn visit_fields(
    by: Seq<StructView>,
    fields: Seq<ArgView>,
    k: int,
    visiting: Seq<Seq<char>>,
    visited: Seq<Seq<char>>,
    out: Seq<StructView>,
) -> Result<(Seq<Seq<char>>, Seq<StructView>), ErrorView>
    decreases by.len() - visiting.len(), 1int, fields.len() - k,
{
    if k < 0 || k >= fields.len() || visiting.len() > by.len() {
        Ok((visited, out))
    } else {
        match fields[k].ty {
            ArgTypeView::Named(dep) => match visit(by, dep, visiting, visited, out) {
                Err(e) => Err(e),
                Ok((v2, o2)) => visit_fields(by, fields, k + 1, visiting, v2, o2),
            },
            _ => visit_fields(by, fields, k + 1, visiting, visited, out),
        }
    }
}

/// The visits of `names[i..]`.
pub open spec fn order_loop(
    by: Seq<StructView>,
    names: Seq<Seq<char>>,
    i: int,
    visited: Seq<Seq<char>>,
    out: Seq<StructView>,
) -> Result<Seq<StructView>, ErrorView>
    decreases names.len() - i,
{
    if i < 0 || i >= names.len() {
        Ok(out)
    } else {
        match visit(by, names[i], Seq::empty(), visited, out) {
            Err(e) => Err(e),
            Ok((v2, o2)) => order_loop(by, names, i + 1, v2, o2),
        }
    }
}

/// The structs ordered dependencies first, visiting names in ascending order.
pub open spec fn order_structs_spec(structs: Seq<StructView>) -> Result<Seq<StructView>, ErrorView> {
    order_loop(structs, sort_names(struct_names_of(structs)), 0, Seq::empty(), Seq::empty())
}

// ---------------------------------------------------------------------------
// The whole description.

/// The names of the `<enum>` children `cs[i..]`, after those in `acc`.
pub open spec fn enum_names_from(cs: Seq<SNode>, i: int, acc: Seq<Seq<char>>) -> Result<
    Seq<Seq<char>>,
    ErrorView,
>
    decreases cs.len() - i,
{
    if i < 0 || i >= cs.len() {
        Ok(acc)
    } else if cs[i].name != "enum"@ {
        enum_names_from(cs, i + 1, acc)
    } else {
        match attr_of(cs[i], "name"@) {
            None => Err(perr(0, "<enum> missing name"@)),
            Some(n) => if acc.contains(n) {
                Err(perr(0, "duplicate enum "@ + n))
            } else {
                enum_names_from(cs, i + 1, acc.push(n))
            },
        }
    }
}

/// The `<enum>` children `cs[i..]`, after those in `acc`.
pub open spec fn enums_from(cs: Seq<SNode>, i: int, acc: Seq<EnumView>) -> Result<
    Seq<EnumView>,
    ErrorView,
>
    decreases cs.len() - i,
{
    if i < 0 || i >= cs.len() {
        Ok(acc)
    } else if cs[i].name != "enum"@ {
        enums_from(cs, i + 1, acc)
    } else {
        match parse_enum_spec(cs[i]) {
            Err(e) => Err(e),
            Ok(en) => enums_from(cs, i + 1, acc.push(en)),
        }
    }
}

/// The names of the `<struct>` children `cs[i..]`, after those in `acc`.
pub open spec fn struct_names_from(
    cs: Seq<SNode>,
    i: int,
    enames: Seq<Seq<char>>,
    acc: Seq<Seq<char>>,
) -> Result<Seq<Seq<char>>, ErrorView>
    decreases cs.len() - i,
{
    if i < 0 || i >= cs.len() {
        Ok(acc)
    } else if cs[i].name != "struct"@ {
        struct_names_from(cs, i + 1, enames, acc)
    } else {
        match attr_of(cs[i], "name"@) {
            None => Err(perr(0, "<struct> missing name"@)),
            Some(n) => if acc.contains(n) {
                Err(perr(0, "duplicate struct "@ + n))
            } else if enames.contains(n) {
                Err(perr(0, "type "@ + n + " is both an enum and a struct"@))
            } else {
                struct_names_from(cs, i + 1, enames, acc.push(n))
            },
        }
    }
}

/// The `<struct>` children `cs[i..]`, after those in `acc`.
pub open spec fn structs_from(
    cs: Seq<SNode>,
    i: int,
    snames: Seq<Seq<char>>,
    enames: Seq<Seq<char>>,
    acc: Seq<StructView>,
) -> Result<Seq<StructView>, ErrorView>
    decreases cs.len() - i,
{
    if i < 0 || i >= cs.len() {
        Ok(acc)
    } else if cs[i].name != "struct"@ {
        structs_from(cs, i + 1, snames, enames, acc)
    } else {
        match parse_struct_spec(cs[i], snames, enames) {
            Err(e) => Err(e),
            Ok(st) => structs_from(cs, i + 1, snames, enames, acc.push(st)),
        }
    }
}

/// The message children `cs[i..]`: requests (or inbound events), events and
/// the inbound naming style.
pub open spec fn messages_from(
    cs: Seq<SNode>,
    i: int,
    snames: Seq<Seq<char>>,
    enames: Seq<Seq<char>>,
    reqs: Seq<MessageView>,
    evs: Seq<MessageView>,
    kind: Option<InboundKind>,
) -> Result<(Seq<MessageView>, Seq<MessageView>, Option<InboundKind>), ErrorView>
    decreases cs.len() - i,
{
    if i < 0 || i >= cs.len() {
        Ok((reqs, evs, kind))
    } else {
        let c = cs[i];
        if c.name == "request"@ || c.name == "event_in"@ {
            let k = if c.name == "request"@ {
                InboundKind::Request
            } else {
                InboundKind::EventIn
            };
            match inbound_after(kind, k) {
                Err(e) => Err(e),
                Ok(k2) => match parse_message_spec(c, snames, enames) {
                    Err(e) => Err(e),
                    Ok(m) => messages_from(cs, i + 1, snames, enames, reqs.push(m), evs, k2),
                },
            }
        } else if c.name == "event"@ {
            match parse_message_spec(c, snames, enames) {
                Err(e) => Err(e),
                Ok(m) => messages_from(cs, i + 1, snames, enames, reqs, evs.push(m), kind),
            }
        } else if c.name == "enum"@ || c.name == "struct"@ {
            messages_from(cs, i + 1, snames, enames, reqs, evs, kind)
        } else {
            Err(perr(0, "unknown top-level element <"@ + c.name + ">"@))
        }
    }
}

/// The protocol a `<protocol>` root element describes.
pub open spec fn protocol_from_root(root: SNode) -> Result<ProtocolView, ErrorView> {
    if root.name != "protocol"@ {
        Err(perr(0, "root must be <protocol>, got <"@ + root.name + ">"@))
    } else {
        match attr_of(root, "name"@) {
            None => Err(perr(0, "protocol missing name"@)),
            Some(name) => match attr_of(root, "version"@) {
                None => Err(perr(0, "protocol missing version"@)),
                Some(vs) => match parse_unsigned(vs, u32_max()) {
                    None => Err(perr(0, "protocol version not u32"@)),
                    Some(version) => {
                        let cs = root.children;
                        match enum_names_from(cs, 0, Seq::empty()) {
                            Err(e) => Err(e),
                            Ok(enames) => match enums_from(cs, 0, Seq::empty()) {
                                Err(e) => Err(e),
                                Ok(enums) => match struct_names_from(cs, 0, enames, Seq::empty()) {
                                    Err(e) => Err(e),
                                    Ok(snames) => match structs_from(
                                        cs,
                                        0,
                                        snames,
                                        enames,
                                        Seq::empty(),
                                    ) {
                                        Err(e) => Err(e),
                                        Ok(parsed) => match order_structs_spec(parsed) {
                                            Err(e) => Err(e),
                                            Ok(structs) => match messages_from(
                                                cs,
                                                0,
                                                snames,
                                                enames,
                                                Seq::empty(),
                                                Seq::empty(),
                                                None,
                                            ) {
                                                Err(e) => Err(e),
                                                Ok((reqs, evs, kind)) => match validate_fd_paths_spec(
                                                    reqs,
                                                    0,
                                                    structs,
                                                ) {
                                                    Err(e) => Err(e),
                                                    Ok(_) => match validate_fd_paths_spec(
                                                        evs,
                                                        0,
                                                        structs,
                                                    ) {
                                                        Err(e) => Err(e),
                                                        Ok(_) => Ok(
                                                            ProtocolView {
                                                                name,
                                                                version: version as u32,
                                                                inbound_kind: match kind {
                                                                    Some(k) => k,
                                                                    None => InboundKind::Request,
                                                                },
                                                                enums,
                                                                structs,
                                                                requests: reqs,
                                                                events: evs,
                                                            },
                                                        ),
                                                    },
                                                },
                                            },
                                        },
                                    },
                                },
                            },
                        }
                    },
                },
            },
        }
    }
}

/// The protocol a description in the bytes `src` describes, or the first error.
pub open spec fn parse_protocol_spec(src: Seq<u8>) -> Result<ProtocolView, ErrorView> {
    match parse_document(src) {
        Err(e) => Err(e),
        Ok(root) => protocol_from_root(root),
    }
}

} // verus!
