//! Parsing a protocol description from its XML text.

use vstd::prelude::*;
use vstd::string::*;
use crate::text::{concat2, concat3, contains_string, owned, parse_unsigned_exec, str_eq, strings_view};
use crate::wayproto::xml::{Node, ParseError, Parser, err_at};
use crate::wayproto::types::{EnumView, InboundKind, Message, MessageView, NamedEnum, NamedStruct, Protocol, StructView, enums_view, messages_view, structs_view};
use crate::wayproto::spec::{enum_names_from, enums_from, messages_from, parse_protocol_spec, protocol_from_root, struct_names_from, structs_from};
use crate::wayproto::semantics::{node_attr, parse_enum, parse_message, parse_struct, same_result, set_inbound_kind};
use crate::wayproto::order::{order_structs, validate_fd_paths};

verus! {

broadcast use vstd::string::group_string_axioms;

/// The names of the `<enum>` children, each present and unique.
#[verifier::loop_isolation(false)]
fn collect_enum_names(root: &Node) -> (r: Result<Vec<String>, ParseError>)
    ensures
        match enum_names_from(root@.children, 0, Seq::empty()) {
            Ok(v) => r matches Ok(x) && strings_view(x@) == v,
            Err(e) => r matches Err(x) && x@ == e,
        },
{
    let ghost cs = root@.children;
    let mut names: Vec<String> = Vec::new();
    assert(strings_view(names@) =~= Seq::<Seq<char>>::empty());
    let mut i: usize = 0;
    while i < root.children.len()
        invariant
            i <= root.children@.len(),
            cs == root@.children,
            cs.len() == root.children@.len(),
            enum_names_from(cs, 0, Seq::empty()) == enum_names_from(
                cs,
                i as int,
                strings_view(names@),
            ),
        decreases root.children@.len() - i,
    {
        let c = &root.children[i];
        assert(cs[i as int] == c@);
        if str_eq(c.name.as_str(), "enum") {
            let n = match node_attr(c, "name") {
                Some(n) => n,
                None => {
                    return Err(err_at(0, owned("<enum> missing name")));
                },
            };
            if contains_string(&names, n.as_str()) {
                return Err(err_at(0, concat2("duplicate enum ", n.as_str())));
            }
            let n2 = n.clone();
            assert(strings_view(names@.push(n2)) =~= strings_view(names@).push(n2@));
            names.push(n2);
        }
        i = i + 1;
    }
    Ok(names)
}

/// The `<enum>` children.
#[verifier::loop_isolation(false)]
fn collect_enums(root: &Node) -> (r: Result<Vec<NamedEnum>, ParseError>)
    ensures
        match enums_from(root@.children, 0, Seq::empty()) {
            Ok(v) => r matches Ok(x) && enums_view(x@) == v,
            Err(e) => r matches Err(x) && x@ == e,
        },
{
    let ghost cs = root@.children;
    let mut out: Vec<NamedEnum> = Vec::new();
    assert(enums_view(out@) =~= Seq::<EnumView>::empty());
    let mut i: usize = 0;
    while i < root.children.len()
        invariant
            i <= root.children@.len(),
            cs == root@.children,
            cs.len() == root.children@.len(),
            enums_from(cs, 0, Seq::empty()) == enums_from(cs, i as int, enums_view(out@)),
        decreases root.children@.len() - i,
    {
        let c = &root.children[i];
        assert(cs[i as int] == c@);
        if str_eq(c.name.as_str(), "enum") {
            let e = parse_enum(c)?;
            assert(enums_view(out@.push(e)) =~= enums_view(out@).push(e@));
            out.push(e);
        }
        i = i + 1;
    }
    Ok(out)
}

/// The names of the `<struct>` children: present, unique and no enum's name.
#[verifier::loop_isolation(false)]
fn collect_struct_names(root: &Node, enames: &Vec<String>) -> (r: Result<Vec<String>, ParseError>)
    ensures
        match struct_names_from(root@.children, 0, strings_view(enames@), Seq::empty()) {
            Ok(v) => r matches Ok(x) && strings_view(x@) == v,
            Err(e) => r matches Err(x) && x@ == e,
        },
{
    let ghost cs = root@.children;
    let ghost en = strings_view(enames@);
    let mut names: Vec<String> = Vec::new();
    assert(strings_view(names@) =~= Seq::<Seq<char>>::empty());
    let mut i: usize = 0;
    while i < root.children.len()
        invariant
            i <= root.children@.len(),
            cs == root@.children,
            cs.len() == root.children@.len(),
            en == strings_view(enames@),
            struct_names_from(cs, 0, en, Seq::empty()) == struct_names_from(
                cs,
                i as int,
                en,
                strings_view(names@),
            ),
        decreases root.children@.len() - i,
    {
        let c = &root.children[i];
        assert(cs[i as int] == c@);
        if str_eq(c.name.as_str(), "struct") {
            let n = match node_attr(c, "name") {
                Some(n) => n,
                None => {
                    return Err(err_at(0, owned("<struct> missing name")));
                },
            };
            if contains_string(&names, n.as_str()) {
                return Err(err_at(0, concat2("duplicate struct ", n.as_str())));
            }
            if contains_string(enames, n.as_str()) {
                return Err(err_at(0, concat3("type ", n.as_str(), " is both an enum and a struct")));
            }
            let n2 = n.clone();
            assert(strings_view(names@.push(n2)) =~= strings_view(names@).push(n2@));
            names.push(n2);
        }
        i = i + 1;
    }
    Ok(names)
}

/// The `<struct>` children, in document order.
#[verifier::loop_isolation(false)]
fn collect_structs(root: &Node, snames: &Vec<String>, enames: &Vec<String>) -> (r: Result<
    Vec<NamedStruct>,
    ParseError,
>)
    ensures
        match structs_from(
            root@.children,
            0,
            strings_view(snames@),
            strings_view(enames@),
            Seq::empty(),
        ) {
            Ok(v) => r matches Ok(x) && structs_view(x@) == v,
            Err(e) => r matches Err(x) && x@ == e,
        },
{
    let ghost cs = root@.children;
    let ghost sn = strings_view(snames@);
    let ghost en = strings_view(enames@);
    let mut out: Vec<NamedStruct> = Vec::new();
    assert(structs_view(out@) =~= Seq::<StructView>::empty());
    let mut i: usize = 0;
    while i < root.children.len()
        invariant
            i <= root.children@.len(),
            cs == root@.children,
            cs.len() == root.children@.len(),
            sn == strings_view(snames@),
            en == strings_view(enames@),
            structs_from(cs, 0, sn, en, Seq::empty()) == structs_from(
                cs,
                i as int,
                sn,
                en,
                structs_view(out@),
            ),
        decreases root.children@.len() - i,
    {
        let c = &root.children[i];
        assert(cs[i as int] == c@);
        if str_eq(c.name.as_str(), "struct") {
            let st = parse_struct(c, snames, enames)?;
            assert(structs_view(out@.push(st)) =~= structs_view(out@).push(st@));
            out.push(st);
        }
        i = i + 1;
    }
    Ok(out)
}

/// The message children: requests or inbound events, events, and the
/// inbound naming style.
#[verifier::loop_isolation(false)]
fn collect_messages(root: &Node, snames: &Vec<String>, enames: &Vec<String>) -> (r: Result<
    (Vec<Message>, Vec<Message>, Option<InboundKind>),
    ParseError,
>)
    ensures
        match messages_from(
            root@.children,
            0,
            strings_view(snames@),
            strings_view(enames@),
            Seq::empty(),
            Seq::empty(),
            None,
        ) {
            Ok((rq, ev, k)) => r matches Ok(x) && messages_view(x.0@) == rq && messages_view(x.1@)
                == ev && x.2 == k,
            Err(e) => r matches Err(x) && x@ == e,
        },
{
    let ghost cs = root@.children;
    let ghost sn = strings_view(snames@);
    let ghost en = strings_view(enames@);
    let mut requests: Vec<Message> = Vec::new();
    let mut events: Vec<Message> = Vec::new();
    let mut inbound_kind: Option<InboundKind> = None;
    assert(messages_view(requests@) =~= Seq::<MessageView>::empty());
    assert(messages_view(events@) =~= Seq::<MessageView>::empty());
    let mut i: usize = 0;
    while i < root.children.len()
        invariant
            i <= root.children@.len(),
            cs == root@.children,
            cs.len() == root.children@.len(),
            sn == strings_view(snames@),
            en == strings_view(enames@),
            messages_from(cs, 0, sn, en, Seq::empty(), Seq::empty(), None) == messages_from(
                cs,
                i as int,
                sn,
                en,
                messages_view(requests@),
                messages_view(events@),
                inbound_kind,
            ),
        decreases root.children@.len() - i,
    {
        let c = &root.children[i];
        assert(cs[i as int] == c@);
        if str_eq(c.name.as_str(), "request") {
            set_inbound_kind(&mut inbound_kind, InboundKind::Request)?;
            let m = parse_message(c, snames, enames)?;
            assert(messages_view(requests@.push(m)) =~= messages_view(requests@).push(m@));
            requests.push(m);
        } else if str_eq(c.name.as_str(), "event_in") {
            set_inbound_kind(&mut inbound_kind, InboundKind::EventIn)?;
            let m = parse_message(c, snames, enames)?;
            assert(messages_view(requests@.push(m)) =~= messages_view(requests@).push(m@));
            requests.push(m);
        } else if str_eq(c.name.as_str(), "event") {
            let m = parse_message(c, snames, enames)?;
            assert(messages_view(events@.push(m)) =~= messages_view(events@).push(m@));
            events.push(m);
        } else if str_eq(c.name.as_str(), "enum") || str_eq(c.name.as_str(), "struct") {
        } else {
            return Err(err_at(0, concat3("unknown top-level element <", c.name.as_str(), ">")));
        }
        i = i + 1;
    }
    Ok((requests, events, inbound_kind))
}

/// The protocol a `<protocol>` root element describes.
pub fn protocol_from_node(root: &Node) -> (r: Result<Protocol, ParseError>)
    ensures
        same_result(r, protocol_from_root(root@)),
{
    if !str_eq(root.name.as_str(), "protocol") {
        return Err(err_at(0, concat3("root must be <protocol>, got <", root.name.as_str(), ">")));
    }
    let name = match node_attr(root, "name") {
        Some(n) => n.clone(),
        None => {
            return Err(err_at(0, owned("protocol missing name")));
        },
    };
    let version_str = match node_attr(root, "version") {
        Some(v) => v,
        None => {
            return Err(err_at(0, owned("protocol missing version")));
        },
    };
    let version = match parse_unsigned_exec(version_str.as_str(), 0xffff_ffff) {
        Some(v) => v as u32,
        None => {
            return Err(err_at(0, owned("protocol version not u32")));
        },
    };
    let enum_names = collect_enum_names(root)?;
    let enums = collect_enums(root)?;
    let struct_names = collect_struct_names(root, &enum_names)?;
    let parsed_structs = collect_structs(root, &struct_names, &enum_names)?;
    let structs = order_structs(parsed_structs)?;
    let (requests, events, inbound_kind) = collect_messages(root, &struct_names, &enum_names)?;
    validate_fd_paths(&requests, &structs)?;
    validate_fd_paths(&events, &structs)?;
    let inbound_kind = match inbound_kind {
        Some(k) => k,
        None => InboundKind::Request,
    };
    Ok(Protocol { name, version, inbound_kind, enums, structs, requests, events })
}

/// Parses a protocol description: an optional XML declaration, comments, and
/// a `<protocol name=".." version="..">` root holding `<enum>`, `<struct>`,
/// `<request>` or `<event_in>`, and `<event>` elements.
pub fn parse_protocol(src: &str) -> (r: Result<Protocol, ParseError>)
    ensures
        same_result(r, parse_protocol_spec(src.spec_bytes())),
{
    let bytes = src.as_bytes();
    // Reading the length tells the verifier that it fits in a `usize`,
    // which the parser's invariant needs.
    let _ = bytes.len();
    let mut p = Parser { src: bytes, pos: 0 };
    p.skip_prolog()?;
    let root = p.parse_element()?;
    protocol_from_node(&root)
}

} // verus!
