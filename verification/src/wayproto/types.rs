//! The protocol description model: argument types, named structs and enums,
//! messages and their file-descriptor counts, each with its mathematical view.

use vstd::prelude::*;
use crate::text::{str_eq, strings_view};

verus! {

/// The wire type of a message argument or struct field.
#[derive(Debug, PartialEq, Eq)]
pub enum ArgType {
    Bool,
    U32,
    I32,
    U64,
    I64,
    F32,
    F64,
    String,
    Array(Box<ArgType>),
    KvList,
    Rect,
    Named(String),
    Enum(String),
}

pub enum ArgTypeView {
    Bool,
    U32,
    I32,
    U64,
    I64,
    F32,
    F64,
    Str,
    Array(Box<ArgTypeView>),
    KvList,
    Rect,
    Named(Seq<char>),
    Enum(Seq<char>),
}

pub open spec fn argtype_view(t: ArgType) -> ArgTypeView
    decreases t,
{
    match t {
        ArgType::Bool => ArgTypeView::Bool,
        ArgType::U32 => ArgTypeView::U32,
        ArgType::I32 => ArgTypeView::I32,
        ArgType::U64 => ArgTypeView::U64,
        ArgType::I64 => ArgTypeView::I64,
        ArgType::F32 => ArgTypeView::F32,
        ArgType::F64 => ArgTypeView::F64,
        ArgType::String => ArgTypeView::Str,
        ArgType::Array(e) => ArgTypeView::Array(Box::new(argtype_view(*e))),
        ArgType::KvList => ArgTypeView::KvList,
        ArgType::Rect => ArgTypeView::Rect,
        ArgType::Named(s) => ArgTypeView::Named(s@),
        ArgType::Enum(s) => ArgTypeView::Enum(s@),
    }
}

impl Clone for ArgType {
    fn clone(&self) -> (r: ArgType)
        ensures
            r@ == self@,
        decreases self,
    {
        match self {
            ArgType::Bool => ArgType::Bool,
            ArgType::U32 => ArgType::U32,
            ArgType::I32 => ArgType::I32,
            ArgType::U64 => ArgType::U64,
            ArgType::I64 => ArgType::I64,
            ArgType::F32 => ArgType::F32,
            ArgType::F64 => ArgType::F64,
            ArgType::String => ArgType::String,
            ArgType::Array(e) => ArgType::Array(Box::new((**e).clone())),
            ArgType::KvList => ArgType::KvList,
            ArgType::Rect => ArgType::Rect,
            ArgType::Named(s) => ArgType::Named(s.clone()),
            ArgType::Enum(s) => ArgType::Enum(s.clone()),
        }
    }
}

impl View for ArgType {
    type V = ArgTypeView;

    open spec fn view(&self) -> ArgTypeView {
        argtype_view(*self)
    }
}

/// The type a scalar type name stands for; `array` stands for an array of
/// `u32` until its element type is known.
pub open spec fn scalar_type(s: Seq<char>) -> Option<ArgTypeView> {
    if s == "bool"@ {
        Some(ArgTypeView::Bool)
    } else if s == "u32"@ {
        Some(ArgTypeView::U32)
    } else if s == "i32"@ {
        Some(ArgTypeView::I32)
    } else if s == "u64"@ {
        Some(ArgTypeView::U64)
    } else if s == "i64"@ {
        Some(ArgTypeView::I64)
    } else if s == "f32"@ {
        Some(ArgTypeView::F32)
    } else if s == "f64"@ {
        Some(ArgTypeView::F64)
    } else if s == "string"@ {
        Some(ArgTypeView::Str)
    } else if s == "kv_list"@ {
        Some(ArgTypeView::KvList)
    } else if s == "rect"@ {
        Some(ArgTypeView::Rect)
    } else if s == "array"@ {
        Some(ArgTypeView::Array(Box::new(ArgTypeView::U32)))
    } else {
        None
    }
}

impl ArgType {
    /// The type named by a scalar type name.
    pub fn parse(s: &str) -> (r: Option<ArgType>)
        ensures
            match scalar_type(s@) {
                Some(t) => r matches Some(x) && x@ == t,
                None => r is None,
            },
    {
        if str_eq(s, "bool") {
            Some(ArgType::Bool)
        } else if str_eq(s, "u32") {
            Some(ArgType::U32)
        } else if str_eq(s, "i32") {
            Some(ArgType::I32)
        } else if str_eq(s, "u64") {
            Some(ArgType::U64)
        } else if str_eq(s, "i64") {
            Some(ArgType::I64)
        } else if str_eq(s, "f32") {
            Some(ArgType::F32)
        } else if str_eq(s, "f64") {
            Some(ArgType::F64)
        } else if str_eq(s, "string") {
            Some(ArgType::String)
        } else if str_eq(s, "kv_list") {
            Some(ArgType::KvList)
        } else if str_eq(s, "rect") {
            Some(ArgType::Rect)
        } else if str_eq(s, "array") {
            let r = ArgType::Array(Box::new(ArgType::U32));
            assert(argtype_view(ArgType::U32) == ArgTypeView::U32);
            Some(r)
        } else {
            None
        }
    }

}

/// A named, typed message argument or struct field.
#[derive(Debug, Clone)]
pub struct Arg {
    pub name: String,
    pub ty: ArgType,
}

pub struct ArgView {
    pub name: Seq<char>,
    pub ty: ArgTypeView,
}

impl View for Arg {
    type V = ArgView;

    open spec fn view(&self) -> ArgView {
        ArgView { name: self.name@, ty: self.ty@ }
    }
}

pub open spec fn args_view(v: Seq<Arg>) -> Seq<ArgView> {
    v.map_values(|a: Arg| a@)
}

impl Arg {
    pub fn duplicate(&self) -> (r: Arg)
        ensures
            r@ == self@,
    {
        Arg { name: self.name.clone(), ty: self.ty.clone() }
    }
}

/// Copies a list of arguments.
pub fn duplicate_args(v: &Vec<Arg>) -> (r: Vec<Arg>)
    ensures
        args_view(r@) == args_view(v@),
{
    let mut r: Vec<Arg> = Vec::new();
    let mut i: usize = 0;
    while i < v.len()
        invariant
            i <= v@.len(),
            args_view(r@) == args_view(v@).subrange(0, i as int),
        decreases v@.len() - i,
    {
        let a = v[i].duplicate();
        proof {
            assert(args_view(r@.push(a)) =~= args_view(r@).push(a@));
            assert(args_view(v@).subrange(0, i + 1) =~= args_view(v@).subrange(0, i as int).push(
                v@[i as int]@,
            ));
        }
        r.push(a);
        i = i + 1;
    }
    assert(args_view(v@).subrange(0, i as int) =~= args_view(v@));
    r
}

/// A struct type declared by the protocol.
#[derive(Debug, Clone)]
pub struct NamedStruct {
    pub name: String,
    pub fields: Vec<Arg>,
}

pub struct StructView {
    pub name: Seq<char>,
    pub fields: Seq<ArgView>,
}

impl View for NamedStruct {
    type V = StructView;

    open spec fn view(&self) -> StructView {
        StructView { name: self.name@, fields: args_view(self.fields@) }
    }
}

pub open spec fn structs_view(v: Seq<NamedStruct>) -> Seq<StructView> {
    v.map_values(|x: NamedStruct| x@)
}

impl NamedStruct {
    pub fn duplicate(&self) -> (r: NamedStruct)
        ensures
            r@ == self@,
    {
        NamedStruct { name: self.name.clone(), fields: duplicate_args(&self.fields) }
    }
}

/// One entry of a named enum.
#[derive(Debug, Clone)]
pub struct EnumEntry {
    pub name: String,
    pub value: u32,
}

pub struct EntryView {
    pub name: Seq<char>,
    pub value: u32,
}

impl View for EnumEntry {
    type V = EntryView;

    open spec fn view(&self) -> EntryView {
        EntryView { name: self.name@, value: self.value }
    }
}

pub open spec fn entries_view(v: Seq<EnumEntry>) -> Seq<EntryView> {
    v.map_values(|x: EnumEntry| x@)
}

/// An enum type declared by the protocol.
#[derive(Debug, Clone)]
pub struct NamedEnum {
    pub name: String,
    pub entries: Vec<EnumEntry>,
}

pub struct EnumView {
    pub name: Seq<char>,
    pub entries: Seq<EntryView>,
}

impl View for NamedEnum {
    type V = EnumView;

    open spec fn view(&self) -> EnumView {
        EnumView { name: self.name@, entries: entries_view(self.entries@) }
    }
}

pub open spec fn enums_view(v: Seq<NamedEnum>) -> Seq<EnumView> {
    v.map_values(|x: NamedEnum| x@)
}

/// How many file descriptors travel with a message.
#[derive(Debug, Clone)]
pub enum FdSpec {
    NoFds,
    Fixed(u32),
    /// Product of field names, e.g. "count * planes_per_buffer".
    Product(Vec<String>),
}

pub enum FdView {
    NoFds,
    Fixed(u32),
    Product(Seq<Seq<char>>),
}

impl View for FdSpec {
    type V = FdView;

    open spec fn view(&self) -> FdView {
        match self {
            FdSpec::NoFds => FdView::NoFds,
            FdSpec::Fixed(n) => FdView::Fixed(*n),
            FdSpec::Product(v) => FdView::Product(strings_view(v@)),
        }
    }
}

/// A request, inbound event or event.
#[derive(Debug, Clone)]
pub struct Message {
    pub name: String,
    pub opcode: u16,
    pub args: Vec<Arg>,
    pub fds: FdSpec,
}

pub struct MessageView {
    pub name: Seq<char>,
    pub opcode: u16,
    pub args: Seq<ArgView>,
    pub fds: FdView,
}

impl View for Message {
    type V = MessageView;

    open spec fn view(&self) -> MessageView {
        MessageView { name: self.name@, opcode: self.opcode, args: args_view(self.args@), fds: self.fds@ }
    }
}

pub open spec fn messages_view(v: Seq<Message>) -> Seq<MessageView> {
    v.map_values(|x: Message| x@)
}

/// Naming style for the daemon-to-peer direction.
/// `<request>` keeps Wayland-style enum and opcode names.
#[derive(Debug, Clone, Copy, PartialEq, Eq)]
pub enum InboundKind {
    Request,
    EventIn,
}

/// A parsed protocol description.
#[derive(Debug, Clone)]
pub struct Protocol {
    pub name: String,
    pub version: u32,
    pub inbound_kind: InboundKind,
    pub enums: Vec<NamedEnum>,
    pub structs: Vec<NamedStruct>,
    pub requests: Vec<Message>,
    pub events: Vec<Message>,
}

pub struct ProtocolView {
    pub name: Seq<char>,
    pub version: u32,
    pub inbound_kind: InboundKind,
    pub enums: Seq<EnumView>,
    pub structs: Seq<StructView>,
    pub requests: Seq<MessageView>,
    pub events: Seq<MessageView>,
}

impl View for Protocol {
    type V = ProtocolView;

    open spec fn view(&self) -> ProtocolView {
        ProtocolView {
            name: self.name@,
            version: self.version,
            inbound_kind: self.inbound_kind,
            enums: enums_view(self.enums@),
            structs: structs_view(self.structs@),
            requests: messages_view(self.requests@),
            events: messages_view(self.events@),
        }
    }
}

/// The type name under which a type is written in a description; struct
/// and enum types are written under their own names.
pub open spec fn wire_name(t: ArgTypeView) -> Option<Seq<char>> {
    match t {
        ArgTypeView::Bool => Some("bool"@),
        ArgTypeView::U32 => Some("u32"@),
        ArgTypeView::I32 => Some("i32"@),
        ArgTypeView::U64 => Some("u64"@),
        ArgTypeView::I64 => Some("i64"@),
        ArgTypeView::F32 => Some("f32"@),
        ArgTypeView::F64 => Some("f64"@),
        ArgTypeView::Str => Some("string"@),
        ArgTypeView::Array(_) => Some("array"@),
        ArgTypeView::KvList => Some("kv_list"@),
        ArgTypeView::Rect => Some("rect"@),
        ArgTypeView::Named(_) => None,
        ArgTypeView::Enum(_) => None,
    }
}

/// Each scalar type name stands for the type of that name, and every
/// scalar type is read back from its name: `i32` is `I32`, `string` is
/// `Str`, and `array` is an array (of `u32` until its element is known).
pub proof fn lemma_scalar_names_round_trip(s: Seq<char>, t: ArgTypeView)
    ensures
        scalar_type(s) matches Some(u) ==> wire_name(u) == Some(s),
        scalar_type(s) matches Some(u) ==> (u is Array <==> s == "array"@),
        wire_name(t) == Some(s) && !(t is Array) ==> scalar_type(s) == Some(t),
        wire_name(t) == Some(s) && t is Array ==> scalar_type(s) == Some(
            ArgTypeView::Array(Box::new(ArgTypeView::U32)),
        ),
{
    reveal_strlit("bool");
    reveal_strlit("u32");
    reveal_strlit("i32");
    reveal_strlit("u64");
    reveal_strlit("i64");
    reveal_strlit("f32");
    reveal_strlit("f64");
    reveal_strlit("string");
    reveal_strlit("array");
    reveal_strlit("kv_list");
    reveal_strlit("rect");
    // The scalar type names differ from each other.
    assert("bool"@.len() != "u32"@.len());
    assert("bool"@.len() != "i32"@.len());
    assert("bool"@.len() != "u64"@.len());
    assert("bool"@.len() != "i64"@.len());
    assert("bool"@.len() != "f32"@.len());
    assert("bool"@.len() != "f64"@.len());
    assert("bool"@.len() != "string"@.len());
    assert("bool"@.len() != "array"@.len());
    assert("bool"@.len() != "kv_list"@.len());
    assert("bool"@[0] != "rect"@[0]);
    assert("u32"@[0] != "i32"@[0]);
    assert("u32"@[1] != "u64"@[1]);
    assert("u32"@[0] != "i64"@[0]);
    assert("u32"@[0] != "f32"@[0]);
    assert("u32"@[0] != "f64"@[0]);
    assert("u32"@.len() != "string"@.len());
    assert("u32"@.len() != "array"@.len());
    assert("u32"@.len() != "kv_list"@.len());
    assert("u32"@.len() != "rect"@.len());
    assert("i32"@[0] != "u64"@[0]);
    assert("i32"@[1] != "i64"@[1]);
    assert("i32"@[0] != "f32"@[0]);
    assert("i32"@[0] != "f64"@[0]);
    assert("i32"@.len() != "string"@.len());
    assert("i32"@.len() != "array"@.len());
    assert("i32"@.len() != "kv_list"@.len());
    assert("i32"@.len() != "rect"@.len());
    assert("u64"@[0] != "i64"@[0]);
    assert("u64"@[0] != "f32"@[0]);
    assert("u64"@[0] != "f64"@[0]);
    assert("u64"@.len() != "string"@.len());
    assert("u64"@.len() != "array"@.len());
    assert("u64"@.len() != "kv_list"@.len());
    assert("u64"@.len() != "rect"@.len());
    assert("i64"@[0] != "f32"@[0]);
    assert("i64"@[0] != "f64"@[0]);
    assert("i64"@.len() != "string"@.len());
    assert("i64"@.len() != "array"@.len());
    assert("i64"@.len() != "kv_list"@.len());
    assert("i64"@.len() != "rect"@.len());
    assert("f32"@[1] != "f64"@[1]);
    assert("f32"@.len() != "string"@.len());
    assert("f32"@.len() != "array"@.len());
    assert("f32"@.len() != "kv_list"@.len());
    assert("f32"@.len() != "rect"@.len());
    assert("f64"@.len() != "string"@.len());
    assert("f64"@.len() != "array"@.len());
    assert("f64"@.len() != "kv_list"@.len());
    assert("f64"@.len() != "rect"@.len());
    assert("string"@.len() != "array"@.len());
    assert("string"@.len() != "kv_list"@.len());
    assert("string"@.len() != "rect"@.len());
    assert("array"@.len() != "kv_list"@.len());
    assert("array"@.len() != "rect"@.len());
    assert("kv_list"@.len() != "rect"@.len());
}

} // verus!
