//! Struct ordering and the checks of file-descriptor count paths.

use vstd::prelude::*;
use crate::text::{concat2, concat3, concat4, concat5, contains_string, split, split_exec, split_from, str_eq, strings_view};
use crate::wayproto::xml::{ParseError, err_at};
use crate::wayproto::types::{Arg, ArgType, FdSpec, FdView, Message, NamedStruct, StructView, args_view, messages_view, structs_view};
use crate::wayproto::spec::{check_path, check_paths, find_arg, find_struct, insert_pos, lemma_insert_pos, lex_le, order_loop, order_structs_spec, sort_names, struct_names_of, undeclared_struct, validate_fd_paths_spec, visit, visit_fields, walk_path};

verus! {

/// Lexicographic comparison of two strings by their characters.
pub fn lex_le_exec(a: &str, b: &str) -> (r: bool)
    ensures
        r == lex_le(a@, b@),
{
    let n = a.unicode_len();
    let m = b.unicode_len();
    let mut i: usize = 0;
    assert(a@.subrange(0, n as int) =~= a@);
    assert(b@.subrange(0, m as int) =~= b@);
    while i < n && i < m
        invariant
            n == a@.len(),
            m == b@.len(),
            i <= n,
            i <= m,
            lex_le(a@, b@) == lex_le(a@.subrange(i as int, n as int), b@.subrange(i as int, m as int)),
        decreases n - i,
    {
        let ca = a.get_char(i);
        let cb = b.get_char(i);
        let ghost sa = a@.subrange(i as int, n as int);
        let ghost sb = b@.subrange(i as int, m as int);
        assert(sa[0] == ca && sb[0] == cb);
        if ca != cb {
            return (ca as u32) < (cb as u32);
        }
        assert(sa.drop_first() =~= a@.subrange(i + 1, n as int));
        assert(sb.drop_first() =~= b@.subrange(i + 1, m as int));
        i = i + 1;
    }
    i >= n
}

/// `names` in ascending order.
pub fn sort_strings(names: &Vec<String>) -> (r: Vec<String>)
    ensures
        strings_view(r@) == sort_names(strings_view(names@)),
{
    let mut sorted: Vec<String> = Vec::new();
    let mut i: usize = 0;
    assert(strings_view(names@).subrange(0, 0) =~= Seq::<Seq<char>>::empty());
    assert(strings_view(sorted@) =~= Seq::<Seq<char>>::empty());
    while i < names.len()
        invariant
            i <= names@.len(),
            strings_view(sorted@) == sort_names(strings_view(names@).subrange(0, i as int)),
        decreases names@.len() - i,
    {
        let x = &names[i];
        let ghost s = strings_view(sorted@);
        let mut j: usize = 0;
        proof {
            lemma_insert_pos(x@, s, 0);
        }
        while j < sorted.len() && !lex_le_exec(x.as_str(), sorted[j].as_str())
            invariant
                j <= sorted@.len(),
                s == strings_view(sorted@),
                insert_pos(x@, s, j as int) == insert_pos(x@, s, 0),
            decreases sorted@.len() - j,
        {
            j = j + 1;
        }
        let ghost t = strings_view(names@).subrange(0, i + 1);
        assert(t.drop_last() =~= strings_view(names@).subrange(0, i as int));
        assert(t.last() == x@);
        sorted.insert(j, x.clone());
        assert(strings_view(sorted@) =~= s.insert(j as int, x@));
        i = i + 1;
    }
    assert(strings_view(names@).subrange(0, names@.len() as int) =~= strings_view(names@));
    sorted
}

/// The index of the first struct named `name`.
fn find_struct_index(by: &Vec<NamedStruct>, name: &str) -> (r: Option<usize>)
    ensures
        match find_struct(structs_view(by@), name@, 0) {
            Some(s) => r matches Some(i) && i < by@.len() && by@[i as int]@ == s,
            None => r is None,
        },
{
    let mut i: usize = 0;
    while i < by.len()
        invariant
            i <= by@.len(),
            find_struct(structs_view(by@), name@, i as int) == find_struct(structs_view(by@), name@, 0),
        decreases by@.len() - i,
    {
        assert(structs_view(by@)[i as int] == by@[i as int]@);
        if str_eq(by[i].name.as_str(), name) {
            return Some(i);
        }
        i = i + 1;
    }
    None
}

/// The index of the first argument named `name`.
fn find_arg_index(args: &Vec<Arg>, name: &str) -> (r: Option<usize>)
    ensures
        match find_arg(args_view(args@), name@, 0) {
            Some(t) => r matches Some(i) && i < args@.len() && args@[i as int].ty@ == t,
            None => r is None,
        },
{
    let mut i: usize = 0;
    while i < args.len()
        invariant
            i <= args@.len(),
            find_arg(args_view(args@), name@, i as int) == find_arg(args_view(args@), name@, 0),
        decreases args@.len() - i,
    {
        assert(args_view(args@)[i as int] == args@[i as int]@);
        if str_eq(args[i].name.as_str(), name) {
            return Some(i);
        }
        i = i + 1;
    }
    None
}

fn undeclared(name: &str) -> (e: ParseError)
    ensures
        e@ == undeclared_struct(name@),
{
    err_at(0, concat3("struct ", name, " is not declared"))
}

/// Depth-first visit of struct `name`, appending it after its dependencies.
#[verifier::loop_isolation(false)]
fn visit_struct(
    by: &Vec<NamedStruct>,
    name: &String,
    visiting: &mut Vec<String>,
    visited: &mut Vec<String>,
    out: &mut Vec<NamedStruct>,
) -> (r: Result<(), ParseError>)
    ensures
        match visit(
            structs_view(by@),
            name@,
            strings_view(old(visiting)@),
            strings_view(old(visited)@),
            structs_view(old(out)@),
        ) {
            Ok((v, o)) => r is Ok && strings_view(final(visited)@) == v && structs_view(
                final(out)@,
            ) == o && final(visiting)@ == old(visiting)@,
            Err(e) => r matches Err(x) && x@ == e,
        },
    decreases by@.len() - old(visiting)@.len(),
{
    let ghost bv = structs_view(by@);
    if contains_string(visited, name.as_str()) {
        return Ok(());
    }
    if contains_string(visiting, name.as_str()) {
        return Err(err_at(0, concat2("recursive struct reference involving ", name.as_str())));
    }
    let idx = match find_struct_index(by, name.as_str()) {
        Some(i) => i,
        None => {
            return Err(undeclared(name.as_str()));
        },
    };
    if visiting.len() >= by.len() {
        return Err(undeclared(name.as_str()));
    }
    let item = &by[idx];
    let ghost v0 = strings_view(visiting@).push(name@);
    let ghost vis0 = strings_view(visited@);
    let ghost out0 = structs_view(out@);
    visiting.push(name.clone());
    assert(strings_view(visiting@) =~= v0);
    let mut k: usize = 0;
    while k < item.fields.len()
        invariant
            k <= item.fields@.len(),
            item@.fields == args_view(item.fields@),
            strings_view(visiting@) == v0,
            visiting@.len() == old(visiting)@.len() + 1,
            visiting@.len() <= by@.len(),
            visiting@.subrange(0, old(visiting)@.len() as int) == old(visiting)@,
            visit_fields(bv, item@.fields, 0, v0, vis0, out0) == visit_fields(
                bv,
                item@.fields,
                k as int,
                v0,
                strings_view(visited@),
                structs_view(out@),
            ),
        decreases item.fields@.len() - k,
    {
        assert(item@.fields[k as int] == item.fields@[k as int]@);
        match &item.fields[k].ty {
            ArgType::Named(dep) => {
                visit_struct(by, dep, visiting, visited, out)?;
            },
            _ => {},
        }
        k = k + 1;
    }
    let _ = visiting.pop();
    assert(visiting@ =~= old(visiting)@);
    let ghost vis1 = strings_view(visited@);
    let ghost out1 = structs_view(out@);
    visited.push(name.clone());
    assert(strings_view(visited@) =~= vis1.push(name@));
    out.push(item.duplicate());
    assert(structs_view(out@) =~= out1.push(item@));
    Ok(())
}

/// The structs ordered so that each follows the structs it contains,
/// visiting names in ascending order; a cycle is an error.
#[verifier::loop_isolation(false)]
pub fn order_structs(structs: Vec<NamedStruct>) -> (r: Result<Vec<NamedStruct>, ParseError>)
    ensures
        match order_structs_spec(structs_view(structs@)) {
            Ok(o) => r matches Ok(v) && structs_view(v@) == o,
            Err(e) => r matches Err(x) && x@ == e,
        },
{
    let mut names: Vec<String> = Vec::new();
    let mut i: usize = 0;
    while i < structs.len()
        invariant
            i <= structs@.len(),
            strings_view(names@) == struct_names_of(structs_view(structs@)).subrange(0, i as int),
        decreases structs@.len() - i,
    {
        assert(struct_names_of(structs_view(structs@))[i as int] == structs@[i as int].name@);
        let nm = structs[i].name.clone();
        assert(strings_view(names@.push(nm)) =~= strings_view(names@).push(nm@));
        names.push(nm);
        i = i + 1;
        assert(strings_view(names@) =~= struct_names_of(structs_view(structs@)).subrange(
            0,
            i as int,
        ));
    }
    assert(struct_names_of(structs_view(structs@)).subrange(0, i as int) =~= struct_names_of(
        structs_view(structs@),
    ));
    let sorted = sort_strings(&names);
    let ghost bv = structs_view(structs@);
    let ghost sn = strings_view(sorted@);
    let mut visiting: Vec<String> = Vec::new();
    let mut visited: Vec<String> = Vec::new();
    let mut out: Vec<NamedStruct> = Vec::new();
    assert(strings_view(visited@) =~= Seq::<Seq<char>>::empty());
    assert(structs_view(out@) =~= Seq::<StructView>::empty());
    let mut j: usize = 0;
    while j < sorted.len()
        invariant
            j <= sorted@.len(),
            sn == strings_view(sorted@),
            bv == structs_view(structs@),
            visiting@.len() == 0,
            order_loop(bv, sn, 0, Seq::empty(), Seq::empty()) == order_loop(
                bv,
                sn,
                j as int,
                strings_view(visited@),
                structs_view(out@),
            ),
        decreases sorted@.len() - j,
    {
        assert(strings_view(visiting@) =~= Seq::<Seq<char>>::empty());
        assert(sn[j as int] == sorted@[j as int]@);
        visit_struct(&structs, &sorted[j], &mut visiting, &mut visited, &mut out)?;
        j = j + 1;
    }
    Ok(out)
}

pub proof fn lemma_split_nonempty(s: Seq<char>, c: char)
    ensures
        split(s, c).len() >= 1,
{
    reveal_with_fuel(split_from, 1);
}

/// Checks one `count_expr` path of message `m` against the structs.
#[verifier::loop_isolation(false)]
fn check_path_exec(m: &Message, path: &String, structs: &Vec<NamedStruct>) -> (r: Result<
    (),
    ParseError,
>)
    ensures
        match check_path(m@, path@, structs_view(structs@)) {
            Ok(_) => r is Ok,
            Err(e) => r matches Err(x) && x@ == e,
        },
{
    let segs = split_exec(path.as_str(), '.');
    proof {
        lemma_split_nonempty(path@, '.');
    }
    let ghost sv = split(path@, '.');
    assert(sv[0] == segs@[0]@);
    let root_idx = match find_arg_index(&m.args, segs[0].as_str()) {
        Some(i) => i,
        None => {
            let msg = concat4("count_expr path ", path.as_str(), " does not start with a field of message ", m.name.as_str());
            return Err(err_at(0, msg));
        },
    };
    let mut ty = m.args[root_idx].ty.clone();
    let mut j: usize = 1;
    while j < segs.len()
        invariant
            1 <= j <= segs@.len(),
            strings_view(segs@) == sv,
            sv == split(path@, '.'),
            walk_path(sv, 1, m@.args[root_idx as int].ty, path@, structs_view(structs@))
                == walk_path(sv, j as int, ty@, path@, structs_view(structs@)),
        decreases segs@.len() - j,
    {
        assert(sv[j as int] == segs@[j as int]@);
        let next = match &ty {
            ArgType::Named(sname) => {
                let si = match find_struct_index(structs, sname.as_str()) {
                    Some(i) => i,
                    None => {
                        return Err(undeclared(sname.as_str()));
                    },
                };
                let fi = match find_arg_index(&structs[si].fields, segs[j].as_str()) {
                    Some(i) => i,
                    None => {
                        let mut msg = concat5(
                            "count_expr path ",
                            path.as_str(),
                            " has no field ",
                            segs[j].as_str(),
                            " in struct ",
                        );
                        msg.append(sname.as_str());
                        return Err(err_at(0, msg));
                    },
                };
                structs[si].fields[fi].ty.clone()
            },
            _ => {
                return Err(
                    err_at(
                        0,
                        concat4(
                            "count_expr path ",
                            path.as_str(),
                            " traverses non-struct field ",
                            segs[j].as_str(),
                        ),
                    ),
                );
            },
        };
        ty = next;
        j = j + 1;
    }
    match ty {
        ArgType::U32 | ArgType::U64 => Ok(()),
        _ => Err(
            err_at(0, concat3("count_expr path ", path.as_str(), " must resolve to u32 or u64")),
        ),
    }
}

/// Checks that every `count_expr` path of the messages names a `u32` or `u64`
/// field, following struct-typed fields through the structs.
#[verifier::loop_isolation(false)]
pub fn validate_fd_paths(messages: &Vec<Message>, structs: &Vec<NamedStruct>) -> (r: Result<
    (),
    ParseError,
>)
    ensures
        match validate_fd_paths_spec(messages_view(messages@), 0, structs_view(structs@)) {
            Ok(_) => r is Ok,
            Err(e) => r matches Err(x) && x@ == e,
        },
{
    let ghost mv = messages_view(messages@);
    let mut i: usize = 0;
    while i < messages.len()
        invariant
            i <= messages@.len(),
            mv == messages_view(messages@),
            validate_fd_paths_spec(mv, 0, structs_view(structs@)) == validate_fd_paths_spec(
                mv,
                i as int,
                structs_view(structs@),
            ),
        decreases messages@.len() - i,
    {
        let m = &messages[i];
        assert(mv[i as int] == m@);
        match &m.fds {
            FdSpec::Product(paths) => {
                let mut k: usize = 0;
                while k < paths.len()
                    invariant
                        k <= paths@.len(),
                        m@.fds == FdView::Product(strings_view(paths@)),
                        check_paths(m@, strings_view(paths@), 0, structs_view(structs@))
                            == check_paths(
                            m@,
                            strings_view(paths@),
                            k as int,
                            structs_view(structs@),
                        ),
                    decreases paths@.len() - k,
                {
                    assert(strings_view(paths@)[k as int] == paths@[k as int]@);
                    check_path_exec(m, &paths[k], structs)?;
                    k = k + 1;
                }
            },
            _ => {},
        }
        i = i + 1;
    }
    Ok(())
}

} // verus!
