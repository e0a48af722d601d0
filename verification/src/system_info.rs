//! The operating system's name, as `os-release` gives it in its `NAME` line.

use vstd::prelude::*;
use crate::text::{index_from, lemma_index_from, split, split_exec, str_eq, strings_view, trim, trim_exec};

verus! {

broadcast use vstd::string::group_string_axioms;

/// `s[i..]` with every backslash dropped and the character after it kept
/// as it is; `None` when a backslash ends the text.
pub open spec fn unescape_from(s: Seq<char>, i: int) -> Option<Seq<char>>
    decreases s.len() - i,
{
    if i < 0 || i >= s.len() {
        Some(Seq::empty())
    } else if s[i] == '\\' {
        if i + 1 >= s.len() {
            None
        } else {
            match unescape_from(s, i + 2) {
                Some(rest) => Some(seq![s[i + 1]] + rest),
                None => None,
            }
        }
    } else {
        match unescape_from(s, i + 1) {
            Some(rest) => Some(seq![s[i]] + rest),
            None => None,
        }
    }
}

/// A value of an `os-release` line, its quotes removed: double quotes and
/// bare values are unescaped, single quotes are taken literally.
pub open spec fn value_of(v: Seq<char>) -> Option<Seq<char>> {
    if v.len() >= 2 && v[0] == '"' && v[v.len() - 1] == '"' {
        unescape_from(v.subrange(1, v.len() - 1), 0)
    } else if v.len() >= 2 && v[0] == '\'' && v[v.len() - 1] == '\'' {
        Some(v.subrange(1, v.len() - 1))
    } else {
        unescape_from(v, 0)
    }
}

/// The value of `line` when, trimmed, it is a `NAME=value` assignment that
/// is not a comment.
pub open spec fn name_line_value(line: Seq<char>) -> Option<Seq<char>> {
    let t = trim(line);
    let k = index_from(t, '=', 0);
    if t.len() == 0 || t[0] == '#' || k >= t.len() {
        None
    } else if trim(t.subrange(0, k)) != "NAME"@ {
        None
    } else {
        value_of(trim(t.subrange(k + 1, t.len() as int)))
    }
}

/// The value of the last `NAME` line among `lines`.
pub open spec fn last_name(lines: Seq<Seq<char>>) -> Option<Seq<char>>
    decreases lines.len(),
{
    if lines.len() == 0 {
        None
    } else {
        match name_line_value(lines.last()) {
            Some(v) => Some(v),
            None => last_name(lines.drop_last()),
        }
    }
}

/// The operating system's name in the text of an `os-release` file: the
/// value of its last valid `NAME` line. The file is read line by line; the
/// pieces between newlines are those lines, up to an empty piece after a
/// final newline and a carriage return before a newline, both of which
/// trimming makes irrelevant.
pub open spec fn os_name_of(content: Seq<char>) -> Option<Seq<char>> {
    last_name(split(content, '\n'))
}

/// The characters of an optional string.
pub open spec fn opt_view(r: Option<String>) -> Option<Seq<char>> {
    match r {
        Some(s) => Some(s@),
        None => None,
    }
}

/// Drops every backslash of `value` and keeps the character after it;
/// `None` when a backslash ends the value.
pub fn unescape(value: &str) -> (r: Option<String>)
    ensures
        opt_view(r) == unescape_from(value@, 0),
{
    let n = value.unicode_len();
    let mut result = String::new();
    let mut i: usize = 0;
    while i < n
        invariant
            n == value@.len(),
            i <= n,
            unescape_from(value@, 0) == match unescape_from(value@, i as int) {
                Some(rest) => Some(result@ + rest),
                None => None,
            },
        decreases n - i,
    {
        let ch = value.get_char(i);
        if ch == '\\' {
            if i + 1 >= n {
                return None;
            }
            let next = value.get_char(i + 1);
            proof {
                match unescape_from(value@, i + 2) {
                    Some(rest) => {
                        assert(result@.push(next) + rest =~= result@ + (seq![next] + rest));
                    },
                    None => {},
                }
            }
            result.append(value.substring_char(i + 1, i + 2));
            assert(value@.subrange(i + 1, i + 2) =~= seq![next]);
            i = i + 2;
        } else {
            proof {
                match unescape_from(value@, i + 1) {
                    Some(rest) => {
                        assert(result@.push(ch) + rest =~= result@ + (seq![ch] + rest));
                    },
                    None => {},
                }
            }
            result.append(value.substring_char(i, i + 1));
            assert(value@.subrange(i as int, i + 1) =~= seq![ch]);
            i = i + 1;
        }
    }
    assert(result@ + Seq::<char>::empty() =~= result@);
    Some(result)
}

/// The value of an `os-release` line with its quotes removed.
pub fn parse_value(value: &str) -> (r: Option<String>)
    ensures
        opt_view(r) == value_of(value@),
{
    let n = value.unicode_len();
    if n >= 2 {
        let first = value.get_char(0);
        let last = value.get_char(n - 1);
        if first == '"' && last == '"' {
            return unescape(value.substring_char(1, n - 1));
        }
        if first == '\'' && last == '\'' {
            return Some(String::from_str(value.substring_char(1, n - 1)));
        }
    }
    unescape(value)
}

/// The value of `line` when it assigns `NAME`.
pub fn parse_name_line(line: &str) -> (r: Option<String>)
    ensures
        opt_view(r) == name_line_value(line@),
{
    let t = trim_exec(line);
    let ts = t.as_str();
    let n = ts.unicode_len();
    if n == 0 || ts.get_char(0) == '#' {
        return None;
    }
    let mut k: usize = 0;
    proof {
        lemma_index_from(ts@, '=', 0);
    }
    while k < n && ts.get_char(k) != '='
        invariant
            n == ts@.len(),
            k <= n,
            index_from(ts@, '=', k as int) == index_from(ts@, '=', 0),
        decreases n - k,
    {
        k = k + 1;
    }
    if k >= n {
        return None;
    }
    let key = trim_exec(ts.substring_char(0, k));
    if !str_eq(key.as_str(), "NAME") {
        return None;
    }
    let value = trim_exec(ts.substring_char(k + 1, n));
    parse_value(value.as_str())
}

/// The operating system's name in the text of an `os-release` file.
pub fn parse_os_name(content: &str) -> (r: Option<String>)
    ensures
        opt_view(r) == os_name_of(content@),
{
    let lines = split_exec(content, '\n');
    let ghost pieces = strings_view(lines@);
    let mut i: usize = lines.len();
    assert(pieces.subrange(0, i as int) =~= pieces);
    while i > 0
        invariant
            i <= lines@.len(),
            pieces == strings_view(lines@),
            pieces == split(content@, '\n'),
            last_name(pieces) == last_name(pieces.subrange(0, i as int)),
        decreases i,
    {
        let found = parse_name_line(lines[i - 1].as_str());
        proof {
            let sub = pieces.subrange(0, i as int);
            assert(sub.last() == lines@[i - 1]@);
            assert(sub.drop_last() =~= pieces.subrange(0, i - 1));
        }
        if found.is_some() {
            return found;
        }
        i = i - 1;
    }
    assert(pieces.subrange(0, 0) =~= Seq::<Seq<char>>::empty());
    None
}

/// What the system tells of itself.
#[derive(Clone, Debug)]
pub struct SystemInfo {
    os_name: String,
}

impl View for SystemInfo {
    type V = Seq<char>;

    closed spec fn view(&self) -> Seq<char> {
        self.os_name@
    }
}

impl Default for SystemInfo {
    fn default() -> (s: Self)
        ensures
            s@ == Seq::<char>::empty(),
    {
        SystemInfo { os_name: String::new() }
    }
}

impl SystemInfo {
    /// The information in the text of an `os-release` file: the name of its
    /// last valid `NAME` line, or the empty name.
    pub fn from_os_release(content: &str) -> (s: Self)
        ensures
            s@ == match os_name_of(content@) {
                Some(name) => name,
                None => Seq::<char>::empty(),
            },
    {
        let os_name = match parse_os_name(content) {
            Some(name) => name,
            None => String::new(),
        };
        SystemInfo { os_name }
    }

    /// The operating system's name; empty when it is not known.
    pub fn os_name(&self) -> (r: &str)
        ensures
            r@ == self@,
    {
        self.os_name.as_str()
    }
}

} // verus!
