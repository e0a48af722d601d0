//! The minimal XML reader behind the protocol description format: an element
//! tree with attributes, comments and an optional `<?xml ... ?>` declaration.
//! Positions in errors are byte offsets into the source.

use vstd::prelude::*;
use vstd::string::*;
use crate::text::{utf8_lossy, string_from_utf8_lossy, owned, concat5, decimal, with_decimal};

verus! {

/// A parse failure: the byte offset and a message.
#[derive(Debug)]
pub struct ParseError {
    pub pos: usize,
    pub msg: String,
}

impl ParseError {
    /// The error as a sentence: `parse error at byte <pos>: <msg>`.
    pub fn to_string(&self) -> (r: String)
        ensures
            r@ == "parse error at byte "@ + decimal(self.pos as nat) + ": "@ + self.msg@,
    {
        let mut r = with_decimal("parse error at byte ", self.pos as u64, ": ");
        r.append(self.msg.as_str());
        r
    }
}

/// The mathematical value of a [`ParseError`].
pub struct ErrorView {
    pub pos: int,
    pub msg: Seq<char>,
}

impl View for ParseError {
    type V = ErrorView;

    open spec fn view(&self) -> ErrorView {
        ErrorView { pos: self.pos as int, msg: self.msg@ }
    }
}

pub open spec fn perr(pos: int, msg: Seq<char>) -> ErrorView {
    ErrorView { pos, msg }
}

/// Builds an error value.
pub fn err_at(pos: usize, msg: String) -> (e: ParseError)
    ensures
        e@ == perr(pos as int, msg@),
{
    ParseError { pos, msg }
}

/// An element of the document tree.
#[derive(Debug)]
pub struct Node {
    pub name: String,
    pub attrs: Vec<(String, String)>,
    pub children: Vec<Node>,
}

/// The mathematical value of a [`Node`].
pub struct SNode {
    pub name: Seq<char>,
    pub attrs: Seq<(Seq<char>, Seq<char>)>,
    pub children: Seq<SNode>,
}

pub open spec fn attrs_view(a: Seq<(String, String)>) -> Seq<(Seq<char>, Seq<char>)> {
    a.map_values(|p: (String, String)| (p.0@, p.1@))
}

pub open spec fn node_view(n: Node) -> SNode
    decreases n,
{
    SNode { name: n.name@, attrs: attrs_view(n.attrs@), children: nodes_view(n.children@) }
}

pub open spec fn nodes_view(ns: Seq<Node>) -> Seq<SNode>
    decreases ns,
{
    Seq::new(ns.len(), |i: int| if 0 <= i < ns.len() { node_view(ns[i]) } else { arbitrary() })
}

impl View for Node {
    type V = SNode;

    open spec fn view(&self) -> SNode {
        node_view(*self)
    }
}

// ---------------------------------------------------------------------------
// Byte classes and the grammar as spec functions over the source bytes.

pub open spec fn is_ascii_ws(b: u8) -> bool {
    b == 0x20 || b == 0x09 || b == 0x0a || b == 0x0c || b == 0x0d
}

pub open spec fn is_name_byte(b: u8) -> bool {
    (0x30 <= b <= 0x39) || (0x41 <= b <= 0x5a) || (0x61 <= b <= 0x7a) || b == 0x5f || b == 0x2d
        || b == 0x3a
}

/// `<!--`
pub open spec fn comment_open() -> Seq<u8> {
    seq![0x3cu8, 0x21u8, 0x2du8, 0x2du8]
}

/// `-->`
pub open spec fn comment_close() -> Seq<u8> {
    seq![0x2du8, 0x2du8, 0x3eu8]
}

/// `<?xml`
pub open spec fn decl_open() -> Seq<u8> {
    seq![0x3cu8, 0x3fu8, 0x78u8, 0x6du8, 0x6cu8]
}

/// `?>`
pub open spec fn decl_close() -> Seq<u8> {
    seq![0x3fu8, 0x3eu8]
}

/// `</`
pub open spec fn close_open() -> Seq<u8> {
    seq![0x3cu8, 0x2fu8]
}

/// The bytes of `s` at `p` begin with `needle`.
pub open spec fn at(s: Seq<u8>, p: int, needle: Seq<u8>) -> bool {
    0 <= p && p + needle.len() <= s.len() && s.subrange(p, p + needle.len()) == needle
}

/// The first position at or after `p` that is not ASCII whitespace.
pub open spec fn skip_ws(s: Seq<u8>, p: int) -> int
    decreases s.len() - p,
{
    if 0 <= p < s.len() && is_ascii_ws(s[p]) {
        skip_ws(s, p + 1)
    } else {
        p
    }
}

/// The first position at or after `p` where `needle` starts, or the end.
pub open spec fn scan_to(s: Seq<u8>, p: int, needle: Seq<u8>) -> int
    decreases s.len() - p,
{
    if p >= s.len() || at(s, p, needle) {
        p
    } else {
        scan_to(s, p + 1, needle)
    }
}

/// The first position at or after `p` holding byte `b`, or the end.
pub open spec fn scan_byte(s: Seq<u8>, p: int, b: u8) -> int
    decreases s.len() - p,
{
    if p >= s.len() || s[p] == b {
        p
    } else {
        scan_byte(s, p + 1, b)
    }
}

/// The end of the run of name bytes that starts at `p`.
pub open spec fn name_end(s: Seq<u8>, p: int) -> int
    decreases s.len() - p,
{
    if 0 <= p < s.len() && is_name_byte(s[p]) {
        name_end(s, p + 1)
    } else {
        p
    }
}

pub proof fn lemma_skip_ws(s: Seq<u8>, p: int)
    requires
        0 <= p <= s.len(),
    ensures
        p <= skip_ws(s, p) <= s.len(),
        skip_ws(s, p) < s.len() ==> !is_ascii_ws(s[skip_ws(s, p)]),
    decreases s.len() - p,
{
    if p < s.len() && is_ascii_ws(s[p]) {
        lemma_skip_ws(s, p + 1);
    }
}

pub proof fn lemma_scan_to(s: Seq<u8>, p: int, needle: Seq<u8>)
    requires
        0 <= p,
    ensures
        p <= scan_to(s, p, needle),
        p <= s.len() ==> scan_to(s, p, needle) <= s.len(),
        scan_to(s, p, needle) < s.len() ==> at(s, scan_to(s, p, needle), needle),
    decreases s.len() - p,
{
    if !(p >= s.len() || at(s, p, needle)) {
        lemma_scan_to(s, p + 1, needle);
    }
}

pub proof fn lemma_scan_byte(s: Seq<u8>, p: int, b: u8)
    requires
        0 <= p,
    ensures
        p <= scan_byte(s, p, b),
        p <= s.len() ==> scan_byte(s, p, b) <= s.len(),
        scan_byte(s, p, b) < s.len() ==> s[scan_byte(s, p, b)] == b,
    decreases s.len() - p,
{
    if !(p >= s.len() || s[p] == b) {
        lemma_scan_byte(s, p + 1, b);
    }
}

pub proof fn lemma_name_end(s: Seq<u8>, p: int)
    requires
        0 <= p <= s.len(),
    ensures
        p <= name_end(s, p) <= s.len(),
    decreases s.len() - p,
{
    if p < s.len() && is_name_byte(s[p]) {
        lemma_name_end(s, p + 1);
    }
}

/// Whitespace and comments skipped from `p`.
pub open spec fn skip_cws(s: Seq<u8>, p: int) -> Result<int, ErrorView>
    decreases s.len() - p,
{
    if p < 0 || p > s.len() {
        Ok(p)
    } else {
        let q = skip_ws(s, p);
        if q >= s.len() {
            Ok(q)
        } else if at(s, q, comment_open()) {
            let r = scan_to(s, q + 4, comment_close());
            if r >= s.len() {
                Err(perr(r, "unterminated comment"@))
            } else {
                proof {
                    lemma_skip_ws(s, p);
                    lemma_scan_to(s, q + 4, comment_close());
                }
                skip_cws(s, r + 3)
            }
        } else {
            Ok(q)
        }
    }
}

/// The optional declaration and the comments around it, skipped from `p`.
pub open spec fn skip_prolog(s: Seq<u8>, p: int) -> Result<int, ErrorView> {
    match skip_cws(s, p) {
        Err(e) => Err(e),
        Ok(q) => if at(s, q, decl_open()) {
            let r = scan_to(s, q, decl_close());
            if r >= s.len() {
                Err(perr(r, "unterminated xml decl"@))
            } else {
                skip_cws(s, r + 2)
            }
        } else {
            skip_cws(s, q)
        },
    }
}

/// A name at `p` and the position after it.
pub open spec fn parse_name(s: Seq<u8>, p: int) -> Result<(Seq<char>, int), ErrorView> {
    let q = name_end(s, p);
    if q == p {
        Err(perr(p, "expected name"@))
    } else {
        Ok((utf8_lossy(s.subrange(p, q)), q))
    }
}

/// A quoted attribute value at `p` and the position after its closing quote.
pub open spec fn parse_attr_value(s: Seq<u8>, p: int) -> Result<(Seq<char>, int), ErrorView> {
    if p >= s.len() {
        Err(perr(p, "expected attribute value"@))
    } else if s[p] != 0x22u8 && s[p] != 0x27u8 {
        Err(perr(p, "expected quote"@))
    } else {
        let q = scan_byte(s, p + 1, s[p]);
        if q >= s.len() {
            Err(perr(q, "unterminated attribute"@))
        } else {
            Ok((utf8_lossy(s.subrange(p + 1, q)), q + 1))
        }
    }
}

/// The attributes of a start tag from `p` on, appended to `acc`: the
/// attributes, the position after the tag, and whether the tag closed itself.
pub open spec fn parse_attrs(s: Seq<u8>, p: int, acc: Seq<(Seq<char>, Seq<char>)>) -> Result<
    (Seq<(Seq<char>, Seq<char>)>, int, bool),
    ErrorView,
>
    decreases s.len() - p,
{
    if p < 0 || p > s.len() {
        Err(perr(p, Seq::empty()))
    } else {
        let q = skip_ws(s, p);
        if q >= s.len() {
            Err(perr(q, "unterminated tag"@))
        } else if s[q] == 0x2fu8 {
            if q + 1 >= s.len() || s[q + 1] != 0x3eu8 {
                Err(perr(q + 1, "expected '>' after '/'"@))
            } else {
                Ok((acc, q + 2, true))
            }
        } else if s[q] == 0x3eu8 {
            Ok((acc, q + 1, false))
        } else {
            match parse_name(s, q) {
                Err(e) => Err(e),
                Ok((k, q1)) => {
                    let q2 = skip_ws(s, q1);
                    if q2 >= s.len() || s[q2] != 0x3du8 {
                        Err(perr(q2, "expected '='"@))
                    } else {
                        let q3 = skip_ws(s, q2 + 1);
                        match parse_attr_value(s, q3) {
                            Err(e) => Err(e),
                            Ok((v, q4)) => {
                                proof {
                                    lemma_skip_ws(s, p);
                                    lemma_name_end(s, q);
                                    lemma_skip_ws(s, q1);
                                    lemma_skip_ws(s, q2 + 1);
                                    lemma_scan_byte(s, q3 + 1, s[q3]);
                                }
                                parse_attrs(s, q4, acc.push((k, v)))
                            },
                        }
                    }
                },
            }
        }
    }
}

/// One element starting (after whitespace and comments) at `p`, and the
/// position after it.
pub open spec fn parse_element(s: Seq<u8>, p: int) -> Result<(SNode, int), ErrorView>
    decreases s.len() - p, 0int,
{
    if p < 0 || p > s.len() {
        Err(perr(p, Seq::empty()))
    } else {
        match skip_cws(s, p) {
            Err(e) => Err(e),
            Ok(p1) => if p1 >= s.len() || s[p1] != 0x3cu8 {
                Err(perr(p1, "expected element"@))
            } else {
                match parse_name(s, p1 + 1) {
                    Err(e) => Err(e),
                    Ok((name, p2)) => match parse_attrs(s, p2, Seq::empty()) {
                        Err(e) => Err(e),
                        Ok((attrs, p3, closed)) => if closed {
                            Ok((SNode { name, attrs, children: Seq::empty() }, p3))
                        } else {
                            proof {
                                lemma_skip_cws(s, p);
                                lemma_name_end(s, p1 + 1);
                                lemma_parse_attrs(s, p2, Seq::empty());
                            }
                            parse_children(s, p3, name, attrs, Seq::empty())
                        },
                    },
                }
            },
        }
    }
}

/// The children of an element whose start tag ended before `p`, appended to
/// `acc`, up to and including the matching close tag.
pub open spec fn parse_children(
    s: Seq<u8>,
    p: int,
    name: Seq<char>,
    attrs: Seq<(Seq<char>, Seq<char>)>,
    acc: Seq<SNode>,
) -> Result<(SNode, int), ErrorView>
    decreases s.len() - p, 1int,
{
    if p < 0 || p > s.len() {
        Err(perr(p, Seq::empty()))
    } else {
        match skip_cws(s, p) {
            Err(e) => Err(e),
            Ok(q) => if at(s, q, close_open()) {
                match parse_name(s, q + 2) {
                    Err(e) => Err(e),
                    Ok((close, q1)) => if close != name {
                        Err(
                            perr(
                                q1,
                                "mismatched close </"@ + close + "> vs <"@ + name + ">"@,
                            ),
                        )
                    } else {
                        let q2 = skip_ws(s, q1);
                        if q2 >= s.len() || s[q2] != 0x3eu8 {
                            Err(perr(q2, "expected '>' on close tag"@))
                        } else {
                            Ok((SNode { name, attrs, children: acc }, q2 + 1))
                        }
                    },
                }
            } else {
                proof {
                    lemma_skip_cws(s, p);
                }
                match parse_element(s, q) {
                    Err(e) => Err(e),
                    Ok((child, q1)) => if q < q1 <= s.len() {
                        parse_children(s, q1, name, attrs, acc.push(child))
                    } else {
                        Err(perr(q1, Seq::empty()))
                    },
                }
            },
        }
    }
}

pub proof fn lemma_skip_cws(s: Seq<u8>, p: int)
    requires
        0 <= p <= s.len(),
    ensures
        skip_cws(s, p) matches Ok(q) ==> p <= q <= s.len(),
    decreases s.len() - p,
{
    let q = skip_ws(s, p);
    lemma_skip_ws(s, p);
    if q < s.len() && at(s, q, comment_open()) {
        let r = scan_to(s, q + 4, comment_close());
        lemma_scan_to(s, q + 4, comment_close());
        if r < s.len() {
            lemma_skip_cws(s, r + 3);
        }
    }
}

pub proof fn lemma_parse_attrs(s: Seq<u8>, p: int, acc: Seq<(Seq<char>, Seq<char>)>)
    requires
        0 <= p <= s.len(),
    ensures
        parse_attrs(s, p, acc) matches Ok((_, q, _)) ==> p < q <= s.len(),
    decreases s.len() - p,
{
    let q = skip_ws(s, p);
    lemma_skip_ws(s, p);
    if q < s.len() && s[q] != 0x2fu8 && s[q] != 0x3eu8 {
        lemma_name_end(s, q);
        if let Ok((k, q1)) = parse_name(s, q) {
            let q2 = skip_ws(s, q1);
            lemma_skip_ws(s, q1);
            if q2 < s.len() && s[q2] == 0x3du8 {
                let q3 = skip_ws(s, q2 + 1);
                lemma_skip_ws(s, q2 + 1);
                if let Ok((v, q4)) = parse_attr_value(s, q3) {
                    lemma_scan_byte(s, q3 + 1, s[q3]);
                    lemma_parse_attrs(s, q4, acc.push((k, v)));
                }
            }
        }
    }
}

/// The document: the prolog, then the root element.
pub open spec fn parse_document(s: Seq<u8>) -> Result<SNode, ErrorView> {
    match skip_prolog(s, 0) {
        Err(e) => Err(e),
        Ok(p) => match parse_element(s, p) {
            Err(e) => Err(e),
            Ok((n, _)) => Ok(n),
        },
    }
}

// ---------------------------------------------------------------------------
// The reader.

/// A copy of `src[a..b]`.
fn copy_range(src: &[u8], a: usize, b: usize) -> (v: Vec<u8>)
    requires
        a <= b <= src@.len(),
    ensures
        v@ == src@.subrange(a as int, b as int),
{
    let mut v: Vec<u8> = Vec::new();
    let mut i = a;
    while i < b
        invariant
            a <= i <= b,
            b <= src@.len(),
            v@ == src@.subrange(a as int, i as int),
        decreases b - i,
    {
        v.push(src[i]);
        i = i + 1;
        assert(v@ =~= src@.subrange(a as int, i as int));
    }
    v
}

/// A cursor over the source bytes.
pub struct Parser<'a> {
    pub src: &'a [u8],
    pub pos: usize,
}

impl<'a> Parser<'a> {
    pub open spec fn wf(&self) -> bool {
        self.pos <= self.src@.len() <= usize::MAX
    }

    pub fn eof(&self) -> (r: bool)
        ensures
            r == (self.pos >= self.src@.len()),
    {
        self.pos >= self.src.len()
    }

    pub fn peek(&self) -> (r: u8)
        requires
            self.pos < self.src@.len(),
        ensures
            r == self.src@[self.pos as int],
    {
        self.src[self.pos]
    }

    pub fn starts_with(&self, needle: &[u8]) -> (r: bool)
        requires
            self.wf(),
        ensures
            r == at(self.src@, self.pos as int, needle@),
    {
        let n = needle.len();
        if n > self.src.len() - self.pos {
            return false;
        }
        let mut i: usize = 0;
        while i < n
            invariant
                self.wf(),
                n == needle@.len(),
                self.pos + n <= self.src@.len(),
                i <= n,
                forall|j: int| 0 <= j < i ==> self.src@[self.pos + j] == needle@[j],
            decreases n - i,
        {
            if self.src[self.pos + i] != needle[i] {
                assert(self.src@.subrange(self.pos as int, self.pos + n)[i as int] != needle@[i as int]);
                return false;
            }
            i = i + 1;
        }
        assert(self.src@.subrange(self.pos as int, self.pos + n) =~= needle@);
        true
    }

    pub fn advance(&mut self, n: usize)
        requires
            old(self).pos + n <= old(self).src@.len(),
            old(self).src@.len() <= usize::MAX,
        ensures
            final(self).src == old(self).src,
            final(self).pos == old(self).pos + n,
    {
        self.pos = self.pos + n;
    }

    pub fn skip_whitespace(&mut self)
        requires
            old(self).wf(),
        ensures
            final(self).src == old(self).src,
            final(self).pos == skip_ws(old(self).src@, old(self).pos as int),
            final(self).wf(),
    {
        proof {
            lemma_skip_ws(self.src@, self.pos as int);
        }
        while !self.eof() && is_ws_byte(self.peek())
            invariant
                self.wf(),
                self.src == old(self).src,
                skip_ws(self.src@, self.pos as int) == skip_ws(old(self).src@, old(self).pos as int),
            decreases self.src@.len() - self.pos,
        {
            self.pos = self.pos + 1;
        }
    }

    fn scan_needle(&mut self, needle: &[u8])
        requires
            old(self).wf(),
        ensures
            final(self).src == old(self).src,
            final(self).pos == scan_to(old(self).src@, old(self).pos as int, needle@),
            final(self).wf(),
    {
        proof {
            lemma_scan_to(self.src@, self.pos as int, needle@);
        }
        while !self.eof() && !self.starts_with(needle)
            invariant
                self.wf(),
                self.src == old(self).src,
                scan_to(self.src@, self.pos as int, needle@) == scan_to(
                    old(self).src@,
                    old(self).pos as int,
                    needle@,
                ),
            decreases self.src@.len() - self.pos,
        {
            self.advance(1);
        }
    }

    pub fn skip_comments_and_ws(&mut self) -> (r: Result<(), ParseError>)
        requires
            old(self).wf(),
        ensures
            final(self).src == old(self).src,
            final(self).wf(),
            match skip_cws(old(self).src@, old(self).pos as int) {
                Ok(q) => r is Ok && final(self).pos == q,
                Err(e) => r matches Err(x) && x@ == e,
            },
    {
        let ghost s = self.src@;
        loop
            invariant
                self.wf(),
                self.src == old(self).src,
                s == self.src@,
                skip_cws(s, self.pos as int) == skip_cws(s, old(self).pos as int),
            decreases self.src@.len() - self.pos,
        {
            let ghost p = self.pos as int;
            self.skip_whitespace();
            if self.eof() {
                return Ok(());
            }
            let open: [u8; 4] = [0x3c, 0x21, 0x2d, 0x2d];
            assert(open@ == comment_open());
            if self.starts_with(&open) {
                self.advance(4);
                let close: [u8; 3] = [0x2d, 0x2d, 0x3e];
                assert(close@ == comment_close());
                self.scan_needle(&close);
                if self.eof() {
                    return Err(err_at(self.pos, owned("unterminated comment")));
                }
                proof {
                    lemma_skip_ws(s, p);
                    lemma_scan_to(s, (skip_ws(s, p) + 4) as int, comment_close());
                }
                self.advance(3);
                continue;
            }
            return Ok(());
        }
    }

    pub fn skip_prolog(&mut self) -> (r: Result<(), ParseError>)
        requires
            old(self).wf(),
        ensures
            final(self).src == old(self).src,
            final(self).wf(),
            match skip_prolog(old(self).src@, old(self).pos as int) {
                Ok(q) => r is Ok && final(self).pos == q,
                Err(e) => r matches Err(x) && x@ == e,
            },
    {
        self.skip_comments_and_ws()?;
        let decl: [u8; 5] = [0x3c, 0x3f, 0x78, 0x6d, 0x6c];
        assert(decl@ == decl_open());
        if self.starts_with(&decl) {
            let close: [u8; 2] = [0x3f, 0x3e];
            assert(close@ == decl_close());
            let ghost q = self.pos as int;
            self.scan_needle(&close);
            proof {
                lemma_scan_to(self.src@, q, decl_close());
            }
            if self.eof() {
                return Err(err_at(self.pos, owned("unterminated xml decl")));
            }
            self.advance(2);
        }
        self.skip_comments_and_ws()?;
        Ok(())
    }

    pub fn parse_name(&mut self) -> (r: Result<String, ParseError>)
        requires
            old(self).wf(),
        ensures
            final(self).src == old(self).src,
            final(self).wf(),
            match parse_name(old(self).src@, old(self).pos as int) {
                Ok((n, q)) => r matches Ok(x) && x@ == n && final(self).pos == q,
                Err(e) => r matches Err(x) && x@ == e,
            },
    {
        let start = self.pos;
        proof {
            lemma_name_end(self.src@, self.pos as int);
        }
        while !self.eof() && is_name_byte_exec(self.peek())
            invariant
                self.wf(),
                self.src == old(self).src,
                start == old(self).pos,
                start <= self.pos,
                name_end(self.src@, self.pos as int) == name_end(self.src@, start as int),
            decreases self.src@.len() - self.pos,
        {
            self.advance(1);
        }
        if start == self.pos {
            return Err(err_at(self.pos, owned("expected name")));
        }
        let bytes = copy_range(self.src, start, self.pos);
        Ok(string_from_utf8_lossy(bytes.as_slice()))
    }

    pub fn parse_attr_value(&mut self) -> (r: Result<String, ParseError>)
        requires
            old(self).wf(),
        ensures
            final(self).src == old(self).src,
            final(self).wf(),
            match parse_attr_value(old(self).src@, old(self).pos as int) {
                Ok((v, q)) => r matches Ok(x) && x@ == v && final(self).pos == q,
                Err(e) => r matches Err(x) && x@ == e,
            },
    {
        if self.eof() {
            return Err(err_at(self.pos, owned("expected attribute value")));
        }
        let quote = self.peek();
        if quote != 0x22 && quote != 0x27 {
            return Err(err_at(self.pos, owned("expected quote")));
        }
        self.advance(1);
        let start = self.pos;
        proof {
            lemma_scan_byte(self.src@, self.pos as int, quote);
        }
        while !self.eof() && self.peek() != quote
            invariant
                self.wf(),
                self.src == old(self).src,
                start == old(self).pos + 1,
                start <= self.pos,
                scan_byte(self.src@, self.pos as int, quote) == scan_byte(
                    self.src@,
                    start as int,
                    quote,
                ),
            decreases self.src@.len() - self.pos,
        {
            self.advance(1);
        }
        if self.eof() {
            return Err(err_at(self.pos, owned("unterminated attribute")));
        }
        let bytes = copy_range(self.src, start, self.pos);
        let v = string_from_utf8_lossy(bytes.as_slice());
        self.advance(1);
        Ok(v)
    }
    #[verifier::loop_isolation(false)]
    pub fn parse_element(&mut self) -> (r: Result<Node, ParseError>)
        requires
            old(self).wf(),
        ensures
            final(self).src == old(self).src,
            final(self).wf(),
            match parse_element(old(self).src@, old(self).pos as int) {
                Ok((n, q)) => r matches Ok(x) && x@ == n && final(self).pos == q,
                Err(e) => r matches Err(x) && x@ == e,
            },
            r is Ok ==> old(self).pos < final(self).pos,
        decreases old(self).src@.len() - old(self).pos,
    {
        let ghost s = self.src@;
        let ghost p0 = self.pos as int;
        proof {
            lemma_skip_cws(s, p0);
        }
        self.skip_comments_and_ws()?;
        if self.eof() || self.peek() != 0x3c {
            return Err(err_at(self.pos, owned("expected element")));
        }
        self.advance(1);
        proof {
            lemma_name_end(s, self.pos as int);
        }
        let name = self.parse_name()?;
        let ghost p2 = self.pos as int;
        let mut attrs: Vec<(String, String)> = Vec::new();
        proof {
            assert(attrs_view(attrs@) =~= Seq::empty());
        }
        loop
            invariant
                self.wf(),
                self.src == old(self).src,
                s == self.src@,
                p0 < p2 <= self.pos,
                parse_attrs(s, p2, Seq::empty()) == parse_attrs(
                    s,
                    self.pos as int,
                    attrs_view(attrs@),
                ),
            decreases self.src@.len() - self.pos,
        {
            let ghost p = self.pos as int;
            proof {
                lemma_skip_ws(s, p);
            }
            self.skip_whitespace();
            if self.eof() {
                return Err(err_at(self.pos, owned("unterminated tag")));
            }
            if self.peek() == 0x2f {
                self.advance(1);
                if self.eof() || self.peek() != 0x3e {
                    return Err(err_at(self.pos, owned("expected '>' after '/'")));
                }
                self.advance(1);
                let n = Node { name, attrs, children: Vec::new() };
                proof {
                    assert(nodes_view(n.children@) =~= Seq::<SNode>::empty());
                }
                return Ok(n);
            }
            if self.peek() == 0x3e {
                self.advance(1);
                break;
            }
            let ghost q = self.pos as int;
            proof {
                lemma_name_end(s, q);
            }
            let k = self.parse_name()?;
            let ghost q1 = self.pos as int;
            proof {
                lemma_skip_ws(s, q1);
            }
            self.skip_whitespace();
            if self.eof() || self.peek() != 0x3d {
                return Err(err_at(self.pos, owned("expected '='")));
            }
            self.advance(1);
            let ghost q2 = self.pos as int;
            proof {
                lemma_skip_ws(s, q2);
            }
            self.skip_whitespace();
            let ghost q3 = self.pos as int;
            let v = self.parse_attr_value()?;
            proof {
                lemma_scan_byte(s, q3 + 1, s[q3]);
                assert(attrs_view(attrs@.push((k, v))) =~= attrs_view(attrs@).push((k@, v@)));
            }
            attrs.push((k, v));
        }
        let ghost p3 = self.pos as int;
        proof {
            lemma_parse_attrs(s, p2, Seq::empty());
        }
        let mut children: Vec<Node> = Vec::new();
        proof {
            assert(nodes_view(children@) =~= Seq::<SNode>::empty());
        }
        loop
            invariant
                self.wf(),
                self.src == old(self).src,
                s == self.src@,
                p0 < p3 <= self.pos,
                parse_children(s, p3, name@, attrs_view(attrs@), Seq::empty()) == parse_children(
                    s,
                    self.pos as int,
                    name@,
                    attrs_view(attrs@),
                    nodes_view(children@),
                ),
            decreases self.src@.len() - self.pos,
        {
            let ghost p = self.pos as int;
            proof {
                lemma_skip_cws(s, p);
            }
            self.skip_comments_and_ws()?;
            let close_tag: [u8; 2] = [0x3c, 0x2f];
            assert(close_tag@ == close_open());
            if self.starts_with(&close_tag) {
                self.advance(2);
                proof {
                    lemma_name_end(s, self.pos as int);
                }
                let close = self.parse_name()?;
                proof {
                    lemma_skip_ws(s, self.pos as int);
                }
                if !(close == name) {
                    return Err(
                        err_at(
                            self.pos,
                            concat5(
                                "mismatched close </",
                                close.as_str(),
                                "> vs <",
                                name.as_str(),
                                ">",
                            ),
                        ),
                    );
                }
                self.skip_whitespace();
                if self.eof() || self.peek() != 0x3e {
                    return Err(err_at(self.pos, owned("expected '>' on close tag")));
                }
                self.advance(1);
                return Ok(Node { name, attrs, children });
            }
            let ghost q = self.pos as int;
            let child = self.parse_element()?;
            assert(q < self.pos);
            proof {
                assert(nodes_view(children@.push(child)) =~= nodes_view(children@).push(child@));
            }
            children.push(child);
        }
    }
}

fn is_ws_byte(b: u8) -> (r: bool)
    ensures
        r == is_ascii_ws(b),
{
    b == 0x20 || b == 0x09 || b == 0x0a || b == 0x0c || b == 0x0d
}

fn is_name_byte_exec(b: u8) -> (r: bool)
    ensures
        r == is_name_byte(b),
{
    (0x30 <= b && b <= 0x39) || (0x41 <= b && b <= 0x5a) || (0x61 <= b && b <= 0x7a) || b == 0x5f
        || b == 0x2d || b == 0x3a
}

} // verus!
