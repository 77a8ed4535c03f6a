//! The inline constructs that the object scanner recognises, each read from
//! the start of a byte string that opens with its marker.

use vstd::prelude::*;
use crate::scan::{find_byte, find_from, is_ascii_ws, lemma_find_from_bounds, run_end};
use crate::text::Text;

verus! {

/// `@@backend:value@@`
#[derive(Debug, PartialEq)]
pub struct Snippet<'a> {
    pub name: Text<'a>,
    pub value: Text<'a>,
}

/// `{{{name}}}` or `{{{name(arguments)}}}`
#[derive(Debug, PartialEq)]
pub struct Macros<'a> {
    pub name: Text<'a>,
    pub arguments: Option<Text<'a>>,
}

/// `<<<target>>>`
#[derive(Debug, PartialEq)]
pub struct RadioTarget<'a> {
    pub target: Text<'a>,
}

/// `<<target>>`
#[derive(Debug, PartialEq)]
pub struct Target<'a> {
    pub target: Text<'a>,
}

/// `[fn:label]` or `[fn:label:definition]`
#[derive(Debug, PartialEq)]
pub struct FnRef<'a> {
    pub label: Text<'a>,
    pub definition: Option<Text<'a>>,
}

/// `[[path]]` or `[[path][description]]`
#[derive(Debug, PartialEq)]
pub struct Link<'a> {
    pub path: Text<'a>,
    pub desc: Option<Text<'a>>,
}

/// A statistics cookie: `[done/total]` or `[percent%]`, brackets included.
#[derive(Debug, PartialEq)]
pub struct Cookie<'a> {
    pub value: Text<'a>,
}

/// `call_name[inside header](arguments)[end header]`, headers optional.
#[derive(Debug, PartialEq)]
pub struct InlineCall<'a> {
    pub name: Text<'a>,
    pub inside_header: Option<Text<'a>>,
    pub arguments: Text<'a>,
    pub end_header: Option<Text<'a>>,
}

/// `src_lang{body}` or `src_lang[options]{body}`
#[derive(Debug, PartialEq)]
pub struct InlineSrc<'a> {
    pub lang: Text<'a>,
    pub options: Option<Text<'a>>,
    pub body: Text<'a>,
}

/// The bytes of an optional text.
pub open spec fn opt_view(o: Option<Text>) -> Option<Seq<u8>> {
    match o {
        Some(t) => Some(t@),
        None => None,
    }
}

/// Whether `s` holds `a`, `b` at `i`.
pub open spec fn pair_at(s: Seq<u8>, i: int, a: u8, b: u8) -> bool {
    0 <= i && i + 1 < s.len() && s[i] == a && s[i + 1] == b
}

/// The first `i2 >= i` where `a`, `b` stand, or the length of `s`.
pub open spec fn find_pair(s: Seq<u8>, i: int, a: u8, b: u8) -> int
    decreases s.len() - i,
{
    if i < 0 || i + 1 >= s.len() {
        s.len() as int
    } else if s[i] == a && s[i + 1] == b {
        i
    } else {
        find_pair(s, i + 1, a, b)
    }
}

pub proof fn lemma_find_pair_bounds(s: Seq<u8>, i: int, a: u8, b: u8)
    requires
        0 <= i <= s.len(),
    ensures
        i <= find_pair(s, i, a, b) <= s.len(),
        find_pair(s, i, a, b) < s.len() ==> pair_at(s, find_pair(s, i, a, b), a, b),
    decreases s.len() - i,
{
    if i + 1 < s.len() && !(s[i] == a && s[i + 1] == b) {
        lemma_find_pair_bounds(s, i + 1, a, b);
    }
}

fn find_pair_exec(s: &[u8], i: usize, a: u8, b: u8) -> (r: usize)
    requires
        i <= s@.len(),
    ensures
        r == find_pair(s@, i as int, a, b),
        i <= r <= s@.len(),
{
    let mut j: usize = i;
    while j < s.len() && !(j + 1 < s.len() && s[j] == a && s[j + 1] == b)
        invariant
            i <= j <= s@.len(),
            find_pair(s@, j as int, a, b) == find_pair(s@, i as int, a, b),
        decreases s@.len() - j,
    {
        j = j + 1;
    }
    if j < s.len() {
        j
    } else {
        s.len()
    }
}

/// A snippet at the start of `s`: its name, value and length.
pub open spec fn snippet_at(s: Seq<u8>) -> Option<(Seq<u8>, Seq<u8>, int)> {
    let c = find_from(s, 2, 0x3a);
    let e = find_pair(s, c + 1, 0x40, 0x40);
    if pair_at(s, 0, 0x40, 0x40) && 2 < c < s.len() && e < s.len() {
        Some((s.subrange(2, c), s.subrange(c + 1, e), e + 2))
    } else {
        None
    }
}

impl<'a> Snippet<'a> {
    /// Reads a snippet at the start of `s`: gives it and the number of bytes it takes.
    pub fn parse(s: &'a [u8]) -> (r: Option<(Snippet<'a>, usize)>)
        ensures
            r matches Some(t) ==> snippet_at(s@) == Some((t.0.name@, t.0.value@, t.1 as int)),
            r is None ==> snippet_at(s@) is None,
    {
        if !(s.len() >= 2 && s[0] == 0x40 && s[1] == 0x40) {
            return None;
        }
        let c = find_byte(s, 2, 0x3a);
        if c <= 2 || c >= s.len() {
            return None;
        }
        let e = find_pair_exec(s, c + 1, 0x40, 0x40);
        if e >= s.len() {
            return None;
        }
        proof {
            lemma_find_pair_bounds(s@, c + 1, 0x40, 0x40);
        }
        Some((Snippet { name: Text::Borrowed(&s[2..c]), value: Text::Borrowed(&s[c + 1..e]) }, e + 2))
    }
}

/// A macro at the start of `s`: its name, its arguments and its length.
pub open spec fn macros_at(s: Seq<u8>) -> Option<(Seq<u8>, Option<Seq<u8>>, int)> {
    let e = find_pair(s, 3, 0x7d, 0x7d);
    let c = s.subrange(3, e);
    let p = find_from(c, 0, 0x28);
    if s.len() >= 3 && s[0] == 0x7b && s[1] == 0x7b && s[2] == 0x7b && 3 < e && e + 2 < s.len()
        && s[e + 2] == 0x7d && find_from(s, 3, 0x0a) > e {
        if p == c.len() {
            Some((c, None, e + 3))
        } else if 0 < p && c[c.len() - 1] == 0x29 {
            Some((c.subrange(0, p), Some(c.subrange(p + 1, c.len() - 1)), e + 3))
        } else {
            None
        }
    } else {
        None
    }
}

impl<'a> Macros<'a> {
    /// Reads a macro at the start of `s`: gives it and the number of bytes it takes.
    pub fn parse(s: &'a [u8]) -> (r: Option<(Macros<'a>, usize)>)
        ensures
            r matches Some(t) ==> macros_at(s@) == Some(
                (t.0.name@, opt_view(t.0.arguments), t.1 as int),
            ),
            r is None ==> macros_at(s@) is None,
    {
        if !(s.len() >= 3 && s[0] == 0x7b && s[1] == 0x7b && s[2] == 0x7b) {
            return None;
        }
        let e = find_pair_exec(s, 3, 0x7d, 0x7d);
        if !(3 < e && e < s.len() - 2 && s[e + 2] == 0x7d) {
            return None;
        }
        let nl = find_byte(s, 3, 0x0a);
        if nl <= e {
            return None;
        }
        let c = &s[3..e];
        let p = find_byte(c, 0, 0x28);
        if p == c.len() {
            Some((Macros { name: Text::Borrowed(c), arguments: None }, e + 3))
        } else if 0 < p && c[c.len() - 1] == 0x29 {
            proof {
                lemma_find_from_bounds(c@, 0, 0x28);
            }
            let args = &c[p + 1..c.len() - 1];
            Some((Macros { name: Text::Borrowed(&c[0..p]), arguments: Some(Text::Borrowed(args)) }, e + 3))
        } else {
            None
        }
    }
}

/// A radio target at the start of `s`: its text and its length.
pub open spec fn radio_target_at(s: Seq<u8>) -> Option<(Seq<u8>, int)> {
    let e = find_from(s, 3, 0x3e);
    if s.len() >= 3 && s[0] == 0x3c && s[1] == 0x3c && s[2] == 0x3c && 3 < e && e + 2 < s.len()
        && s[e + 1] == 0x3e && s[e + 2] == 0x3e && find_from(s, 3, 0x0a) > e && s[3] != 0x20 && s[e
        - 1] != 0x20 {
        Some((s.subrange(3, e), e + 3))
    } else {
        None
    }
}

impl<'a> RadioTarget<'a> {
    /// Reads a radio target at the start of `s`: gives it and the number of bytes it takes.
    pub fn parse(s: &'a [u8]) -> (r: Option<(RadioTarget<'a>, usize)>)
        ensures
            r matches Some(t) ==> radio_target_at(s@) == Some((t.0.target@, t.1 as int)),
            r is None ==> radio_target_at(s@) is None,
    {
        if !(s.len() >= 3 && s[0] == 0x3c && s[1] == 0x3c && s[2] == 0x3c) {
            return None;
        }
        let e = find_byte(s, 3, 0x3e);
        if !(3 < e && e < s.len() - 2 && s[e + 1] == 0x3e && s[e + 2] == 0x3e) {
            return None;
        }
        if find_byte(s, 3, 0x0a) <= e || s[3] == 0x20 || s[e - 1] == 0x20 {
            return None;
        }
        Some((RadioTarget { target: Text::Borrowed(&s[3..e]) }, e + 3))
    }
}

/// A target at the start of `s`: its text and its length.
pub open spec fn target_at(s: Seq<u8>) -> Option<(Seq<u8>, int)> {
    let e = find_from(s, 2, 0x3e);
    if s.len() >= 2 && s[0] == 0x3c && s[1] == 0x3c && 2 < e && e + 1 < s.len() && s[e + 1]
        == 0x3e && find_from(s, 2, 0x0a) > e && s[2] != 0x20 && s[e - 1] != 0x20 {
        Some((s.subrange(2, e), e + 2))
    } else {
        None
    }
}

impl<'a> Target<'a> {
    /// Reads a target at the start of `s`: gives it and the number of bytes it takes.
    pub fn parse(s: &'a [u8]) -> (r: Option<(Target<'a>, usize)>)
        ensures
            r matches Some(t) ==> target_at(s@) == Some((t.0.target@, t.1 as int)),
            r is None ==> target_at(s@) is None,
    {
        if !(s.len() >= 2 && s[0] == 0x3c && s[1] == 0x3c) {
            return None;
        }
        let e = find_byte(s, 2, 0x3e);
        if !(2 < e && e < s.len() - 1 && s[e + 1] == 0x3e) {
            return None;
        }
        if find_byte(s, 2, 0x0a) <= e || s[2] == 0x20 || s[e - 1] == 0x20 {
            return None;
        }
        Some((Target { target: Text::Borrowed(&s[2..e]) }, e + 2))
    }
}

/// A footnote reference at the start of `s`: its label, its definition and its
/// length.
pub open spec fn fn_ref_at(s: Seq<u8>) -> Option<(Seq<u8>, Option<Seq<u8>>, int)> {
    let e = find_from(s, 4, 0x5d);
    let c = s.subrange(4, e);
    let k = find_from(c, 0, 0x3a);
    if s.len() >= 4 && s[0] == 0x5b && s[1] == 0x66 && s[2] == 0x6e && s[3] == 0x3a && e < s.len()
        && find_from(s, 4, 0x0a) > e {
        if k < c.len() {
            Some((c.subrange(0, k), Some(c.subrange(k + 1, c.len() as int)), e + 1))
        } else {
            Some((c, None, e + 1))
        }
    } else {
        None
    }
}

impl<'a> FnRef<'a> {
    /// Reads a footnote reference at the start of `s`: gives it and the number of bytes it takes.
    pub fn parse(s: &'a [u8]) -> (r: Option<(FnRef<'a>, usize)>)
        ensures
            r matches Some(t) ==> fn_ref_at(s@) == Some(
                (t.0.label@, opt_view(t.0.definition), t.1 as int),
            ),
            r is None ==> fn_ref_at(s@) is None,
    {
        if !(s.len() >= 4 && s[0] == 0x5b && s[1] == 0x66 && s[2] == 0x6e && s[3] == 0x3a) {
            return None;
        }
        let e = find_byte(s, 4, 0x5d);
        if e >= s.len() || find_byte(s, 4, 0x0a) <= e {
            return None;
        }
        let c = &s[4..e];
        let k = find_byte(c, 0, 0x3a);
        if k < c.len() {
            Some((FnRef { label: Text::Borrowed(&c[0..k]), definition: Some(Text::Borrowed(&c[k + 1..c.len()])) }, e + 1))
        } else {
            Some((FnRef { label: Text::Borrowed(c), definition: None }, e + 1))
        }
    }
}

/// A link at the start of `s`: its path, its description and its length.
pub open spec fn link_at(s: Seq<u8>) -> Option<(Seq<u8>, Option<Seq<u8>>, int)> {
    let e = find_from(s, 2, 0x5d);
    let d = find_from(s, e + 2, 0x5d);
    if s.len() >= 2 && s[0] == 0x5b && s[1] == 0x5b && 2 < e && e + 1 < s.len() && find_from(
        s,
        2,
        0x0a,
    ) > e {
        if s[e + 1] == 0x5d {
            Some((s.subrange(2, e), None, e + 2))
        } else if s[e + 1] == 0x5b && d + 1 < s.len() && s[d + 1] == 0x5d {
            Some((s.subrange(2, e), Some(s.subrange(e + 2, d)), d + 2))
        } else {
            None
        }
    } else {
        None
    }
}

impl<'a> Link<'a> {
    /// Reads a link at the start of `s`: gives it and the number of bytes it takes.
    pub fn parse(s: &'a [u8]) -> (r: Option<(Link<'a>, usize)>)
        ensures
            r matches Some(t) ==> link_at(s@) == Some((t.0.path@, opt_view(t.0.desc), t.1 as int)),
            r is None ==> link_at(s@) is None,
    {
        if !(s.len() >= 2 && s[0] == 0x5b && s[1] == 0x5b) {
            return None;
        }
        let e = find_byte(s, 2, 0x5d);
        if !(2 < e && e < s.len() - 1) || find_byte(s, 2, 0x0a) <= e {
            return None;
        }
        let path = Text::Borrowed(&s[2..e]);
        if s[e + 1] == 0x5d {
            return Some((Link { path, desc: None }, e + 2));
        }
        if s[e + 1] != 0x5b {
            return None;
        }
        let d = find_byte(s, e + 2, 0x5d);
        if d < s.len() - 1 && s[d + 1] == 0x5d {
            Some((Link { path, desc: Some(Text::Borrowed(&s[e + 2..d])) }, d + 2))
        } else {
            None
        }
    }
}

/// What may stand between a cookie's brackets: digits, `/` and `%`, not
/// empty, with a `/` or closed by a `%`.
pub open spec fn is_cookie_inner(t: Seq<u8>) -> bool {
    &&& t.len() > 0
    &&& forall|k: int| 0 <= k < t.len() ==> (0x30 <= #[trigger] t[k] <= 0x39 || t[k] == 0x2f || t[k] == 0x25)
    &&& (t[t.len() - 1] == 0x25 || exists|k: int| 0 <= k < t.len() && #[trigger] t[k] == 0x2f)
}

/// A cookie at the start of `s`: its text, brackets included, and its length.
pub open spec fn cookie_at(s: Seq<u8>) -> Option<(Seq<u8>, int)> {
    let e = find_from(s, 1, 0x5d);
    if s.len() >= 1 && s[0] == 0x5b && e < s.len() && is_cookie_inner(s.subrange(1, e)) {
        Some((s.subrange(0, e + 1), e + 1))
    } else {
        None
    }
}

fn is_cookie_inner_exec(t: &[u8]) -> (r: bool)
    ensures
        r == is_cookie_inner(t@),
{
    if t.len() == 0 {
        return false;
    }
    let mut slash = false;
    let mut i: usize = 0;
    while i < t.len()
        invariant
            i <= t@.len(),
            forall|k: int| 0 <= k < i ==> (0x30 <= #[trigger] t@[k] <= 0x39 || t@[k] == 0x2f || t@[k] == 0x25),
            slash == exists|k: int| 0 <= k < i && #[trigger] t@[k] == 0x2f,
        decreases t@.len() - i,
    {
        let b = t[i];
        if !((0x30 <= b && b <= 0x39) || b == 0x2f || b == 0x25) {
            return false;
        }
        if b == 0x2f {
            slash = true;
        }
        i = i + 1;
    }
    t[t.len() - 1] == 0x25 || slash
}

impl<'a> Cookie<'a> {
    /// Reads a cookie at the start of `s`: gives it and the number of bytes it takes.
    pub fn parse(s: &'a [u8]) -> (r: Option<(Cookie<'a>, usize)>)
        ensures
            r matches Some(t) ==> cookie_at(s@) == Some((t.0.value@, t.1 as int)),
            r is None ==> cookie_at(s@) is None,
    {
        if !(s.len() >= 1 && s[0] == 0x5b) {
            return None;
        }
        let e = find_byte(s, 1, 0x5d);
        if e >= s.len() || !is_cookie_inner_exec(&s[1..e]) {
            return None;
        }
        Some((Cookie { value: Text::Borrowed(&s[0..e + 1]) }, e + 1))
    }
}

/// A byte of an inline call's name or of an inline source's language.
pub open spec fn is_name_byte(b: u8) -> bool {
    !(b == 0x5b || b == 0x5d || b == 0x28 || b == 0x29 || b == 0x7b || b == 0x7d || is_ascii_ws(b))
}

fn name_run_end(s: &[u8], i: usize) -> (r: usize)
    requires
        i <= s@.len(),
    ensures
        r == run_end(s@, i as int, |b: u8| is_name_byte(b)),
        i <= r <= s@.len(),
{
    let mut j: usize = i;
    while j < s.len() && !(s[j] == 0x5b || s[j] == 0x5d || s[j] == 0x28 || s[j] == 0x29 || s[j]
        == 0x7b || s[j] == 0x7d || s[j] == 0x20 || s[j] == 0x09 || s[j] == 0x0a || s[j] == 0x0c
        || s[j] == 0x0d)
        invariant
            i <= j <= s@.len(),
            run_end(s@, j as int, |b: u8| is_name_byte(b)) == run_end(
                s@,
                i as int,
                |b: u8| is_name_byte(b),
            ),
        decreases s@.len() - j,
    {
        j = j + 1;
    }
    j
}

/// An optional bracketed header at `p`: its text and where what follows it
/// starts; `None` where `[` opens one that is not closed.
pub open spec fn header_at(s: Seq<u8>, p: int) -> Option<(Option<Seq<u8>>, int)> {
    let h = find_from(s, p + 1, 0x5d);
    if p < s.len() && s[p] == 0x5b {
        if h < s.len() {
            Some((Some(s.subrange(p + 1, h)), h + 1))
        } else {
            None
        }
    } else {
        Some((None, p))
    }
}

fn header_exec<'a>(s: &'a [u8], p: usize) -> (r: Option<(Option<Text<'a>>, usize)>)
    requires
        p <= s@.len(),
    ensures
        r matches Some(t) ==> header_at(s@, p as int) == Some((opt_view(t.0), t.1 as int)) && p <= t.1
            <= s@.len(),
        r is None ==> header_at(s@, p as int) is None,
{
    if p < s.len() && s[p] == 0x5b {
        let h = find_byte(s, p + 1, 0x5d);
        if h < s.len() {
            Some((Some(Text::Borrowed(&s[p + 1..h])), h + 1))
        } else {
            None
        }
    } else {
        Some((None, p))
    }
}

/// An inline call at the start of `s`: name, inside header, arguments, end
/// header, and its length.
pub open spec fn inline_call_at(s: Seq<u8>) -> Option<
    (Seq<u8>, Option<Seq<u8>>, Seq<u8>, Option<Seq<u8>>, int),
> {
    let n = run_end(s, 5, |b: u8| is_name_byte(b));
    if s.len() >= 5 && s.subrange(0, 5) == seq![0x63u8, 0x61, 0x6c, 0x6c, 0x5f] && n > 5 {
        match header_at(s, n) {
            Some((ih, p)) => {
                let a = find_from(s, p + 1, 0x29);
                if p < s.len() && s[p] == 0x28 && a < s.len() {
                    match header_at(s, a + 1) {
                        Some((eh, q)) => Some((s.subrange(5, n), ih, s.subrange(p + 1, a), eh, q)),
                        None => Some((s.subrange(5, n), ih, s.subrange(p + 1, a), None, a + 1)),
                    }
                } else {
                    None
                }
            },
            None => None,
        }
    } else {
        None
    }
}

impl<'a> InlineCall<'a> {
    /// Reads an inline call at the start of `s`: gives it and the number of bytes it takes.
    pub fn parse(s: &'a [u8]) -> (r: Option<(InlineCall<'a>, usize)>)
        ensures
            r matches Some(t) ==> inline_call_at(s@) == Some(
                (
                    t.0.name@,
                    opt_view(t.0.inside_header),
                    t.0.arguments@,
                    opt_view(t.0.end_header),
                    t.1 as int,
                ),
            ),
            r is None ==> inline_call_at(s@) is None,
    {
        if !(s.len() >= 5 && s[0] == 0x63 && s[1] == 0x61 && s[2] == 0x6c && s[3] == 0x6c && s[4]
            == 0x5f) {
            proof {
                if s@.len() >= 5 && s@.subrange(0, 5) == seq![0x63u8, 0x61, 0x6c, 0x6c, 0x5f] {
                    assert(s@.subrange(0, 5)[0] == s@[0]);
                    assert(s@.subrange(0, 5)[1] == s@[1]);
                    assert(s@.subrange(0, 5)[2] == s@[2]);
                    assert(s@.subrange(0, 5)[3] == s@[3]);
                    assert(s@.subrange(0, 5)[4] == s@[4]);
                }
            }
            return None;
        }
        assert(s@.subrange(0, 5) =~= seq![0x63u8, 0x61, 0x6c, 0x6c, 0x5f]);
        let n = name_run_end(s, 5);
        if n <= 5 {
            return None;
        }
        let (ih, p) = match header_exec(s, n) {
            Some(t) => t,
            None => {
                return None;
            },
        };
        if !(p < s.len() && s[p] == 0x28) {
            return None;
        }
        let a = find_byte(s, p + 1, 0x29);
        if a >= s.len() {
            return None;
        }
        let name = Text::Borrowed(&s[5..n]);
        let arguments = Text::Borrowed(&s[p + 1..a]);
        match header_exec(s, a + 1) {
            Some((eh, q)) => Some((InlineCall { name, inside_header: ih, arguments, end_header: eh }, q)),
            None => Some((InlineCall { name, inside_header: ih, arguments, end_header: None }, a + 1)),
        }
    }
}

/// An inline source block at the start of `s`: language, options, body, and
/// its length.
pub open spec fn inline_src_at(s: Seq<u8>) -> Option<(Seq<u8>, Option<Seq<u8>>, Seq<u8>, int)> {
    let n = run_end(s, 4, |b: u8| is_name_byte(b));
    if s.len() >= 4 && s.subrange(0, 4) == seq![0x73u8, 0x72, 0x63, 0x5f] && n > 4 {
        match header_at(s, n) {
            Some((opts, p)) => {
                let b = find_from(s, p + 1, 0x7d);
                if p < s.len() && s[p] == 0x7b && b < s.len() {
                    Some((s.subrange(4, n), opts, s.subrange(p + 1, b), b + 1))
                } else {
                    None
                }
            },
            None => None,
        }
    } else {
        None
    }
}

impl<'a> InlineSrc<'a> {
    /// Reads an inline source block at the start of `s`: gives it and the number of bytes it takes.
    pub fn parse(s: &'a [u8]) -> (r: Option<(InlineSrc<'a>, usize)>)
        ensures
            r matches Some(t) ==> inline_src_at(s@) == Some(
                (t.0.lang@, opt_view(t.0.options), t.0.body@, t.1 as int),
            ),
            r is None ==> inline_src_at(s@) is None,
    {
        if !(s.len() >= 4 && s[0] == 0x73 && s[1] == 0x72 && s[2] == 0x63 && s[3] == 0x5f) {
            proof {
                if s@.len() >= 4 && s@.subrange(0, 4) == seq![0x73u8, 0x72, 0x63, 0x5f] {
                    assert(s@.subrange(0, 4)[0] == s@[0]);
                    assert(s@.subrange(0, 4)[1] == s@[1]);
                    assert(s@.subrange(0, 4)[2] == s@[2]);
                    assert(s@.subrange(0, 4)[3] == s@[3]);
                }
            }
            return None;
        }
        assert(s@.subrange(0, 4) =~= seq![0x73u8, 0x72, 0x63, 0x5f]);
        let n = name_run_end(s, 4);
        if n <= 4 {
            return None;
        }
        let (opts, p) = match header_exec(s, n) {
            Some(t) => t,
            None => {
                return None;
            },
        };
        if !(p < s.len() && s[p] == 0x7b) {
            return None;
        }
        let b = find_byte(s, p + 1, 0x7d);
        if b >= s.len() {
            return None;
        }
        Some((InlineSrc { lang: Text::Borrowed(&s[4..n]), options: opts, body: Text::Borrowed(&s[p + 1..b]) }, b + 1))
    }
}

/// A byte that may follow a closing emphasis marker: whitespace or one of
/// `- . , : ! ? ; ' " ) } [`.
pub open spec fn is_close_border(b: u8) -> bool {
    is_ascii_ws(b) || b == 0x2d || b == 0x2e || b == 0x2c || b == 0x3a || b == 0x21 || b == 0x3f
        || b == 0x3b || b == 0x27 || b == 0x22 || b == 0x29 || b == 0x7d || b == 0x5b
}

/// The closing marker `m` of an emphasis, looked for from `i` on.
pub open spec fn emphasis_from(s: Seq<u8>, m: u8, i: int) -> Option<int>
    decreases s.len() - i,
{
    let j = find_from(s, i, m);
    if i < 1 || j >= s.len() || j < i {
        None
    } else if j == 1 || is_ascii_ws(s[j - 1]) {
        None
    } else if j + 1 == s.len() || is_close_border(s[j + 1]) {
        Some(j)
    } else {
        emphasis_from(s, m, j + 1)
    }
}

/// The index of the marker that closes the emphasis opened by `s[0]`, which is
/// `m`: the opening marker is followed by a byte that is not whitespace; the
/// closing one follows a byte that is not whitespace, leaves at least one byte
/// between the two, and is followed by the end of `s` or a border byte.
pub open spec fn emphasis_at(s: Seq<u8>, m: u8) -> Option<int> {
    if s.len() >= 2 && !is_ascii_ws(s[1]) {
        emphasis_from(s, m, 1)
    } else {
        None
    }
}

fn is_ascii_ws_exec(b: u8) -> (r: bool)
    ensures
        r == is_ascii_ws(b),
{
    b == 0x20 || b == 0x09 || b == 0x0a || b == 0x0c || b == 0x0d
}

/// Finds the marker that closes the emphasis opened by `s[0]`, which is `m`.
pub fn emphasis_end(s: &[u8], m: u8) -> (r: Option<usize>)
    ensures
        r matches Some(j) ==> emphasis_at(s@, m) == Some(j as int) && 1 < j < s@.len(),
        r is None ==> emphasis_at(s@, m) is None,
{
    if s.len() < 2 || is_ascii_ws_exec(s[1]) {
        return None;
    }
    let mut i: usize = 1;
    while i <= s.len()
        invariant
            1 <= i <= s@.len() + 1,
            s@.len() >= 2,
            !is_ascii_ws(s@[1]),
            emphasis_from(s@, m, i as int) == emphasis_from(s@, m, 1),
        decreases s@.len() + 1 - i,
    {
        if i == s.len() {
            return None;
        }
        let j = find_byte(s, i, m);
        if j >= s.len() {
            return None;
        }
        if j == 1 || is_ascii_ws_exec(s[j - 1]) {
            return None;
        }
        if j + 1 == s.len() || is_close_border_exec(s[j + 1]) {
            return Some(j);
        }
        i = j + 1;
    }
    None
}

fn is_close_border_exec(b: u8) -> (r: bool)
    ensures
        r == is_close_border(b),
{
    is_ascii_ws_exec(b) || b == 0x2d || b == 0x2e || b == 0x2c || b == 0x3a || b == 0x21 || b
        == 0x3f || b == 0x3b || b == 0x27 || b == 0x22 || b == 0x29 || b == 0x7d || b == 0x5b
}

} // verus!
