//! The inline object scanner: finds the first inline construct of a text and
//! splits off the plain text before it.

use vstd::prelude::*;
use vstd::string::StringSliceAdditionalSpecFns;
use crate::inline::{
    cookie_at, emphasis_at, emphasis_end, fn_ref_at, inline_call_at, inline_src_at, link_at,
    macros_at, opt_view, radio_target_at, snippet_at, target_at, Cookie, FnRef, InlineCall,
    InlineSrc, Link, Macros, RadioTarget, Snippet, Target,
};
use crate::scan::run_end;

verus! {

/// One inline unit of a text.
#[derive(Debug, PartialEq)]
pub enum Object<'a> {
    Cookie(Cookie<'a>),
    FnRef(FnRef<'a>),
    InlineCall(InlineCall<'a>),
    InlineSrc(InlineSrc<'a>),
    Link(Link<'a>),
    Macros(Macros<'a>),
    RadioTarget(RadioTarget<'a>),
    Snippet(Snippet<'a>),
    Target(Target<'a>),
    /// `end` is the index of the closing marker, from the opening one.
    Bold { end: usize },
    Italic { end: usize },
    Strike { end: usize },
    Underline { end: usize },
    /// The text between the markers.
    Verbatim(&'a [u8]),
    /// The text between the markers.
    Code(&'a [u8]),
    Text(&'a [u8]),
}

/// An inline unit as the bytes and offsets it holds.
pub enum ObjectView {
    Cookie(Seq<u8>),
    FnRef(Seq<u8>, Option<Seq<u8>>),
    InlineCall(Seq<u8>, Option<Seq<u8>>, Seq<u8>, Option<Seq<u8>>),
    InlineSrc(Seq<u8>, Option<Seq<u8>>, Seq<u8>),
    Link(Seq<u8>, Option<Seq<u8>>),
    Macros(Seq<u8>, Option<Seq<u8>>),
    RadioTarget(Seq<u8>),
    Snippet(Seq<u8>, Seq<u8>),
    Target(Seq<u8>),
    Bold(int),
    Italic(int),
    Strike(int),
    Underline(int),
    Verbatim(Seq<u8>),
    Code(Seq<u8>),
    Text(Seq<u8>),
}

impl<'a> View for Object<'a> {
    type V = ObjectView;

    open spec fn view(&self) -> ObjectView {
        match self {
            Object::Cookie(c) => ObjectView::Cookie(c.value@),
            Object::FnRef(f) => ObjectView::FnRef(f.label@, opt_view(f.definition)),
            Object::InlineCall(c) => ObjectView::InlineCall(
                c.name@,
                opt_view(c.inside_header),
                c.arguments@,
                opt_view(c.end_header),
            ),
            Object::InlineSrc(c) => ObjectView::InlineSrc(c.lang@, opt_view(c.options), c.body@),
            Object::Link(l) => ObjectView::Link(l.path@, opt_view(l.desc)),
            Object::Macros(m) => ObjectView::Macros(m.name@, opt_view(m.arguments)),
            Object::RadioTarget(t) => ObjectView::RadioTarget(t.target@),
            Object::Snippet(t) => ObjectView::Snippet(t.name@, t.value@),
            Object::Target(t) => ObjectView::Target(t.target@),
            Object::Bold { end } => ObjectView::Bold(*end as int),
            Object::Italic { end } => ObjectView::Italic(*end as int),
            Object::Strike { end } => ObjectView::Strike(*end as int),
            Object::Underline { end } => ObjectView::Underline(*end as int),
            Object::Verbatim(t) => ObjectView::Verbatim(t@),
            Object::Code(t) => ObjectView::Code(t@),
            Object::Text(t) => ObjectView::Text(t@),
        }
    }
}

/// The constructs tried at `pos` before any emphasis, chosen by the bytes at
/// `pos`, `pos + 1` and `pos + 2`.
pub open spec fn structural_at(s: Seq<u8>, pos: int) -> Option<(ObjectView, int)> {
    let t = s.subrange(pos, s.len() as int);
    if s[pos] == 0x40 && s[pos + 1] == 0x40 {
        match snippet_at(t) {
            Some((n, v, o)) => Some((ObjectView::Snippet(n, v), o)),
            None => None,
        }
    } else if s[pos] == 0x7b && s[pos + 1] == 0x7b && s[pos + 2] == 0x7b {
        match macros_at(t) {
            Some((n, a, o)) => Some((ObjectView::Macros(n, a), o)),
            None => None,
        }
    } else if s[pos] == 0x3c && s[pos + 1] == 0x3c && s[pos + 2] == 0x3c {
        match radio_target_at(t) {
            Some((x, o)) => Some((ObjectView::RadioTarget(x), o)),
            None => None,
        }
    } else if s[pos] == 0x3c && s[pos + 1] == 0x3c {
        if s[pos + 2] != 0x0a {
            match target_at(t) {
                Some((x, o)) => Some((ObjectView::Target(x), o)),
                None => None,
            }
        } else {
            None
        }
    } else if s[pos] == 0x5b && s[pos + 1] == 0x66 && s[pos + 2] == 0x6e {
        match fn_ref_at(t) {
            Some((l, d, o)) => Some((ObjectView::FnRef(l, d), o)),
            None => None,
        }
    } else if s[pos] == 0x5b && s[pos + 1] == 0x5b {
        match link_at(t) {
            Some((p, d, o)) => Some((ObjectView::Link(p, d), o)),
            None => None,
        }
    } else if s[pos] == 0x5b {
        match cookie_at(t) {
            Some((v, o)) => Some((ObjectView::Cookie(v), o)),
            None => None,
        }
    } else {
        None
    }
}

/// Whether the byte at `pos` only borders an emphasis, which is then looked
/// for one byte on: a space, `"`, `,`, `(`, a line feed, or a `{` that does not
/// open `{{{`.
pub open spec fn is_border_at(s: Seq<u8>, pos: int) -> bool {
    s[pos] == 0x20 || s[pos] == 0x22 || s[pos] == 0x2c || s[pos] == 0x28 || s[pos] == 0x0a || (
    s[pos] == 0x7b && !(s[pos + 1] == 0x7b && s[pos + 2] == 0x7b))
}

/// The emphasis, verbatim, code, inline call or inline source at `pre`, chosen
/// by the byte there.
pub open spec fn leaf_at(s: Seq<u8>, pre: int) -> Option<(ObjectView, int)> {
    let t = s.subrange(pre, s.len() as int);
    let b = s[pre];
    if b == 0x2a {
        match emphasis_at(t, b) {
            Some(e) => Some((ObjectView::Bold(e), 1)),
            None => None,
        }
    } else if b == 0x2b {
        match emphasis_at(t, b) {
            Some(e) => Some((ObjectView::Strike(e), 1)),
            None => None,
        }
    } else if b == 0x2f {
        match emphasis_at(t, b) {
            Some(e) => Some((ObjectView::Italic(e), 1)),
            None => None,
        }
    } else if b == 0x5f {
        match emphasis_at(t, b) {
            Some(e) => Some((ObjectView::Underline(e), 1)),
            None => None,
        }
    } else if b == 0x3d {
        match emphasis_at(t, b) {
            Some(e) => Some((ObjectView::Verbatim(s.subrange(pre + 1, pre + e)), e + 1)),
            None => None,
        }
    } else if b == 0x7e {
        match emphasis_at(t, b) {
            Some(e) => Some((ObjectView::Code(s.subrange(pre + 1, pre + e)), e + 1)),
            None => None,
        }
    } else if b == 0x63 {
        match inline_call_at(t) {
            Some((n, ih, a, eh, o)) => Some((ObjectView::InlineCall(n, ih, a, eh), o)),
            None => None,
        }
    } else if b == 0x73 {
        match inline_src_at(t) {
            Some((l, op, bd, o)) => Some((ObjectView::InlineSrc(l, op, bd), o)),
            None => None,
        }
    } else {
        None
    }
}

/// The construct found from the candidate position `pos`: the object, the
/// length it takes, and where it starts.
pub open spec fn found_at(s: Seq<u8>, pos: int) -> Option<(ObjectView, int, int)> {
    match structural_at(s, pos) {
        Some((o, off)) => Some((o, off, pos)),
        None => {
            let pre = if is_border_at(s, pos) {
                pos + 1
            } else {
                pos
            };
            match leaf_at(s, pre) {
                Some((o, off)) => Some((o, off, pre)),
                None => None,
            }
        },
    }
}

/// A byte at which a construct may be looked for: `@ " ( {  < [`, a space or a
/// line feed.
pub open spec fn is_scan_marker(b: u8) -> bool {
    b == 0x40 || b == 0x20 || b == 0x22 || b == 0x28 || b == 0x0a || b == 0x7b || b == 0x3c || b
        == 0x5b
}

/// The first candidate position at or after `i`.
pub open spec fn next_candidate(s: Seq<u8>, i: int) -> int {
    run_end(s, i, |b: u8| !is_scan_marker(b))
}

/// The result of the scan from the candidate position `pos` on.
pub open spec fn scan_from(s: Seq<u8>, pos: int) -> (ObjectView, int, Option<(ObjectView, int)>)
    decreases s.len() - pos,
{
    if pos < 0 || pos + 2 >= s.len() {
        (ObjectView::Text(s), s.len() as int, None)
    } else {
        match found_at(s, pos) {
            Some((o, off, at)) => if pos == 0 {
                (o, off, None)
            } else {
                (ObjectView::Text(s.subrange(0, at)), at, Some((o, off)))
            },
            None => {
                let k = next_candidate(s, pos + 1);
                if pos < k < s.len() - 2 {
                    scan_from(s, k)
                } else {
                    (ObjectView::Text(s), s.len() as int, None)
                }
            },
        }
    }
}

/// What the scan of `s` gives: the whole of `s` as text where it is two bytes
/// long or less, and otherwise the scan from its start.
pub open spec fn scan(s: Seq<u8>) -> (ObjectView, int, Option<(ObjectView, int)>) {
    if s.len() <= 2 {
        (ObjectView::Text(s), s.len() as int, None)
    } else {
        scan_from(s, 0)
    }
}

/// The bytes and offsets of a scan's result.
pub open spec fn result_view(r: (Object, usize, Option<(Object, usize)>)) -> (
    ObjectView,
    int,
    Option<(ObjectView, int)>,
) {
    (
        r.0@,
        r.1 as int,
        match r.2 {
            Some((o, n)) => Some((o@, n as int)),
            None => None,
        },
    )
}

/// A text of two bytes or less is one plain text run that covers all of it.
pub proof fn law_short_text_is_plain(s: Seq<u8>)
    requires
        s.len() <= 2,
    ensures
        scan(s) == (ObjectView::Text(s), s.len() as int, None::<(ObjectView, int)>),
{
}

fn structural_exec<'a>(s: &'a [u8], pos: usize) -> (r: Option<(Object<'a>, usize)>)
    requires
        pos + 2 < s@.len(),
    ensures
        r matches Some(t) ==> structural_at(s@, pos as int) == Some((t.0@, t.1 as int)),
        r is None ==> structural_at(s@, pos as int) is None,
{
    let t = &s[pos..s.len()];
    let (a, b, c) = (s[pos], s[pos + 1], s[pos + 2]);
    if a == 0x40 && b == 0x40 {
        match Snippet::parse(t) {
            Some((x, o)) => Some((Object::Snippet(x), o)),
            None => None,
        }
    } else if a == 0x7b && b == 0x7b && c == 0x7b {
        match Macros::parse(t) {
            Some((x, o)) => Some((Object::Macros(x), o)),
            None => None,
        }
    } else if a == 0x3c && b == 0x3c && c == 0x3c {
        match RadioTarget::parse(t) {
            Some((x, o)) => Some((Object::RadioTarget(x), o)),
            None => None,
        }
    } else if a == 0x3c && b == 0x3c {
        if c != 0x0a {
            match Target::parse(t) {
                Some((x, o)) => Some((Object::Target(x), o)),
                None => None,
            }
        } else {
            None
        }
    } else if a == 0x5b && b == 0x66 && c == 0x6e {
        match FnRef::parse(t) {
            Some((x, o)) => Some((Object::FnRef(x), o)),
            None => None,
        }
    } else if a == 0x5b && b == 0x5b {
        match Link::parse(t) {
            Some((x, o)) => Some((Object::Link(x), o)),
            None => None,
        }
    } else if a == 0x5b {
        match Cookie::parse(t) {
            Some((x, o)) => Some((Object::Cookie(x), o)),
            None => None,
        }
    } else {
        None
    }
}

fn leaf_exec<'a>(s: &'a [u8], pre: usize) -> (r: Option<(Object<'a>, usize)>)
    requires
        pre + 1 < s@.len(),
    ensures
        r matches Some(t) ==> leaf_at(s@, pre as int) == Some((t.0@, t.1 as int)),
        r is None ==> leaf_at(s@, pre as int) is None,
{
    let t = &s[pre..s.len()];
    let b = s[pre];
    if b == 0x2a || b == 0x2b || b == 0x2f || b == 0x5f || b == 0x3d || b == 0x7e {
        let e = match emphasis_end(t, b) {
            Some(e) => e,
            None => {
                return None;
            },
        };
        if b == 0x2a {
            Some((Object::Bold { end: e }, 1))
        } else if b == 0x2b {
            Some((Object::Strike { end: e }, 1))
        } else if b == 0x2f {
            Some((Object::Italic { end: e }, 1))
        } else if b == 0x5f {
            Some((Object::Underline { end: e }, 1))
        } else if b == 0x3d {
            Some((Object::Verbatim(&s[pre + 1..pre + e]), e + 1))
        } else {
            Some((Object::Code(&s[pre + 1..pre + e]), e + 1))
        }
    } else if b == 0x63 {
        match InlineCall::parse(t) {
            Some((x, o)) => Some((Object::InlineCall(x), o)),
            None => None,
        }
    } else if b == 0x73 {
        match InlineSrc::parse(t) {
            Some((x, o)) => Some((Object::InlineSrc(x), o)),
            None => None,
        }
    } else {
        None
    }
}

fn next_candidate_exec(s: &[u8], i: usize) -> (r: usize)
    requires
        i <= s@.len(),
    ensures
        r == next_candidate(s@, i as int),
        i <= r <= s@.len(),
{
    let mut j: usize = i;
    while j < s.len() && !(s[j] == 0x40 || s[j] == 0x20 || s[j] == 0x22 || s[j] == 0x28 || s[j]
        == 0x0a || s[j] == 0x7b || s[j] == 0x3c || s[j] == 0x5b)
        invariant
            i <= j <= s@.len(),
            run_end(s@, j as int, |b: u8| !is_scan_marker(b)) == run_end(
                s@,
                i as int,
                |b: u8| !is_scan_marker(b),
            ),
        decreases s@.len() - j,
    {
        j = j + 1;
    }
    j
}

impl<'a> Object<'a> {
    /// Finds the first inline construct of `src`. Gives the construct and the
    /// length it takes where it starts `src`; otherwise the text before it and
    /// its length, then the construct and the length it takes; and the whole of
    /// `src` as text where none is found.
    ///
    /// Where the scan stops at the start of `src` but the construct starts one
    /// byte on, after a border byte (`" *bold*"`), the construct comes alone and
    /// that border byte is in no returned text.
    pub fn next_2(src: &'a str) -> (r: (Object<'a>, usize, Option<(Object<'a>, usize)>))
        ensures
            result_view(r) == scan(src.spec_bytes()),
    {
        let s = src.as_bytes();
        if s.len() <= 2 {
            return (Object::Text(s), s.len(), None);
        }
        let mut pos: usize = 0;
        loop
            invariant
                pos + 2 < s@.len(),
                s@ == src.spec_bytes(),
                scan_from(s@, pos as int) == scan(s@),
            decreases s@.len() - pos,
        {
            let mut found = structural_exec(s, pos);
            let mut at = pos;
            if found.is_none() {
                let b = s[pos];
                if b == 0x20 || b == 0x22 || b == 0x2c || b == 0x28 || b == 0x0a || (b == 0x7b
                    && !(s[pos + 1] == 0x7b && s[pos + 2] == 0x7b)) {
                    at = pos + 1;
                }
                found = leaf_exec(s, at);
            }
            match found {
                Some((o, off)) => {
                    if pos == 0 {
                        return (o, off, None);
                    } else {
                        return (Object::Text(&s[0..at]), at, Some((o, off)));
                    }
                },
                None => {},
            }
            let k = next_candidate_exec(s, pos + 1);
            if k < s.len() - 2 {
                pos = k;
            } else {
                return (Object::Text(s), s.len(), None);
            }
        }
    }
}

} // verus!
