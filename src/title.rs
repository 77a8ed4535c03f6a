//! Headlines: the stars, the todo keyword, the priority cookie, the title text,
//! the tags, and the planning line, property drawer and blank lines after them.

use vstd::prelude::*;
use vstd::utf8::{decode_utf8, encode_utf8, valid_utf8};
use vstd::string::StringSliceAdditionalSpecFns;
use crate::planning::{planning_line, planning_view, ts_owned, Planning, Timestamp};
use crate::props::{
    drawer_at, next_line, parse_properties_drawer, properties_drawer, properties_name, PropertiesMap,
};
use crate::scan::{
    blank_lines, blank_lines_count, find_byte, find_from, is_ascii_ws, is_space, is_star,
    is_trim_ws, last_space_below, run_end, run_start, space_run_end, trim, trimmed,
};
use crate::tags::{split_title, texts_view, title_split};
use crate::text::Text;

verus! {

/// The todo keywords that a headline may open with: the "open" ones, then the
/// "closed" ones.
pub struct ParseConfig {
    pub todo_keywords: (Vec<String>, Vec<String>),
}

/// Whether `w` is one of the todo keywords of `config`.
pub open spec fn is_todo_keyword(config: &ParseConfig, w: Seq<u8>) -> bool {
    (exists|i: int|
        0 <= i < config.todo_keywords.0@.len() && #[trigger] encode_utf8(
            config.todo_keywords.0@[i]@,
        ) == w) || (exists|i: int|
        0 <= i < config.todo_keywords.1@.len() && #[trigger] encode_utf8(
            config.todo_keywords.1@[i]@,
        ) == w)
}

fn listed(list: &Vec<String>, w: &[u8]) -> (r: bool)
    ensures
        r == exists|i: int| 0 <= i < list@.len() && #[trigger] encode_utf8(list@[i]@) == w@,
{
    let mut i: usize = 0;
    while i < list.len()
        invariant
            i <= list@.len(),
            forall|k: int| 0 <= k < i ==> #[trigger] encode_utf8(list@[k]@) != w@,
        decreases list@.len() - i,
    {
        let k = list[i].as_str().as_bytes();
        if crate::scan::bytes_eq(k, w) {
            return true;
        }
        i = i + 1;
    }
    false
}

impl ParseConfig {
    /// Whether `w` is one of the todo keywords.
    pub fn is_todo_keyword(&self, w: &[u8]) -> (r: bool)
        ensures
            r == is_todo_keyword(self, w@),
    {
        listed(&self.todo_keywords.0, w) || listed(&self.todo_keywords.1, w)
    }

    /// `TODO` open and `DONE` closed.
    pub fn default_config() -> (r: ParseConfig)
        ensures
            r.todo_keywords.0@.len() == 1,
            r.todo_keywords.0@[0]@ == "TODO"@,
            r.todo_keywords.1@.len() == 1,
            r.todo_keywords.1@[0]@ == "DONE"@,
    {
        let mut open: Vec<String> = Vec::new();
        open.push("TODO".to_owned());
        let mut closed: Vec<String> = Vec::new();
        closed.push("DONE".to_owned());
        ParseConfig { todo_keywords: (open, closed) }
    }
}

/// A parsed headline.
#[derive(Debug)]
pub struct Title<'a> {
    /// The number of stars.
    pub level: usize,
    /// The letter of the priority cookie.
    pub priority: Option<char>,
    /// The tags of the trailing tag group, in order.
    pub tags: Vec<Text<'a>>,
    /// The todo keyword.
    pub keyword: Option<Text<'a>>,
    /// The title text, without the stars, keyword, priority cookie and tags.
    pub raw: Text<'a>,
    /// The planning line that follows the headline.
    pub planning: Option<Box<Planning<'a>>>,
    /// The property drawer that follows the headline.
    pub properties: PropertiesMap<'a>,
    /// The number of blank lines after the headline and its planning and properties.
    pub post_blank: usize,
}

/// The bytes of an optional text.
pub open spec fn opt_text_view(o: Option<Text>) -> Option<Seq<u8>> {
    match o {
        Some(t) => Some(t@),
        None => None,
    }
}

impl<'a> Default for Title<'a> {
    /// A headline of level one with no text.
    fn default() -> (r: Title<'a>)
        ensures
            r.level == 1,
            r.priority is None,
            r.tags@.len() == 0,
            r.keyword is None,
            r.raw@ == Seq::<u8>::empty(),
            r.planning is None,
            r.properties@ == Seq::<(Seq<u8>, Seq<u8>)>::empty(),
            r.post_blank == 0,
    {
        Title {
            level: 1,
            priority: None,
            tags: Vec::new(),
            keyword: None,
            raw: Text::Owned(Vec::new()),
            planning: None,
            properties: PropertiesMap::new(),
            post_blank: 0,
        }
    }
}

pub open spec fn is_upper(b: u8) -> bool {
    0x41 <= b <= 0x5a
}

/// The number of stars that open `s`.
pub open spec fn title_level(s: Seq<u8>) -> int {
    run_end(s, 0, |b: u8| is_star(b))
}

/// The range of the todo keyword that follows the stars and at least one space:
/// the word up to the next whitespace, where it is one of the keywords.
pub open spec fn keyword_range(s: Seq<u8>, config: &ParseConfig) -> Option<(int, int)> {
    let p = title_level(s);
    let a = run_end(s, p, |b: u8| is_space(b));
    let w = run_end(s, a, |b: u8| !is_ascii_ws(b));
    if a > p && w > a && is_todo_keyword(config, s.subrange(a, w)) {
        Some((a, w))
    } else {
        None
    }
}

/// Where the text after the stars and the todo keyword starts.
pub open spec fn after_keyword(s: Seq<u8>, config: &ParseConfig) -> int {
    match keyword_range(s, config) {
        Some((_, w)) => w,
        None => title_level(s),
    }
}

/// The priority cookie at `p`: spaces, `[#`, an uppercase ASCII letter, `]`,
/// then spaces, which it takes in, or a line ending, which it leaves. Gives the
/// letter and where
/// the text after it starts.
pub open spec fn priority_at(s: Seq<u8>, p: int) -> Option<(u8, int)> {
    let a = run_end(s, p, |b: u8| is_space(b));
    let e = a + 4;
    let e2 = run_end(s, e, |b: u8| is_space(b));
    if a > p && e <= s.len() && s[a] == 0x5b && s[a + 1] == 0x23 && is_upper(s[a + 2]) && s[a
        + 3] == 0x5d {
        if e2 > e {
            Some((s[a + 2], e2))
        } else if e < s.len() && s[e] == 0x0a {
            Some((s[a + 2], e))
        } else if s.len() - e > 1 && s[e] == 0x0d && s[e + 1] == 0x0a {
            Some((s[a + 2], e))
        } else {
            None
        }
    } else {
        None
    }
}

/// Where the rest of the headline line starts.
pub open spec fn text_start(s: Seq<u8>, config: &ParseConfig) -> int {
    match priority_at(s, after_keyword(s, config)) {
        Some((_, e)) => e,
        None => after_keyword(s, config),
    }
}

/// The rest of the headline line, trimmed.
pub open spec fn title_tail(s: Seq<u8>, config: &ParseConfig) -> Seq<u8> {
    let p = text_start(s, config);
    trimmed(s.subrange(p, find_from(s, p, 0x0a)))
}

/// The text after the headline line.
pub open spec fn after_title_line(s: Seq<u8>, config: &ParseConfig) -> Seq<u8> {
    s.subrange(next_line(s, text_start(s, config)), s.len() as int)
}

/// What the property drawer and the blank lines at the start of `u` give: the
/// properties, the number of blank lines and the text after them.
pub open spec fn after_meta(u: Seq<u8>) -> (Seq<(Seq<u8>, Seq<u8>)>, nat, Seq<u8>) {
    let (props, v) = match properties_drawer(u) {
        Some((p, k)) => (p, u.subrange(k, u.len() as int)),
        None => (seq![], u),
    };
    let (n, e) = blank_lines(v, 0);
    (props, n, v.subrange(e, v.len() as int))
}

/// Whether a character is whitespace, as `char::is_whitespace` tells.
pub uninterp spec fn ws_of(c: char) -> bool;

/// Relies on char::is_whitespace: whether `c` has the Unicode White_Space
/// property; the answer depends on `c` alone.
#[verifier::external_body]
fn is_whitespace_char(c: char) -> (r: bool)
    ensures
        r == ws_of(c),
{
    c.is_whitespace()
}

/// Whether `r` is commented: it opens with `COMMENT`, followed by its end or by
/// a whitespace character.
pub open spec fn is_commented_text(r: Seq<u8>) -> bool {
    let rest = r.subrange(7, r.len() as int);
    &&& r.len() >= 7
    &&& r.subrange(0, 7) == seq![0x43u8, 0x4f, 0x4d, 0x4d, 0x45, 0x4e, 0x54]
    &&& (r.len() == 7 || (valid_utf8(rest) && ws_of(decode_utf8(rest)[0])))
}

proof fn lemma_run_start_above(s: Seq<u8>, lo: int, hi: int, k: int)
    requires
        0 <= lo <= k < hi <= s.len(),
        !is_trim_ws(s[k]),
    ensures
        run_start(s, lo, hi, |b: u8| is_trim_ws(b)) > k,
{
    crate::scan::lemma_run_start_bounds(s, lo, hi, |b: u8| is_trim_ws(b));
}

proof fn lemma_run_end_at(s: Seq<u8>, i: int, j: int, p: spec_fn(u8) -> bool)
    requires
        0 <= i <= j < s.len(),
        forall|k: int| i <= k < j ==> p(#[trigger] s[k]),
        !p(s[j]),
    ensures
        run_end(s, i, p) == j,
    decreases j - i,
{
    if i < j {
        lemma_run_end_at(s, i + 1, j, p);
    }
}

/// Trimming a text that opens with `w` (non-empty, its first and last bytes not
/// trimmed) keeps `w` at its start.
proof fn lemma_trim_keeps_prefix(t: Seq<u8>, wl: int)
    requires
        0 < wl <= t.len(),
        !is_trim_ws(t[0]),
        !is_trim_ws(t[wl - 1]),
    ensures
        trimmed(t).len() >= wl,
        trimmed(t).subrange(0, wl) == t.subrange(0, wl),
{
    lemma_run_end_at(t, 0, 0, |b: u8| is_trim_ws(b));
    lemma_run_start_above(t, 0, t.len() as int, wl - 1);
    crate::scan::lemma_run_start_bounds(t, 0, t.len() as int, |b: u8| is_trim_ws(b));
    assert(trimmed(t).subrange(0, wl) =~= t.subrange(0, wl));
}

/// A word that follows a headline's stars and spaces and is not a todo keyword
/// is taken for no keyword, and the title text starts with it. This holds where
/// the word is no priority cookie and holds no vertical tab (a byte that
/// trimming removes).
pub proof fn law_unknown_word_opens_title(s: Seq<u8>, config: &ParseConfig)
    requires
        s.len() > 0,
        s[0] == 0x2a,
        ({
            let p = title_level(s);
            let a = run_end(s, p, |b: u8| is_space(b));
            let w = run_end(s, a, |b: u8| !is_ascii_ws(b));
            &&& a > p
            &&& w > a
            &&& !is_todo_keyword(config, s.subrange(a, w))
            &&& priority_at(s, p) is None
            &&& forall|k: int| a <= k < w ==> s[k] != 0x0b
        }),
    ensures
        keyword_range(s, config) is None,
        ({
            let p = title_level(s);
            let a = run_end(s, p, |b: u8| is_space(b));
            let w = run_end(s, a, |b: u8| !is_ascii_ws(b));
            let raw = title_split(title_tail(s, config)).0;
            raw.len() >= w - a && raw.subrange(0, w - a) == s.subrange(a, w)
        }),
{
    let p = title_level(s);
    let a = run_end(s, p, |b: u8| is_space(b));
    let w = run_end(s, a, |b: u8| !is_ascii_ws(b));
    let wl = w - a;
    crate::scan::lemma_run_end_bounds(s, 0, |b: u8| is_star(b));
    crate::scan::lemma_run_end_bounds(s, p, |b: u8| is_space(b));
    crate::scan::lemma_run_end_bounds(s, a, |b: u8| !is_ascii_ws(b));
    assert(keyword_range(s, config) is None);
    assert(text_start(s, config) == p);
    let n = find_from(s, p, 0x0a);
    crate::scan::lemma_find_from_bounds(s, p, 0x0a);
    assert(n >= w) by {
        if n < w {
            assert(s[n] == 0x0a);
            assert(!is_ascii_ws(s[n]));
        }
    }
    let line = s.subrange(p, n);
    // the line opens with the spaces before the word
    let lo = run_end(line, 0, |b: u8| is_trim_ws(b));
    assert forall|k: int| 0 <= k < a - p implies is_trim_ws(#[trigger] line[k]) by {
        assert(line[k] == s[p + k]);
        assert(is_space(s[p + k]));
    }
    assert(line[a - p] == s[a]);
    lemma_run_end_at(line, 0, a - p, |b: u8| is_trim_ws(b));
    assert(lo == a - p);
    let hi = run_start(line, lo, line.len() as int, |b: u8| is_trim_ws(b));
    assert(line[w - p - 1] == s[w - 1]);
    lemma_run_start_above(line, lo, line.len() as int, w - p - 1);
    crate::scan::lemma_run_start_bounds(line, lo, line.len() as int, |b: u8| is_trim_ws(b));
    let tail = title_tail(s, config);
    assert(tail == line.subrange(lo, hi));
    assert(tail.len() >= wl);
    assert forall|k: int| 0 <= k < wl implies #[trigger] tail[k] == s[a + k] && !is_ascii_ws(tail[k])
        && tail[k] != 0x0b by {
        assert(tail[k] == line[lo + k]);
        assert(line[lo + k] == s[a + k]);
    }
    assert(tail.subrange(0, wl) =~= s.subrange(a, w));
    let i = last_space_below(tail, tail.len() as int);
    crate::scan::lemma_last_space_below_result(tail, tail.len() as int);
    if i >= 0 && crate::tags::is_tag_group(tail.subrange(i + 1, tail.len() as int)) {
        assert(i >= wl) by {
            if i < wl {
                assert(is_space(tail[i]));
                assert(!is_ascii_ws(tail[i]));
            }
        }
        let head = tail.subrange(0, i);
        lemma_trim_keeps_prefix(head, wl);
        assert(head.subrange(0, wl) =~= tail.subrange(0, wl));
    }
}

/// Whether the bytes of `s` from `i` to `j` are all trimmed whitespace.
pub open spec fn all_trim_ws(s: Seq<u8>, i: int, j: int) -> bool {
    forall|k: int| i <= k < j ==> is_trim_ws(#[trigger] s[k])
}

/// Where the trimmed part of `t` starts and ends.
proof fn lemma_trimmed_range(t: Seq<u8>) -> (r: (int, int))
    ensures
        0 <= r.0 <= r.1 <= t.len(),
        trimmed(t) == t.subrange(r.0, r.1),
        all_trim_ws(t, 0, r.0),
        all_trim_ws(t, r.1, t.len() as int),
{
    let lo = run_end(t, 0, |b: u8| is_trim_ws(b));
    crate::scan::lemma_run_end_bounds(t, 0, |b: u8| is_trim_ws(b));
    let hi = run_start(t, lo, t.len() as int, |b: u8| is_trim_ws(b));
    crate::scan::lemma_run_start_bounds(t, lo, t.len() as int, |b: u8| is_trim_ws(b));
    (lo, hi)
}

proof fn lemma_text_start_bounds(s: Seq<u8>, config: &ParseConfig)
    ensures
        0 <= title_level(s) <= after_keyword(s, config) <= text_start(s, config) <= s.len(),
{
    let p = title_level(s);
    crate::scan::lemma_run_end_bounds(s, 0, |b: u8| is_star(b));
    let a0 = run_end(s, p, |b: u8| is_space(b));
    crate::scan::lemma_run_end_bounds(s, p, |b: u8| is_space(b));
    crate::scan::lemma_run_end_bounds(s, a0, |b: u8| !is_ascii_ws(b));
    let ak = after_keyword(s, config);
    let a1 = run_end(s, ak, |b: u8| is_space(b));
    crate::scan::lemma_run_end_bounds(s, ak, |b: u8| is_space(b));
    if a1 + 4 <= s.len() {
        crate::scan::lemma_run_end_bounds(s, a1 + 4, |b: u8| is_space(b));
    }
}

/// A headline line is its stars, keyword and priority cookie, then the title
/// text, then the tag group, with only whitespace between them and at the end:
/// the title text is the input from `x` to `y`, after all of those before it,
/// and the tags come from the group from `g` to `e`, after it.
#[verifier::rlimit(40)]
pub proof fn law_title_line_pieces(s: Seq<u8>, config: &ParseConfig)
    requires
        s.len() > 0,
        s[0] == 0x2a,
    ensures
        ({
            let l = text_start(s, config);
            let n = find_from(s, l, 0x0a);
            let raw = title_split(title_tail(s, config)).0;
            let tags = title_split(title_tail(s, config)).1;
            exists|x: int, y: int, e: int|
                {
                    &&& title_level(s) <= after_keyword(s, config) <= l <= x <= y <= e <= n
                    &&& s.subrange(x, y) == raw
                    &&& all_trim_ws(s, l, x)
                    &&& all_trim_ws(s, e, n)
                    &&& ((y == e && tags == Seq::<Seq<u8>>::empty()) || exists|g: int|
                        y < g < e && all_trim_ws(s, y, g) && crate::tags::is_tag_group(
                            #[trigger] s.subrange(g, e),
                        ) && tags == crate::tags::tags_of(s.subrange(g, e)))
                }
        }),
{
    lemma_text_start_bounds(s, config);
    let l = text_start(s, config);
    let n = find_from(s, l, 0x0a);
    crate::scan::lemma_find_from_bounds(s, l, 0x0a);
    let line = s.subrange(l, n);
    let (lo, hi) = lemma_trimmed_range(line);
    let tail = title_tail(s, config);
    assert(tail == line.subrange(lo, hi));
    let i = last_space_below(tail, tail.len() as int);
    crate::scan::lemma_last_space_below_result(tail, tail.len() as int);
    assert(all_trim_ws(s, l, l + lo)) by {
        assert forall|k: int| l <= k < l + lo implies is_trim_ws(#[trigger] s[k]) by {
            assert(s[k] == line[k - l]);
        }
    }
    assert(all_trim_ws(s, l + hi, n)) by {
        assert forall|k: int| l + hi <= k < n implies is_trim_ws(#[trigger] s[k]) by {
            assert(s[k] == line[k - l]);
        }
    }
    if i >= 0 && crate::tags::is_tag_group(tail.subrange(i + 1, tail.len() as int)) {
        let head = tail.subrange(0, i);
        let (lo2, hi2) = lemma_trimmed_range(head);
        let x = l + lo + lo2;
        let y = l + lo + hi2;
        let g = l + lo + i + 1;
        let e = l + hi;
        assert(s.subrange(x, y) =~= head.subrange(lo2, hi2));
        assert(s.subrange(g, e) =~= tail.subrange(i + 1, tail.len() as int));
        assert(all_trim_ws(s, l, x)) by {
            assert forall|k: int| l <= k < x implies is_trim_ws(#[trigger] s[k]) by {
                if k >= l + lo {
                    assert(s[k] == head[k - l - lo]);
                }
            }
        }
        assert(all_trim_ws(s, y, g)) by {
            assert forall|k: int| y <= k < g implies is_trim_ws(#[trigger] s[k]) by {
                if k < l + lo + i {
                    assert(s[k] == head[k - l - lo]);
                } else {
                    assert(s[k] == tail[i]);
                }
            }
        }
        assert(exists|g: int|
            y < g < e && all_trim_ws(s, y, g) && crate::tags::is_tag_group(
                #[trigger] s.subrange(g, e),
            ) && title_split(tail).1 == crate::tags::tags_of(s.subrange(g, e)));
    } else {
        let x = l + lo;
        let y = l + hi;
        assert(s.subrange(x, y) =~= tail);
        assert(title_split(tail).1 == Seq::<Seq<u8>>::empty());
        assert(all_trim_ws(s, l, x));
    }
}

/// A drawer whose name is not `PROPERTIES` is no property drawer: the attempt
/// gives no match, and a headline that it follows keeps no properties.
pub proof fn law_other_drawer_no_match(u: Seq<u8>)
    requires
        drawer_at(u) matches Some(d) && d.0 != properties_name(),
    ensures
        properties_drawer(u) is None,
        after_meta(u).0 == Seq::<(Seq<u8>, Seq<u8>)>::empty(),
{
}

fn star_run_end(s: &[u8]) -> (r: usize)
    ensures
        r == title_level(s@),
        r <= s@.len(),
{
    let mut j: usize = 0;
    while j < s.len() && s[j] == 0x2a
        invariant
            j <= s@.len(),
            run_end(s@, j as int, |b: u8| is_star(b)) == run_end(s@, 0, |b: u8| is_star(b)),
        decreases s@.len() - j,
    {
        j = j + 1;
    }
    j
}

fn word_run_end(s: &[u8], i: usize) -> (r: usize)
    requires
        i <= s@.len(),
    ensures
        r == run_end(s@, i as int, |b: u8| !is_ascii_ws(b)),
        i <= r <= s@.len(),
{
    let mut j: usize = i;
    while j < s.len() && !(s[j] == 0x20 || s[j] == 0x09 || s[j] == 0x0a || s[j] == 0x0c || s[j]
        == 0x0d)
        invariant
            i <= j <= s@.len(),
            run_end(s@, j as int, |b: u8| !is_ascii_ws(b)) == run_end(
                s@,
                i as int,
                |b: u8| !is_ascii_ws(b),
            ),
        decreases s@.len() - j,
    {
        j = j + 1;
    }
    j
}

fn priority_exec(s: &[u8], p: usize) -> (r: Option<(u8, usize)>)
    requires
        p <= s@.len(),
    ensures
        r matches Some(t) ==> priority_at(s@, p as int) == Some((t.0, t.1 as int)) && t.1 <= s@.len(),
        r is None ==> priority_at(s@, p as int) is None,
{
    let a = space_run_end(s, p);
    if a <= p || s.len() - a < 4 {
        return None;
    }
    if !(s[a] == 0x5b && s[a + 1] == 0x23 && 0x41 <= s[a + 2] && s[a + 2] <= 0x5a && s[a + 3]
        == 0x5d) {
        return None;
    }
    let e = a + 4;
    let e2 = space_run_end(s, e);
    if e2 > e {
        Some((s[a + 2], e2))
    } else if e < s.len() && s[e] == 0x0a {
        Some((s[a + 2], e))
    } else if s.len() - e > 1 && s[e] == 0x0d && s[e + 1] == 0x0a {
        Some((s[a + 2], e))
    } else {
        None
    }
}

/// What `parse_title` gives for the headline `s`: the text after it `r.0`, the
/// headline `r.1.0` and its title text `r.1.1`.
pub open spec fn title_parsed(s: Seq<u8>, config: &ParseConfig, r: (&[u8], (Title, &[u8]))) -> bool {
    let t = r.1.0;
    let rest = after_title_line(s, config);
    let u = if t.planning is Some {
        rest.subrange(next_line(rest, 0), rest.len() as int)
    } else {
        rest
    };
    &&& t.level as int == title_level(s)
    &&& t.level > 0
    &&& t.keyword.is_some() == keyword_range(s, config).is_some()
    &&& (keyword_range(s, config) matches Some(k) ==> t.keyword->Some_0@ == s.subrange(
        k.0,
        k.1,
    ))
    &&& t.priority.is_some() == priority_at(s, after_keyword(s, config)).is_some()
    &&& (priority_at(s, after_keyword(s, config)) matches Some(q) ==> t.priority
        == Some(q.0 as char))
    &&& t.raw@ == title_split(title_tail(s, config)).0
    &&& r.1.1@ == t.raw@
    &&& texts_view(t.tags@) == title_split(title_tail(s, config)).1
    &&& (t.planning is Some <==> planning_line(rest) is Some)
    &&& (t.planning matches Some(p) ==> planning_line(rest) == Some(planning_view(*p)))
    &&& t.properties@ == after_meta(u).0
    &&& t.post_blank as nat == after_meta(u).1
    &&& r.0@ == after_meta(u).2
}

/// Parses the headline at the start of `input`, which opens with a star: the
/// stars, the todo keyword, the priority cookie, the title text and its tags on
/// the first line; then a planning line, a property drawer and blank lines, where
/// they follow. Gives the text after all of them, the headline, and its title
/// text once more.
pub fn parse_title<'a>(input: &'a [u8], config: &ParseConfig) -> (r: (
    &'a [u8],
    (Title<'a>, &'a [u8]),
))
    requires
        input@.len() > 0,
        input@[0] == 0x2a,
    ensures
        title_parsed(input@, config, r),
{
    let level = star_run_end(input);
    proof {
        crate::scan::lemma_run_end_bounds(input@, 1, |b: u8| is_star(b));
        assert(run_end(input@, 0, |b: u8| is_star(b)) == run_end(input@, 1, |b: u8| is_star(b)));
    }
    let a = space_run_end(input, level);
    let w = word_run_end(input, a);
    let mut pos = level;
    let mut keyword: Option<Text<'a>> = None;
    if a > level && w > a && config.is_todo_keyword(&input[a..w]) {
        keyword = Some(Text::Borrowed(&input[a..w]));
        pos = w;
    }
    assert(pos == after_keyword(input@, config));
    let mut priority: Option<char> = None;
    match priority_exec(input, pos) {
        Some((c, e)) => {
            priority = Some(c as char);
            pos = e;
        },
        None => {},
    }
    assert(pos == text_start(input@, config));
    let n = find_byte(input, pos, 0x0a);
    let tail = trim(&input[pos..n]);
    let (raw, tags) = split_title(tail);
    let after_line = crate::props::next_line_exec(input, pos);
    let rest = &input[after_line..input.len()];
    let (u, planning) = match Planning::parse(rest) {
        Some((u, p)) => (u, Some(Box::new(p))),
        None => (rest, None),
    };
    let (v, properties) = match parse_properties_drawer(u) {
        Some((v, m)) => (v, m),
        None => (u, PropertiesMap::new()),
    };
    let (post_blank, e) = blank_lines_count(v, 0);
    proof {
        assert(properties_drawer(u@) is None ==> v@ == u@);
        assert(after_meta(u@).0 == properties@);
    }
    let title = Title {
        level,
        priority,
        tags,
        keyword,
        raw: Text::Borrowed(raw),
        planning,
        properties,
        post_blank,
    };
    (&v[e..v.len()], (title, raw))
}

impl<'a> Title<'a> {
    /// Parses a headline (see `parse_title`); `None` where `input` does not open
    /// with a star.
    pub fn parse(input: &'a str, config: &ParseConfig) -> (r: Option<(&'a [u8], (Title<'a>, &'a [u8]))>)
        ensures
            r is Some <==> input.spec_bytes().len() > 0 && input.spec_bytes()[0] == 0x2a,
            r matches Some(t) ==> title_parsed(input.spec_bytes(), config, t),
    {
        let s = input.as_bytes();
        if s.len() == 0 || s[0] != 0x2a {
            return None;
        }
        Some(parse_title(s, config))
    }

    /// A copy of the headline that owns all its text.
    pub fn into_owned(self) -> (r: Title<'static>)
        ensures
            r.level == self.level,
            r.priority == self.priority,
            texts_view(r.tags@) == texts_view(self.tags@),
            opt_text_view(r.keyword) == opt_text_view(self.keyword),
            r.raw@ == self.raw@,
            r.planning is Some == self.planning is Some,
            r.planning matches Some(p) ==> planning_view(*p) == planning_view(*self.planning->Some_0)
                && ts_owned(p.deadline) && ts_owned(p.scheduled) && ts_owned(p.closed),
            r.properties@ == self.properties@,
            r.post_blank == self.post_blank,
            r.raw is Owned,
            r.keyword matches Some(k) ==> k is Owned,
            forall|i: int| 0 <= i < r.tags@.len() ==> #[trigger] r.tags@[i] is Owned,
            forall|i: int| 0 <= i < r.properties.pairs@.len() ==> (#[trigger] r.properties.pairs@[i]).0 is Owned
                && r.properties.pairs@[i].1 is Owned,
    {
        let mut tags: Vec<Text<'static>> = Vec::new();
        let n = self.tags.len();
        let mut i: usize = 0;
        while i < n
            invariant
                n == self.tags@.len(),
                i <= n,
                texts_view(tags@) == texts_view(self.tags@).subrange(0, i as int),
                forall|j: int| 0 <= j < tags@.len() ==> #[trigger] tags@[j] is Owned,
            decreases n - i,
        {
            let t = Text::Owned(vstd::slice::slice_to_vec(self.tags[i].as_bytes()));
            assert(t@ == self.tags@[i as int]@);
            assert(texts_view(self.tags@)[i as int] == self.tags@[i as int]@);
            assert(texts_view(tags@.push(t)) =~= texts_view(tags@).push(t@));
            assert(texts_view(tags@.push(t)) =~= texts_view(self.tags@).subrange(0, i + 1));
            tags.push(t);
            i = i + 1;
        }
        assert(texts_view(self.tags@).subrange(0, n as int) =~= texts_view(self.tags@));
        let keyword = match self.keyword {
            Some(k) => Some(k.into_owned()),
            None => None,
        };
        let planning = match self.planning {
            Some(p) => Some(Box::new(p.into_owned())),
            None => None,
        };
        Title {
            level: self.level,
            priority: self.priority,
            tags,
            keyword,
            raw: self.raw.into_owned(),
            planning,
            properties: self.properties.into_owned(),
            post_blank: self.post_blank,
        }
    }

    /// The closed timestamp of the planning line, if there is one.
    pub fn closed(&self) -> (r: Option<&Timestamp<'a>>)
        ensures
            self.planning is None ==> r is None,
            self.planning matches Some(p) ==> (r is Some <==> p.closed is Some),
            r matches Some(x) ==> Some(*x) == self.planning->Some_0.closed,
    {
        match &self.planning {
            Some(p) => p.closed.as_ref(),
            None => None,
        }
    }

    /// The scheduled timestamp of the planning line, if there is one.
    pub fn scheduled(&self) -> (r: Option<&Timestamp<'a>>)
        ensures
            self.planning is None ==> r is None,
            self.planning matches Some(p) ==> (r is Some <==> p.scheduled is Some),
            r matches Some(x) ==> Some(*x) == self.planning->Some_0.scheduled,
    {
        match &self.planning {
            Some(p) => p.scheduled.as_ref(),
            None => None,
        }
    }

    /// The deadline timestamp of the planning line, if there is one.
    pub fn deadline(&self) -> (r: Option<&Timestamp<'a>>)
        ensures
            self.planning is None ==> r is None,
            self.planning matches Some(p) ==> (r is Some <==> p.deadline is Some),
            r matches Some(x) ==> Some(*x) == self.planning->Some_0.deadline,
    {
        match &self.planning {
            Some(p) => p.deadline.as_ref(),
            None => None,
        }
    }

    /// Whether one of the tags is `ARCHIVE`.
    pub fn is_archived(&self) -> (r: bool)
        ensures
            r == exists|i: int|
                0 <= i < self.tags@.len() && #[trigger] self.tags@[i]@ == seq![
                    0x41u8,
                    0x52,
                    0x43,
                    0x48,
                    0x49,
                    0x56,
                    0x45,
                ],
    {
        let archive: &[u8] = &[0x41u8, 0x52, 0x43, 0x48, 0x49, 0x56, 0x45];
        let mut i: usize = 0;
        while i < self.tags.len()
            invariant
                i <= self.tags@.len(),
                archive@ == seq![0x41u8, 0x52, 0x43, 0x48, 0x49, 0x56, 0x45],
                forall|k: int| 0 <= k < i ==> #[trigger] self.tags@[k]@ != archive@,
            decreases self.tags@.len() - i,
        {
            if self.tags[i].eq_bytes(archive) {
                return true;
            }
            i = i + 1;
        }
        false
    }

    /// Whether the headline is commented: its title text opens with `COMMENT`,
    /// followed by its end or by whitespace.
    pub fn is_commented(&self) -> (r: bool)
        ensures
            r == is_commented_text(self.raw@),
    {
        let r = self.raw.as_bytes();
        let comment: &[u8] = &[0x43u8, 0x4f, 0x4d, 0x4d, 0x45, 0x4e, 0x54];
        if r.len() < 7 || !crate::scan::bytes_eq(&r[0..7], comment) {
            proof {
                if r@.len() >= 7 {
                    assert(comment@ =~= seq![0x43u8, 0x4f, 0x4d, 0x4d, 0x45, 0x4e, 0x54]);
                }
            }
            return false;
        }
        assert(comment@ =~= seq![0x43u8, 0x4f, 0x4d, 0x4d, 0x45, 0x4e, 0x54]);
        if r.len() == 7 {
            return true;
        }
        let rest = &r[7..r.len()];
        match crate::text::utf8_str(rest) {
            None => false,
            Some(st) => {
                proof {
                    vstd::utf8::encode_utf8_decode_utf8(st@);
                    vstd::string::axiom_spec_iter(st);
                    assert(st@.len() > 0);
                }
                let mut it = st.chars();
                let c = it.next();
                proof {
                    vstd::string::next_postcondition(&vstd::string::spec_iter(st), &it, c);
                }
                match c {
                    Some(ch) => is_whitespace_char(ch),
                    None => false,
                }
            },
        }
    }
}

} // verus!
