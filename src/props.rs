//! Property drawers and the ordered name/value map they fill.

use vstd::prelude::*;
use crate::scan::{
    blank_lines, blank_lines_count, find_byte, find_from, is_space, is_trim_ws,
    lemma_find_from_bounds, run_end, space_run_end, trim, trim_ws_run_end, trimmed,
};
use crate::text::Text;
use std::collections::hash_map::RandomState;
use vstd::std_specs::hash::{builds_valid_hashers, obeys_key_model};

verus! {

#[verifier::external_type_specification]
#[verifier::external_body]
#[verifier::reject_recursive_types(K)]
#[verifier::reject_recursive_types(V)]
#[verifier::reject_recursive_types(S)]
pub struct ExIndexMap<K, V, S>(indexmap::IndexMap<K, V, S>);

/// The entries of an ordered map of byte strings, in their order.
pub uninterp spec fn index_map_entries(m: indexmap::IndexMap<Vec<u8>, Vec<u8>>) -> Seq<
    (Seq<u8>, Seq<u8>),
>;

/// The first index at or after `i` of the entry keyed `k`, or -1.
pub open spec fn key_pos(es: Seq<(Seq<u8>, Seq<u8>)>, k: Seq<u8>, i: int) -> int
    decreases es.len() - i,
{
    if i < 0 || i >= es.len() {
        -1
    } else if es[i].0 == k {
        i
    } else {
        key_pos(es, k, i + 1)
    }
}

/// The entries after `k` is set to `v`: an entry keyed `k` keeps its place and
/// takes the value `v`; where there is none, the pair goes last.
pub open spec fn entries_insert(es: Seq<(Seq<u8>, Seq<u8>)>, k: Seq<u8>, v: Seq<u8>) -> Seq<
    (Seq<u8>, Seq<u8>),
> {
    let i = key_pos(es, k, 0);
    if 0 <= i < es.len() {
        es.update(i, (k, v))
    } else {
        es.push((k, v))
    }
}

/// The entries that keying `ps` in order gives: one per name, at the place of
/// its first pair, with the value of its last.
pub open spec fn keyed_in_order(ps: Seq<(Seq<u8>, Seq<u8>)>) -> Seq<(Seq<u8>, Seq<u8>)>
    decreases ps.len(),
{
    if ps.len() == 0 {
        ps
    } else {
        entries_insert(keyed_in_order(ps.drop_last()), ps.last().0, ps.last().1)
    }
}

proof fn lemma_key_absent(es: Seq<(Seq<u8>, Seq<u8>)>, k: Seq<u8>, i: int)
    requires
        0 <= i,
        forall|j: int| i <= j < es.len() ==> (#[trigger] es[j]).0 != k,
    ensures
        key_pos(es, k, i) == -1,
    decreases es.len() - i,
{
    if i < es.len() {
        lemma_key_absent(es, k, i + 1);
    }
}

/// Keying pairs whose names are all different keeps every pair, in the order
/// they were written.
pub proof fn law_distinct_names_keep_order(ps: Seq<(Seq<u8>, Seq<u8>)>)
    requires
        forall|i: int, j: int| 0 <= i < j < ps.len() ==> (#[trigger] ps[i]).0 != (#[trigger] ps[j]).0,
    ensures
        keyed_in_order(ps) == ps,
    decreases ps.len(),
{
    if ps.len() > 0 {
        let init = ps.drop_last();
        assert forall|i: int, j: int| 0 <= i < j < init.len() implies (#[trigger] init[i]).0 != (
        #[trigger] init[j]).0 by {
            assert(init[i] == ps[i] && init[j] == ps[j]);
        }
        law_distinct_names_keep_order(init);
        assert forall|j: int| 0 <= j < init.len() implies (#[trigger] init[j]).0 != ps.last().0 by {
            assert(init[j] == ps[j]);
        }
        lemma_key_absent(init, ps.last().0, 0);
        assert(init.push((ps.last().0, ps.last().1)) =~= ps);
    }
}

/// The value of the last pair of `ps` named `k`, or nothing.
pub open spec fn last_value(ps: Seq<(Seq<u8>, Seq<u8>)>, k: Seq<u8>) -> Seq<u8>
    decreases ps.len(),
{
    if ps.len() == 0 {
        Seq::empty()
    } else if ps.last().0 == k {
        ps.last().1
    } else {
        last_value(ps.drop_last(), k)
    }
}

/// Relies on indexmap::IndexMap::new: a new map holds no entry.
#[verifier::external_body]
fn index_map_new() -> (r: indexmap::IndexMap<Vec<u8>, Vec<u8>>)
    ensures
        index_map_entries(r) == Seq::<(Seq<u8>, Seq<u8>)>::empty(),
{
    indexmap::IndexMap::new()
}

/// Relies on indexmap::IndexMap::insert: where the key is there, it keeps its
/// place and its value is replaced; otherwise the pair goes last.
#[verifier::external_body]
fn index_map_insert(m: &mut indexmap::IndexMap<Vec<u8>, Vec<u8>>, k: Vec<u8>, v: Vec<u8>)
    ensures
        index_map_entries(*final(m)) == entries_insert(index_map_entries(*old(m)), k@, v@),
{
    m.insert(k, v);
}

/// The name/value pairs of a property drawer, in the order they were written.
/// A name may occur more than once: every pair is kept.
#[derive(Debug)]
pub struct PropertiesMap<'a> {
    pub pairs: Vec<(Text<'a>, Text<'a>)>,
}

/// The bytes of a name/value pair.
pub open spec fn pair_view(p: (Text, Text)) -> (Seq<u8>, Seq<u8>) {
    (p.0@, p.1@)
}

impl<'a> View for PropertiesMap<'a> {
    type V = Seq<(Seq<u8>, Seq<u8>)>;

    open spec fn view(&self) -> Seq<(Seq<u8>, Seq<u8>)> {
        self.pairs@.map_values(|p: (Text, Text)| pair_view(p))
    }
}

impl<'a> PropertiesMap<'a> {
    pub fn new() -> (r: PropertiesMap<'a>)
        ensures
            r@ == Seq::<(Seq<u8>, Seq<u8>)>::empty(),
    {
        let r = PropertiesMap { pairs: Vec::new() };
        assert(r@ =~= Seq::<(Seq<u8>, Seq<u8>)>::empty());
        r
    }

    pub fn is_empty(&self) -> (r: bool)
        ensures
            r == (self@.len() == 0),
    {
        self.pairs.len() == 0
    }

    /// The pairs, in order.
    pub fn iter(&self) -> (r: &[(Text<'a>, Text<'a>)])
        ensures
            r@ == self.pairs@,
    {
        self.pairs.as_slice()
    }

    /// The pairs, in order, to be changed in place; none can be added or
    /// removed through them.
    pub fn iter_mut(&mut self) -> (r: &mut [(Text<'a>, Text<'a>)])
        ensures
            r@ == old(self).pairs@,
    {
        self.pairs.as_mut_slice()
    }

    /// The pairs, in order, taken out of the map.
    pub fn into_iter(self) -> (r: Vec<(Text<'a>, Text<'a>)>)
        ensures
            r@ == self.pairs@,
    {
        self.pairs
    }

    /// The pairs keyed by name; where a name occurs more than once, the last
    /// value written for it is kept. Stated where the map's keys and hasher
    /// behave as vstd models them: every key is one of the names.
    pub fn into_hash_map(self) -> (r: std::collections::HashMap<Vec<u8>, Vec<u8>>)
        ensures
            obeys_key_model::<Vec<u8>>() && builds_valid_hashers::<RandomState>() ==> forall|k: Vec<u8>| #[trigger] r@.contains_key(k) ==> exists|i: int|
                    0 <= i < self@.len() && (#[trigger] self@[i]).0 == k@,
    {
        let mut m: std::collections::HashMap<Vec<u8>, Vec<u8>> = std::collections::HashMap::new();
        let ghost all = self@;
        let ghost ok = obeys_key_model::<Vec<u8>>() && builds_valid_hashers::<RandomState>();
        let n = self.pairs.len();
        let mut i: usize = 0;
        while i < n
            invariant
                n == self.pairs@.len(),
                all == self@,
                i <= n,
                ok == (obeys_key_model::<Vec<u8>>() && builds_valid_hashers::<RandomState>()),
                ok ==> forall|k: Vec<u8>| #[trigger] m@.contains_key(k) ==> exists|j: int|
                    0 <= j < i && (#[trigger] all[j]).0 == k@,
                ok ==> forall|j: int| 0 <= j < i ==> exists|k: Vec<u8>|
                    #[trigger] m@.contains_key(k) && k@ == (#[trigger] all[j]).0 && m@[k]@
                        == last_value(all.subrange(0, i as int), all[j].0),
            decreases n - i,
        {
            let k = vstd::slice::slice_to_vec(self.pairs[i].0.as_bytes());
            let v = vstd::slice::slice_to_vec(self.pairs[i].1.as_bytes());
            assert(all[i as int] == pair_view(self.pairs@[i as int]));
            let ghost old_m = m@;
            m.insert(k, v);
            proof {
                if ok {
                    let pre = all.subrange(0, i as int);
                    let post = all.subrange(0, i + 1);
                    assert(post.drop_last() =~= pre);
                    assert(m@ == old_m.insert(k, v));
                    assert forall|kk: Vec<u8>| #[trigger] m@.contains_key(kk) implies exists|j: int|
                        0 <= j < i + 1 && (#[trigger] all[j]).0 == kk@ by {
                        if kk != k {
                            assert(old_m.contains_key(kk));
                        } else {
                            assert(all[i as int].0 == kk@);
                        }
                    }
                    assert forall|j: int| 0 <= j < i + 1 implies exists|kk: Vec<u8>|
                        #[trigger] m@.contains_key(kk) && kk@ == (#[trigger] all[j]).0 && m@[kk]@
                            == last_value(post, all[j].0) by {
                        if all[j].0 == all[i as int].0 {
                            assert(last_value(post, all[j].0) == v@);
                            assert(m@.contains_key(k) && k@ == all[j].0 && m@[k]@ == v@);
                        } else {
                            let kk = choose|kk: Vec<u8>|
                                #[trigger] old_m.contains_key(kk) && kk@ == all[j].0 && old_m[kk]@
                                    == last_value(pre, all[j].0);
                            assert(kk != k);
                            assert(last_value(post, all[j].0) == last_value(pre, all[j].0));
                            assert(m@.contains_key(kk) && m@[kk] == old_m[kk]);
                        }
                    }
                }
            }
            i = i + 1;
        }
        assert(all.subrange(0, n as int) =~= all);
        assert(i == n);
        assert(ok ==> (forall|k: Vec<u8>| #[trigger] m@.contains_key(k) ==> exists|j: int|
            0 <= j < all.len() && (#[trigger] all[j]).0 == k@)) by {
            if ok {
                assert(forall|k: Vec<u8>| #[trigger] m@.contains_key(k) ==> exists|j: int|
                    0 <= j < all.len() && (#[trigger] all[j]).0 == k@);
            }
        }
        m
    }

    /// The pairs keyed by name, in order: one entry per name, at the place of
    /// its first pair, with the value of its last.
    pub fn into_index_map(self) -> (r: indexmap::IndexMap<Vec<u8>, Vec<u8>>)
        ensures
            index_map_entries(r) == keyed_in_order(self@),
    {
        let mut m = index_map_new();
        let ghost all = self@;
        let n = self.pairs.len();
        let mut i: usize = 0;
        assert(all.subrange(0, 0) =~= Seq::<(Seq<u8>, Seq<u8>)>::empty());
        while i < n
            invariant
                n == self.pairs@.len(),
                all == self@,
                i <= n,
                index_map_entries(m) == keyed_in_order(all.subrange(0, i as int)),
            decreases n - i,
        {
            let k = vstd::slice::slice_to_vec(self.pairs[i].0.as_bytes());
            let v = vstd::slice::slice_to_vec(self.pairs[i].1.as_bytes());
            assert(all[i as int] == pair_view(self.pairs@[i as int]));
            assert(all.subrange(0, i + 1).drop_last() =~= all.subrange(0, i as int));
            index_map_insert(&mut m, k, v);
            i = i + 1;
        }
        assert(all.subrange(0, n as int) =~= all);
        m
    }

    /// A copy of the map that owns all its text.
    pub fn into_owned(self) -> (r: PropertiesMap<'static>)
        ensures
            r@ == self@,
            forall|i: int| 0 <= i < r.pairs@.len() ==> (#[trigger] r.pairs@[i]).0 is Owned && r.pairs@[i].1 is Owned,
    {
        let mut out: PropertiesMap<'static> = PropertiesMap::new();
        let mut pairs = self.pairs;
        let ghost all = self@;
        let mut i: usize = 0;
        let n = pairs.len();
        while i < n
            invariant
                n == pairs@.len(),
                i <= n,
                all == pairs@.map_values(|p: (Text, Text)| pair_view(p)),
                out@ == all.subrange(0, i as int),
                forall|j: int| 0 <= j < out.pairs@.len() ==> (#[trigger] out.pairs@[j]).0 is Owned && out.pairs@[j].1 is Owned,
            decreases n - i,
        {
            let k = Text::Owned(vstd::slice::slice_to_vec(pairs[i].0.as_bytes()));
            let v = Text::Owned(vstd::slice::slice_to_vec(pairs[i].1.as_bytes()));
            out.push(k, v);
            assert(all.subrange(0, i + 1) =~= all.subrange(0, i as int).push((k@, v@)));
            i = i + 1;
        }
        assert(all.subrange(0, n as int) =~= all);
        out
    }

    /// Appends a pair after all the others.
    pub fn push(&mut self, name: Text<'a>, value: Text<'a>)
        ensures
            final(self)@ == old(self)@.push((name@, value@)),
            final(self).pairs@ == old(self).pairs@.push((name, value)),
    {
        self.pairs.push((name, value));
        assert(final(self)@ =~= old(self)@.push((name@, value@)));
    }
}

/// A byte of a drawer's name: an ASCII letter or digit, `-` or `_`.
pub open spec fn is_drawer_name_byte(b: u8) -> bool {
    (0x30 <= b <= 0x39) || (0x41 <= b <= 0x5a) || (0x61 <= b <= 0x7a) || b == 0x2d || b == 0x5f
}

/// The index just past the line that starts at `i`, and past its line feed.
pub open spec fn next_line(s: Seq<u8>, i: int) -> int {
    let n = find_from(s, i, 0x0a);
    if n < s.len() {
        n + 1
    } else {
        s.len() as int
    }
}

/// The start of the first line at or after `i` whose trimmed text is `:END:`,
/// or -1 where no line is.
pub open spec fn end_line_from(s: Seq<u8>, i: int) -> int
    decreases s.len() - i,
{
    if i < 0 || i >= s.len() {
        -1
    } else {
        let n = find_from(s, i, 0x0a);
        if trimmed(s.subrange(i, n)) == seq![0x3au8, 0x45, 0x4e, 0x44, 0x3a] {
            i
        } else if i <= n < s.len() {
            end_line_from(s, n + 1)
        } else {
            -1
        }
    }
}

/// Where the head line of a drawer ends, if `s` (leading whitespace skipped)
/// opens with one: `:NAME:`, then spaces, then the end of the line. Gives the
/// name's range and the start of the body.
pub open spec fn drawer_head(s: Seq<u8>) -> Option<(int, int, int)> {
    let a = run_end(s, 0, |b: u8| is_trim_ws(b));
    let ne = run_end(s, a + 1, |b: u8| is_drawer_name_byte(b));
    let le = run_end(s, ne + 1, |b: u8| is_space(b));
    if a < s.len() && s[a] == 0x3a && ne > a + 1 && ne < s.len() && s[ne] == 0x3a {
        if le == s.len() {
            Some((a + 1, ne, le))
        } else if le < s.len() && s[le] == 0x0a {
            Some((a + 1, ne, le + 1))
        } else {
            None
        }
    } else {
        None
    }
}

/// A drawer at the start of `s`: its name, its body, and where the text after
/// its `:END:` line starts.
pub open spec fn drawer_at(s: Seq<u8>) -> Option<(Seq<u8>, Seq<u8>, int)> {
    match drawer_head(s) {
        Some((ns, ne, b)) => {
            let e = end_line_from(s, b);
            if e >= 0 {
                Some((s.subrange(ns, ne), s.subrange(b, e), next_line(s, e)))
            } else {
                None
            }
        },
        None => None,
    }
}

pub fn is_drawer_name_byte_exec(b: u8) -> (r: bool)
    ensures
        r == is_drawer_name_byte(b),
{
    (0x30 <= b && b <= 0x39) || (0x41 <= b && b <= 0x5a) || (0x61 <= b && b <= 0x7a) || b == 0x2d
        || b == 0x5f
}

pub fn next_line_exec(s: &[u8], i: usize) -> (r: usize)
    requires
        i <= s@.len(),
    ensures
        r == next_line(s@, i as int),
        i <= r <= s@.len(),
{
    let n = find_byte(s, i, 0x0a);
    if n < s.len() {
        n + 1
    } else {
        n
    }
}

fn is_end_line(line: &[u8]) -> (r: bool)
    ensures
        r == (trimmed(line@) == seq![0x3au8, 0x45, 0x4e, 0x44, 0x3a]),
{
    let t = trim(line);
    let r = t.len() == 5 && t[0] == 0x3a && t[1] == 0x45 && t[2] == 0x4e && t[3] == 0x44 && t[4]
        == 0x3a;
    assert(r ==> t@ =~= seq![0x3au8, 0x45, 0x4e, 0x44, 0x3a]);
    r
}

proof fn lemma_end_line_bounds(s: Seq<u8>, i: int)
    requires
        0 <= i,
    ensures
        end_line_from(s, i) == -1 || i <= end_line_from(s, i) < s.len(),
    decreases s.len() - i,
{
    if i < s.len() {
        let n = find_from(s, i, 0x0a);
        lemma_find_from_bounds(s, i, 0x0a);
        if i <= n < s.len() {
            lemma_end_line_bounds(s, n + 1);
        }
    }
}

fn find_end_line(s: &[u8], i: usize) -> (r: Option<usize>)
    requires
        i <= s@.len(),
    ensures
        r matches Some(e) ==> e as int == end_line_from(s@, i as int) && e < s@.len(),
        r is None ==> end_line_from(s@, i as int) == -1,
{
    let mut j: usize = i;
    while j < s.len()
        invariant
            i <= j <= s@.len(),
            end_line_from(s@, j as int) == end_line_from(s@, i as int),
        decreases s@.len() - j,
    {
        let n = find_byte(s, j, 0x0a);
        if is_end_line(&s[j..n]) {
            return Some(j);
        }
        if n >= s.len() {
            return None;
        }
        j = n + 1;
    }
    None
}

fn drawer_head_exec(s: &[u8]) -> (r: Option<(usize, usize, usize)>)
    ensures
        r matches Some(t) ==> drawer_head(s@) == Some((t.0 as int, t.1 as int, t.2 as int)) && t.0
            <= t.1 <= t.2 <= s@.len(),
        r is None ==> drawer_head(s@) is None,
{
    let a = trim_ws_run_end(s, 0);
    if a >= s.len() || s[a] != 0x3a {
        return None;
    }
    let mut ne: usize = a + 1;
    while ne < s.len() && is_drawer_name_byte_exec(s[ne])
        invariant
            a < ne <= s@.len(),
            run_end(s@, ne as int, |b: u8| is_drawer_name_byte(b)) == run_end(
                s@,
                a + 1,
                |b: u8| is_drawer_name_byte(b),
            ),
        decreases s@.len() - ne,
    {
        ne = ne + 1;
    }
    if ne <= a + 1 || ne >= s.len() || s[ne] != 0x3a {
        return None;
    }
    let le = space_run_end(s, ne + 1);
    if le == s.len() {
        Some((a + 1, ne, le))
    } else if s[le] == 0x0a {
        Some((a + 1, ne, le + 1))
    } else {
        None
    }
}

/// Frames a drawer at the start of `s` (leading whitespace skipped): its name,
/// its body, and the text after its `:END:` line.
pub fn parse_drawer<'a>(s: &'a [u8]) -> (r: Option<(&'a [u8], &'a [u8], &'a [u8])>)
    ensures
        r matches Some(t) ==> drawer_at(s@) matches Some(d) && t.0@ == d.0 && t.1@ == d.1 && t.2@
            == s@.subrange(d.2, s@.len() as int),
        r is None ==> drawer_at(s@) is None,
{
    match drawer_head_exec(s) {
        Some((ns, ne, b)) => {
            match find_end_line(s, b) {
                Some(e) => {
                    proof {
                        lemma_end_line_bounds(s@, b as int);
                    }
                    let rest = next_line_exec(s, e);
                    Some((&s[ns..ne], &s[b..e], &s[rest..s.len()]))
                },
                None => None,
            }
        },
        None => None,
    }
}

/// A property's name without the one `+` that may close it (the `+` marks a
/// value that continues an earlier one).
pub open spec fn strip_plus(n: Seq<u8>) -> Seq<u8> {
    if n.len() > 0 && n[n.len() - 1] == 0x2b {
        n.subrange(0, n.len() - 1)
    } else {
        n
    }
}

/// The property line at `i` of a drawer's body `c`, blank lines and leading
/// whitespace skipped: `:NAME:` and then the value, trimmed, up to the end of
/// the line. Gives the pair and where the next line starts.
pub open spec fn property_at(c: Seq<u8>, i: int) -> Option<((Seq<u8>, Seq<u8>), int)> {
    let b = blank_lines(c, i).1;
    let a = run_end(c, b, |x: u8| is_trim_ws(x));
    let k = find_from(c, a + 1, 0x3a);
    let n = find_from(c, k + 1, 0x0a);
    if 0 <= a < c.len() && c[a] == 0x3a && a + 1 <= k < c.len() {
        Some(((strip_plus(c.subrange(a + 1, k)), trimmed(c.subrange(k + 1, n))), next_line(c, k + 1)))
    } else {
        None
    }
}

/// The properties of a drawer's body `c` from `i` on, up to the first line that
/// is not a property.
pub open spec fn properties_from(c: Seq<u8>, i: int) -> Seq<(Seq<u8>, Seq<u8>)>
    decreases c.len() - i,
{
    match property_at(c, i) {
        Some((p, nx)) => if 0 <= i < nx <= c.len() {
            seq![p] + properties_from(c, nx)
        } else {
            seq![]
        },
        None => seq![],
    }
}

/// `PROPERTIES` as bytes.
pub open spec fn properties_name() -> Seq<u8> {
    seq![0x50u8, 0x52, 0x4f, 0x50, 0x45, 0x52, 0x54, 0x49, 0x45, 0x53]
}

/// The properties of a drawer named `PROPERTIES` at the start of `s`, and where
/// the text after it starts; `None` where `s` opens with no drawer or with one of
/// another name.
pub open spec fn properties_drawer(s: Seq<u8>) -> Option<(Seq<(Seq<u8>, Seq<u8>)>, int)> {
    match drawer_at(s) {
        Some((name, body, rest)) => if name == properties_name() {
            Some((properties_from(body, 0), rest))
        } else {
            None
        },
        None => None,
    }
}

fn property_at_exec<'a>(c: &'a [u8], i: usize) -> (r: Option<(&'a [u8], &'a [u8], usize)>)
    requires
        i <= c@.len(),
    ensures
        r matches Some(t) ==> property_at(c@, i as int) == Some(((t.0@, t.1@), t.2 as int)) && i
            < t.2 <= c@.len(),
        r is None ==> property_at(c@, i as int) is None,
{
    let (_, b) = blank_lines_count(c, i);
    let a = trim_ws_run_end(c, b);
    if a >= c.len() || c[a] != 0x3a {
        return None;
    }
    let k = find_byte(c, a + 1, 0x3a);
    if k >= c.len() {
        return None;
    }
    let n = find_byte(c, k + 1, 0x0a);
    let mut name = &c[a + 1..k];
    if name.len() > 0 && name[name.len() - 1] == 0x2b {
        name = &name[0..name.len() - 1];
    }
    let value = trim(&c[k + 1..n]);
    let nx = next_line_exec(c, k + 1);
    Some((name, value, nx))
}

/// Reads the properties of a drawer named `PROPERTIES` at the start of `s`
/// (leading whitespace skipped). Gives the text after the drawer and the pairs in
/// the order they were written; `None` where `s` opens with no drawer, or with
/// one of another name.
pub fn parse_properties_drawer<'a>(s: &'a [u8]) -> (r: Option<(&'a [u8], PropertiesMap<'a>)>)
    ensures
        r matches Some(t) ==> properties_drawer(s@) matches Some(d) && t.1@ == d.0 && t.0@
            == s@.subrange(d.1, s@.len() as int),
        r is None ==> properties_drawer(s@) is None,
{
    let (name, body, rest) = match parse_drawer(s) {
        Some(t) => t,
        None => {
            return None;
        },
    };
    let pname: &[u8] = &[0x50u8, 0x52, 0x4f, 0x50, 0x45, 0x52, 0x54, 0x49, 0x45, 0x53];
    assert(pname@ =~= properties_name());
    if !crate::scan::bytes_eq(name, pname) {
        return None;
    }
    let mut map = PropertiesMap::new();
    let mut i: usize = 0;
    loop
        invariant
            i <= body@.len(),
            map@ + properties_from(body@, i as int) == properties_from(body@, 0),
        ensures
            map@ == properties_from(body@, 0),
        decreases body@.len() - i,
    {
        match property_at_exec(body, i) {
            Some((name, value, nx)) => {
                let ghost before = map@;
                map.push(Text::Borrowed(name), Text::Borrowed(value));
                proof {
                    vstd::seq_lib::lemma_concat_associative(
                        before,
                        seq![(name@, value@)],
                        properties_from(body@, nx as int),
                    );
                    assert(before.push((name@, value@)) =~= before + seq![(name@, value@)]);
                }
                i = nx;
            },
            None => {
                assert(map@ + seq![] =~= map@);
                break ;
            },
        }
    }
    Some((rest, map))
}

} // verus!
