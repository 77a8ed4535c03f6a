//! Byte-level scanning: the character classes and the small lexical steps
//! (runs of a class, lines, trimming) that the parsers are built from.

use vstd::prelude::*;

verus! {

/// A horizontal space: space or tab.
pub open spec fn is_space(b: u8) -> bool {
    b == 0x20 || b == 0x09
}

/// An ASCII whitespace byte: space, tab, line feed, form feed, carriage return.
pub open spec fn is_ascii_ws(b: u8) -> bool {
    b == 0x20 || b == 0x09 || b == 0x0a || b == 0x0c || b == 0x0d
}

/// A byte removed by trimming: ASCII whitespace or a vertical tab.
pub open spec fn is_trim_ws(b: u8) -> bool {
    is_ascii_ws(b) || b == 0x0b
}

pub open spec fn is_star(b: u8) -> bool {
    b == 0x2a
}

/// The end of the run of `p`-bytes of `s` that starts at `i`.
pub open spec fn run_end(s: Seq<u8>, i: int, p: spec_fn(u8) -> bool) -> int
    decreases s.len() - i,
{
    if i < 0 || i >= s.len() || !p(s[i]) {
        i
    } else {
        run_end(s, i + 1, p)
    }
}

/// The start of the run of `p`-bytes of `s` that ends at `hi`, not going below `lo`.
pub open spec fn run_start(s: Seq<u8>, lo: int, hi: int, p: spec_fn(u8) -> bool) -> int
    decreases hi - lo,
{
    if hi <= lo || hi > s.len() || !p(s[hi - 1]) {
        hi
    } else {
        run_start(s, lo, hi - 1, p)
    }
}

/// The first index at or after `i` that holds `c`, or the length of `s`.
pub open spec fn find_from(s: Seq<u8>, i: int, c: u8) -> int
    decreases s.len() - i,
{
    if i < 0 || i >= s.len() {
        s.len() as int
    } else if s[i] == c {
        i
    } else {
        find_from(s, i + 1, c)
    }
}

pub proof fn lemma_run_end_bounds(s: Seq<u8>, i: int, p: spec_fn(u8) -> bool)
    requires
        0 <= i <= s.len(),
    ensures
        i <= run_end(s, i, p) <= s.len(),
        forall|k: int| i <= k < run_end(s, i, p) ==> p(#[trigger] s[k]),
        run_end(s, i, p) < s.len() ==> !p(s[run_end(s, i, p)]),
    decreases s.len() - i,
{
    if i < s.len() && p(s[i]) {
        lemma_run_end_bounds(s, i + 1, p);
    }
}

pub proof fn lemma_run_start_bounds(s: Seq<u8>, lo: int, hi: int, p: spec_fn(u8) -> bool)
    requires
        0 <= lo <= hi <= s.len(),
    ensures
        lo <= run_start(s, lo, hi, p) <= hi,
        forall|k: int| run_start(s, lo, hi, p) <= k < hi ==> p(#[trigger] s[k]),
        run_start(s, lo, hi, p) > lo ==> !p(s[run_start(s, lo, hi, p) - 1]),
    decreases hi - lo,
{
    if hi > lo && p(s[hi - 1]) {
        lemma_run_start_bounds(s, lo, hi - 1, p);
    }
}

pub proof fn lemma_find_from_bounds(s: Seq<u8>, i: int, c: u8)
    requires
        0 <= i <= s.len(),
    ensures
        i <= find_from(s, i, c) <= s.len(),
        forall|k: int| i <= k < find_from(s, i, c) ==> #[trigger] s[k] != c,
        find_from(s, i, c) < s.len() ==> s[find_from(s, i, c)] == c,
    decreases s.len() - i,
{
    if i < s.len() && s[i] != c {
        lemma_find_from_bounds(s, i + 1, c);
    }
}

pub fn space_run_end(s: &[u8], i: usize) -> (r: usize)
    requires
        i <= s@.len(),
    ensures
        r == run_end(s@, i as int, |b: u8| is_space(b)),
        i <= r <= s@.len(),
{
    let mut j: usize = i;
    while j < s.len() && (s[j] == 0x20 || s[j] == 0x09)
        invariant
            i <= j <= s@.len(),
            run_end(s@, j as int, |b: u8| is_space(b)) == run_end(s@, i as int, |b: u8| is_space(b)),
        decreases s@.len() - j,
    {
        j = j + 1;
    }
    j
}

pub fn trim_ws_run_end(s: &[u8], i: usize) -> (r: usize)
    requires
        i <= s@.len(),
    ensures
        r == run_end(s@, i as int, |b: u8| is_trim_ws(b)),
        i <= r <= s@.len(),
{
    let mut j: usize = i;
    while j < s.len() && (s[j] == 0x20 || s[j] == 0x09 || s[j] == 0x0a || s[j] == 0x0c || s[j]
        == 0x0d || s[j] == 0x0b)
        invariant
            i <= j <= s@.len(),
            run_end(s@, j as int, |b: u8| is_trim_ws(b)) == run_end(
                s@,
                i as int,
                |b: u8| is_trim_ws(b),
            ),
        decreases s@.len() - j,
    {
        j = j + 1;
    }
    j
}

pub fn trim_ws_run_start(s: &[u8], lo: usize, hi: usize) -> (r: usize)
    requires
        lo <= hi <= s@.len(),
    ensures
        r == run_start(s@, lo as int, hi as int, |b: u8| is_trim_ws(b)),
        lo <= r <= hi,
{
    let mut j: usize = hi;
    while j > lo && (s[j - 1] == 0x20 || s[j - 1] == 0x09 || s[j - 1] == 0x0a || s[j - 1] == 0x0c
        || s[j - 1] == 0x0d || s[j - 1] == 0x0b)
        invariant
            lo <= j <= hi,
            hi <= s@.len(),
            run_start(s@, lo as int, j as int, |b: u8| is_trim_ws(b)) == run_start(
                s@,
                lo as int,
                hi as int,
                |b: u8| is_trim_ws(b),
            ),
        decreases j - lo,
    {
        j = j - 1;
    }
    j
}

pub fn find_byte(s: &[u8], i: usize, c: u8) -> (r: usize)
    requires
        i <= s@.len(),
    ensures
        r == find_from(s@, i as int, c),
        i <= r <= s@.len(),
{
    let mut j: usize = i;
    while j < s.len() && s[j] != c
        invariant
            i <= j <= s@.len(),
            find_from(s@, j as int, c) == find_from(s@, i as int, c),
        decreases s@.len() - j,
    {
        j = j + 1;
    }
    j
}

/// Whether two byte strings are equal.
pub fn bytes_eq(a: &[u8], b: &[u8]) -> (r: bool)
    ensures
        r == (a@ == b@),
{
    if a.len() != b.len() {
        return false;
    }
    let mut i: usize = 0;
    while i < a.len()
        invariant
            a@.len() == b@.len(),
            i <= a@.len(),
            forall|k: int| 0 <= k < i ==> a@[k] == b@[k],
        decreases a@.len() - i,
    {
        if a[i] != b[i] {
            return false;
        }
        i = i + 1;
    }
    assert(a@ =~= b@);
    true
}

/// The last index below `hi` that holds a space or a tab, or -1.
pub open spec fn last_space_below(s: Seq<u8>, hi: int) -> int
    decreases hi,
{
    if hi <= 0 || hi > s.len() {
        -1
    } else if is_space(s[hi - 1]) {
        hi - 1
    } else {
        last_space_below(s, hi - 1)
    }
}

pub proof fn lemma_last_space_below(s: Seq<u8>, hi: int, r: int)
    requires
        0 <= hi <= s.len(),
        -1 <= r < hi,
        r >= 0 ==> is_space(s[r]),
        forall|k: int| r < k < hi ==> !is_space(#[trigger] s[k]),
    ensures
        last_space_below(s, hi) == r,
    decreases hi,
{
    if hi > 0 && !is_space(s[hi - 1]) {
        lemma_last_space_below(s, hi - 1, r);
    }
}

pub proof fn lemma_last_space_below_result(s: Seq<u8>, hi: int)
    requires
        0 <= hi <= s.len(),
    ensures
        -1 <= last_space_below(s, hi) < hi,
        last_space_below(s, hi) >= 0 ==> is_space(s[last_space_below(s, hi)]),
    decreases hi,
{
    if hi > 0 && !is_space(s[hi - 1]) {
        lemma_last_space_below_result(s, hi - 1);
    }
}

/// `s` with the trimmed bytes removed at both ends.
pub open spec fn trimmed(s: Seq<u8>) -> Seq<u8> {
    let lo = run_end(s, 0, |b: u8| is_trim_ws(b));
    s.subrange(lo, run_start(s, lo, s.len() as int, |b: u8| is_trim_ws(b)))
}

/// `s` without its trimmed bytes at both ends.
pub fn trim(s: &[u8]) -> (r: &[u8])
    ensures
        r@ == trimmed(s@),
{
    let lo = trim_ws_run_end(s, 0);
    let hi = trim_ws_run_start(s, lo, s.len());
    &s[lo..hi]
}

/// A byte of a blank line other than its line feed.
pub open spec fn is_blank_byte(b: u8) -> bool {
    is_trim_ws(b) && b != 0x0a
}

/// The end of the blank line at `i` (past its line feed, if it has one), or -1
/// where none starts there. A blank line at the end of `s` holds at least one byte.
pub open spec fn blank_line_end(s: Seq<u8>, i: int) -> int {
    let e = run_end(s, i, |b: u8| is_blank_byte(b));
    if e < s.len() && s[e] == 0x0a {
        e + 1
    } else if e == s.len() && e > i {
        e
    } else {
        -1
    }
}

/// How many blank lines follow one another from `i`, and where they end.
pub open spec fn blank_lines(s: Seq<u8>, i: int) -> (nat, int)
    decreases s.len() - i,
{
    let e = blank_line_end(s, i);
    if 0 <= i < e <= s.len() {
        let r = blank_lines(s, e);
        (r.0 + 1, r.1)
    } else {
        (0, i)
    }
}

/// Counts the blank lines that follow one another from `i`, and gives where
/// they end.
pub fn blank_lines_count(s: &[u8], i: usize) -> (r: (usize, usize))
    requires
        i <= s@.len(),
    ensures
        r.0 as nat == blank_lines(s@, i as int).0,
        r.1 as int == blank_lines(s@, i as int).1,
        i <= r.1 <= s@.len(),
{
    let mut count: usize = 0;
    let mut j: usize = i;
    loop
        invariant
            i <= j <= s@.len(),
            count <= j - i,
            blank_lines(s@, i as int) == ((blank_lines(s@, j as int).0 + count) as nat, blank_lines(
                s@,
                j as int,
            ).1),
        decreases s@.len() - j,
    {
        let mut e: usize = j;
        while e < s.len() && (s[e] == 0x20 || s[e] == 0x09 || s[e] == 0x0c || s[e] == 0x0d || s[e]
            == 0x0b)
            invariant
                j <= e <= s@.len(),
                run_end(s@, e as int, |b: u8| is_blank_byte(b)) == run_end(
                    s@,
                    j as int,
                    |b: u8| is_blank_byte(b),
                ),
            decreases s@.len() - e,
        {
            e = e + 1;
        }
        let next: usize;
        if e < s.len() && s[e] == 0x0a {
            next = e + 1;
        } else if e == s.len() && e > j {
            next = e;
        } else {
            return (count, j);
        }
        count = count + 1;
        j = next;
    }
}

} // verus!
