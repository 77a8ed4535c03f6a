//! Trailing tag groups of headlines (`:work:urgent:`).

use vstd::prelude::*;
use crate::scan::{last_space_below, lemma_last_space_below, trim, trimmed};
use crate::text::Text;
use vstd::string::StringSliceAdditionalSpecFns;
use vstd::std_specs::iter::IteratorSpec;
use vstd::utf8::{decode_utf8, valid_utf8};

verus! {

/// Whether a character is alphanumeric, as `char::is_alphanumeric` tells.
pub uninterp spec fn alnum_of(c: char) -> bool;

/// Relies on char::is_alphanumeric: whether `c` is alphabetic or numeric in
/// Unicode's terms; the answer depends on `c` alone.
#[verifier::external_body]
fn is_alphanumeric_char(c: char) -> (r: bool)
    ensures
        r == alnum_of(c),
{
    c.is_alphanumeric()
}

/// A character that may stand in a tag group: alphanumeric, or one of
/// `_ @ # % :`.
pub open spec fn is_tag_char(c: char) -> bool {
    alnum_of(c) || c == '_' || c == '@' || c == '#' || c == '%' || c == ':'
}

/// A tag group: longer than two bytes, opened and closed by a colon, valid
/// UTF-8, and made of tag characters only.
pub open spec fn is_tag_group(t: Seq<u8>) -> bool {
    &&& t.len() > 2
    &&& t[0] == 0x3a
    &&& t[t.len() - 1] == 0x3a
    &&& valid_utf8(t)
    &&& forall|k: int| 0 <= k < decode_utf8(t).len() ==> is_tag_char(#[trigger] decode_utf8(t)[k])
}

fn all_tag_chars(st: &str) -> (r: bool)
    ensures
        r == forall|k: int| 0 <= k < st@.len() ==> is_tag_char(#[trigger] st@[k]),
{
    let mut it = st.chars();
    proof {
        vstd::string::axiom_spec_iter(st);
    }
    let ghost n = st@.len();
    let ghost k: int = 0;
    loop
        invariant
            0 <= k <= n,
            n == st@.len(),
            it.obeys_prophetic_iter_laws(),
            it.remaining() == st@.subrange(k, n as int),
            forall|j: int| 0 <= j < k ==> is_tag_char(#[trigger] st@[j]),
        decreases n - k,
    {
        let ghost before = it;
        let c = it.next();
        proof {
            vstd::string::next_postcondition(&before, &it, c);
        }
        match c {
            None => {
                return true;
            },
            Some(ch) => {
                assert(ch == st@[k]);
                if !(is_alphanumeric_char(ch) || ch == '_' || ch == '@' || ch == '#' || ch == '%'
                    || ch == ':') {
                    return false;
                }
                proof {
                    assert(st@.subrange(k, n as int).drop_first() =~= st@.subrange(k + 1, n as int));
                    k = k + 1;
                }
            },
        }
    }
}

/// The non-empty pieces of `t` between colons, scanning from `i` with the
/// current piece starting at `st`.
pub open spec fn split_at_colons(t: Seq<u8>, st: int, i: int) -> Seq<Seq<u8>>
    decreases t.len() - i,
{
    if i < 0 || i >= t.len() {
        if 0 <= st < t.len() {
            seq![t.subrange(st, t.len() as int)]
        } else {
            seq![]
        }
    } else if t[i] == 0x3a {
        (if st < i {
            seq![t.subrange(st, i)]
        } else {
            seq![]
        }) + split_at_colons(t, i + 1, i + 1)
    } else {
        split_at_colons(t, st, i + 1)
    }
}

/// The non-empty pieces of `t` between colons, in order.
pub open spec fn tags_of(t: Seq<u8>) -> Seq<Seq<u8>> {
    split_at_colons(t, 0, 0)
}

/// The tag group that holds `ts`: each tag closed by a colon, after an opening
/// colon.
pub open spec fn tag_group_of(ts: Seq<Seq<u8>>) -> Seq<u8>
    decreases ts.len(),
{
    if ts.len() == 0 {
        seq![0x3au8]
    } else {
        tag_group_of(ts.drop_last()) + ts.last() + seq![0x3au8]
    }
}

/// Whether every piece is non-empty and holds no colon.
pub open spec fn plain_pieces(ts: Seq<Seq<u8>>) -> bool {
    forall|k: int|
        0 <= k < ts.len() ==> (#[trigger] ts[k]).len() > 0 && forall|j: int|
            0 <= j < ts[k].len() ==> ts[k][j] != 0x3a
}

proof fn lemma_skip_plain(t: Seq<u8>, st: int, i: int, j: int)
    requires
        0 <= i <= j <= t.len(),
        forall|k: int| i <= k < j ==> t[k] != 0x3a,
    ensures
        split_at_colons(t, st, i) == split_at_colons(t, st, j),
    decreases j - i,
{
    if i < j {
        lemma_skip_plain(t, st, i + 1, j);
    }
}

proof fn lemma_pieces_plain(t: Seq<u8>, st: int, i: int)
    requires
        0 <= st <= i <= t.len(),
        forall|k: int| st <= k < i ==> t[k] != 0x3a,
    ensures
        plain_pieces(split_at_colons(t, st, i)),
    decreases t.len() - i,
{
    if i >= t.len() {
        if st < t.len() {
            assert(split_at_colons(t, st, i)[0] =~= t.subrange(st, t.len() as int));
        }
    } else if t[i] == 0x3a {
        lemma_pieces_plain(t, i + 1, i + 1);
        let head: Seq<Seq<u8>> = if st < i {
            seq![t.subrange(st, i)]
        } else {
            seq![]
        };
        let rest = split_at_colons(t, i + 1, i + 1);
        assert(split_at_colons(t, st, i) == head + rest);
        assert forall|k: int| 0 <= k < (head + rest).len() implies (#[trigger] (head + rest)[k]).len()
            > 0 && forall|j: int| 0 <= j < (head + rest)[k].len() ==> (head + rest)[k][j] != 0x3a by {
            if k >= head.len() {
                assert((head + rest)[k] == rest[k - head.len()]);
            }
        }
    } else {
        lemma_pieces_plain(t, st, i + 1);
    }
}

/// The group of `ts` split from just past its opening colon, where it stands
/// after any prefix `p`, gives `ts` back.
proof fn lemma_split_group(p: Seq<u8>, ts: Seq<Seq<u8>>)
    requires
        plain_pieces(ts),
    ensures
        ({
            let g = p + tag_group_of(ts);
            split_at_colons(g, p.len() + 1 as int, p.len() + 1 as int) == ts
        }),
    decreases ts.len(),
{
    let g = p + tag_group_of(ts);
    if ts.len() == 0 {
        assert(g =~= p + seq![0x3au8]);
    } else {
        let init = ts.drop_last();
        assert(plain_pieces(init)) by {
            assert forall|k: int| 0 <= k < init.len() implies (#[trigger] init[k]).len() > 0
                && forall|j: int| 0 <= j < init[k].len() ==> init[k][j] != 0x3a by {
                assert(init[k] == ts[k]);
            }
        }
        lemma_split_group(p, init);
        lemma_group_len(init);
        // `g` is the group of `init` followed by the last tag and a colon.
        let gi = p + tag_group_of(init);
        let last = ts.last();
        assert(g =~= gi + last + seq![0x3au8]);
        assert(ts[ts.len() - 1] == last);
        lemma_split_prefix(gi, g, p.len() + 1 as int, p.len() + 1 as int, last);
        assert(init.push(last) =~= ts);
    }
}

proof fn lemma_group_len(ts: Seq<Seq<u8>>)
    ensures
        tag_group_of(ts).len() >= 1,
        tag_group_of(ts)[tag_group_of(ts).len() - 1] == 0x3a,
    decreases ts.len(),
{
    if ts.len() > 0 {
        lemma_group_len(ts.drop_last());
    }
}

/// The split of `g`, which extends `gi` (ending with a colon) by a plain piece
/// and a colon, runs as the split of `gi` does, then adds that piece.
proof fn lemma_split_prefix(
    gi: Seq<u8>,
    g: Seq<u8>,
    st: int,
    i: int,
    last: Seq<u8>,
)
    requires
        g == gi + last + seq![0x3au8],
        1 <= st <= i <= gi.len(),
        gi[gi.len() - 1] == 0x3a,
        (i == gi.len() ==> st == i),
        last.len() > 0,
        forall|j: int| 0 <= j < last.len() ==> last[j] != 0x3a,
    ensures
        split_at_colons(g, st, i) == split_at_colons(gi, st, i).push(last),
    decreases gi.len() - i,
{
    if i == gi.len() {
        lemma_skip_plain(g, st, i, i + last.len());
        let j = i + last.len();
        assert(g[j] == 0x3a);
        assert(g.subrange(st, j) =~= last);
        assert(split_at_colons(g, j + 1, j + 1) == Seq::<Seq<u8>>::empty());
        assert(split_at_colons(g, st, j) =~= seq![last] + Seq::<Seq<u8>>::empty());
        assert(split_at_colons(gi, st, i) == Seq::<Seq<u8>>::empty());
        assert(Seq::<Seq<u8>>::empty().push(last) =~= seq![last]);
    } else {
        assert(g[i] == gi[i]);
        if gi[i] == 0x3a {
            lemma_split_prefix(gi, g, i + 1, i + 1, last);
            if st < i {
                assert(g.subrange(st, i) =~= gi.subrange(st, i));
                assert(seq![gi.subrange(st, i)] + split_at_colons(gi, i + 1, i + 1).push(last)
                    =~= (seq![gi.subrange(st, i)] + split_at_colons(gi, i + 1, i + 1)).push(last));
            } else {
                assert(seq![] + split_at_colons(gi, i + 1, i + 1).push(last) =~= (seq![]
                    + split_at_colons(gi, i + 1, i + 1)).push(last));
            }
        } else {
            assert(i + 1 < gi.len());
            lemma_split_prefix(gi, g, st, i + 1, last);
        }
    }
}

/// Splitting a headline's tag group is idempotent: the tags of any text, put
/// back into a tag group (an opening colon, then each tag closed by a colon),
/// split into the same tags.
pub proof fn law_tags_rejoin(t: Seq<u8>)
    ensures
        tags_of(tag_group_of(tags_of(t))) == tags_of(t),
{
    let ts = tags_of(t);
    lemma_pieces_plain(t, 0, 0);
    lemma_split_group(seq![], ts);
    let g = tag_group_of(ts);
    assert(seq![] + g =~= g);
    lemma_group_len(ts);
    assert(g[0] == 0x3a) by {
        lemma_group_head(ts);
    }
    assert(split_at_colons(g, 0, 0) =~= Seq::<Seq<u8>>::empty() + split_at_colons(g, 1, 1));
}

proof fn lemma_group_head(ts: Seq<Seq<u8>>)
    ensures
        tag_group_of(ts)[0] == 0x3a,
    decreases ts.len(),
{
    if ts.len() > 0 {
        lemma_group_head(ts.drop_last());
        lemma_group_len(ts.drop_last());
    }
}

/// The bytes of each text.
pub open spec fn texts_view(v: Seq<Text>) -> Seq<Seq<u8>> {
    v.map_values(|x: Text| x@)
}

/// What a headline's trimmed text `t` splits into: the title text, and the tags
/// of a tag group that follows its last space or tab, if that is one.
pub open spec fn title_split(t: Seq<u8>) -> (Seq<u8>, Seq<Seq<u8>>) {
    let i = last_space_below(t, t.len() as int);
    if i >= 0 && is_tag_group(t.subrange(i + 1, t.len() as int)) {
        (trimmed(t.subrange(0, i)), tags_of(t.subrange(i + 1, t.len() as int)))
    } else {
        (t, seq![])
    }
}

/// Relies on memchr::memrchr2: the index of the last byte of `haystack` that
/// equals `n1` or `n2`, or `None` where no byte does.
#[verifier::external_body]
fn last_of_two(n1: u8, n2: u8, haystack: &[u8]) -> (r: Option<usize>)
    ensures
        r matches Some(i) ==> i < haystack@.len() && (haystack@[i as int] == n1 || haystack@[i as int] == n2)
            && forall|k: int| i < k < haystack@.len() ==> #[trigger] haystack@[k] != n1 && haystack@[k] != n2,
        r is None ==> forall|k: int| 0 <= k < haystack@.len() ==> #[trigger] haystack@[k] != n1 && haystack@[k] != n2,
{
    memchr::memrchr2(n1, n2, haystack)
}

pub fn is_tag_group_bytes(t: &[u8]) -> (r: bool)
    ensures
        r == is_tag_group(t@),
{
    if t.len() <= 2 || t[0] != 0x3a || t[t.len() - 1] != 0x3a {
        return false;
    }
    match crate::text::utf8_str(t) {
        None => false,
        Some(st) => {
            proof {
                vstd::utf8::encode_utf8_decode_utf8(st@);
            }
            all_tag_chars(st)
        },
    }
}

/// Whether `input` is a tag group: longer than two bytes, opened and closed by
/// a colon, and made of alphanumeric characters and `_ @ # % :` only.
pub fn is_tag_line(input: &str) -> (r: bool)
    ensures
        r == is_tag_group(input.spec_bytes()),
{
    is_tag_group_bytes(input.as_bytes())
}

/// The non-empty pieces of `t` between colons, in order, borrowed from `t`.
pub fn split_tags<'a>(t: &'a [u8]) -> (r: Vec<Text<'a>>)
    ensures
        texts_view(r@) == tags_of(t@),
{
    let mut out: Vec<Text<'a>> = Vec::new();
    let mut st: usize = 0;
    let mut i: usize = 0;
    while i < t.len()
        invariant
            st <= i <= t@.len(),
            texts_view(out@) + split_at_colons(t@, st as int, i as int) == tags_of(t@),
        decreases t@.len() - i,
    {
        if t[i] == 0x3a {
            let ghost rest = split_at_colons(t@, i + 1, i + 1);
            if st < i {
                let piece = Text::Borrowed(&t[st..i]);
                proof {
                    assert(texts_view(out@.push(piece)) =~= texts_view(out@) + seq![piece@]);
                    vstd::seq_lib::lemma_concat_associative(texts_view(out@), seq![piece@], rest);
                }
                out.push(piece);
            } else {
                assert(seq![] + rest =~= rest);
            }
            st = i + 1;
        }
        i = i + 1;
    }
    if st < t.len() {
        let piece = Text::Borrowed(&t[st..t.len()]);
        proof {
            assert(texts_view(out@.push(piece)) =~= texts_view(out@) + seq![piece@]);
        }
        out.push(piece);
    } else {
        assert(texts_view(out@) + seq![] =~= texts_view(out@));
    }
    out
}

/// Splits a headline's trimmed text into its title text and the tags of its
/// trailing tag group. Only what follows the last space or tab can be a tag
/// group; where it is none, the whole text is the title and there are no tags.
pub fn split_title<'a>(t: &'a [u8]) -> (r: (&'a [u8], Vec<Text<'a>>))
    ensures
        r.0@ == title_split(t@).0,
        texts_view(r.1@) == title_split(t@).1,
{
    match last_of_two(0x20, 0x09, t) {
        Some(i) => {
            let n = t.len();
            assert(i < n);
            proof {
                lemma_last_space_below(t@, t@.len() as int, i as int);
            }
            let group = &t[i + 1..n];
            if is_tag_group_bytes(group) {
                let head = trim(&t[0..i]);
                let tags = split_tags(group);
                return (head, tags);
            }
        },
        None => {
            proof {
                lemma_last_space_below(t@, t@.len() as int, -1);
            }
        },
    }
    let none: Vec<Text<'a>> = Vec::new();
    assert(texts_view(none@) =~= seq![]);
    (t, none)
}

} // verus!
