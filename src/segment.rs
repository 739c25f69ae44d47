//! Splitting a document's text into bounded passages.
use vstd::prelude::*;

use crate::text::{
    append_range, chars_of, copy_range, has_pair, is_space, split, split_bounds, split_from,
    string_of, trim, trim_bounds, trim_end, trim_start,
};

verus! {

/// Passages shorter than this many characters are dropped.
pub const MIN_PASSAGE_CHARS: usize = 30;

/// Paragraphs up to this many characters are kept whole; longer ones are cut
/// at sentence boundaries into passages of at most this length.
pub const MAX_PASSAGE_CHARS: usize = 500;

/// The buffer as a passage, if it is long enough to keep.
pub open spec fn flush(buf: Seq<char>) -> Seq<Seq<char>> {
    if buf.len() >= MIN_PASSAGE_CHARS {
        seq![buf]
    } else {
        seq![]
    }
}

/// Greedy grouping of sentence pieces into passages: each trimmed, non-empty
/// piece is joined to the buffer with ". " unless that would pass the
/// maximum, in which case the buffer is flushed and the piece starts a new one.
pub open spec fn group(sents: Seq<Seq<char>>, buf: Seq<char>) -> Seq<Seq<char>>
    decreases sents.len(),
{
    if sents.len() == 0 {
        flush(buf)
    } else {
        let s = trim(sents[0]);
        let rest = sents.drop_first();
        if s.len() == 0 {
            group(rest, buf)
        } else if buf.len() > 0 && buf.len() + s.len() + 2 > MAX_PASSAGE_CHARS {
            flush(buf) + group(rest, s)
        } else if buf.len() > 0 {
            group(rest, buf + seq!['.', ' '] + s)
        } else {
            group(rest, s)
        }
    }
}

/// The passages of a paragraph that is already trimmed.
pub open spec fn trimmed_paragraph_passages(p: Seq<char>) -> Seq<Seq<char>> {
    if p.len() < MIN_PASSAGE_CHARS {
        seq![]
    } else if p.len() <= MAX_PASSAGE_CHARS {
        seq![p]
    } else {
        group(split(p, '.', ' '), seq![])
    }
}

/// The passages of one raw paragraph.
pub open spec fn paragraph_passages(raw: Seq<char>) -> Seq<Seq<char>> {
    trimmed_paragraph_passages(trim(raw))
}

/// The passages of a list of paragraphs, in order.
pub open spec fn paragraphs_passages(paras: Seq<Seq<char>>) -> Seq<Seq<char>>
    decreases paras.len(),
{
    if paras.len() == 0 {
        seq![]
    } else {
        paragraphs_passages(paras.drop_last()) + paragraph_passages(paras.last())
    }
}

/// The passages of a text: its paragraphs are the pieces between blank lines
/// ("\n\n").
pub open spec fn segment(text: Seq<char>) -> Seq<Seq<char>> {
    paragraphs_passages(split(text, '\n', '\n'))
}

/// What every passage satisfies: at least the minimum length, and at most the
/// maximum unless it is a single sentence (holds no ". ").
pub open spec fn passage_bounded(p: Seq<char>) -> bool {
    MIN_PASSAGE_CHARS <= p.len() && (p.len() <= MAX_PASSAGE_CHARS || !has_pair(p, '.', ' '))
}

proof fn lemma_split_from_pieces(s: Seq<char>, a: char, b: char, start: int, i: int)
    requires
        0 <= start <= i,
        i <= s.len(),
        forall|j: int| start <= j < i && j + 1 < s.len() ==> !(#[trigger] s[j] == a && s[j + 1] == b),
    ensures
        forall|k: int|
            0 <= k < split_from(s, a, b, start, i).len() ==> !has_pair(
                #[trigger] split_from(s, a, b, start, i)[k],
                a,
                b,
            ),
    decreases s.len() - i,
{
    let r = split_from(s, a, b, start, i);
    if i + 1 >= s.len() {
        let p = s.subrange(start, s.len() as int);
        assert(r == seq![p]);
        assert forall|j: int| 0 <= j && j + 1 < p.len() implies !(#[trigger] p[j] == a && p[j
            + 1] == b) by {
            assert(p[j] == s[start + j]);
            assert(p[j + 1] == s[start + j + 1]);
        }
        assert(!has_pair(p, a, b));
        assert(r[0] == p);
    } else if s[i] == a && s[i + 1] == b {
        let p = s.subrange(start, i);
        lemma_split_from_pieces(s, a, b, i + 2, i + 2);
        let tail = split_from(s, a, b, i + 2, i + 2);
        assert(r == seq![p] + tail);
        assert forall|j: int| 0 <= j && j + 1 < p.len() implies !(#[trigger] p[j] == a && p[j
            + 1] == b) by {
            assert(p[j] == s[start + j]);
            assert(p[j + 1] == s[start + j + 1]);
        }
        assert(!has_pair(p, a, b));
        assert forall|k: int| 0 <= k < r.len() implies !has_pair(#[trigger] r[k], a, b) by {
            if k == 0 {
                assert(r[k] == p);
            } else {
                assert(r[k] == tail[k - 1]);
            }
        }
    } else {
        lemma_split_from_pieces(s, a, b, start, i + 1);
        assert(r == split_from(s, a, b, start, i + 1));
    }
}

/// No piece of a split holds the separator.
pub proof fn lemma_split_pieces(s: Seq<char>, a: char, b: char)
    ensures
        forall|k: int|
            0 <= k < split(s, a, b).len() ==> !has_pair(#[trigger] split(s, a, b)[k], a, b),
{
    lemma_split_from_pieces(s, a, b, 0, 0);
}

/// Trimming never creates a separator.
pub proof fn lemma_trim_keeps_no_pair(s: Seq<char>, a: char, b: char)
    requires
        !has_pair(s, a, b),
    ensures
        !has_pair(trim(s), a, b),
{
    lemma_trim_start_no_pair(s, a, b);
    lemma_trim_end_no_pair(trim_start(s), a, b);
}

proof fn lemma_trim_start_no_pair(s: Seq<char>, a: char, b: char)
    requires
        !has_pair(s, a, b),
    ensures
        !has_pair(trim_start(s), a, b),
    decreases s.len(),
{
    if s.len() > 0 && is_space(s[0]) {
        let t = s.drop_first();
        assert forall|j: int| 0 <= j && j + 1 < t.len() implies !(#[trigger] t[j] == a && t[j
            + 1] == b) by {
            assert(t[j] == s[j + 1]);
            assert(t[j + 1] == s[j + 2]);
        }
        lemma_trim_start_no_pair(t, a, b);
    }
}

proof fn lemma_trim_end_no_pair(s: Seq<char>, a: char, b: char)
    requires
        !has_pair(s, a, b),
    ensures
        !has_pair(trim_end(s), a, b),
    decreases s.len(),
{
    if s.len() > 0 && is_space(s.last()) {
        let t = s.drop_last();
        assert forall|j: int| 0 <= j && j + 1 < t.len() implies !(#[trigger] t[j] == a && t[j
            + 1] == b) by {
            assert(t[j] == s[j]);
            assert(t[j + 1] == s[j + 1]);
        }
        lemma_trim_end_no_pair(t, a, b);
    }
}

proof fn lemma_group_bounded(sents: Seq<Seq<char>>, buf: Seq<char>)
    requires
        forall|k: int| 0 <= k < sents.len() ==> !has_pair(#[trigger] sents[k], '.', ' '),
        buf.len() <= MAX_PASSAGE_CHARS || !has_pair(buf, '.', ' '),
    ensures
        forall|k: int|
            0 <= k < group(sents, buf).len() ==> passage_bounded(#[trigger] group(sents, buf)[k]),
    decreases sents.len(),
{
    if sents.len() > 0 {
        let s = trim(sents[0]);
        let rest = sents.drop_first();
        assert forall|k: int| 0 <= k < rest.len() implies !has_pair(
            #[trigger] rest[k],
            '.',
            ' ',
        ) by {
            assert(rest[k] == sents[k + 1]);
        }
        lemma_trim_keeps_no_pair(sents[0], '.', ' ');
        if s.len() == 0 {
            lemma_group_bounded(rest, buf);
            assert(group(sents, buf) == group(rest, buf));
        } else if buf.len() > 0 && buf.len() + s.len() + 2 > MAX_PASSAGE_CHARS {
            lemma_group_bounded(rest, s);
            let g = group(rest, s);
            let r = flush(buf) + g;
            assert(group(sents, buf) == r);
            assert forall|k: int| 0 <= k < r.len() implies passage_bounded(#[trigger] r[k]) by {
                if k >= flush(buf).len() {
                    assert(r[k] == g[k - flush(buf).len()]);
                } else {
                    assert(r[k] == buf);
                }
            }
        } else if buf.len() > 0 {
            lemma_group_bounded(rest, buf + seq!['.', ' '] + s);
            assert(group(sents, buf) == group(rest, buf + seq!['.', ' '] + s));
        } else {
            lemma_group_bounded(rest, s);
            assert(group(sents, buf) == group(rest, s));
        }
    } else {
        assert(group(sents, buf) == flush(buf));
        if buf.len() >= MIN_PASSAGE_CHARS {
            assert(flush(buf)[0] == buf);
        }
    }
}

proof fn lemma_paragraphs_bounded(paras: Seq<Seq<char>>)
    ensures
        forall|k: int|
            0 <= k < paragraphs_passages(paras).len() ==> passage_bounded(
                #[trigger] paragraphs_passages(paras)[k],
            ),
    decreases paras.len(),
{
    if paras.len() > 0 {
        lemma_paragraphs_bounded(paras.drop_last());
        let front = paragraphs_passages(paras.drop_last());
        let p = trim(paras.last());
        let back = paragraph_passages(paras.last());
        if MAX_PASSAGE_CHARS < p.len() {
            lemma_split_pieces(p, '.', ' ');
            lemma_group_bounded(split(p, '.', ' '), seq![]);
        }
        let r = front + back;
        assert forall|k: int| 0 <= k < r.len() implies passage_bounded(#[trigger] r[k]) by {
            if k >= front.len() {
                assert(r[k] == back[k - front.len()]);
            }
        }
    }
}

/// The sentence units of a raw paragraph: the trimmed pieces of the trimmed
/// paragraph, cut at ". ".
pub open spec fn paragraph_units(raw: Seq<char>) -> Seq<Seq<char>> {
    split(trim(raw), '.', ' ').map_values(|u: Seq<char>| trim(u))
}

/// `x` is one sentence unit of one paragraph of `text`.
pub open spec fn is_sentence_unit(text: Seq<char>, x: Seq<char>) -> bool {
    exists|i: int|
        0 <= i < split(text, '\n', '\n').len() && #[trigger] paragraph_units(
            split(text, '\n', '\n')[i],
        ).contains(x)
}

proof fn lemma_group_units(sents: Seq<Seq<char>>, buf: Seq<char>, units: Seq<Seq<char>>)
    requires
        forall|k: int| 0 <= k < sents.len() ==> units.contains(trim(#[trigger] sents[k])),
        buf.len() <= MAX_PASSAGE_CHARS || units.contains(buf),
    ensures
        forall|k: int|
            0 <= k < group(sents, buf).len() ==> (#[trigger] group(sents, buf)[k]).len()
                <= MAX_PASSAGE_CHARS || units.contains(group(sents, buf)[k]),
    decreases sents.len(),
{
    if sents.len() > 0 {
        let s = trim(sents[0]);
        let rest = sents.drop_first();
        assert forall|k: int| 0 <= k < rest.len() implies units.contains(
            trim(#[trigger] rest[k]),
        ) by {
            assert(rest[k] == sents[k + 1]);
        }
        assert(units.contains(s));
        if s.len() == 0 {
            lemma_group_units(rest, buf, units);
            assert(group(sents, buf) == group(rest, buf));
        } else if buf.len() > 0 && buf.len() + s.len() + 2 > MAX_PASSAGE_CHARS {
            lemma_group_units(rest, s, units);
            let g = group(rest, s);
            let r = flush(buf) + g;
            assert(group(sents, buf) == r);
            assert forall|k: int| 0 <= k < r.len() implies (#[trigger] r[k]).len()
                <= MAX_PASSAGE_CHARS || units.contains(r[k]) by {
                if k >= flush(buf).len() {
                    assert(r[k] == g[k - flush(buf).len()]);
                } else {
                    assert(r[k] == buf);
                }
            }
        } else if buf.len() > 0 {
            lemma_group_units(rest, buf + seq!['.', ' '] + s, units);
            assert(group(sents, buf) == group(rest, buf + seq!['.', ' '] + s));
        } else {
            lemma_group_units(rest, s, units);
            assert(group(sents, buf) == group(rest, s));
        }
    } else {
        assert(group(sents, buf) == flush(buf));
        if buf.len() >= MIN_PASSAGE_CHARS {
            assert(flush(buf)[0] == buf);
        }
    }
}

proof fn lemma_paragraphs_units(paras: Seq<Seq<char>>)
    ensures
        forall|k: int|
            0 <= k < paragraphs_passages(paras).len() ==> (#[trigger] paragraphs_passages(
                paras,
            )[k]).len() <= MAX_PASSAGE_CHARS || exists|i: int|
                0 <= i < paras.len() && #[trigger] paragraph_units(paras[i]).contains(
                    paragraphs_passages(paras)[k],
                ),
    decreases paras.len(),
{
    if paras.len() > 0 {
        let init = paras.drop_last();
        lemma_paragraphs_units(init);
        let front = paragraphs_passages(init);
        let last = paras.last();
        let p = trim(last);
        let back = paragraph_passages(last);
        let units = paragraph_units(last);
        if MAX_PASSAGE_CHARS < p.len() {
            let sp = split(p, '.', ' ');
            assert forall|k: int| 0 <= k < sp.len() implies units.contains(trim(#[trigger] sp[k])) by {
                assert(units[k] == trim(sp[k]));
            }
            lemma_group_units(sp, seq![], units);
        }
        let r = front + back;
        assert(paragraphs_passages(paras) == r);
        assert forall|k: int| 0 <= k < r.len() implies (#[trigger] r[k]).len()
            <= MAX_PASSAGE_CHARS || exists|i: int|
            0 <= i < paras.len() && #[trigger] paragraph_units(paras[i]).contains(r[k]) by {
            if k >= front.len() {
                assert(r[k] == back[k - front.len()]);
                if r[k].len() > MAX_PASSAGE_CHARS {
                    assert(paras[paras.len() - 1] == last);
                    assert(paragraph_units(paras[paras.len() - 1]).contains(r[k]));
                }
            } else {
                assert(r[k] == front[k]);
                if r[k].len() > MAX_PASSAGE_CHARS {
                    let i = choose|i: int|
                        0 <= i < init.len() && #[trigger] paragraph_units(init[i]).contains(front[k]);
                    assert(init[i] == paras[i]);
                    assert(paragraph_units(paras[i]).contains(r[k]));
                }
            }
        }
    }
}

/// A passage longer than the maximum is exactly one sentence unit of one
/// paragraph of the text: no smaller split point existed.
pub proof fn lemma_long_passage_is_sentence(text: Seq<char>)
    ensures
        forall|k: int|
            0 <= k < segment(text).len() ==> (#[trigger] segment(text)[k]).len()
                <= MAX_PASSAGE_CHARS || is_sentence_unit(text, segment(text)[k]),
{
    lemma_paragraphs_units(split(text, '\n', '\n'));
}

/// Every passage of every text is within the bounds: at least the minimum
/// length, and at most the maximum unless it is one sentence that is longer.
pub proof fn lemma_segment_bounded(text: Seq<char>)
    ensures
        forall|k: int|
            0 <= k < segment(text).len() ==> passage_bounded(#[trigger] segment(text)[k]),
{
    lemma_paragraphs_bounded(split(text, '\n', '\n'));
}

/// Whether joining a sentence of `s_len` characters to a buffer of `buf_len`
/// characters with ". " would pass the maximum.
fn too_long(buf_len: usize, s_len: usize) -> (r: bool)
    ensures
        r == (buf_len + s_len + 2 > MAX_PASSAGE_CHARS),
{
    s_len > MAX_PASSAGE_CHARS - 2 || buf_len > MAX_PASSAGE_CHARS - 2 - s_len
}

fn push_passage(out: &mut Vec<Vec<char>>, v: Vec<char>)
    ensures
        final(out).deep_view() == old(out).deep_view().push(v@),
{
    let ghost vv = v@;
    out.push(v);
    assert(final(out).deep_view() =~= old(out).deep_view().push(vv)) by {
        assert(out@.last().deep_view() =~= vv);
    }
}

/// Appends the passages of the trimmed paragraph `cs[a..b]` to `out`.
fn paragraph_into(cs: &Vec<char>, a: usize, b: usize, out: &mut Vec<Vec<char>>)
    requires
        a <= b <= cs.len(),
    ensures
        final(out).deep_view() == old(out).deep_view() + trimmed_paragraph_passages(
            cs@.subrange(a as int, b as int),
        ),
{
    let ghost p = cs@.subrange(a as int, b as int);
    let ghost base = out.deep_view();
    if b - a < MIN_PASSAGE_CHARS {
        assert(base + trimmed_paragraph_passages(p) =~= base);
    } else if b - a <= MAX_PASSAGE_CHARS {
        push_passage(out, copy_range(cs, a, b));
        assert(base.push(p) =~= base + seq![p]);
    } else {
        let ghost sp = split(p, '.', ' ');
        let sents = split_bounds(cs, a, b, '.', ' ');
        let mut buf: Vec<char> = Vec::new();
        assert(sp.skip(0) =~= sp);
        assert(base + group(sp, seq![]) == base + trimmed_paragraph_passages(p));
        assert(buf@ =~= seq![]);
        for k in 0..sents.len()
            invariant
                a <= b <= cs.len(),
                p == cs@.subrange(a as int, b as int),
                sp == split(p, '.', ' '),
                sents.len() == sp.len(),
                forall|j: int|
                    0 <= j < sents.len() ==> a <= (#[trigger] sents[j]).0 <= sents[j].1 <= b
                        && cs@.subrange(sents[j].0 as int, sents[j].1 as int) == sp[j],
                out.deep_view() + group(sp.skip(k as int), buf@) == base
                    + trimmed_paragraph_passages(p),
        {
            let ghost rest_k = sp.skip(k as int);
            let ghost before = out.deep_view();
            let ghost old_buf = buf@;
            let (x0, y0) = sents[k];
            let (x, y) = trim_bounds(cs, x0, y0);
            let ghost t = cs@.subrange(x as int, y as int);
            assert(rest_k[0] == sp[k as int]);
            assert(rest_k.drop_first() =~= sp.skip(k + 1));
            assert(t == trim(rest_k[0]));
            if x == y {
                assert(group(rest_k, old_buf) == group(sp.skip(k + 1), old_buf));
            } else if buf.len() > 0 && too_long(buf.len(), y - x) {
                assert(group(rest_k, old_buf) == flush(old_buf) + group(sp.skip(k + 1), t));
                let fresh = copy_range(cs, x, y);
                let prev = buf;
                buf = fresh;
                if prev.len() >= MIN_PASSAGE_CHARS {
                    push_passage(out, prev);
                    assert(before.push(old_buf) =~= before + flush(old_buf));
                } else {
                    assert(before =~= before + flush(old_buf));
                }
                assert(before + (flush(old_buf) + group(sp.skip(k + 1), t)) =~= (before + flush(
                    old_buf,
                )) + group(sp.skip(k + 1), t));
            } else if buf.len() > 0 {
                assert(group(rest_k, old_buf) == group(
                    sp.skip(k + 1),
                    old_buf + seq!['.', ' '] + t,
                ));
                buf.push('.');
                buf.push(' ');
                append_range(&mut buf, cs, x, y);
                assert(buf@ =~= old_buf + seq!['.', ' '] + t);
            } else {
                assert(group(rest_k, old_buf) == group(sp.skip(k + 1), t));
                buf = copy_range(cs, x, y);
            }
        }
        assert(sp.skip(sents.len() as int) =~= seq![]);
        let ghost last = buf@;
        assert(group(sp.skip(sents.len() as int), last) == flush(last));
        if buf.len() >= MIN_PASSAGE_CHARS {
            let ghost before = out.deep_view();
            push_passage(out, buf);
            assert(before.push(last) =~= before + flush(last));
        } else {
            assert(out.deep_view() + flush(last) =~= out.deep_view());
        }
    }
}

/// Splits a document's text into passages: paragraphs are separated by blank
/// lines and trimmed; those under the minimum length are dropped, those up to
/// the maximum are kept whole, and longer ones are cut at ". " into greedy
/// groups of sentences. The result depends on the text alone.
pub fn segment_text(text: &str) -> (r: Vec<String>)
    ensures
        r.deep_view() == segment(text@),
        forall|k: int| 0 <= k < r.len() ==> passage_bounded(#[trigger] r[k]@),
        forall|k: int|
            0 <= k < r.len() ==> (#[trigger] r[k])@.len() <= MAX_PASSAGE_CHARS || is_sentence_unit(
                text@,
                r[k]@,
            ),
{
    let cs = chars_of(text);
    let paras = split_bounds(&cs, 0, cs.len(), '\n', '\n');
    let ghost ps = split(cs@.subrange(0, cs.len() as int), '\n', '\n');
    assert(cs@.subrange(0, cs.len() as int) =~= text@);
    let mut out: Vec<Vec<char>> = Vec::new();
    assert(ps.take(0) =~= seq![]);
    assert(out.deep_view() =~= seq![]);
    for k in 0..paras.len()
        invariant
            paras.len() == ps.len(),
            forall|j: int|
                0 <= j < paras.len() ==> 0 <= (#[trigger] paras[j]).0 <= paras[j].1 <= cs.len()
                    && cs@.subrange(paras[j].0 as int, paras[j].1 as int) == ps[j],
            out.deep_view() == paragraphs_passages(ps.take(k as int)),
    {
        let (lo, hi) = paras[k];
        let (a, b) = trim_bounds(&cs, lo, hi);
        paragraph_into(&cs, a, b, &mut out);
        assert(ps.take(k + 1).drop_last() =~= ps.take(k as int));
        assert(ps.take(k + 1).last() == ps[k as int]);
    }
    assert(ps.take(paras.len() as int) =~= ps);
    let mut r: Vec<String> = Vec::new();
    for k in 0..out.len()
        invariant
            r.len() == k,
            forall|j: int| 0 <= j < k ==> (#[trigger] r[j])@ == out.deep_view()[j],
    {
        r.push(string_of(&out[k]));
    }
    assert(r.deep_view() =~= out.deep_view());
    proof {
        lemma_segment_bounded(text@);
        lemma_long_passage_is_sentence(text@);
    }
    r
}

} // verus!
