//! Character-level text helpers: Unicode whitespace, trimming and splitting
//! on a two-character separator, all over `Seq<char>` models.
use vstd::prelude::*;

verus! {

/// Unicode `White_Space`, the set that `char::is_whitespace` and `str::trim` use.
pub open spec fn is_space(c: char) -> bool {
    let u = c as u32;
    (0x9 <= u && u <= 0xd) || u == 0x20 || u == 0x85 || u == 0xa0 || u == 0x1680 || (0x2000
        <= u && u <= 0x200a) || u == 0x2028 || u == 0x2029 || u == 0x202f || u == 0x205f || u
        == 0x3000
}

/// `s` without its leading whitespace.
pub open spec fn trim_start(s: Seq<char>) -> Seq<char>
    decreases s.len(),
{
    if s.len() > 0 && is_space(s[0]) {
        trim_start(s.drop_first())
    } else {
        s
    }
}

/// `s` without its trailing whitespace.
pub open spec fn trim_end(s: Seq<char>) -> Seq<char>
    decreases s.len(),
{
    if s.len() > 0 && is_space(s.last()) {
        trim_end(s.drop_last())
    } else {
        s
    }
}

/// `s` without leading and trailing whitespace.
pub open spec fn trim(s: Seq<char>) -> Seq<char> {
    trim_end(trim_start(s))
}

/// The pieces of `s` from position `start` on, cut at each occurrence of the
/// two-character separator `a b`, scanning left to right from position `i`
/// (occurrences do not overlap; the scan has found none in `start..i`).
pub open spec fn split_from(s: Seq<char>, a: char, b: char, start: int, i: int) -> Seq<Seq<char>>
    decreases s.len() - i,
{
    if i + 1 >= s.len() {
        seq![s.subrange(start, s.len() as int)]
    } else if s[i] == a && s[i + 1] == b {
        seq![s.subrange(start, i)] + split_from(s, a, b, i + 2, i + 2)
    } else {
        split_from(s, a, b, start, i + 1)
    }
}

/// The pieces of `s` between the occurrences of the separator `a b`, as
/// `str::split` yields them: `n` occurrences give `n + 1` pieces.
pub open spec fn split(s: Seq<char>, a: char, b: char) -> Seq<Seq<char>> {
    split_from(s, a, b, 0, 0)
}

/// `s` holds the separator `a b` somewhere.
pub open spec fn has_pair(s: Seq<char>, a: char, b: char) -> bool {
    exists|j: int| 0 <= j && j + 1 < s.len() && #[trigger] s[j] == a && s[j + 1] == b
}

/// Whether `c` is Unicode whitespace.
pub fn is_space_char(c: char) -> (r: bool)
    ensures
        r == is_space(c),
{
    let u = c as u32;
    (0x9 <= u && u <= 0xd) || u == 0x20 || u == 0x85 || u == 0xa0 || u == 0x1680 || (0x2000
        <= u && u <= 0x200a) || u == 0x2028 || u == 0x2029 || u == 0x202f || u == 0x205f || u
        == 0x3000
}

/// The characters of `s`, in order.
pub fn chars_of(s: &str) -> (r: Vec<char>)
    ensures
        r@ == s@,
{
    let mut r: Vec<char> = Vec::new();
    for c in it: s.chars()
        invariant
            r@ == it.seq().take(it.index() as int),
    {
        r.push(c);
    }
    r
}

/// The bounds of `trim(s[lo..hi])` inside `s`.
pub fn trim_bounds(s: &Vec<char>, lo: usize, hi: usize) -> (r: (usize, usize))
    requires
        lo <= hi <= s.len(),
    ensures
        lo <= r.0 <= r.1 <= hi,
        s@.subrange(r.0 as int, r.1 as int) == trim(s@.subrange(lo as int, hi as int)),
{
    let mut a: usize = lo;
    while a < hi && is_space_char(s[a])
        invariant
            lo <= a <= hi <= s.len(),
            trim_start(s@.subrange(a as int, hi as int)) == trim_start(
                s@.subrange(lo as int, hi as int),
            ),
        decreases hi - a,
    {
        assert(s@.subrange(a as int, hi as int).drop_first() =~= s@.subrange(
            a + 1,
            hi as int,
        ));
        a = a + 1;
    }
    assert(trim_start(s@.subrange(a as int, hi as int)) == s@.subrange(a as int, hi as int));
    let mut b: usize = hi;
    while b > a && is_space_char(s[b - 1])
        invariant
            lo <= a <= b <= hi <= s.len(),
            trim_end(s@.subrange(a as int, b as int)) == trim(s@.subrange(lo as int, hi as int)),
        decreases b - a,
    {
        assert(s@.subrange(a as int, b as int).drop_last() =~= s@.subrange(
            a as int,
            b - 1,
        ));
        b = b - 1;
    }
    (a, b)
}

/// Ranges over `s` of the pieces of `split(s[lo..hi], a, b)`, in order.
pub fn split_bounds(s: &Vec<char>, lo: usize, hi: usize, a: char, b: char) -> (r: Vec<
    (usize, usize),
>)
    requires
        lo <= hi <= s.len(),
    ensures
        r.len() == split(s@.subrange(lo as int, hi as int), a, b).len(),
        forall|k: int|
            0 <= k < r.len() ==> lo <= (#[trigger] r[k]).0 <= r[k].1 <= hi && s@.subrange(
                r[k].0 as int,
                r[k].1 as int,
            ) == split(s@.subrange(lo as int, hi as int), a, b)[k],
{
    let ghost t = s@.subrange(lo as int, hi as int);
    let ghost mut acc: Seq<Seq<char>> = seq![];
    let mut r: Vec<(usize, usize)> = Vec::new();
    let mut start: usize = lo;
    let mut i: usize = lo;
    while i < hi && i + 1 < hi
        invariant
            lo <= start <= i <= hi <= s.len(),
            t == s@.subrange(lo as int, hi as int),
            acc + split_from(t, a, b, start - lo, i - lo) == split(t, a, b),
            acc.len() == r.len(),
            forall|k: int|
                0 <= k < r.len() ==> lo <= (#[trigger] r[k]).0 <= r[k].1 <= hi && s@.subrange(
                    r[k].0 as int,
                    r[k].1 as int,
                ) == acc[k],
        decreases hi - i,
    {
        if s[i] == a && s[i + 1] == b {
            let ghost piece = t.subrange(start - lo, i - lo);
            assert(piece =~= s@.subrange(start as int, i as int));
            assert(acc.push(piece) + split_from(t, a, b, i + 2 - lo, i + 2 - lo) =~= acc + (seq![
                piece,
            ] + split_from(t, a, b, i + 2 - lo, i + 2 - lo)));
            r.push((start, i));
            proof {
                acc = acc.push(piece);
            }
            start = i + 2;
            i = i + 2;
        } else {
            i = i + 1;
        }
    }
    let ghost last = t.subrange(start - lo, t.len() as int);
    assert(last =~= s@.subrange(start as int, hi as int));
    assert(acc.push(last) =~= acc + seq![last]);
    r.push((start, hi));
    proof {
        acc = acc.push(last);
    }
    r
}

/// Relies on `String`'s `FromIterator<&char>`: collecting characters into a
/// string keeps exactly those characters, in order.
#[verifier::external_body]
pub(crate) fn string_of(cs: &Vec<char>) -> (r: String)
    ensures
        r@ == cs@,
{
    cs.iter().collect()
}

/// A copy of `s[x..y]`.
pub fn copy_range(s: &Vec<char>, x: usize, y: usize) -> (r: Vec<char>)
    requires
        x <= y <= s.len(),
    ensures
        r@ == s@.subrange(x as int, y as int),
{
    let mut r: Vec<char> = Vec::new();
    append_range(&mut r, s, x, y);
    assert(r@ =~= s@.subrange(x as int, y as int));
    r
}

/// Appends `s[x..y]` to `buf`.
pub fn append_range(buf: &mut Vec<char>, s: &Vec<char>, x: usize, y: usize)
    requires
        x <= y <= s.len(),
    ensures
        final(buf)@ == old(buf)@ + s@.subrange(x as int, y as int),
{
    let ghost start = buf@;
    let mut i: usize = x;
    while i < y
        invariant
            x <= i <= y <= s.len(),
            buf@ == start + s@.subrange(x as int, i as int),
        decreases y - i,
    {
        buf.push(s[i]);
        assert(s@.subrange(x as int, i + 1) =~= s@.subrange(x as int, i as int).push(s@[i as int]));
        i = i + 1;
    }
}

} // verus!
