//! Byte-level text helpers for the chart and options formats: splitting on
//! a separator, trimming ASCII whitespace, prefix tests.

use vstd::prelude::*;

verus! {

pub open spec fn is_space(b: u8) -> bool {
    b == 32 || b == 9 || b == 13 || b == 10
}

/// Index of the first `b` at or after `i`, or the length if there is none.
pub open spec fn find_from(s: Seq<u8>, i: int, b: u8) -> int
    decreases s.len() - i,
{
    if i < 0 || i >= s.len() {
        s.len() as int
    } else if s[i] == b {
        i
    } else {
        find_from(s, i + 1, b)
    }
}

pub proof fn lemma_find_from_range(s: Seq<u8>, i: int, b: u8)
    requires
        0 <= i <= s.len(),
    ensures
        i <= find_from(s, i, b) <= s.len(),
        find_from(s, i, b) < s.len() ==> s[find_from(s, i, b)] == b,
        forall|k: int| i <= k < find_from(s, i, b) ==> s[k] != b,
    decreases s.len() - i,
{
    if i < s.len() && s[i] != b {
        lemma_find_from_range(s, i + 1, b);
    }
}

/// Find the first occurrence of `b` at or after `from`.
pub fn find_byte(s: &[u8], from: usize, b: u8) -> (r: usize)
    requires
        from <= s@.len(),
    ensures
        r == find_from(s@, from as int, b),
        from <= r <= s@.len(),
{
    let n = s.len();
    let mut i = from;
    while i < n
        invariant
            from <= i <= n,
            n == s@.len(),
            find_from(s@, from as int, b) == find_from(s@, i as int, b),
        decreases n - i,
    {
        if s[i] == b {
            return i;
        }
        i = i + 1;
    }
    i
}

/// The input with ASCII whitespace removed from both ends.
pub open spec fn trim_spec(s: Seq<u8>) -> Seq<u8>
    decreases s.len(),
{
    if s.len() > 0 && is_space(s[0]) {
        trim_spec(s.skip(1))
    } else if s.len() > 0 && is_space(s.last()) {
        trim_spec(s.drop_last())
    } else {
        s
    }
}

pub proof fn lemma_trim_all_space(s: Seq<u8>)
    requires
        forall|k: int| 0 <= k < s.len() ==> is_space(#[trigger] s[k]),
    ensures
        trim_spec(s) == Seq::<u8>::empty(),
    decreases s.len(),
{
    if s.len() > 0 {
        assert(forall|k: int| 0 <= k < s.skip(1).len() ==> is_space(#[trigger] s.skip(1)[k]));
        lemma_trim_all_space(s.skip(1));
    } else {
        assert(s =~= Seq::<u8>::empty());
    }
}

pub proof fn lemma_trim_mid(s: Seq<u8>, lo: int, hi: int)
    requires
        0 <= lo < hi <= s.len(),
        forall|k: int| 0 <= k < lo ==> is_space(#[trigger] s[k]),
        forall|k: int| hi <= k < s.len() ==> is_space(#[trigger] s[k]),
        !is_space(s[lo]),
        !is_space(s[hi - 1]),
    ensures
        trim_spec(s) == s.subrange(lo, hi),
    decreases s.len(),
{
    if lo > 0 {
        let u = s.skip(1);
        assert(forall|k: int| 0 <= k < u.len() ==> u[k] == s[k + 1]);
        lemma_trim_mid(u, lo - 1, hi - 1);
        assert(u.subrange(lo - 1, hi - 1) =~= s.subrange(lo, hi));
    } else if hi < s.len() {
        let u = s.drop_last();
        lemma_trim_mid(u, lo, hi);
        assert(u.subrange(lo, hi) =~= s.subrange(lo, hi));
    } else {
        assert(s.subrange(0, s.len() as int) =~= s);
    }
}

/// Trim ASCII whitespace from both ends.
pub fn trim(s: &[u8]) -> (r: Vec<u8>)
    ensures
        r@ == trim_spec(s@),
{
    let n = s.len();
    let mut lo: usize = 0;
    while lo < n && (s[lo] == 32 || s[lo] == 9 || s[lo] == 13 || s[lo] == 10)
        invariant
            0 <= lo <= n,
            n == s@.len(),
            forall|k: int| 0 <= k < lo ==> is_space(#[trigger] s@[k]),
        decreases n - lo,
    {
        lo = lo + 1;
    }
    if lo == n {
        proof {
            lemma_trim_all_space(s@);
        }
        return Vec::new();
    }
    let mut hi: usize = n;
    while hi > lo + 1 && (s[hi - 1] == 32 || s[hi - 1] == 9 || s[hi - 1] == 13 || s[hi - 1]
        == 10)
        invariant
            lo < hi <= n,
            n == s@.len(),
            forall|k: int| hi <= k < n ==> is_space(#[trigger] s@[k]),
        decreases hi,
    {
        hi = hi - 1;
    }
    proof {
        lemma_trim_mid(s@, lo as int, hi as int);
    }
    bytes_of(s, lo, hi)
}

/// Copy `s[a..b]` into a fresh vector.
pub fn bytes_of(s: &[u8], a: usize, b: usize) -> (r: Vec<u8>)
    requires
        a <= b <= s@.len(),
    ensures
        r@ == s@.subrange(a as int, b as int),
{
    let mut r: Vec<u8> = Vec::new();
    let mut i = a;
    while i < b
        invariant
            a <= i <= b <= s@.len(),
            r@ == s@.subrange(a as int, i as int),
        decreases b - i,
    {
        r.push(s[i]);
        proof {
            assert(r@ =~= s@.subrange(a as int, i as int + 1));
        }
        i = i + 1;
    }
    r
}

/// Whether `s` begins with `p`.
pub open spec fn starts_with_spec(s: Seq<u8>, p: Seq<u8>) -> bool {
    p.len() <= s.len() && s.take(p.len() as int) == p
}

pub fn starts_with(s: &[u8], p: &[u8]) -> (r: bool)
    ensures
        r == starts_with_spec(s@, p@),
{
    let np = p.len();
    if np > s.len() {
        return false;
    }
    let mut i: usize = 0;
    while i < np
        invariant
            0 <= i <= np <= s@.len(),
            np == p@.len(),
            forall|k: int| 0 <= k < i ==> s@[k] == p@[k],
        decreases np - i,
    {
        if s[i] != p[i] {
            proof {
                assert(s@.take(np as int)[i as int] != p@[i as int]);
            }
            return false;
        }
        i = i + 1;
    }
    proof {
        assert(s@.take(np as int) =~= p@);
    }
    true
}

/// Whether two byte strings are equal.
pub fn bytes_eq(a: &[u8], b: &[u8]) -> (r: bool)
    ensures
        r == (a@ == b@),
{
    let n = a.len();
    if n != b.len() {
        proof {
            assert(a@.len() != b@.len());
        }
        return false;
    }
    let mut i: usize = 0;
    while i < n
        invariant
            0 <= i <= n,
            n == a@.len() && n == b@.len(),
            forall|k: int| 0 <= k < i ==> a@[k] == b@[k],
        decreases n - i,
    {
        if a[i] != b[i] {
            return false;
        }
        i = i + 1;
    }
    proof {
        assert(a@ =~= b@);
    }
    true
}

/// The pieces of `s` between occurrences of `sep`, in order; `n` separators
/// give `n + 1` pieces.
pub open spec fn split_spec(s: Seq<u8>, sep: u8) -> Seq<Seq<u8>>
    decreases s.len(),
{
    let d = find_from(s, 0, sep);
    if 0 <= d < s.len() {
        seq![s.take(d)] + split_spec(s.skip(d + 1), sep)
    } else {
        seq![s]
    }
}

/// Split `s` on a separator byte.
pub fn split_on(s: &[u8], sep: u8) -> (r: Vec<Vec<u8>>)
    requires
        s@.len() < usize::MAX,
    ensures
        r@.map_values(|v: Vec<u8>| v@) == split_spec(s@, sep),
{
    let n = s.len();
    let mut r: Vec<Vec<u8>> = Vec::new();
    proof {
        assert(s@.skip(0) =~= s@);
        assert(r@.map_values(|v: Vec<u8>| v@) =~= Seq::<Seq<u8>>::empty());
        assert(Seq::<Seq<u8>>::empty() + split_spec(s@, sep) =~= split_spec(s@, sep));
    }
    let mut pos: usize = 0;
    while pos <= n
        invariant
            0 <= pos <= n + 1,
            n == s@.len(),
            n < usize::MAX,
            pos <= n ==> split_spec(s@, sep) == r@.map_values(|v: Vec<u8>| v@) + split_spec(
                s@.skip(pos as int),
                sep,
            ),
            pos == n + 1 ==> split_spec(s@, sep) == r@.map_values(|v: Vec<u8>| v@),
        decreases n + 1 - pos,
    {
        let j = find_byte(s, pos, sep);
        let piece = bytes_of(s, pos, j);
        proof {
            let rest = s@.skip(pos as int);
            lemma_find_from_shift(s@, pos as int, sep);
            assert(find_from(rest, 0, sep) == j - pos);
            assert(rest.take(j - pos) =~= s@.subrange(pos as int, j as int));
            if j < n {
                assert(rest.skip(j - pos + 1) =~= s@.skip(j as int + 1));
            } else {
                assert(rest.take(j - pos) =~= rest);
            }
            assert((r@ + seq![piece]).map_values(|v: Vec<u8>| v@) =~= r@.map_values(
                |v: Vec<u8>| v@,
            ) + seq![piece@]);
        }
        let ghost old_r = r@;
        r.push(piece);
        proof {
            assert(r@ =~= old_r + seq![piece]);
        }
        pos = j + 1;
    }
    r
}

/// Append a byte string to a buffer.
pub fn push_bytes(out: &mut Vec<u8>, s: &[u8])
    ensures
        final(out)@ == old(out)@ + s@,
{
    let mut i: usize = 0;
    while i < s.len()
        invariant
            0 <= i <= s@.len(),
            out@ == old(out)@ + s@.take(i as int),
        decreases s@.len() - i,
    {
        out.push(s[i]);
        proof {
            assert(out@ =~= old(out)@ + s@.take(i as int + 1));
        }
        i = i + 1;
    }
    proof {
        assert(s@.take(s@.len() as int) =~= s@);
    }
}

/// Trimming never lengthens a string.
pub proof fn lemma_trim_len(s: Seq<u8>)
    ensures
        trim_spec(s).len() <= s.len(),
    decreases s.len(),
{
    if s.len() > 0 && is_space(s[0]) {
        lemma_trim_len(s.skip(1));
    } else if s.len() > 0 && is_space(s.last()) {
        lemma_trim_len(s.drop_last());
    }
}

/// Every piece of a split is at most as long as the whole.
pub proof fn lemma_split_piece_len(s: Seq<u8>, sep: u8)
    ensures
        forall|i: int|
            0 <= i < split_spec(s, sep).len() ==> (#[trigger] split_spec(s, sep)[i]).len()
                <= s.len(),
    decreases s.len(),
{
    let d = find_from(s, 0, sep);
    lemma_find_from_range(s, 0, sep);
    if 0 <= d < s.len() {
        lemma_split_piece_len(s.skip(d + 1), sep);
        assert forall|i: int| 0 <= i < split_spec(s, sep).len() implies (#[trigger] split_spec(
            s,
            sep,
        )[i]).len() <= s.len() by {
            if i > 0 {
                assert(split_spec(s, sep)[i] == split_spec(s.skip(d + 1), sep)[i - 1]);
            }
        }
    }
}

/// Where the first occurrence provably stands: at `d` when `d` is inside
/// and everything before it differs, at the end when nothing matches.
pub proof fn lemma_find_from_at(s: Seq<u8>, d: int, b: u8)
    requires
        0 <= d <= s.len(),
        forall|k: int| 0 <= k < d ==> s[k] != b,
        d < s.len() ==> s[d] == b,
    ensures
        find_from(s, 0, b) == d,
{
    lemma_find_from_range(s, 0, b);
    let f = find_from(s, 0, b);
    if f < d {
        assert(s[f] != b);
        assert(false);
    }
    if d < f {
        if d < s.len() {
            assert(s[d] != b);
            assert(false);
        }
    }
}

/// Splitting text whose head holds no separator peels exactly that head.
pub proof fn lemma_split_prefix(a: Seq<u8>, rest: Seq<u8>, sep: u8)
    requires
        forall|k: int| 0 <= k < a.len() ==> a[k] != sep,
    ensures
        split_spec(a + seq![sep] + rest, sep) == seq![a] + split_spec(rest, sep),
{
    let s = a + seq![sep] + rest;
    assert(s.len() == a.len() + 1 + rest.len());
    assert(s[a.len() as int] == sep);
    assert(forall|k: int| 0 <= k < a.len() ==> s[k] == a[k]);
    lemma_find_from_at(s, a.len() as int, sep);
    assert(s.take(a.len() as int) =~= a);
    assert(s.skip(a.len() as int + 1) =~= rest);
}

/// A separator-free text is one whole piece.
pub proof fn lemma_split_whole(s: Seq<u8>, sep: u8)
    requires
        forall|k: int| 0 <= k < s.len() ==> s[k] != sep,
    ensures
        split_spec(s, sep) == seq![s],
{
    lemma_find_from_at(s, s.len() as int, sep);
}

/// Text without any whitespace byte trims to itself.
pub proof fn lemma_trim_id(s: Seq<u8>)
    requires
        forall|k: int| 0 <= k < s.len() ==> !is_space(s[k]),
    ensures
        trim_spec(s) == s,
{
}

/// Searching in a suffix finds the same place, shifted.
pub proof fn lemma_find_from_shift(s: Seq<u8>, pos: int, sep: u8)
    requires
        0 <= pos <= s.len(),
    ensures
        find_from(s.skip(pos), 0, sep) == find_from(s, pos, sep) - pos,
    decreases s.len() - pos,
{
    lemma_find_from_range(s, pos, sep);
    lemma_find_from_range(s.skip(pos), 0, sep);
    let rest = s.skip(pos);
    assert(forall|k: int| 0 <= k < rest.len() ==> rest[k] == s[k + pos]);
    let d = find_from(s, pos, sep) - pos;
    let d2 = find_from(rest, 0, sep);
    if d2 < d {
        assert(s[d2 + pos] == rest[d2]);
        assert(false);
    }
    if d < d2 {
        assert(rest[d] == s[d + pos]);
        assert(false);
    }
}

} // verus!
