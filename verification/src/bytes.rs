//! Small verified helpers over byte strings.
//!
//! All of the textual state in this crate (paths, documents, pending-entry
//! queues) is modelled as sequences of bytes, so these helpers carry the
//! basic comparisons, concatenations and splits that the other modules
//! build on.

use vstd::prelude::*;

verus! {

/// Line feed, the separator between lines of every text this crate reads.
pub const LINE_FEED: u8 = 10;

/// Comma, the separator between issue references of one pending entry.
pub const COMMA: u8 = 44;

/// The byte sequence that an ASCII character sequence encodes to.
pub open spec fn ascii_view(s: Seq<char>) -> Seq<u8> {
    Seq::new(s.len(), |i: int| s[i] as u8)
}

/// Bytes of an ASCII string slice (in this crate: of a literal).
pub fn ascii_bytes(s: &str) -> (r: &[u8])
    requires
        vstd::string::is_ascii(s),
    ensures
        r@ == ascii_view(s@),
{
    proof {
        broadcast use vstd::string::is_ascii_spec_bytes;
    }
    s.as_bytes()
}

/// Byte-for-byte equality of two slices.
pub fn bytes_eq(a: &[u8], b: &[u8]) -> (r: bool)
    ensures
        r == (a@ == b@),
{
    if a.len() != b.len() {
        return false;
    }
    let mut i: usize = 0;
    while i < a.len()
        invariant
            a@.len() == b@.len(),
            i <= a@.len(),
            forall|j: int| 0 <= j < i ==> a@[j] == b@[j],
        decreases a@.len() - i,
    {
        if a[i] != b[i] {
            return false;
        }
        i += 1;
    }
    proof {
        assert(a@ =~= b@);
    }
    true
}

/// Appends all of `src` to `dst`.
pub fn push_all(dst: &mut Vec<u8>, src: &[u8])
    ensures
        final(dst)@ == old(dst)@ + src@,
{
    let mut i: usize = 0;
    while i < src.len()
        invariant
            i <= src@.len(),
            dst@ == old(dst)@ + src@.take(i as int),
        decreases src@.len() - i,
    {
        dst.push(src[i]);
        i += 1;
        proof {
            assert(old(dst)@ + src@.take(i - 1) + seq![src@[i - 1]] =~= old(dst)@ + src@.take(
                i as int,
            ));
        }
    }
    proof {
        assert(old(dst)@ + src@.take(src@.len() as int) =~= old(dst)@ + src@);
    }
}

/// Copies `s[from..to]` into a fresh vector.
pub fn subrange_vec(s: &[u8], from: usize, to: usize) -> (r: Vec<u8>)
    requires
        from <= to <= s@.len(),
    ensures
        r@ == s@.subrange(from as int, to as int),
{
    let mut r: Vec<u8> = Vec::new();
    let mut i: usize = from;
    while i < to
        invariant
            from <= i <= to <= s@.len(),
            r@ == s@.subrange(from as int, i as int),
        decreases to - i,
    {
        r.push(s[i]);
        i += 1;
        proof {
            assert(s@.subrange(from as int, i - 1).push(s@[i - 1]) =~= s@.subrange(
                from as int,
                i as int,
            ));
        }
    }
    r
}

/// Whether `p` is an initial run of `s`.
pub fn starts_with(s: &[u8], p: &[u8]) -> (r: bool)
    ensures
        r == p@.is_prefix_of(s@),
{
    if p.len() > s.len() {
        return false;
    }
    let mut i: usize = 0;
    while i < p.len()
        invariant
            p@.len() <= s@.len(),
            i <= p@.len(),
            forall|j: int| 0 <= j < i ==> s@[j] == p@[j],
        decreases p@.len() - i,
    {
        if s[i] != p[i] {
            proof {
                assert(s@.subrange(0, p@.len() as int)[i as int] != p@[i as int]);
            }
            return false;
        }
        i += 1;
    }
    proof {
        assert(s@.subrange(0, p@.len() as int) =~= p@);
    }
    true
}

/// Whether `p` is a final run of `s`.
pub fn ends_with(s: &[u8], p: &[u8]) -> (r: bool)
    ensures
        r == p@.is_suffix_of(s@),
{
    if p.len() > s.len() {
        return false;
    }
    let off: usize = s.len() - p.len();
    let tail = subrange_vec(s, off, s.len());
    bytes_eq(tail.as_slice(), p)
}

/// One step of splitting: a separator opens a new empty segment, any other
/// byte extends the last segment.
pub open spec fn split_step(acc: Seq<Seq<u8>>, b: u8, sep: u8) -> Seq<Seq<u8>>
    recommends
        acc.len() > 0,
{
    if b == sep {
        acc.push(Seq::<u8>::empty())
    } else {
        acc.update(acc.len() - 1, acc.last().push(b))
    }
}

/// The segments of the first `n` bytes of `s` between occurrences of `sep`.
pub open spec fn split_prefix(s: Seq<u8>, sep: u8, n: int) -> Seq<Seq<u8>>
    decreases n,
{
    if n <= 0 {
        seq![Seq::<u8>::empty()]
    } else {
        split_step(split_prefix(s, sep, n - 1), s[n - 1], sep)
    }
}

/// The segments of `s` between occurrences of `sep`, scanned left to right;
/// a trailing separator contributes a final empty segment.
pub open spec fn spec_split(s: Seq<u8>, sep: u8) -> Seq<Seq<u8>> {
    split_prefix(s, sep, s.len() as int)
}

/// Splits `s` at every occurrence of `sep`.
pub fn split_bytes(s: &[u8], sep: u8) -> (r: Vec<Vec<u8>>)
    ensures
        r.deep_view() == spec_split(s@, sep),
        r@.len() >= 1,
{
    let mut segs: Vec<Vec<u8>> = Vec::new();
    let mut cur: Vec<u8> = Vec::new();
    let mut i: usize = 0;
    proof {
        assert(segs.deep_view().push(cur@) =~= split_prefix(s@, sep, 0));
    }
    while i < s.len()
        invariant
            i <= s@.len(),
            segs.deep_view().push(cur@) == split_prefix(s@, sep, i as int),
        decreases s@.len() - i,
    {
        let ghost prev = segs.deep_view();
        let ghost prev_cur = cur@;
        if s[i] == sep {
            segs.push(cur);
            cur = Vec::new();
            proof {
                assert(segs.deep_view() =~~= prev.push(prev_cur));
                assert(segs.deep_view().push(cur@) =~= split_step(
                    prev.push(prev_cur),
                    s@[i as int],
                    sep,
                ));
            }
        } else {
            cur.push(s[i]);
            proof {
                assert(segs.deep_view().push(cur@) =~= split_step(
                    prev.push(prev_cur),
                    s@[i as int],
                    sep,
                ));
            }
        }
        i += 1;
    }
    let ghost prev = segs.deep_view();
    let ghost prev_cur = cur@;
    segs.push(cur);
    proof {
        assert(segs.deep_view() =~~= prev.push(prev_cur));
        assert(segs.deep_view() == spec_split(s@, sep));
    }
    segs
}

/// Keeps a line if it is non-empty, as a one-element sequence.
pub open spec fn keep_line() -> spec_fn(Seq<u8>) -> Seq<Seq<u8>> {
    |l: Seq<u8>| if l.len() > 0 {
        seq![l]
    } else {
        Seq::<Seq<u8>>::empty()
    }
}

/// The non-empty segments of `s` between occurrences of `sep`, in order.
pub open spec fn spec_split_nonblank(s: Seq<u8>, sep: u8) -> Seq<Seq<u8>> {
    spec_split(s, sep).flat_map(keep_line())
}

/// Splits `s` at every occurrence of `sep` and drops empty segments.
pub fn split_nonblank(s: &[u8], sep: u8) -> (r: Vec<Vec<u8>>)
    ensures
        r.deep_view() == spec_split_nonblank(s@, sep),
{
    broadcast use vstd::seq_lib::group_seq_lib_default;

    let mut segs: Vec<Vec<u8>> = Vec::new();
    let mut cur: Vec<u8> = Vec::new();
    let ghost mut front: Seq<Seq<u8>> = Seq::empty();
    let mut i: usize = 0;
    proof {
        assert(front.push(cur@) =~= split_prefix(s@, sep, 0));
        assert(Seq::<Seq<u8>>::empty().flat_map(keep_line()) =~= Seq::<Seq<u8>>::empty());
        assert(segs.deep_view() =~~= front.flat_map(keep_line()));
    }
    while i < s.len()
        invariant
            i <= s@.len(),
            front.push(cur@) == split_prefix(s@, sep, i as int),
            segs.deep_view() == front.flat_map(keep_line()),
        decreases s@.len() - i,
    {
        let ghost prev_front = front;
        let ghost prev_cur = cur@;
        if s[i] == sep {
            proof {
                prev_front.lemma_flat_map_push(keep_line(), prev_cur);
            }
            if cur.len() > 0 {
                let ghost prev_segs = segs.deep_view();
                segs.push(cur);
                cur = Vec::new();
                proof {
                    assert(segs.deep_view() =~~= prev_segs.push(prev_cur));
                    assert(keep_line()(prev_cur) == seq![prev_cur]);
                    assert(prev_segs.push(prev_cur) =~= prev_segs + seq![prev_cur]);
                }
            } else {
                cur = Vec::new();
                proof {
                    assert(keep_line()(prev_cur) == Seq::<Seq<u8>>::empty());
                    assert(prev_front.flat_map(keep_line()) + Seq::<Seq<u8>>::empty()
                        =~= prev_front.flat_map(keep_line()));
                }
            }
            proof {
                front = prev_front.push(prev_cur);
                assert(front.push(cur@) =~= split_step(
                    prev_front.push(prev_cur),
                    s@[i as int],
                    sep,
                ));
            }
        } else {
            cur.push(s[i]);
            proof {
                assert(front.push(cur@) =~= split_step(
                    prev_front.push(prev_cur),
                    s@[i as int],
                    sep,
                ));
            }
        }
        i += 1;
    }
    let ghost prev_front = front;
    let ghost prev_cur = cur@;
    proof {
        prev_front.lemma_flat_map_push(keep_line(), prev_cur);
    }
    if cur.len() > 0 {
        let ghost prev_segs = segs.deep_view();
        segs.push(cur);
        proof {
            assert(segs.deep_view() =~~= prev_segs.push(prev_cur));
            assert(keep_line()(prev_cur) == seq![prev_cur]);
            assert(prev_segs.push(prev_cur) =~= prev_segs + seq![prev_cur]);
        }
    } else {
        proof {
            assert(keep_line()(prev_cur) == Seq::<Seq<u8>>::empty());
            assert(prev_front.flat_map(keep_line()) + Seq::<Seq<u8>>::empty() =~= prev_front.flat_map(
                keep_line(),
            ));
        }
    }
    proof {
        assert(prev_front.push(prev_cur) == spec_split(s@, sep));
        assert(segs.deep_view() == spec_split_nonblank(s@, sep));
    }
    segs
}

/// ASCII whitespace that is stripped from the ends of inventory lines.
pub open spec fn is_blank(b: u8) -> bool {
    b == 32 || b == 9 || b == 13
}

/// `s` with leading blanks removed.
pub open spec fn trim_front(s: Seq<u8>) -> Seq<u8>
    decreases s.len(),
{
    if s.len() > 0 && is_blank(s[0]) {
        trim_front(s.skip(1))
    } else {
        s
    }
}

/// `s` with trailing blanks removed.
pub open spec fn trim_back(s: Seq<u8>) -> Seq<u8>
    decreases s.len(),
{
    if s.len() > 0 && is_blank(s.last()) {
        trim_back(s.take(s.len() - 1))
    } else {
        s
    }
}

/// `s` with blanks removed from both ends.
pub open spec fn spec_trim(s: Seq<u8>) -> Seq<u8> {
    trim_back(trim_front(s))
}

fn is_blank_byte(b: u8) -> (r: bool)
    ensures
        r == is_blank(b),
{
    b == 32 || b == 9 || b == 13
}

/// Copies `s` with ASCII blanks removed from both ends.
pub fn trim_bytes(s: &[u8]) -> (r: Vec<u8>)
    ensures
        r@ == spec_trim(s@),
{
    let mut lo: usize = 0;
    proof {
        assert(s@.skip(0) =~= s@);
    }
    while lo < s.len() && is_blank_byte(s[lo])
        invariant
            lo <= s@.len(),
            trim_front(s@) == trim_front(s@.skip(lo as int)),
        decreases s@.len() - lo,
    {
        proof {
            assert(s@.skip(lo as int).skip(1) =~= s@.skip(lo + 1));
        }
        lo += 1;
    }
    proof {
        assert(trim_front(s@) == s@.skip(lo as int)) by {
            if lo < s@.len() {
                assert(!is_blank(s@.skip(lo as int)[0]));
            } else {
                assert(s@.skip(lo as int) =~= Seq::<u8>::empty());
            }
        }
    }
    let mut hi: usize = s.len();
    proof {
        assert(s@.skip(lo as int) =~= s@.subrange(lo as int, s@.len() as int));
    }
    while hi > lo && is_blank_byte(s[hi - 1])
        invariant
            lo <= hi <= s@.len(),
            trim_front(s@) == s@.skip(lo as int),
            trim_back(s@.skip(lo as int)) == trim_back(s@.subrange(lo as int, hi as int)),
        decreases hi,
    {
        proof {
            assert(s@.skip(lo as int) =~= s@.subrange(lo as int, s@.len() as int));
            let seg = s@.subrange(lo as int, hi as int);
            assert(seg.last() == s@[hi - 1]);
            assert(seg.take(seg.len() - 1) =~= s@.subrange(lo as int, hi - 1));
        }
        hi -= 1;
    }
    proof {
        let seg = s@.subrange(lo as int, hi as int);
        if hi > lo {
            assert(!is_blank(seg.last()));
            assert(trim_back(seg) == seg);
        } else {
            assert(seg =~= Seq::<u8>::empty());
        }
        assert(spec_trim(s@) == s@.subrange(lo as int, hi as int));
    }
    subrange_vec(s, lo, hi)
}

} // verus!
