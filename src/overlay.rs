//! A copy-on-write overlay over any image: a sparse set of patched byte
//! segments, kept sorted, disjoint and never adjacent.

use vstd::prelude::*;

use crate::bytes::{copy_bytes, zeroed};
use crate::image::{Image, ImageError};
use std::collections::BTreeMap;

verus! {

/// One patched segment: its start offset and its bytes.
pub type Segment = (u64, Vec<u8>);

/// The offset just past segment `s`.
pub open spec fn seg_end(s: Segment) -> int {
    s.0 + s.1@.len()
}

/// Whether segment `s` holds the byte at offset `x`.
pub open spec fn covers(s: Segment, x: int) -> bool {
    s.0 <= x < seg_end(s)
}

/// Segments that are non-empty, end within `u64`, are sorted by offset and
/// have a gap of at least one byte between any two of them.
pub open spec fn canonical(segs: Seq<Segment>) -> bool {
    &&& forall|i: int| 0 <= i < segs.len() ==> (#[trigger] segs[i]).1@.len() > 0 && seg_end(segs[i])
        <= u64::MAX
    &&& forall|i: int, j: int|
        0 <= i < j < segs.len() ==> seg_end(#[trigger] segs[i]) < (#[trigger] segs[j]).0
}

/// The byte at `x` of a base image that reads as zero past its end.
pub open spec fn base_byte(base: Seq<u8>, x: int) -> u8 {
    if 0 <= x < base.len() {
        base[x]
    } else {
        0
    }
}

/// The byte at `x` as the segments show it, or `fallback` where none holds
/// `x` (the last segment that holds `x` wins).
pub open spec fn overlay_at(segs: Seq<Segment>, x: int, fallback: u8) -> u8
    decreases segs.len(),
{
    if segs.len() == 0 {
        fallback
    } else if covers(segs.last(), x) {
        segs.last().1@[x - segs.last().0]
    } else {
        overlay_at(segs.drop_last(), x, fallback)
    }
}

/// `content` after writing `data` at `offset`: the written bytes replace
/// what was there, and a write past the end extends it, with zeros in any
/// gap.
pub open spec fn write_over(content: Seq<u8>, offset: int, data: Seq<u8>) -> Seq<u8> {
    let end = offset + data.len();
    let len = if data.len() > 0 && end > content.len() {
        end
    } else {
        content.len() as int
    };
    Seq::new(
        len as nat,
        |x: int|
            if offset <= x < end {
                data[x - offset]
            } else if x < content.len() {
                content[x]
            } else {
                0u8
            },
    )
}

/// The total number of bytes that the segments hold.
pub open spec fn total_len(segs: Seq<Segment>) -> nat
    decreases segs.len(),
{
    if segs.len() == 0 {
        0
    } else {
        total_len(segs.drop_last()) + segs.last().1@.len()
    }
}

/// A segment that holds `x` decides the byte there, whatever the others hold.
pub proof fn lemma_overlay_covered(segs: Seq<Segment>, k: int, x: int, fallback: u8)
    requires
        canonical(segs),
        0 <= k < segs.len(),
        covers(segs[k], x),
    ensures
        overlay_at(segs, x, fallback) == segs[k].1@[x - segs[k].0],
    decreases segs.len(),
{
    let n = segs.len() - 1;
    if k < n {
        assert(seg_end(segs[k]) < segs[n].0);
        let d = segs.drop_last();
        assert(d[k] == segs[k]);
        assert forall|i: int, j: int| 0 <= i < j < d.len() implies seg_end(#[trigger] d[i]) < (
        #[trigger] d[j]).0 by {
            assert(d[i] == segs[i] && d[j] == segs[j]);
        }
        assert forall|i: int| 0 <= i < d.len() implies (#[trigger] d[i]).1@.len() > 0 && seg_end(
            d[i],
        ) <= u64::MAX by {
            assert(d[i] == segs[i]);
        }
        lemma_overlay_covered(d, k, x, fallback);
    }
}

/// Where no segment holds `x`, the fallback shows through.
pub proof fn lemma_overlay_uncovered(segs: Seq<Segment>, x: int, fallback: u8)
    requires
        forall|k: int| 0 <= k < segs.len() ==> !covers(#[trigger] segs[k], x),
    ensures
        overlay_at(segs, x, fallback) == fallback,
    decreases segs.len(),
{
    if segs.len() > 0 {
        let d = segs.drop_last();
        assert(segs.last() == segs[segs.len() - 1]);
        assert forall|k: int| 0 <= k < d.len() implies !covers(#[trigger] d[k], x) by {
            assert(d[k] == segs[k]);
        }
        lemma_overlay_uncovered(d, x, fallback);
    }
}

/// A run of canonical segments is canonical.
pub proof fn lemma_canonical_subrange(segs: Seq<Segment>, lo: int, hi: int)
    requires
        canonical(segs),
        0 <= lo <= hi <= segs.len(),
    ensures
        canonical(segs.subrange(lo, hi)),
{
    let s = segs.subrange(lo, hi);
    assert forall|i: int, j: int| 0 <= i < j < s.len() implies seg_end(#[trigger] s[i]) < (
    #[trigger] s[j]).0 by {
        assert(s[i] == segs[lo + i] && s[j] == segs[lo + j]);
    }
    assert forall|i: int| 0 <= i < s.len() implies (#[trigger] s[i]).1@.len() > 0 && seg_end(s[i])
        <= u64::MAX by {
        assert(s[i] == segs[lo + i]);
    }
}

/// The byte at `x` is the same through all segments as through those in
/// `lo..hi`, when no segment outside that run holds `x`.
pub proof fn lemma_overlay_run(segs: Seq<Segment>, lo: int, hi: int, x: int, fallback: u8)
    requires
        canonical(segs),
        0 <= lo <= hi <= segs.len(),
        forall|k: int| 0 <= k < segs.len() && !(lo <= k < hi) ==> !covers(#[trigger] segs[k], x),
    ensures
        overlay_at(segs, x, fallback) == overlay_at(segs.subrange(lo, hi), x, fallback),
{
    let s = segs.subrange(lo, hi);
    lemma_canonical_subrange(segs, lo, hi);
    if exists|k: int| lo <= k < hi && covers(#[trigger] segs[k], x) {
        let k = choose|k: int| lo <= k < hi && covers(#[trigger] segs[k], x);
        lemma_overlay_covered(segs, k, x, fallback);
        assert(s[k - lo] == segs[k]);
        lemma_overlay_covered(s, k - lo, x, fallback);
    } else {
        assert forall|k: int| 0 <= k < s.len() implies !covers(#[trigger] s[k], x) by {
            assert(s[k] == segs[lo + k]);
        }
        lemma_overlay_uncovered(s, x, fallback);
        lemma_overlay_uncovered(segs, x, fallback);
    }
}

/// One more segment at the end of a run decides the bytes that it holds.
pub proof fn lemma_overlay_extend(segs: Seq<Segment>, lo: int, k: int, x: int, fallback: u8)
    requires
        0 <= lo <= k < segs.len(),
    ensures
        overlay_at(segs.subrange(lo, k + 1), x, fallback) == if covers(segs[k], x) {
            segs[k].1@[x - segs[k].0]
        } else {
            overlay_at(segs.subrange(lo, k), x, fallback)
        },
{
    let s = segs.subrange(lo, k + 1);
    assert(s.drop_last() =~= segs.subrange(lo, k));
    assert(s.last() == segs[k]);
}

/// Segments `lo..hi` of `segs` replaced by the one segment `m`.
pub open spec fn splice(segs: Seq<Segment>, lo: int, hi: int, m: Segment) -> Seq<Segment> {
    segs.subrange(0, lo) + seq![m] + segs.subrange(hi, segs.len() as int)
}

/// Whether segment `s` overlaps or touches the range `[start, end)`.
pub open spec fn touches(s: Segment, start: int, end: int) -> bool {
    s.0 <= end && seg_end(s) >= start
}

/// Replacing a run of canonical segments by one segment that keeps a gap to
/// its neighbours keeps them canonical.
pub proof fn lemma_splice_canonical(segs: Seq<Segment>, lo: int, hi: int, m: Segment)
    requires
        canonical(segs),
        0 <= lo <= hi <= segs.len(),
        m.1@.len() > 0,
        seg_end(m) <= u64::MAX,
        forall|k: int| 0 <= k < lo ==> seg_end(#[trigger] segs[k]) < m.0,
        forall|k: int| hi <= k < segs.len() ==> seg_end(m) < (#[trigger] segs[k]).0,
    ensures
        canonical(splice(segs, lo, hi, m)),
{
    let t = splice(segs, lo, hi, m);
    assert forall|i: int| 0 <= i < t.len() implies (#[trigger] t[i]).1@.len() > 0 && seg_end(t[i])
        <= u64::MAX by {
        if i < lo {
            assert(t[i] == segs[i]);
        } else if i > lo {
            assert(t[i] == segs[i - lo - 1 + hi]);
        }
    }
    assert forall|i: int, j: int| 0 <= i < j < t.len() implies seg_end(#[trigger] t[i]) < (
    #[trigger] t[j]).0 by {
        if i < lo {
            assert(t[i] == segs[i]);
            if j < lo {
                assert(t[j] == segs[j]);
            } else if j > lo {
                assert(t[j] == segs[j - lo - 1 + hi]);
            }
        } else if i == lo {
            assert(t[j] == segs[j - lo - 1 + hi]);
        } else {
            assert(t[i] == segs[i - lo - 1 + hi]);
            assert(t[j] == segs[j - lo - 1 + hi]);
        }
    }
}

/// Outside the new segment and the replaced run, a splice shows the same
/// bytes as before.
pub proof fn lemma_splice_outside(
    segs: Seq<Segment>,
    lo: int,
    hi: int,
    m: Segment,
    x: int,
    fallback: u8,
)
    requires
        canonical(segs),
        0 <= lo <= hi <= segs.len(),
        canonical(splice(segs, lo, hi, m)),
        !covers(m, x),
        forall|k: int| lo <= k < hi ==> !covers(#[trigger] segs[k], x),
    ensures
        overlay_at(splice(segs, lo, hi, m), x, fallback) == overlay_at(segs, x, fallback),
{
    let t = splice(segs, lo, hi, m);
    if exists|k: int| 0 <= k < segs.len() && covers(#[trigger] segs[k], x) {
        let k = choose|k: int| 0 <= k < segs.len() && covers(#[trigger] segs[k], x);
        lemma_overlay_covered(segs, k, x, fallback);
        if k < lo {
            assert(t[k] == segs[k]);
            lemma_overlay_covered(t, k, x, fallback);
        } else {
            assert(t[k - hi + lo + 1] == segs[k]);
            lemma_overlay_covered(t, k - hi + lo + 1, x, fallback);
        }
    } else {
        lemma_overlay_uncovered(segs, x, fallback);
        assert forall|i: int| 0 <= i < t.len() implies !covers(#[trigger] t[i], x) by {
            if i < lo {
                assert(t[i] == segs[i]);
            } else if i > lo {
                assert(t[i] == segs[i - lo - 1 + hi]);
            }
        }
        lemma_overlay_uncovered(t, x, fallback);
    }
}

/// The bytes that segments `t` show over `base` after a write of `data` at
/// `offset` replaced the run `lo..hi` of `s` by the merged segment `m` are
/// those of the old image with the write laid over them.
pub proof fn lemma_write_content(
    s: Seq<Segment>,
    base: Seq<u8>,
    old_len: int,
    new_len: int,
    lo: int,
    hi: int,
    m: Segment,
    offset: int,
    data: Seq<u8>,
)
    requires
        canonical(s),
        0 <= lo <= hi <= s.len(),
        canonical(splice(s, lo, hi, m)),
        forall|k: int| 0 <= k < s.len() ==> seg_end(#[trigger] s[k]) <= old_len,
        base.len() <= old_len,
        data.len() > 0,
        m.0 <= offset,
        offset + data.len() <= seg_end(m),
        forall|k: int| lo <= k < hi ==> m.0 <= (#[trigger] s[k]).0 && seg_end(s[k]) <= seg_end(m),
        forall|j: int|
            0 <= j < m.1@.len() ==> #[trigger] m.1@[j] == if offset <= m.0 + j < offset
                + data.len() {
                data[m.0 + j - offset]
            } else {
                overlay_at(s, m.0 + j, base_byte(base, m.0 + j))
            },
        new_len == if offset + data.len() > old_len {
            offset + data.len()
        } else {
            old_len
        },
    ensures
        Seq::new(new_len as nat, |x: int| overlay_at(splice(s, lo, hi, m), x, base_byte(base, x)))
            == write_over(
            Seq::new(old_len as nat, |x: int| overlay_at(s, x, base_byte(base, x))),
            offset,
            data,
        ),
{
    let t = splice(s, lo, hi, m);
    let old_content = Seq::new(old_len as nat, |x: int| overlay_at(s, x, base_byte(base, x)));
    let w = write_over(old_content, offset, data);
    let got = Seq::new(new_len as nat, |x: int| overlay_at(t, x, base_byte(base, x)));
    assert forall|x: int| 0 <= x < new_len implies #[trigger] got[x] == w[x] by {
        let f = base_byte(base, x);
        if x >= old_len {
            assert forall|k: int| 0 <= k < s.len() implies !covers(#[trigger] s[k], x) by {}
            lemma_overlay_uncovered(s, x, f);
        }
        if covers(m, x) {
            assert(t[lo] == m);
            lemma_overlay_covered(t, lo, x, f);
        } else {
            lemma_splice_outside(s, lo, hi, m, x, f);
        }
    }
    assert(got =~= w);
}

/// `base` after the writes `writes`, each an offset and its bytes, laid
/// over it in order.
pub open spec fn layered(base: Seq<u8>, writes: Seq<(int, Seq<u8>)>) -> Seq<u8>
    decreases writes.len(),
{
    if writes.len() == 0 {
        base
    } else {
        write_over(layered(base, writes.drop_last()), writes.last().0, writes.last().1)
    }
}

/// The byte that the last of `writes` to cover `x` wrote there, if any.
pub open spec fn last_write_at(writes: Seq<(int, Seq<u8>)>, x: int) -> Option<u8>
    decreases writes.len(),
{
    if writes.len() == 0 {
        None
    } else if writes.last().0 <= x < writes.last().0 + writes.last().1.len() {
        Some(writes.last().1[x - writes.last().0])
    } else {
        last_write_at(writes.drop_last(), x)
    }
}

/// Read after write: every byte of an image after a sequence of writes
/// (at offsets from 0 on) is the byte of the last write that covered it,
/// else the base byte, else zero where the writes extended the image; and
/// the image is exactly as long as its base and the writes reach.
pub proof fn lemma_read_after_writes(base: Seq<u8>, writes: Seq<(int, Seq<u8>)>, x: int)
    requires
        forall|k: int| 0 <= k < writes.len() ==> (#[trigger] writes[k]).0 >= 0,
        0 <= x,
    ensures
        x < layered(base, writes).len() <==> (x < base.len() || exists|k: int|
            0 <= k < writes.len() && (#[trigger] writes[k]).1.len() > 0 && x < writes[k].0
                + writes[k].1.len()),
        x < layered(base, writes).len() ==> layered(base, writes)[x] == match last_write_at(
            writes,
            x,
        ) {
            Some(b) => b,
            None => if x < base.len() {
                base[x]
            } else {
                0u8
            },
        },
    decreases writes.len(),
{
    if writes.len() > 0 {
        let d = writes.drop_last();
        assert forall|k: int| 0 <= k < d.len() implies (#[trigger] d[k]).0 >= 0 by {
            assert(d[k] == writes[k]);
        }
        lemma_read_after_writes(base, d, x);
        let w = writes.last();
        assert(w == writes[writes.len() - 1]);
        let inner = layered(base, d);
        if x < layered(base, writes).len() {
            if !(w.0 <= x < w.0 + w.1.len()) && x >= inner.len() {
                // Bytes of the gap that a write past the end leaves are zero.
                if exists|k: int| 0 <= k < d.len() && (#[trigger] d[k]).1.len() > 0 && x < d[k].0 + d[k].1.len() {
                    assert(false);
                }
                if x < base.len() {
                    assert(false);
                }
                lemma_no_write_at(d, x, base);
            }
        }
        assert(x < layered(base, writes).len() <==> (x < base.len() || exists|k: int|
            0 <= k < writes.len() && (#[trigger] writes[k]).1.len() > 0 && x < writes[k].0
                + writes[k].1.len())) by {
            if exists|k: int| 0 <= k < d.len() && (#[trigger] d[k]).1.len() > 0 && x < d[k].0 + d[k].1.len() {
                let k = choose|k: int| 0 <= k < d.len() && (#[trigger] d[k]).1.len() > 0 && x < d[k].0 + d[k].1.len();
                assert(writes[k] == d[k]);
            }
            if exists|k: int| 0 <= k < writes.len() && (#[trigger] writes[k]).1.len() > 0 && x < writes[k].0 + writes[k].1.len() {
                let k = choose|k: int| 0 <= k < writes.len() && (#[trigger] writes[k]).1.len() > 0 && x < writes[k].0 + writes[k].1.len();
                if k < d.len() {
                    assert(d[k] == writes[k]);
                }
            }
        }
    }
}

/// The contents that an overlay goes through, from its base, as each
/// successful `write_at` lays one write over the last: the final content
/// is `layered(base, writes)`, whose bytes `lemma_read_after_writes`
/// describes, and which every read then returns.
pub proof fn lemma_overlay_history(base: Seq<u8>, writes: Seq<(int, Seq<u8>)>, contents: Seq<Seq<u8>>)
    requires
        contents.len() == writes.len() + 1,
        contents[0] == base,
        forall|k: int|
            0 <= k < writes.len() ==> #[trigger] contents[k + 1] == write_over(
                contents[k],
                writes[k].0,
                writes[k].1,
            ),
    ensures
        contents.last() == layered(base, writes),
    decreases writes.len(),
{
    if writes.len() > 0 {
        let w = writes.drop_last();
        let c = contents.drop_last();
        assert forall|k: int| 0 <= k < w.len() implies #[trigger] c[k + 1] == write_over(c[k], w[k].0, w[k].1) by {
            assert(contents[k + 1] == write_over(contents[k], writes[k].0, writes[k].1));
        }
        lemma_overlay_history(base, w, c);
        let k = writes.len() - 1;
        assert(contents[k + 1] == write_over(contents[k], writes[k].0, writes[k].1));
    }
}

/// Past the end of the image that some writes leave, none of them wrote.
proof fn lemma_no_write_at(writes: Seq<(int, Seq<u8>)>, x: int, base: Seq<u8>)
    requires
        !exists|k: int| 0 <= k < writes.len() && (#[trigger] writes[k]).1.len() > 0 && x < writes[k].0 + writes[k].1.len(),
    ensures
        last_write_at(writes, x) is None,
    decreases writes.len(),
{
    if writes.len() > 0 {
        let d = writes.drop_last();
        assert(writes.last() == writes[writes.len() - 1]);
        if exists|k: int| 0 <= k < d.len() && (#[trigger] d[k]).1.len() > 0 && x < d[k].0 + d[k].1.len() {
            let k = choose|k: int| 0 <= k < d.len() && (#[trigger] d[k]).1.len() > 0 && x < d[k].0 + d[k].1.len();
            assert(writes[k] == d[k]);
        }
        lemma_no_write_at(d, x, base);
    }
}

/// Whether `seg` is one of `segs`.
pub open spec fn holds_segment(segs: Seq<Segment>, seg: Segment) -> bool {
    exists|j: int| 0 <= j < segs.len() && #[trigger] segs[j] == seg
}

/// Whether some segment holds the byte at `x`.
pub open spec fn covered(segs: Seq<Segment>, x: int) -> bool {
    exists|k: int| 0 <= k < segs.len() && covers(#[trigger] segs[k], x)
}

/// Replacing the segments that touch a write by one segment over the union
/// of the write and them covers what they covered, and the write.
pub proof fn lemma_splice_covered(
    segs: Seq<Segment>,
    lo: int,
    hi: int,
    m: Segment,
    start: int,
    end: int,
    x: int,
)
    requires
        canonical(segs),
        0 <= lo <= hi <= segs.len(),
        start < end,
        forall|k: int| 0 <= k < lo ==> seg_end(#[trigger] segs[k]) < start,
        forall|k: int| hi <= k < segs.len() ==> end < (#[trigger] segs[k]).0,
        forall|k: int| lo <= k < hi ==> touches(#[trigger] segs[k], start, end),
        forall|k: int| lo <= k < hi ==> m.0 <= (#[trigger] segs[k]).0 && seg_end(segs[k]) <= seg_end(m),
        m.0 == if lo < hi && segs[lo].0 < start { segs[lo].0 as int } else { start },
        seg_end(m) == if lo < hi && seg_end(segs[hi - 1]) > end { seg_end(segs[hi - 1]) } else { end },
    ensures
        covered(splice(segs, lo, hi, m), x) <==> (covered(segs, x) || start <= x < end),
{
    let t = splice(segs, lo, hi, m);
    if covered(t, x) {
        let j = choose|j: int| 0 <= j < t.len() && covers(#[trigger] t[j], x);
        if j < lo {
            assert(t[j] == segs[j]);
        } else if j > lo {
            assert(t[j] == segs[j - lo - 1 + hi]);
        } else {
            assert(t[j] == m);
            if !(start <= x < end) {
                if x < start {
                    assert(covers(segs[lo], x));
                } else {
                    assert(covers(segs[hi - 1], x));
                }
            }
        }
    }
    if covered(segs, x) {
        let k = choose|k: int| 0 <= k < segs.len() && covers(#[trigger] segs[k], x);
        if k < lo {
            assert(t[k] == segs[k]);
        } else if k >= hi {
            assert(t[k - hi + lo + 1] == segs[k]);
        } else {
            assert(t[lo] == m);
        }
    }
    if start <= x < end {
        assert(t[lo] == m);
    }
}

/// The offsets that the segments hold.
pub open spec fn covered_set(segs: Seq<Segment>) -> Set<int> {
    Set::new(|x: int| covered(segs, x))
}

/// Canonical segments hold as many bytes as there are offsets that they
/// cover: each byte of the overlay is one patched offset.
pub proof fn lemma_total_len_is_covered(segs: Seq<Segment>)
    requires
        canonical(segs),
    ensures
        covered_set(segs).finite(),
        covered_set(segs).len() == total_len(segs),
    decreases segs.len(),
{
    if segs.len() == 0 {
        assert(covered_set(segs) =~= Set::<int>::empty());
    } else {
        let d = segs.drop_last();
        let l = segs.last();
        lemma_canonical_subrange(segs, 0, segs.len() - 1);
        assert(d =~= segs.subrange(0, segs.len() - 1));
        lemma_total_len_is_covered(d);
        let r = vstd::set_lib::set_int_range(l.0 as int, seg_end(l));
        vstd::set_lib::lemma_int_range(l.0 as int, seg_end(l));
        assert(covered_set(segs) =~= covered_set(d) + r) by {
            assert forall|x: int| covered_set(segs).contains(x) implies (covered_set(d) + r).contains(x) by {
                let k = choose|k: int| 0 <= k < segs.len() && covers(#[trigger] segs[k], x);
                if k < segs.len() - 1 {
                    assert(d[k] == segs[k]);
                }
            }
            assert forall|x: int| (covered_set(d) + r).contains(x) implies covered_set(segs).contains(x) by {
                if covered_set(d).contains(x) {
                    let k = choose|k: int| 0 <= k < d.len() && covers(#[trigger] d[k], x);
                    assert(d[k] == segs[k]);
                } else {
                    assert(covers(segs[segs.len() - 1], x));
                }
            }
        }
        assert(covered_set(d).disjoint(r)) by {
            assert forall|x: int| covered_set(d).contains(x) implies !r.contains(x) by {
                let k = choose|k: int| 0 <= k < d.len() && covers(#[trigger] d[k], x);
                assert(d[k] == segs[k]);
                assert(seg_end(segs[k]) < segs[segs.len() - 1].0);
            }
        }
        vstd::set_lib::lemma_set_disjoint_lens(covered_set(d), r);
    }
}

/// Copy-on-write overlay over a base image.
///
/// Reads see the base with the patched segments on top; writes go to the
/// segments only and may extend the image past the end of the base.
pub struct CowImage<I: Image> {
    base: I,
    overlay: Vec<Segment>,
    logical_len: u64,
}

impl<I: Image> CowImage<I> {
    #[verifier::type_invariant]
    spec fn inv(self) -> bool {
        &&& canonical(self.overlay@)
        &&& self.base.content().len() <= self.logical_len
        &&& forall|i: int| 0 <= i < self.overlay@.len() ==> seg_end(#[trigger] self.overlay@[i]) <= self.logical_len
    }

    /// The image underneath the overlay.
    pub closed spec fn spec_base(&self) -> I {
        self.base
    }

    /// The patched segments, sorted by offset.
    pub closed spec fn segments(&self) -> Seq<Segment> {
        self.overlay@
    }

    /// The length of the image as reads see it.
    pub closed spec fn logical_len(&self) -> nat {
        self.logical_len as nat
    }

    /// The byte at `x` as reads see it, and zero past the end.
    pub open spec fn byte_at(&self, x: int) -> u8 {
        overlay_at(self.segments(), x, base_byte(self.spec_base().content(), x))
    }

    /// An overlay with no segments over `base`.
    pub fn new(base: I) -> (r: Self)
        ensures
            r.spec_base() == base,
            r.segments().len() == 0,
            r.content() == base.content(),
    {
        let len = base.len();
        let r = Self { base, overlay: Vec::new(), logical_len: len };
        assert(r.content() =~= base.content());
        r
    }

    /// The run `lo..hi` of segments that overlap or touch `[start, end)`.
    fn touching_run(&self, start: u64, end: u64) -> (r: (usize, usize))
        requires
            start < end,
        ensures
            r.0 <= r.1 <= self.segments().len(),
            forall|k: int|
                0 <= k < self.segments().len() ==> touches(
                    #[trigger] self.segments()[k],
                    start as int,
                    end as int,
                ) == (r.0 <= k < r.1),
            forall|k: int| 0 <= k < r.0 ==> seg_end(#[trigger] self.segments()[k]) < start,
            forall|k: int| r.1 <= k < self.segments().len() ==> end < (#[trigger] self.segments()[k]).0,
    {
        proof {
            use_type_invariant(self);
        }
        let ghost s = self.overlay@;
        let n = self.overlay.len();
        let mut lo: usize = 0;
        while lo < n && self.overlay[lo].0 + (self.overlay[lo].1.len() as u64) < start
            invariant
                lo <= n,
                n == s.len(),
                s == self.overlay@,
                canonical(s),
                forall|k: int| 0 <= k < lo ==> seg_end(#[trigger] s[k]) < start,
            decreases n - lo,
        {
            lo = lo + 1;
        }
        let mut hi: usize = lo;
        while hi < n && self.overlay[hi].0 <= end
            invariant
                lo <= hi <= n,
                n == s.len(),
                s == self.overlay@,
                canonical(s),
                forall|k: int| lo <= k < hi ==> (#[trigger] s[k]).0 <= end,
            decreases n - hi,
        {
            hi = hi + 1;
        }
        proof {
            assert forall|k: int| lo <= k < n implies seg_end(#[trigger] s[k]) >= start by {
                if k > lo {
                    assert(seg_end(s[lo as int]) < s[k].0);
                }
            }
            assert forall|k: int| hi <= k < n implies (#[trigger] s[k]).0 > end by {
                if k > hi {
                    assert(seg_end(s[hi as int]) < s[k].0);
                }
            }
        }
        (lo, hi)
    }

    /// The bytes of `[ms, me)` after writing `data` at `offset`, where the
    /// run `lo..hi` (not empty) holds every segment that touches the write
    /// and `[ms, me)` is the union of the write and that run.
    #[verifier::rlimit(40)]
    fn merge_run(&self, lo: usize, hi: usize, offset: u64, data: &[u8]) -> (r: Result<
        (u64, Vec<u8>),
        ImageError,
    >)
        requires
            lo < hi <= self.segments().len(),
            data@.len() > 0,
            offset + data@.len() <= u64::MAX,
            forall|k: int|
                0 <= k < self.segments().len() ==> touches(
                    #[trigger] self.segments()[k],
                    offset as int,
                    offset + data@.len(),
                ) == (lo <= k < hi),
            forall|k: int| 0 <= k < lo ==> seg_end(#[trigger] self.segments()[k]) < offset,
            forall|k: int|
                hi <= k < self.segments().len() ==> offset + data@.len() < (
                #[trigger] self.segments()[k]).0,
        ensures
            self.spec_base().never_fails() && offset + data@.len() <= usize::MAX && self.logical_len()
                <= usize::MAX ==> r is Ok,
            r matches Ok((ms, m)) ==> {
                let me = ms + m@.len();
                &&& ms == if self.segments()[lo as int].0 < offset {
                    self.segments()[lo as int].0 as int
                } else {
                    offset as int
                }
                &&& me == if seg_end(self.segments()[hi - 1]) > offset + data@.len() {
                    seg_end(self.segments()[hi - 1])
                } else {
                    offset + data@.len()
                }
                &&& forall|j: int|
                    0 <= j < m@.len() ==> #[trigger] m@[j] == if offset <= ms + j < offset
                        + data@.len() {
                        data@[ms + j - offset]
                    } else {
                        self.byte_at(ms + j)
                    }
            },
    {
        proof {
            use_type_invariant(self);
        }
        let ghost s = self.overlay@;
        let ghost base = self.base.content();
        let n = self.overlay.len();
        let write_end = offset + data.len() as u64;
        let first = self.overlay[lo].0;
        let last_end = self.overlay[hi - 1].0 + self.overlay[hi - 1].1.len() as u64;
        let ms = if first < offset {
            first
        } else {
            offset
        };
        let me = if last_end > write_end {
            last_end
        } else {
            write_end
        };
        proof {
            assert forall|k: int| lo <= k < hi implies ms <= (#[trigger] s[k]).0 && seg_end(s[k])
                <= me by {
                if k > lo {
                    assert(seg_end(s[lo as int]) < s[k].0);
                }
                if k < hi - 1 {
                    assert(seg_end(s[k]) < s[hi - 1].0);
                }
            }
        }
        if me - ms > usize::MAX as u64 {
            return Err(ImageError::InvalidInput);
        }
        let mlen = (me - ms) as usize;
        let mut m = zeroed(mlen);
        // Bytes that no segment holds come from the base.
        let base_len = self.base.len();
        if ms < base_len {
            let read_len: usize = if base_len - ms < mlen as u64 {
                (base_len - ms) as usize
            } else {
                mlen
            };
            let (head, _tail) = m.as_mut_slice().split_at_mut(read_len);
            self.base.read_exact_at(ms, head)?;
        }
        assert forall|j: int| 0 <= j < mlen implies m@[j] == base_byte(base, ms + j) by {}
        // Then the segments of the run.
        let mut k: usize = lo;
        while k < hi
            invariant
                lo <= k <= hi,
                hi <= n,
                n == s.len(),
                s == self.overlay@,
                m@.len() == mlen,
                mlen == me - ms,
                forall|k2: int| lo <= k2 < hi ==> ms <= (#[trigger] s[k2]).0 && seg_end(s[k2]) <= me,
                forall|j: int|
                    0 <= j < mlen ==> #[trigger] m@[j] == overlay_at(
                        s.subrange(lo as int, k as int),
                        ms + j,
                        base_byte(base, ms + j),
                    ),
            decreases hi - k,
        {
            let ghost before = m@;
            let seg = &self.overlay[k];
            copy_bytes(m.as_mut_slice(), (seg.0 - ms) as usize, seg.1.as_slice(), 0, seg.1.len());
            assert forall|j: int| 0 <= j < mlen implies #[trigger] m@[j] == overlay_at(
                s.subrange(lo as int, k + 1),
                ms + j,
                base_byte(base, ms + j),
            ) by {
                lemma_overlay_extend(s, lo as int, k as int, ms + j, base_byte(base, ms + j));
                if covers(s[k as int], ms + j) {
                    assert(m@[j] == s[k as int].1@[ms + j - s[k as int].0]);
                } else {
                    assert(m@[j] == before[j]);
                }
            }
            k = k + 1;
        }
        proof {
            assert forall|j: int| 0 <= j < mlen implies #[trigger] m@[j] == overlay_at(
                s,
                ms + j,
                base_byte(base, ms + j),
            ) by {
                assert forall|k2: int| 0 <= k2 < s.len() && !(lo <= k2 < hi) implies !covers(
                    #[trigger] s[k2],
                    ms + j,
                ) by {
                    if k2 < lo {
                        assert(seg_end(s[k2]) < s[lo as int].0);
                    } else {
                        assert(seg_end(s[hi - 1]) < s[k2].0);
                    }
                }
                lemma_overlay_run(s, lo as int, hi as int, ms + j, base_byte(base, ms + j));
            }
        }
        // The write itself goes on top.
        copy_bytes(m.as_mut_slice(), (offset - ms) as usize, data, 0, data.len());
        Ok((ms, m))
    }

    /// Writes `data` at `offset`, merging it with every segment that it
    /// overlaps or touches; the image grows where the write ends past it.
    ///
    /// Where the write touches a segment, the bytes of the merged range that
    /// no segment held are first read from the base, and a failure there
    /// leaves the overlay as it was.
    #[verifier::rlimit(40)]
    pub fn write_at(&mut self, offset: u64, data: &[u8]) -> (r: Result<(), ImageError>)
        ensures
            final(self).spec_base() == old(self).spec_base(),
            canonical(final(self).segments()),
            data@.len() == 0 ==> r is Ok,
            data@.len() > 0 && offset + data@.len() > u64::MAX ==> r == Err::<(), ImageError>(
                ImageError::InvalidInput,
            ),
            r is Ok ==> final(self).content() == write_over(
                old(self).content(),
                offset as int,
                data@,
            ),
            r is Err ==> final(self).content() == old(self).content() && final(self).segments()
                == old(self).segments(),
            data@.len() > 0 && offset + data@.len() <= u64::MAX && (forall|i: int|
                0 <= i < old(self).segments().len() ==> !touches(
                    #[trigger] old(self).segments()[i],
                    offset as int,
                    offset + data@.len(),
                )) ==> r is Ok,
            data@.len() == 0 ==> final(self).segments() == old(self).segments(),
            old(self).spec_base().never_fails() && offset + data@.len() <= usize::MAX
                && old(self).logical_len() <= usize::MAX ==> r is Ok,
            r is Ok && data@.len() > 0 ==> forall|x: int|
                covered(final(self).segments(), x) <==> (covered(old(self).segments(), x) || offset
                    <= x < offset + data@.len()),
            r is Ok ==> forall|k: int|
                0 <= k < old(self).segments().len() && !touches(
                    #[trigger] old(self).segments()[k],
                    offset as int,
                    offset + data@.len(),
                ) ==> holds_segment(final(self).segments(), old(self).segments()[k]),
    {
        proof {
            use_type_invariant(&*self);
        }
        if data.len() == 0 {
            assert(write_over(self.content(), offset as int, data@) =~= self.content());
            assert forall|k: int| 0 <= k < self.segments().len() implies #[trigger] holds_segment(self.segments(), self.segments()[k]) by {
                assert(self.segments()[k] == self.segments()[k]);
            }
            return Ok(());
        }
        if offset as u128 + data.len() as u128 > u64::MAX as u128 {
            return Err(ImageError::InvalidInput);
        }
        let write_end = offset + data.len() as u64;
        let ghost s = self.overlay@;
        let ghost old_content = self.content();
        let ghost base = self.base.content();
        let (lo, hi) = self.touching_run(offset, write_end);
        let (ms, merged) = if lo == hi {
            (offset, slice_to_vec(data))
        } else {
            self.merge_run(lo, hi, offset, data)?
        };
        let ghost me = ms + merged@.len();
        proof {
            assert forall|k: int| lo <= k < hi implies ms <= (#[trigger] s[k]).0 && seg_end(s[k])
                <= me by {
                if k > lo {
                    assert(seg_end(s[lo as int]) < s[k].0);
                }
                if k < hi - 1 {
                    assert(seg_end(s[k]) < s[hi - 1].0);
                }
            }
            assert forall|k: int| 0 <= k < lo implies seg_end(#[trigger] s[k]) < ms by {
                if lo < hi {
                    assert(seg_end(s[k]) < s[lo as int].0);
                }
            }
            assert forall|k: int| hi <= k < s.len() implies me < (#[trigger] s[k]).0 by {
                if lo < hi {
                    assert(seg_end(s[hi - 1]) < s[k].0);
                }
            }
            lemma_splice_canonical(s, lo as int, hi as int, (ms, merged));
        }
        if write_end > self.logical_len {
            self.logical_len = write_end;
        }
        let ghost new_len = self.logical_len;
        // Replace the run lo..hi by the merged segment.
        let mut segs: Vec<Segment> = Vec::new();
        std::mem::swap(&mut self.overlay, &mut segs);
        let mut tail = segs.split_off(hi);
        segs.truncate(lo);
        segs.push((ms, merged));
        segs.append(&mut tail);
        proof {
            let t = splice(s, lo as int, hi as int, (ms, merged));
            assert(segs@ =~= t);
            assert forall|i: int| 0 <= i < t.len() implies seg_end(#[trigger] t[i]) <= new_len by {
                if i < lo {
                    assert(t[i] == s[i]);
                } else if i > lo {
                    assert(t[i] == s[i - lo - 1 + hi]);
                }
            }
        }
        std::mem::swap(&mut self.overlay, &mut segs);
        proof {
            assert forall|j: int| 0 <= j < merged@.len() implies #[trigger] merged@[j] == if offset
                <= ms + j < offset + data@.len() {
                data@[ms + j - offset]
            } else {
                overlay_at(s, ms + j, base_byte(base, ms + j))
            } by {}
            lemma_write_content(
                s,
                base,
                old(self).logical_len as int,
                new_len as int,
                lo as int,
                hi as int,
                (ms, merged),
                offset as int,
                data@,
            );
            let t = splice(s, lo as int, hi as int, (ms, merged));
            assert(self.overlay@ == t);
            assert(old_content =~= Seq::new(
                old(self).logical_len as nat,
                |x: int| overlay_at(s, x, base_byte(base, x)),
            ));
            assert(self.content() =~= Seq::new(
                new_len as nat,
                |x: int| overlay_at(t, x, base_byte(base, x)),
            ));
            assert forall|x: int| covered(t, x) <==> (covered(s, x) || offset <= x < offset + data@.len()) by {
                lemma_splice_covered(s, lo as int, hi as int, (ms, merged), offset as int, write_end as int, x);
            }
            assert forall|k: int| 0 <= k < s.len() && !touches(
                #[trigger] s[k],
                offset as int,
                offset + data@.len(),
            ) implies holds_segment(self.segments(), s[k]) by {
                if k < lo {
                    assert(self.segments()[k] == s[k]);
                } else {
                    assert(self.segments()[k - hi + lo + 1] == s[k]);
                }
            }
        }
        Ok(())
    }

    /// The number of bytes that the segments hold (at most `usize::MAX`).
    pub fn overlay_bytes(&self) -> (r: usize)
        ensures
            r == if total_len(self.segments()) <= usize::MAX {
                total_len(self.segments())
            } else {
                usize::MAX as nat
            },
            total_len(self.segments()) == covered_set(self.segments()).len(),
    {
        proof {
            use_type_invariant(self);
            lemma_total_len_is_covered(self.overlay@);
        }
        let n = self.overlay.len();
        let mut sum: u64 = 0;
        let mut k: usize = 0;
        while k < n
            invariant
                n == self.overlay@.len(),
                k <= n,
                canonical(self.overlay@),
                sum == total_len(self.overlay@.subrange(0, k as int)),
                k > 0 ==> sum <= seg_end(self.overlay@[k - 1]),
            decreases n - k,
        {
            let ghost s = self.overlay@;
            assert(s.subrange(0, k + 1).drop_last() =~= s.subrange(0, k as int));
            if k > 0 {
                assert(seg_end(s[k - 1]) < s[k as int].0);
            }
            sum = sum + self.overlay[k].1.len() as u64;
            k = k + 1;
        }
        assert(self.overlay@.subrange(0, n as int) =~= self.overlay@);
        if sum > usize::MAX as u64 {
            usize::MAX
        } else {
            sum as usize
        }
    }

    /// The number of segments.
    pub fn overlay_segment_count(&self) -> (r: usize)
        ensures
            r == self.segments().len(),
    {
        self.overlay.len()
    }

    /// A copy of the segments as `(offset, bytes)` pairs, by offset.
    pub fn overlay_segments(&self) -> (r: Vec<(u64, Vec<u8>)>)
        ensures
            r@.len() == self.segments().len(),
            forall|i: int|
                0 <= i < r@.len() ==> (#[trigger] r@[i]).0 == self.segments()[i].0 && r@[i].1@
                    == self.segments()[i].1@,
    {
        let mut r: Vec<(u64, Vec<u8>)> = Vec::new();
        let mut k: usize = 0;
        while k < self.overlay.len()
            invariant
                k <= self.overlay@.len(),
                r@.len() == k,
                forall|i: int|
                    0 <= i < k ==> (#[trigger] r@[i]).0 == self.overlay@[i].0 && r@[i].1@
                        == self.overlay@[i].1@,
            decreases self.overlay@.len() - k,
        {
            let seg = &self.overlay[k];
            r.push((seg.0, copy_of(&seg.1)));
            k = k + 1;
        }
        r
    }

    /// The image underneath the overlay.
    pub fn base(&self) -> (r: &I)
        ensures
            *r == self.spec_base(),
    {
        &self.base
    }

    /// Takes the overlay apart into its base and its segments, keyed by
    /// offset.
    pub fn into_parts(self) -> (r: (I, BTreeMap<u64, Vec<u8>>))
        ensures
            r.0 == self.spec_base(),
            r.1@.dom() == Set::new(|o: u64| exists|i: int| 0 <= i < self.segments().len() && (#[trigger] self.segments()[i]).0 == o),
            forall|i: int| 0 <= i < self.segments().len() ==> (#[trigger] r.1@[self.segments()[i].0])@ == self.segments()[i].1@,
    {
        proof {
            use_type_invariant(&self);
        }
        let CowImage { base, overlay, logical_len: _ } = self;
        let mut map: BTreeMap<u64, Vec<u8>> = BTreeMap::new();
        let mut k: usize = 0;
        while k < overlay.len()
            invariant
                k <= overlay@.len(),
                canonical(overlay@),
                map@.dom() == Set::new(|o: u64| exists|i: int| 0 <= i < k && (#[trigger] overlay@[i]).0 == o),
                forall|i: int| 0 <= i < k ==> (#[trigger] map@[overlay@[i].0])@ == overlay@[i].1@,
            decreases overlay@.len() - k,
        {
            let seg = &overlay[k];
            let ghost old_map = map@;
            map.insert(seg.0, copy_of(&seg.1));
            assert forall|i: int| 0 <= i < k implies overlay@[i].0 != overlay@[k as int].0 by {
                assert(seg_end(overlay@[i]) < overlay@[k as int].0);
            }
            assert(map@.dom() =~= Set::new(|o: u64| exists|i: int| 0 <= i < k + 1 && (#[trigger] overlay@[i]).0 == o)) by {
                assert forall|o: u64| map@.dom().contains(o) implies exists|i: int| 0 <= i < k + 1 && (#[trigger] overlay@[i]).0 == o by {
                    if o != overlay@[k as int].0 {
                        assert(old_map.dom().contains(o));
                    }
                }
            }
            k = k + 1;
        }
        (base, map)
    }
}

/// A fresh vector with the bytes of `v`.
fn slice_to_vec(v: &[u8]) -> (r: Vec<u8>)
    ensures
        r@ == v@,
{
    let mut r: Vec<u8> = Vec::with_capacity(v.len());
    let mut k: usize = 0;
    while k < v.len()
        invariant
            k <= v@.len(),
            r@ == v@.subrange(0, k as int),
        decreases v@.len() - k,
    {
        r.push(v[k]);
        k = k + 1;
    }
    assert(r@ =~= v@);
    r
}

/// A fresh vector with the bytes of `v`.
fn copy_of(v: &Vec<u8>) -> (r: Vec<u8>)
    ensures
        r@ == v@,
{
    let mut r: Vec<u8> = Vec::with_capacity(v.len());
    let mut k: usize = 0;
    while k < v.len()
        invariant
            k <= v@.len(),
            r@ == v@.subrange(0, k as int),
        decreases v@.len() - k,
    {
        r.push(v[k]);
        k = k + 1;
    }
    assert(r@ =~= v@);
    r
}

impl<I: Image> Image for CowImage<I> {
    open spec fn never_fails(&self) -> bool {
        self.spec_base().never_fails()
    }

    open spec fn content(&self) -> Seq<u8> {
        Seq::new(self.logical_len(), |x: int| self.byte_at(x))
    }

    fn read_at(&self, offset: u64, output_buf: &mut [u8]) -> (r: Result<usize, ImageError>)
        ensures
            r matches Ok(n) ==> offset < self.content().len() ==> n == if old(output_buf)@.len()
                < self.content().len() - offset {
                old(output_buf)@.len() as int
            } else {
                self.content().len() - offset
            },
            old(output_buf)@.len() == 0 || offset >= self.content().len() ==> r == Ok::<usize, ImageError>(0)
                && final(output_buf)@ == old(output_buf)@,
            offset >= self.spec_base().content().len() ==> r is Ok,
            r matches Ok(n) ==> final(output_buf)@.subrange(n as int, old(output_buf)@.len() as int)
                == old(output_buf)@.subrange(n as int, old(output_buf)@.len() as int),
    {
        proof {
            use_type_invariant(self);
        }
        let logical_len = self.logical_len;
        if output_buf.len() == 0 || offset >= logical_len {
            return Ok(0);
        }
        let available = logical_len - offset;
        let read_len: usize = if (output_buf.len() as u64) < available {
            output_buf.len()
        } else {
            available as usize
        };
        let ghost buf_len = output_buf@.len();
        let ghost base = self.base.content();
        // Fill from the base, and with zeros past its end.
        let base_len = self.base.len();
        if offset < base_len {
            let base_avail: usize = if base_len - offset < read_len as u64 {
                (base_len - offset) as usize
            } else {
                read_len
            };
            {
                let (head, _tail) = output_buf.split_at_mut(base_avail);
                self.base.read_exact_at(offset, head)?;
            }
            fill_zero(output_buf, base_avail, read_len);
        } else {
            fill_zero(output_buf, 0, read_len);
        }
        assert forall|j: int| 0 <= j < read_len implies output_buf@[j] == base_byte(
            base,
            offset + j,
        ) by {}
        let ghost orig = old(output_buf)@;
        assert forall|j: int| read_len <= j < buf_len implies #[trigger] output_buf@[j] == orig[j] by {}
        // Lay the segments over it.
        let read_end = offset + read_len as u64;
        let n = self.overlay.len();
        let mut k: usize = 0;
        while k < n
            invariant
                k <= n,
                n == self.overlay@.len(),
                output_buf@.len() == buf_len,
                read_len <= buf_len,
                read_end == offset + read_len,
                read_end <= logical_len,
                logical_len == self.logical_len,
                forall|i: int|
                    0 <= i < self.overlay@.len() ==> seg_end(#[trigger] self.overlay@[i])
                        <= self.logical_len,
                base == self.base.content(),
                orig == old(output_buf)@,
                forall|j: int| read_len <= j < buf_len ==> #[trigger] output_buf@[j] == orig[j],
                forall|j: int|
                    0 <= j < read_len ==> #[trigger] output_buf@[j] == overlay_at(
                        self.overlay@.subrange(0, k as int),
                        offset + j,
                        base_byte(base, offset + j),
                    ),
            decreases n - k,
        {
            let seg_start = self.overlay[k].0;
            let seg_len = self.overlay[k].1.len();
            let seg_end = seg_start + seg_len as u64;
            let start = if seg_start > offset {
                seg_start
            } else {
                offset
            };
            let end = if seg_end < read_end {
                seg_end
            } else {
                read_end
            };
            let ghost before = output_buf@;
            if start < end {
                copy_bytes(
                    output_buf,
                    (start - offset) as usize,
                    &self.overlay[k].1,
                    (start - seg_start) as usize,
                    (end - start) as usize,
                );
            }
            assert forall|j: int| 0 <= j < read_len implies #[trigger] output_buf@[j] == overlay_at(
                self.overlay@.subrange(0, k + 1),
                offset + j,
                base_byte(base, offset + j),
            ) by {
                lemma_overlay_extend(self.overlay@, 0, k as int, offset + j, base_byte(base, offset + j));
                if start < end && start <= offset + j < end {
                    assert(output_buf@[j] == self.overlay@[k as int].1@[offset + j - seg_start]);
                } else {
                    assert(output_buf@[j] == before[j]);
                }
            }
            k = k + 1;
        }
        proof {
            assert(self.overlay@.subrange(0, n as int) =~= self.overlay@);
            assert(output_buf@.subrange(0, read_len as int) =~= self.content().subrange(
                offset as int,
                offset + read_len,
            ));
            assert(output_buf@.subrange(read_len as int, buf_len as int) =~= orig.subrange(
                read_len as int,
                buf_len as int,
            ));
        }
        Ok(read_len)
    }

    fn len(&self) -> (r: u64) {
        self.logical_len
    }
}

/// An image stack that holds a copy-on-write overlay.
pub trait HasOverlay: Image {
    /// The patched segments as `(offset, bytes)` pairs, by offset.
    fn overlay_segments(&self) -> Vec<(u64, Vec<u8>)>;

    /// Writes `data` at `offset` into the overlay.
    fn write_at(&mut self, offset: u64, data: &[u8]) -> (r: Result<(), ImageError>)
        ensures
            r is Ok ==> final(self).content() == write_over(old(self).content(), offset as int, data@),
    ;
}

impl<I: Image> HasOverlay for CowImage<I> {
    fn overlay_segments(&self) -> Vec<(u64, Vec<u8>)> {
        CowImage::overlay_segments(self)
    }

    fn write_at(&mut self, offset: u64, data: &[u8]) -> (r: Result<(), ImageError>) {
        CowImage::write_at(self, offset, data)
    }
}

impl<I: crate::image::HasEncryption> crate::image::HasEncryption for CowImage<I> {
    fn xts_keys(&self) -> ([u8; 16], [u8; 16]) {
        self.base.xts_keys()
    }

    fn xts_encrypted_start(&self) -> usize {
        self.base.xts_encrypted_start()
    }
}

/// Sets `buf[from..to]` to zero.
fn fill_zero(buf: &mut [u8], from: usize, to: usize)
    requires
        from <= to <= old(buf)@.len(),
    ensures
        final(buf)@.len() == old(buf)@.len(),
        forall|j: int| 0 <= j < from ==> final(buf)@[j] == old(buf)@[j],
        forall|j: int| from <= j < to ==> final(buf)@[j] == 0,
        forall|j: int| to <= j < old(buf)@.len() ==> final(buf)@[j] == old(buf)@[j],
{
    let mut k: usize = from;
    while k < to
        invariant
            from <= k <= to,
            to <= buf@.len(),
            buf@.len() == old(buf)@.len(),
            forall|j: int| 0 <= j < from ==> buf@[j] == old(buf)@[j],
            forall|j: int| from <= j < k ==> buf@[j] == 0,
            forall|j: int| k <= j < buf@.len() ==> buf@[j] == old(buf)@[j],
        decreases to - k,
    {
        buf[k] = 0;
        k = k + 1;
    }
}

} // verus!
