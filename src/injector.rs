//! The range mapper: builds a synthetic document out of chunks of text and maps
//! ranges of that document back to the ranges the chunks were copied from.
use vstd::prelude::*;

use crate::text_range::TextRange;

verus! {

/// One chunk as recorded: its range in the synthetic document and, for a
/// mapped chunk, the range of the original document it was copied from.
pub type Chunk = (TextRange, Option<TextRange>);

/// The chunks tile `[0, n)` in order, and each mapped chunk has a source range
/// of the same length.
pub open spec fn layout_ok(cs: Seq<Chunk>, n: int) -> bool {
    &&& forall|i: int| 0 <= i < cs.len() ==> (#[trigger] cs[i]).0.start <= cs[i].0.end
    &&& forall|i: int|
        0 <= i < cs.len() ==> match (#[trigger] cs[i]).1 {
            Some(s) => s.start <= s.end && s.end - s.start == cs[i].0.end - cs[i].0.start,
            None => true,
        }
    &&& forall|i: int, j: int|
        0 <= i < j < cs.len() ==> (#[trigger] cs[i]).0.end <= (#[trigger] cs[j]).0.start
    &&& forall|i: int| 0 < i < cs.len() ==> (#[trigger] cs[i]).0.start == cs[i - 1].0.end
    &&& (cs.len() == 0 ==> n == 0)
    &&& (cs.len() > 0 ==> cs[0].0.start == 0 && cs.last().0.end == n)
}

/// A chunk takes part in a query when neither lies wholly before the other.
pub open spec fn overlaps(r: TextRange, q: TextRange) -> bool {
    q.start < r.end && r.start < q.end
}

/// The part of `q` inside the chunk `r`, moved to the chunk's source `s`.
pub open spec fn shifted(r: TextRange, s: TextRange, q: TextRange) -> TextRange {
    let lo = if q.start < r.start { r.start } else { q.start };
    let hi = if q.end < r.end { q.end } else { r.end };
    TextRange { start: (s.start + (lo - r.start)) as usize, end: (s.start + (hi - r.start)) as usize }
}

/// The source ranges that the query `q` covers, one per mapped chunk it
/// overlaps, in chunk order.
pub open spec fn mapped_up(cs: Seq<Chunk>, q: TextRange) -> Seq<TextRange>
    decreases cs.len(),
{
    if cs.len() == 0 {
        Seq::empty()
    } else {
        let prev = mapped_up(cs.drop_last(), q);
        let c = cs.last();
        match c.1 {
            Some(s) => if overlaps(c.0, q) {
                prev.push(shifted(c.0, s, q))
            } else {
                prev
            },
            None => prev,
        }
    }
}

/// Accumulates a synthetic document out of mapped and unmapped chunks.
pub struct Injector {
    buf: Vec<u8>,
    ranges: Vec<Chunk>,
}

impl Injector {
    /// The synthetic document assembled so far.
    pub closed spec fn text(&self) -> Seq<u8> {
        self.buf@
    }

    /// The chunks recorded so far, in the order they were added.
    pub closed spec fn chunks(&self) -> Seq<Chunk> {
        self.ranges@
    }

    pub open spec fn wf(&self) -> bool {
        layout_ok(self.chunks(), self.text().len() as int)
    }

    /// The chunks as added: the text of each, with its source range.
    pub open spec fn pieces(&self) -> Seq<(Seq<u8>, Option<TextRange>)> {
        Seq::new(
            self.chunks().len(),
            |k: int|
                (
                    self.text().subrange(
                        self.chunks()[k].0.start as int,
                        self.chunks()[k].0.end as int,
                    ),
                    self.chunks()[k].1,
                ),
        )
    }

    /// An injector with no text.
    pub fn new() -> (r: Injector)
        ensures
            r.wf(),
            r.text() == Seq::<u8>::empty(),
            r.chunks() == Seq::<Chunk>::empty(),
            r.pieces() == Seq::<(Seq<u8>, Option<TextRange>)>::empty(),
    {
        let r = Injector { buf: Vec::new(), ranges: Vec::new() };
        assert(r.pieces() =~= Seq::<(Seq<u8>, Option<TextRange>)>::empty());
        r
    }

    fn add_impl(&mut self, text: &[u8], source: Option<TextRange>)
        requires
            old(self).wf(),
            old(self).text().len() + text@.len() <= usize::MAX,
            match source {
                Some(s) => s.start <= s.end && s.end - s.start == text@.len(),
                None => true,
            },
        ensures
            final(self).wf(),
            final(self).text() == old(self).text() + text@,
            final(self).chunks() == old(self).chunks().push(
                (
                    TextRange {
                        start: old(self).text().len() as usize,
                        end: (old(self).text().len() + text@.len()) as usize,
                    },
                    source,
                ),
            ),
            final(self).pieces() == old(self).pieces().push((text@, source)),
    {
        let ghost old_pieces = self.pieces();
        let ghost old_text = self.text();
        let start = self.buf.len();
        let target = TextRange::at(start, text.len());
        let mut i: usize = 0;
        while i < text.len()
            invariant
                0 <= i <= text@.len(),
                start == old_text.len(),
                self.ranges@ == old(self).ranges@,
                self.buf@ == old_text + text@.subrange(0, i as int),
            decreases text@.len() - i,
        {
            self.buf.push(text[i]);
            i = i + 1;
            assert(self.buf@ =~= old_text + text@.subrange(0, i as int));
        }
        assert(text@.subrange(0, text@.len() as int) =~= text@);
        self.ranges.push((target, source));
        let ghost cs = self.chunks();
        let ghost old_cs = old(self).chunks();
        assert(cs == old_cs.push((target, source)));
        assert(old_pieces.len() == old_cs.len());
        assert forall|k: int| 0 <= k < old_pieces.len() implies self.pieces()[k] == old_pieces[k] by {
            assert(cs[k] == old_cs[k]);
            assert(self.text().subrange(cs[k].0.start as int, cs[k].0.end as int)
                =~= old_text.subrange(cs[k].0.start as int, cs[k].0.end as int));
        }
        assert(self.text().subrange(start as int, (start + text@.len()) as int) =~= text@);
        assert(self.pieces() =~= old_pieces.push((text@, source)));
    }

    /// Appends `text`, copied from `source_range` of the original document.
    pub fn add(&mut self, text: &[u8], source_range: TextRange)
        requires
            old(self).wf(),
            old(self).text().len() + text@.len() <= usize::MAX,
            source_range.start <= source_range.end,
            source_range.end - source_range.start == text@.len(),
        ensures
            final(self).wf(),
            final(self).text() == old(self).text() + text@,
            final(self).pieces() == old(self).pieces().push((text@, Some(source_range))),
            final(self).chunks() == old(self).chunks().push(
                (
                    TextRange {
                        start: old(self).text().len() as usize,
                        end: (old(self).text().len() + text@.len()) as usize,
                    },
                    Some(source_range),
                ),
            ),
    {
        self.add_impl(text, Some(source_range))
    }

    /// Appends scaffolding `text` that has no counterpart in the original.
    pub fn add_unmapped(&mut self, text: &[u8])
        requires
            old(self).wf(),
            old(self).text().len() + text@.len() <= usize::MAX,
        ensures
            final(self).wf(),
            final(self).text() == old(self).text() + text@,
            final(self).pieces() == old(self).pieces().push((text@, None)),
            final(self).chunks() == old(self).chunks().push(
                (
                    TextRange {
                        start: old(self).text().len() as usize,
                        end: (old(self).text().len() + text@.len()) as usize,
                    },
                    None,
                ),
            ),
    {
        self.add_impl(text, None)
    }

    /// The synthetic document.
    pub fn text_bytes(&self) -> (r: &[u8])
        ensures
            r@ == self.text(),
    {
        self.buf.as_slice()
    }

    /// The synthetic document, as an owned copy.
    pub fn finish(&self) -> (r: Vec<u8>)
        ensures
            r@ == self.text(),
    {
        self.buf.clone()
    }

    /// The ranges of the original document that `range` of the synthetic
    /// document covers. The first chunk that can take part is found by
    /// binary search, since chunk offsets grow with each chunk.
    pub fn map_range_up(&self, range: TextRange) -> (r: Vec<TextRange>)
        requires
            self.wf(),
            range.start <= range.end,
            range.end <= self.text().len(),
        ensures
            r@ == mapped_up(self.chunks(), range),
    {
        let ghost cs = self.chunks();
        let n = self.ranges.len();
        let mut lo: usize = 0;
        let mut hi: usize = n;
        while lo < hi
            invariant
                self.wf(),
                cs == self.chunks(),
                n == cs.len(),
                0 <= lo <= hi <= n,
                forall|k: int| 0 <= k < lo ==> (#[trigger] cs[k]).0.end <= range.start,
                forall|k: int| hi <= k < n ==> (#[trigger] cs[k]).0.end > range.start,
            decreases hi - lo,
        {
            let mid = lo + (hi - lo) / 2;
            if self.ranges[mid].0.end <= range.start {
                assert forall|k: int| 0 <= k < mid + 1 implies (#[trigger] cs[k]).0.end
                    <= range.start by {
                    if k < mid {
                        assert(cs[k].0.end <= cs[mid as int].0.start);
                    }
                }
                lo = mid + 1;
            } else {
                assert forall|k: int| mid <= k < n implies (#[trigger] cs[k]).0.end
                    > range.start by {
                    if k > mid {
                        assert(cs[mid as int].0.end <= cs[k].0.start);
                    }
                }
                hi = mid;
            }
        }
        proof {
            lemma_skip(cs, range, 0, lo as int);
            assert(cs.subrange(0, 0) =~= Seq::<Chunk>::empty());
        }
        let mut out: Vec<TextRange> = Vec::new();
        let mut i: usize = lo;
        while i < n && self.ranges[i].0.start < range.end
            invariant
                self.wf(),
                cs == self.chunks(),
                n == cs.len(),
                lo <= i <= n,
                out@ == mapped_up(cs.subrange(0, i as int), range),
            decreases n - i,
        {
            let (target, source) = self.ranges[i];
            assert(cs.subrange(0, i + 1).drop_last() =~= cs.subrange(0, i as int));
            assert(cs[i as int] == (target, source));
            if let Some(s) = source {
                if range.start < target.end && target.start < range.end {
                    let lo_off = if range.start < target.start {
                        target.start
                    } else {
                        range.start
                    };
                    let hi_off = if range.end < target.end {
                        range.end
                    } else {
                        target.end
                    };
                    out.push(
                        TextRange {
                            start: s.start + (lo_off - target.start),
                            end: s.start + (hi_off - target.start),
                        },
                    );
                }
            }
            i = i + 1;
        }
        proof {
            if i < n {
                assert forall|k: int| i <= k < n implies !overlaps((#[trigger] cs[k]).0, range) by {
                    if k > i {
                        assert(cs[i as int].0.end <= cs[k].0.start);
                    }
                }
            }
            lemma_skip(cs, range, i as int, n as int);
            assert(cs.subrange(0, n as int) =~= cs);
        }
        out
    }
}

/// Chunks in `[a, b)` that do not overlap the query add nothing to it.
proof fn lemma_skip(cs: Seq<Chunk>, q: TextRange, a: int, b: int)
    requires
        0 <= a <= b <= cs.len(),
        forall|k: int| a <= k < b ==> !overlaps((#[trigger] cs[k]).0, q),
    ensures
        mapped_up(cs.subrange(0, b), q) == mapped_up(cs.subrange(0, a), q),
    decreases b - a,
{
    if a < b {
        lemma_skip(cs, q, a, b - 1);
        assert(cs.subrange(0, b).drop_last() =~= cs.subrange(0, b - 1));
        assert(cs.subrange(0, b).last() == cs[b - 1]);
    }
}

/// The summed length of the chunks' texts.
pub open spec fn total_len(ps: Seq<(Seq<u8>, Option<TextRange>)>) -> int
    decreases ps.len(),
{
    if ps.len() == 0 {
        0
    } else {
        total_len(ps.drop_last()) + ps.last().0.len()
    }
}

/// What a one-chunk query gives, as `mapped_up` computes it for chunk `c`.
pub open spec fn mapped_one(c: Chunk, q: TextRange) -> Seq<TextRange> {
    mapped_up(seq![c], q)
}

proof fn lemma_prefix_len(inj: &Injector, m: int)
    requires
        inj.wf(),
        0 <= m <= inj.chunks().len(),
    ensures
        total_len(inj.pieces().subrange(0, m)) == if m == 0 {
            0
        } else {
            inj.chunks()[m - 1].0.end as int
        },
    decreases m,
{
    let ps = inj.pieces();
    if m > 0 {
        lemma_prefix_len(inj, m - 1);
        assert(ps.subrange(0, m).drop_last() =~= ps.subrange(0, m - 1));
        let c = inj.chunks()[m - 1];
        assert(ps[m - 1].0.len() == c.0.end - c.0.start);
    }
}

/// The synthetic document is exactly as long as all the chunks' texts
/// together, whatever sequence of `add` and `add_unmapped` built it.
pub proof fn lemma_length_conservation(inj: &Injector)
    requires
        inj.wf(),
    ensures
        inj.text().len() == total_len(inj.pieces()),
{
    lemma_prefix_len(inj, inj.chunks().len() as int);
    assert(inj.pieces().subrange(0, inj.pieces().len() as int) =~= inj.pieces());
}

proof fn lemma_only_chunk(cs: Seq<Chunk>, n: int, i: int, q: TextRange, m: int)
    requires
        layout_ok(cs, n),
        0 <= i < cs.len(),
        cs[i].0.start <= q.start < q.end <= cs[i].0.end,
        0 <= m <= cs.len(),
    ensures
        mapped_up(cs.subrange(0, m), q) == if m <= i {
            Seq::<TextRange>::empty()
        } else {
            mapped_one(cs[i], q)
        },
    decreases m,
{
    let e = Seq::<Chunk>::empty();
    assert(mapped_up(e, q) == Seq::<TextRange>::empty());
    if m == 0 {
        assert(cs.subrange(0, m) =~= e);
    } else {
        lemma_only_chunk(cs, n, i, q, m - 1);
        assert(cs.subrange(0, m).drop_last() =~= cs.subrange(0, m - 1));
        let c = cs[m - 1];
        assert(cs.subrange(0, m).last() == c);
        if m - 1 < i {
            assert(c.0.end <= cs[i].0.start);
        } else if m - 1 > i {
            assert(cs[i].0.end <= c.0.start);
        } else {
            assert(seq![c].drop_last() =~= e);
            assert(mapped_up(cs.subrange(0, m - 1), q) =~= Seq::<TextRange>::empty());
        }
    }
}

/// Any non-empty query inside a mapped chunk maps back to exactly one range:
/// the chunk's source range, at the same offset within it. A query inside an
/// unmapped chunk maps back to nothing.
pub proof fn lemma_round_trip(inj: &Injector, i: int, q: TextRange)
    requires
        inj.wf(),
        0 <= i < inj.chunks().len(),
        inj.chunks()[i].0.start <= q.start < q.end <= inj.chunks()[i].0.end,
    ensures
        ({
            let (r, src) = inj.chunks()[i];
            match src {
                Some(s) => mapped_up(inj.chunks(), q) == seq![
                    TextRange {
                        start: (s.start + (q.start - r.start)) as usize,
                        end: (s.start + (q.end - r.start)) as usize,
                    },
                ],
                None => mapped_up(inj.chunks(), q).len() == 0,
            }
        }),
{
    let cs = inj.chunks();
    lemma_only_chunk(cs, inj.text().len() as int, i, q, cs.len() as int);
    assert(cs.subrange(0, cs.len() as int) =~= cs);
    assert(seq![cs[i]].drop_last() =~= Seq::<Chunk>::empty());
    assert(mapped_up(Seq::<Chunk>::empty(), q) == Seq::<TextRange>::empty());
}

/// `t` lies inside the source range of some mapped chunk of `cs`.
pub open spec fn from_mapped_chunk(cs: Seq<Chunk>, t: TextRange) -> bool {
    exists|k: int|
        0 <= k < cs.len() && match #[trigger] cs[k].1 {
            Some(s) => s.start <= t.start && t.start <= t.end && t.end <= s.end,
            None => false,
        }
}

proof fn lemma_mapped_prefix(cs: Seq<Chunk>, n: int, q: TextRange, m: int)
    requires
        layout_ok(cs, n),
        q.start <= q.end,
        0 <= m <= cs.len(),
    ensures
        forall|j: int|
            0 <= j < mapped_up(cs.subrange(0, m), q).len() ==> from_mapped_chunk(
                cs,
                #[trigger] mapped_up(cs.subrange(0, m), q)[j],
            ),
    decreases m,
{
    if m == 0 {
        assert(cs.subrange(0, m) =~= Seq::<Chunk>::empty());
    } else {
        lemma_mapped_prefix(cs, n, q, m - 1);
        assert(cs.subrange(0, m).drop_last() =~= cs.subrange(0, m - 1));
        let prev = mapped_up(cs.subrange(0, m - 1), q);
        let c = cs[m - 1];
        assert(cs.subrange(0, m).last() == c);
        match c.1 {
            Some(s) => {
                if overlaps(c.0, q) {
                    let t = shifted(c.0, s, q);
                    assert(from_mapped_chunk(cs, t)) by {
                        assert(cs[m - 1].1 == Some(s));
                    }
                    assert forall|j: int|
                        0 <= j < mapped_up(cs.subrange(0, m), q).len() implies from_mapped_chunk(
                        cs,
                        #[trigger] mapped_up(cs.subrange(0, m), q)[j],
                    ) by {
                        if j < prev.len() {
                            assert(mapped_up(cs.subrange(0, m), q)[j] == prev[j]);
                        }
                    }
                }
            },
            None => {},
        }
    }
}

/// Every range that a query maps back to lies inside the source range of a
/// mapped chunk: text added with `add_unmapped` never shows up.
pub proof fn lemma_only_mapped_chunks(inj: &Injector, q: TextRange)
    requires
        inj.wf(),
        q.start <= q.end,
    ensures
        forall|j: int|
            0 <= j < mapped_up(inj.chunks(), q).len() ==> from_mapped_chunk(
                inj.chunks(),
                #[trigger] mapped_up(inj.chunks(), q)[j],
            ),
{
    let cs = inj.chunks();
    lemma_mapped_prefix(cs, inj.text().len() as int, q, cs.len() as int);
    assert(cs.subrange(0, cs.len() as int) =~= cs);
}

} // verus!
