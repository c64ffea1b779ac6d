//! Fixtures: source text embedded in a string literal, with `$0` cursor
//! markers that are cut out of the synthetic document.
use vstd::prelude::*;
use vstd::slice::slice_subrange;

use crate::highlight::{HlRange, HlTag, Highlight, INJECTED};
use crate::injector::Injector;
use crate::text_range::TextRange;

verus! {

/// The parameter-name prefix that marks a string argument as a fixture.
pub open spec fn fixture_prefix() -> Seq<u8> {
    seq![114u8, 97u8, 95u8, 102u8, 105u8, 120u8, 116u8, 117u8, 114u8, 101u8]
}

/// Whether a parameter of this name takes a fixture.
pub fn is_fixture_param(name: &[u8]) -> (r: bool)
    ensures
        r == (name@.len() >= 10 && name@.subrange(0, 10) == fixture_prefix()),
{
    let prefix: [u8; 10] = [114u8, 97u8, 95u8, 102u8, 105u8, 120u8, 116u8, 117u8, 114u8, 101u8];
    assert(prefix@ == fixture_prefix());
    if name.len() < 10 {
        return false;
    }
    let mut i: usize = 0;
    while i < 10
        invariant
            0 <= i <= 10,
            name@.len() >= 10,
            prefix@ == fixture_prefix(),
            forall|k: int| 0 <= k < i ==> name@[k] == fixture_prefix()[k],
        decreases 10 - i,
    {
        if name[i] != prefix[i] {
            assert(name@.subrange(0, 10)[i as int] != fixture_prefix()[i as int]);
            return false;
        }
        i = i + 1;
    }
    assert(name@.subrange(0, 10) =~= fixture_prefix());
    true
}

/// The cursor marker `$0` starts at `i`.
pub open spec fn marker_at(v: Seq<u8>, i: int) -> bool {
    0 <= i && i + 1 < v.len() && v[i] == 36u8 && v[i + 1] == 48u8
}

/// The first marker at or after `i`, or the length of `v` when there is none.
pub open spec fn next_marker(v: Seq<u8>, i: int) -> int
    decreases v.len() - i,
{
    if i >= v.len() || i < 0 {
        v.len() as int
    } else if marker_at(v, i) {
        i
    } else {
        next_marker(v, i + 1)
    }
}

/// The text spans of `v` from `i` on between markers, each copied as one
/// chunk; a span after the last marker is copied only when it is not empty.
pub open spec fn fixture_spans(v: Seq<u8>, i: int) -> Seq<TextRange>
    decreases v.len() - i,
    via spans_decrease
{
    if i >= v.len() || i < 0 {
        Seq::empty()
    } else {
        let j = next_marker(v, i);
        let span = TextRange { start: i as usize, end: j as usize };
        if j < v.len() {
            seq![span] + fixture_spans(v, j + 2)
        } else {
            seq![span]
        }
    }
}

/// The ranges of the markers of `v` from `i` on.
pub open spec fn fixture_markers(v: Seq<u8>, i: int) -> Seq<TextRange>
    decreases v.len() - i,
    via markers_decrease
{
    if i >= v.len() || i < 0 {
        Seq::empty()
    } else {
        let j = next_marker(v, i);
        if j < v.len() {
            seq![TextRange { start: j as usize, end: (j + 2) as usize }] + fixture_markers(v, j + 2)
        } else {
            Seq::empty()
        }
    }
}

/// The chunks that a fixture's text gives: each span, mapped to itself.
pub open spec fn fixture_pieces(v: Seq<u8>) -> Seq<(Seq<u8>, Option<TextRange>)> {
    fixture_spans(v, 0).map_values(
        |r: TextRange| (v.subrange(r.start as int, r.end as int), Some(r)),
    )
}

pub(crate) proof fn lemma_next_marker_bounds(v: Seq<u8>, i: int)
    requires
        0 <= i <= v.len(),
    ensures
        i <= next_marker(v, i) <= v.len(),
        next_marker(v, i) < v.len() ==> marker_at(v, next_marker(v, i)),
    decreases v.len() - i,
{
    if i < v.len() && !marker_at(v, i) {
        lemma_next_marker_bounds(v, i + 1);
    }
}

#[via_fn]
proof fn spans_decrease(v: Seq<u8>, i: int) {
    if 0 <= i < v.len() {
        lemma_next_marker_bounds(v, i);
    }
}

#[via_fn]
proof fn markers_decrease(v: Seq<u8>, i: int) {
    if 0 <= i < v.len() {
        lemma_next_marker_bounds(v, i);
    }
}

/// Finds the next marker at or after `from`.
pub(crate) fn find_marker(v: &[u8], from: usize) -> (r: usize)
    requires
        from <= v@.len(),
    ensures
        r == next_marker(v@, from as int),
{
    let mut k: usize = from;
    while k < v.len()
        invariant
            from <= k <= v@.len(),
            next_marker(v@, from as int) == next_marker(v@, k as int),
        decreases v@.len() - k,
    {
        if k + 1 < v.len() && v[k] == 36u8 && v[k + 1] == 48u8 {
            return k;
        }
        k = k + 1;
    }
    k
}

/// Splits a fixture's text at its `$0` markers: the injector holds the text
/// between markers, each span mapped to its place in `value`, and the second
/// result lists the markers' ranges.
pub fn split_fixture(value: &[u8]) -> (r: (Injector, Vec<TextRange>))
    ensures
        r.0.wf(),
        r.0.pieces() == fixture_pieces(value@),
        r.1@ == fixture_markers(value@, 0),
        r.0.text().len() == value@.len() - 2 * r.1@.len(),
{
    let ghost v = value@;
    let mut inj = Injector::new();
    let mut markers: Vec<TextRange> = Vec::new();
    let mut off: usize = 0;
    let ghost mut spans: Seq<TextRange> = Seq::empty();
    while off < value.len()
        invariant
            off <= v.len(),
            value@ == v,
            inj.wf(),
            inj.text().len() <= off,
            inj.text().len() + 2 * markers@.len() == off,
            spans + fixture_spans(v, off as int) == fixture_spans(v, 0),
            markers@ + fixture_markers(v, off as int) == fixture_markers(v, 0),
            inj.pieces() == spans.map_values(
                |r: TextRange| (v.subrange(r.start as int, r.end as int), Some(r)),
            ),
        decreases v.len() - off,
    {
        let j = find_marker(value, off);
        proof {
            lemma_next_marker_bounds(v, off as int);
        }
        let chunk = slice_subrange(value, off, j);
        let span = TextRange::new(off, j);
        let ghost old_pieces = inj.pieces();
        inj.add(chunk, span);
        proof {
            let f = |r: TextRange| (v.subrange(r.start as int, r.end as int), Some(r));
            assert(spans.push(span).map_values(f) =~= old_pieces.push((chunk@, Some(span))));
            assert(seq![span] + fixture_spans(v, if j < v.len() { j + 2 } else { v.len() as int })
                == fixture_spans(v, off as int));
            assert(fixture_spans(v, v.len() as int) =~= Seq::<TextRange>::empty());
            assert(fixture_markers(v, v.len() as int) =~= Seq::<TextRange>::empty());
            assert(spans.push(span) + fixture_spans(v, if j < v.len() { j + 2 } else { v.len() as int })
                =~= spans + (seq![span] + fixture_spans(v, if j < v.len() { j + 2 } else { v.len() as int })));
            spans = spans.push(span);
        }
        if j < value.len() {
            let m = TextRange::new(j, j + 2);
            proof {
                assert(markers@.push(m) + fixture_markers(v, j + 2) =~= markers@ + fixture_markers(v, off as int));
            }
            markers.push(m);
            off = j + 2;
        } else {
            off = j;
        }
    }
    proof {
        assert(spans =~= spans + fixture_spans(v, off as int));
        assert(markers@ =~= markers@ + fixture_markers(v, off as int));
    }
    (inj, markers)
}

proof fn lemma_no_marker_from(v: Seq<u8>, i: int)
    requires
        0 <= i <= v.len(),
        forall|k: int| 0 <= k < v.len() ==> !marker_at(v, k),
    ensures
        next_marker(v, i) == v.len(),
    decreases v.len() - i,
{
    if i < v.len() {
        lemma_no_marker_from(v, i + 1);
    }
}

/// A non-empty fixture without a marker is copied whole as one chunk, and no
/// marker is reported.
pub proof fn lemma_no_marker_one_chunk(v: Seq<u8>)
    requires
        0 < v.len() <= usize::MAX,
        forall|k: int| 0 <= k < v.len() ==> !marker_at(v, k),
    ensures
        fixture_spans(v, 0) == seq![TextRange { start: 0, end: v.len() as usize }],
        fixture_pieces(v) == seq![(v, Some(TextRange { start: 0, end: v.len() as usize }))],
        fixture_markers(v, 0).len() == 0,
{
    lemma_no_marker_from(v, 0);
    assert(v.subrange(0, v.len() as int) =~= v);
    let span = TextRange { start: 0, end: v.len() as usize };
    assert(fixture_spans(v, 0) == seq![span]);
    assert(fixture_pieces(v).len() == 1);
    assert(fixture_pieces(v)[0] == (v.subrange(0, v.len() as int), Some(span)));
    assert(fixture_pieces(v) =~= seq![(v, Some(TextRange { start: 0, end: v.len() as usize }))]);
}

/// `r` moved by `base`.
pub open spec fn moved(r: TextRange, base: int) -> TextRange {
    TextRange { start: (r.start + base) as usize, end: (r.end + base) as usize }
}

pub open spec fn plain(r: TextRange, tag: HlTag) -> HlRange {
    HlRange { range: r, highlight: Highlight { tag, mods: 0 }, binding_hash: None }
}

pub open spec fn quote(q: Option<TextRange>) -> Seq<HlRange> {
    match q {
        Some(r) => seq![plain(r, HlTag::StringLiteral)],
        None => Seq::empty(),
    }
}

/// A highlight of the fixture's own analysis, moved by `base` and flagged as
/// injected.
pub open spec fn carried(h: HlRange, base: int) -> HlRange {
    HlRange {
        range: moved(h.range, base),
        highlight: Highlight { tag: h.highlight.tag, mods: h.highlight.mods | INJECTED },
        binding_hash: h.binding_hash,
    }
}

/// The highlights of a fixture literal whose contents start at document
/// offset `base`: the opening quote, each cursor marker as a keyword, the
/// highlights carried back from the fixture's own analysis (flagged as
/// injected), the closing quote.
pub open spec fn fixture_output(
    open_quote: Option<TextRange>,
    markers: Seq<TextRange>,
    injected: Seq<HlRange>,
    close_quote: Option<TextRange>,
    base: int,
) -> Seq<HlRange> {
    quote(open_quote) + markers.map_values(|m: TextRange| plain(moved(m, base), HlTag::Keyword))
        + injected.map_values(|h: HlRange| carried(h, base)) + quote(
        close_quote,
    )
}

/// Puts together the highlights of a fixture literal; `injected` holds the
/// fixture's own highlights already carried back through its injector, in
/// offsets of the literal's contents.
pub fn fixture_highlights(
    open_quote: Option<TextRange>,
    markers: &Vec<TextRange>,
    injected: &Vec<HlRange>,
    close_quote: Option<TextRange>,
    base: usize,
) -> (r: Vec<HlRange>)
    requires
        forall|k: int| 0 <= k < markers@.len() ==> (#[trigger] markers@[k]).end + base <= usize::MAX,
        forall|k: int| 0 <= k < markers@.len() ==> (#[trigger] markers@[k]).start <= markers@[k].end,
        forall|k: int|
            0 <= k < injected@.len() ==> (#[trigger] injected@[k]).range.end + base <= usize::MAX,
        forall|k: int|
            0 <= k < injected@.len() ==> (#[trigger] injected@[k]).range.start
                <= injected@[k].range.end,
    ensures
        r@ == fixture_output(open_quote, markers@, injected@, close_quote, base as int),
{
    let mut out: Vec<HlRange> = Vec::new();
    if let Some(q) = open_quote {
        out.push(HlRange { range: q, highlight: Highlight { tag: HlTag::StringLiteral, mods: 0 }, binding_hash: None });
    }
    assert(out@ =~= quote(open_quote));
    let ghost head = out@;
    let mut k: usize = 0;
    while k < markers.len()
        invariant
            k <= markers@.len(),
            head == quote(open_quote),
            forall|m: int| 0 <= m < markers@.len() ==> (#[trigger] markers@[m]).end + base <= usize::MAX,
            forall|m: int| 0 <= m < markers@.len() ==> (#[trigger] markers@[m]).start <= markers@[m].end,
            out@ == head + markers@.take(k as int).map_values(
                |m: TextRange| plain(moved(m, base as int), HlTag::Keyword),
            ),
        decreases markers@.len() - k,
    {
        let m = markers[k];
        assert(markers@[k as int] == m);
        let h = HlRange {
            range: TextRange::new(m.start + base, m.end + base),
            highlight: Highlight { tag: HlTag::Keyword, mods: 0 },
            binding_hash: None,
        };
        out.push(h);
        proof {
            assert(markers@.take(k + 1).map_values(|m: TextRange| plain(moved(m, base as int), HlTag::Keyword))
                =~= markers@.take(k as int).map_values(|m: TextRange| plain(moved(m, base as int), HlTag::Keyword)).push(h));
        }
        k = k + 1;
    }
    assert(markers@.take(markers@.len() as int) =~= markers@);
    let ghost mid = out@;
    let mut i: usize = 0;
    while i < injected.len()
        invariant
            i <= injected@.len(),
            forall|m: int|
                0 <= m < injected@.len() ==> (#[trigger] injected@[m]).range.end + base <= usize::MAX,
            forall|m: int|
                0 <= m < injected@.len() ==> (#[trigger] injected@[m]).range.start
                    <= injected@[m].range.end,
            out@ == mid + injected@.take(i as int).map_values(
                |h: HlRange| carried(h, base as int),
            ),
        decreases injected@.len() - i,
    {
        let h = injected[i];
        assert(injected@[i as int] == h);
        let moved_h = HlRange {
            range: TextRange::new(h.range.start + base, h.range.end + base),
            highlight: Highlight { tag: h.highlight.tag, mods: h.highlight.mods | INJECTED },
            binding_hash: h.binding_hash,
        };
        out.push(moved_h);
        proof {
            assert(injected@.take(i + 1).map_values(|h: HlRange| carried(h, base as int))
                =~= injected@.take(i as int).map_values(|h: HlRange| carried(h, base as int)).push(moved_h));
        }
        i = i + 1;
    }
    assert(injected@.take(injected@.len() as int) =~= injected@);
    if let Some(q) = close_quote {
        out.push(HlRange { range: q, highlight: Highlight { tag: HlTag::StringLiteral, mods: 0 }, binding_hash: None });
    }
    assert(out@ =~= fixture_output(open_quote, markers@, injected@, close_quote, base as int));
    out
}

} // verus!
