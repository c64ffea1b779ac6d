//! Doc-tests: example code in fenced blocks of documentation, gathered line
//! by line into a synthetic function body.
use vstd::prelude::*;
use vstd::slice::{slice_subrange, slice_to_vec};

use crate::fence::{is_rust_fence, rust_fence, ws_at, ws_len};
use crate::injector::{total_len, Injector};
use crate::text_range::TextRange;

verus! {

/// One documentation attribute as it stands in the document: its text, the
/// document offset of the text's first byte, and the length of the comment
/// marker that opens its first line (0 for a `doc = "..."` string).
pub struct DocSource {
    pub text: Vec<u8>,
    pub start: usize,
    pub prefix_len: usize,
}

/// Where the line scanner stands: inside a fenced block or not, and whether
/// that block is example code.
#[derive(Clone, Copy, Debug, PartialEq, Eq, Structural)]
pub struct FenceState {
    pub in_block: bool,
    pub is_doctest: bool,
}

/// A kept line of example code: the range of its decoration (comment marker,
/// one whitespace character, a hidden-line `#`), the range of its code, and
/// the code itself.
#[derive(Debug)]
pub struct CodeLine {
    pub prefix: TextRange,
    pub source: TextRange,
    pub code: Vec<u8>,
}

pub type CodeLineView = (TextRange, TextRange, Seq<u8>);

impl View for CodeLine {
    type V = CodeLineView;

    open spec fn view(&self) -> CodeLineView {
        (self.prefix, self.source, self.code@)
    }
}

pub open spec fn views(s: Seq<CodeLine>) -> Seq<CodeLineView> {
    s.map_values(|l: CodeLine| l@)
}

pub open spec fn line_ok(l: CodeLineView) -> bool {
    l.1.start <= l.1.end && l.1.end - l.1.start == l.2.len()
}

/// The fence marker "```" starts at `k`.
pub open spec fn fence_at(line: Seq<u8>, k: int) -> bool {
    0 <= k && k + 2 < line.len() && line[k] == 96u8 && line[k + 1] == 96u8 && line[k + 2] == 96u8
}

/// The first fence marker at or after `k`, or the line's length.
pub open spec fn next_fence(line: Seq<u8>, k: int) -> int
    decreases line.len() - k,
{
    if k >= line.len() || k < 0 {
        line.len() as int
    } else if fence_at(line, k) {
        k
    } else {
        next_fence(line, k + 1)
    }
}

/// The first line feed at or after `k`, or the text's length.
pub open spec fn next_nl(text: Seq<u8>, k: int) -> int
    decreases text.len() - k,
{
    if k >= text.len() || k < 0 {
        text.len() as int
    } else if text[k] == 10u8 {
        k
    } else {
        next_nl(text, k + 1)
    }
}

proof fn lemma_next_fence_bounds(line: Seq<u8>, k: int)
    requires
        0 <= k <= line.len(),
    ensures
        k <= next_fence(line, k) <= line.len(),
        next_fence(line, k) < line.len() ==> fence_at(line, next_fence(line, k)),
    decreases line.len() - k,
{
    if k < line.len() && !fence_at(line, k) {
        lemma_next_fence_bounds(line, k + 1);
    }
}

proof fn lemma_next_nl_bounds(text: Seq<u8>, k: int)
    requires
        0 <= k <= text.len(),
    ensures
        k <= next_nl(text, k) <= text.len(),
    decreases text.len() - k,
{
    if k < text.len() && text[k] != 10u8 {
        lemma_next_nl_bounds(text, k + 1);
    }
}

/// One line of documentation, starting at document offset `ls`, with `pos0`
/// bytes of comment marker: a fence line toggles the block and reads its tags;
/// a line inside an example-code block is kept, less one leading whitespace
/// character and then a `#`.
pub open spec fn line_step(line: Seq<u8>, ls: int, pos0: int, st: FenceState) -> (
    FenceState,
    Seq<CodeLineView>,
) {
    let f = next_fence(line, 0);
    if f < line.len() {
        let in_block = !st.in_block;
        (
            FenceState {
                in_block,
                is_doctest: in_block && rust_fence(line.subrange(f + 3, line.len() as int)),
            },
            Seq::empty(),
        )
    } else if !st.is_doctest {
        (st, Seq::empty())
    } else {
        let p1 = pos0 + ws_at(line, pos0);
        let p2 = if p1 < line.len() && line[p1] == 35u8 {
            p1 + 1
        } else {
            p1
        };
        (
            st,
            seq![
                (
                    TextRange { start: ls as usize, end: (ls + p2) as usize },
                    TextRange { start: (ls + p2) as usize, end: (ls + line.len()) as usize },
                    line.subrange(p2, line.len() as int),
                ),
            ],
        )
    }
}

/// The lines of `text` from index `i` on, the first at document offset `ls`.
pub open spec fn lines_from(text: Seq<u8>, i: int, ls: int, pos0: int, st: FenceState) -> (
    FenceState,
    Seq<CodeLineView>,
)
    decreases text.len() - i,
    via lines_decrease
{
    if i < 0 || i > text.len() {
        (st, Seq::empty())
    } else {
        let j = next_nl(text, i);
        let (st2, kept) = line_step(text.subrange(i, j), ls, pos0, st);
        if j < text.len() {
            let rest = lines_from(text, j + 1, ls + (j - i) + 1, 0, st2);
            (rest.0, kept + rest.1)
        } else {
            (st2, kept)
        }
    }
}

#[via_fn]
proof fn lines_decrease(text: Seq<u8>, i: int, ls: int, pos0: int, st: FenceState) {
    if 0 <= i <= text.len() {
        lemma_next_nl_bounds(text, i);
    }
}

/// The attributes from index `n` on; the fence state carries over from one
/// attribute to the next.
pub open spec fn attrs_from(srcs: Seq<DocSource>, n: int, st: FenceState) -> (
    FenceState,
    Seq<CodeLineView>,
)
    decreases srcs.len() - n,
{
    if n < 0 || n >= srcs.len() {
        (st, Seq::empty())
    } else {
        let a = srcs[n];
        let first = lines_from(a.text@, 0, a.start as int, a.prefix_len as int, st);
        let rest = attrs_from(srcs, n + 1, first.0);
        (rest.0, first.1 + rest.1)
    }
}

/// The example-code lines of a documented item's attributes.
pub open spec fn code_lines(srcs: Seq<DocSource>) -> Seq<CodeLineView> {
    attrs_from(srcs, 0, FenceState { in_block: false, is_doctest: false }).1
}

/// An attribute whose offsets fit the machine and whose comment marker lies
/// within its first line.
pub open spec fn source_ok(a: DocSource) -> bool {
    &&& a.start + a.text@.len() + 1 <= usize::MAX
    &&& a.prefix_len <= next_nl(a.text@, 0)
}

fn find_fence(line: &[u8]) -> (r: usize)
    ensures
        r == next_fence(line@, 0),
        r <= line@.len(),
        r < line@.len() ==> r + 3 <= line@.len(),
{
    proof {
        lemma_next_fence_bounds(line@, 0);
    }
    let mut k: usize = 0;
    while k < line.len()
        invariant
            k <= line@.len(),
            next_fence(line@, 0) == next_fence(line@, k as int),
        decreases line@.len() - k,
    {
        if line.len() - k > 2 && line[k] == 96u8 && line[k + 1] == 96u8 && line[k + 2] == 96u8 {
            return k;
        }
        k = k + 1;
    }
    k
}

fn find_nl(text: &[u8], from: usize) -> (r: usize)
    requires
        from <= text@.len(),
    ensures
        r == next_nl(text@, from as int),
{
    let mut k: usize = from;
    while k < text.len()
        invariant
            from <= k <= text@.len(),
            next_nl(text@, from as int) == next_nl(text@, k as int),
        decreases text@.len() - k,
    {
        if text[k] == 10u8 {
            return k;
        }
        k = k + 1;
    }
    k
}

/// Handles one line: the new fence state, and the line if it is kept.
pub fn step_line(line: &[u8], ls: usize, pos0: usize, st: FenceState) -> (r: (
    FenceState,
    Option<CodeLine>,
))
    requires
        pos0 <= line@.len(),
        ls + line@.len() <= usize::MAX,
    ensures
        r.0 == line_step(line@, ls as int, pos0 as int, st).0,
        line_step(line@, ls as int, pos0 as int, st).1 == match r.1 {
            Some(l) => seq![l@],
            None => Seq::<CodeLineView>::empty(),
        },
{
    let f = find_fence(line);
    if f < line.len() {
        let in_block = !st.in_block;
        let guards = slice_subrange(line, f + 3, line.len());
        let is_doctest = in_block && is_rust_fence(guards);
        return (FenceState { in_block, is_doctest }, None);
    }
    if !st.is_doctest {
        return (st, None);
    }
    let mut pos = pos0;
    pos = pos + ws_len(line, pos);
    if pos < line.len() && line[pos] == 35u8 {
        pos = pos + 1;
    }
    let code = slice_to_vec(slice_subrange(line, pos, line.len()));
    let l = CodeLine {
        prefix: TextRange::new(ls, ls + pos),
        source: TextRange::new(ls + pos, ls + line.len()),
        code,
    };
    (st, Some(l))
}


/// Scans the lines of one attribute, appending the kept lines to `out`.
pub fn scan_lines(
    text: &[u8],
    start: usize,
    prefix_len: usize,
    st: FenceState,
    out: &mut Vec<CodeLine>,
) -> (r: FenceState)
    requires
        start + text@.len() + 1 <= usize::MAX,
        prefix_len <= next_nl(text@, 0),
        forall|k: int| 0 <= k < old(out)@.len() ==> line_ok(#[trigger] old(out)@[k]@),
    ensures
        r == lines_from(text@, 0, start as int, prefix_len as int, st).0,
        views(final(out)@) == views(old(out)@) + lines_from(
            text@,
            0,
            start as int,
            prefix_len as int,
            st,
        ).1,
        forall|k: int| 0 <= k < final(out)@.len() ==> line_ok(#[trigger] final(out)@[k]@),
{
    let ghost t = text@;
    let ghost total = lines_from(t, 0, start as int, prefix_len as int, st);
    let ghost base = views(out@);
    let mut i: usize = 0;
    let mut ls: usize = start;
    let mut pos0: usize = prefix_len;
    let mut cur = st;
    let mut done = false;
    while !done
        invariant
            text@ == t,
            i <= t.len(),
            ls == start + i,
            start + t.len() + 1 <= usize::MAX,
            pos0 <= next_nl(t, i as int) - i,
            !done ==> total.0 == lines_from(t, i as int, ls as int, pos0 as int, cur).0,
            !done ==> total.1 == views(out@).subrange(base.len() as int, views(out@).len() as int)
                + lines_from(t, i as int, ls as int, pos0 as int, cur).1,
            done ==> total.0 == cur,
            done ==> total.1 == views(out@).subrange(base.len() as int, views(out@).len() as int),
            views(out@).len() >= base.len(),
            views(out@).subrange(0, base.len() as int) == base,
            forall|k: int| 0 <= k < out@.len() ==> line_ok(#[trigger] out@[k]@),
        decreases t.len() - i + if done { 0int } else { 1int },
    {
        let j = find_nl(text, i);
        proof {
            lemma_next_nl_bounds(t, i as int);
        }
        let line = slice_subrange(text, i, j);
        let ghost before = views(out@);
        let (st2, kept) = step_line(line, ls, pos0, cur);
        let ghost step = line_step(line@, ls as int, pos0 as int, cur);
        match kept {
            Some(l) => {
                out.push(l);
                proof {
                    assert(views(out@) =~= before.push(l@));
                }
            },
            None => {},
        }
        proof {
            let after = views(out@);
            assert(after =~= before + step.1);
            assert(after.subrange(0, base.len() as int) =~= before.subrange(0, base.len() as int));
            assert(after.subrange(base.len() as int, after.len() as int) =~= before.subrange(
                base.len() as int,
                before.len() as int,
            ) + step.1);
            if step.1.len() > 0 {
                assert(after[after.len() - 1] == step.1[0]);
                assert(out@[out@.len() - 1]@ == after[after.len() - 1]);
            }
        }
        cur = st2;
        if j >= text.len() {
            done = true;
            proof {
                let v = views(out@);
                assert(v.subrange(base.len() as int, v.len() as int) =~= v.subrange(base.len() as int, v.len() as int) + Seq::<CodeLineView>::empty());
            }
        } else {
            proof {
                let v = views(out@);
                let rest = lines_from(t, j + 1, ls + (j - i) + 1, 0, st2);
                assert(v.subrange(base.len() as int, v.len() as int) + rest.1 =~= before.subrange(
                    base.len() as int,
                    before.len() as int,
                ) + (step.1 + rest.1));
            }
            proof {
                lemma_next_nl_bounds(t, j + 1);
            }
            ls = ls + (j - i) + 1;
            i = j + 1;
            pos0 = 0;
        }
    }
    proof {
        let v = views(out@);
        assert(v =~= v.subrange(0, base.len() as int) + v.subrange(base.len() as int, v.len() as int));
    }
    cur
}

/// The example-code lines of a documented item's attributes, in order.
pub fn doc_code_lines(srcs: &Vec<DocSource>) -> (r: Vec<CodeLine>)
    requires
        forall|k: int| 0 <= k < srcs@.len() ==> source_ok(#[trigger] srcs@[k]),
    ensures
        views(r@) == code_lines(srcs@),
        forall|k: int| 0 <= k < r@.len() ==> line_ok(#[trigger] r@[k]@),
{
    let mut out: Vec<CodeLine> = Vec::new();
    let mut st = FenceState { in_block: false, is_doctest: false };
    let mut n: usize = 0;
    proof {
        assert(views(out@) =~= Seq::<CodeLineView>::empty());
        assert(code_lines(srcs@) =~= views(out@) + attrs_from(srcs@, 0, st).1);
    }
    while n < srcs.len()
        invariant
            n <= srcs@.len(),
            forall|k: int| 0 <= k < srcs@.len() ==> source_ok(#[trigger] srcs@[k]),
            forall|k: int| 0 <= k < out@.len() ==> line_ok(#[trigger] out@[k]@),
            code_lines(srcs@) == views(out@) + attrs_from(srcs@, n as int, st).1,
        decreases srcs@.len() - n,
    {
        let a = &srcs[n];
        assert(source_ok(srcs@[n as int]));
        let ghost before = views(out@);
        let ghost first = lines_from(a.text@, 0, a.start as int, a.prefix_len as int, st);
        st = scan_lines(a.text.as_slice(), a.start, a.prefix_len, st, &mut out);
        proof {
            let rest = attrs_from(srcs@, n + 1, st);
            assert(views(out@) + rest.1 =~= before + (first.1 + rest.1));
        }
        n = n + 1;
    }
    proof {
        assert(views(out@) + attrs_from(srcs@, n as int, st).1 =~= views(out@));
    }
    out
}

/// The scaffold that opens the synthetic function body.
pub open spec fn scaffold_open() -> Seq<u8> {
    seq![102u8, 110u8, 32u8, 100u8, 111u8, 99u8, 116u8, 101u8, 115u8, 116u8, 40u8, 41u8, 32u8, 123u8, 10u8]
}

/// The scaffold that closes the synthetic function body.
pub open spec fn scaffold_close() -> Seq<u8> {
    seq![10u8, 125u8]
}

pub open spec fn newline() -> Seq<u8> {
    seq![10u8]
}

/// Each kept line as a mapped chunk of its code, then an unmapped line feed.
pub open spec fn code_pieces(ls: Seq<CodeLineView>) -> Seq<(Seq<u8>, Option<TextRange>)>
    decreases ls.len(),
{
    if ls.len() == 0 {
        Seq::empty()
    } else {
        code_pieces(ls.drop_last()) + seq![(ls.last().2, Some(ls.last().1)), (newline(), None)]
    }
}

/// The chunks of a doc-test's synthetic document.
pub open spec fn doc_pieces(ls: Seq<CodeLineView>) -> Seq<(Seq<u8>, Option<TextRange>)> {
    seq![(scaffold_open(), None)] + code_pieces(ls) + seq![(scaffold_close(), None)]
}

proof fn lemma_total_concat(a: Seq<(Seq<u8>, Option<TextRange>)>, b: Seq<(Seq<u8>, Option<TextRange>)>)
    ensures
        total_len(a + b) == total_len(a) + total_len(b),
    decreases b.len(),
{
    if b.len() > 0 {
        lemma_total_concat(a, b.drop_last());
        assert((a + b).drop_last() =~= a + b.drop_last());
    } else {
        assert(a + b =~= a);
    }
}

proof fn lemma_total_nonneg(a: Seq<(Seq<u8>, Option<TextRange>)>)
    ensures
        total_len(a) >= 0,
    decreases a.len(),
{
    if a.len() > 0 {
        lemma_total_nonneg(a.drop_last());
    }
}

pub open spec fn line_pieces(l: CodeLineView) -> Seq<(Seq<u8>, Option<TextRange>)> {
    seq![(l.2, Some(l.1)), (newline(), None)]
}

proof fn lemma_line_pieces(ls: Seq<CodeLineView>, k: int)
    requires
        0 <= k < ls.len(),
    ensures
        code_pieces(ls.take(k + 1)) == code_pieces(ls.take(k)) + line_pieces(ls[k]),
        total_len(code_pieces(ls.take(k + 1))) == total_len(code_pieces(ls.take(k))) + ls[k].2.len()
            + 1,
{
    assert(ls.take(k + 1).drop_last() =~= ls.take(k));
    let two = line_pieces(ls[k]);
    lemma_total_concat(code_pieces(ls.take(k)), two);
    let one = two.drop_last();
    assert(one.drop_last() =~= Seq::<(Seq<u8>, Option<TextRange>)>::empty());
    assert(total_len(Seq::<(Seq<u8>, Option<TextRange>)>::empty()) == 0);
    assert(total_len(one) == ls[k].2.len());
    assert(total_len(two) == total_len(one) + 1);
}

proof fn lemma_code_prefix(ls: Seq<CodeLineView>, k: int, m: int)
    requires
        0 <= k <= m <= ls.len(),
    ensures
        total_len(code_pieces(ls.take(k))) <= total_len(code_pieces(ls.take(m))),
    decreases m - k,
{
    if k < m {
        lemma_code_prefix(ls, k, m - 1);
        lemma_line_pieces(ls, m - 1);
    }
}

/// The bytes of the attributes from index `n` on, each with one more for a
/// line feed.
pub open spec fn doc_size(srcs: Seq<DocSource>, n: int) -> int
    decreases srcs.len() - n,
{
    if n < 0 || n >= srcs.len() {
        0
    } else {
        srcs[n].text@.len() + 1 + doc_size(srcs, n + 1)
    }
}

proof fn lemma_code_concat(a: Seq<CodeLineView>, b: Seq<CodeLineView>)
    ensures
        total_len(code_pieces(a + b)) == total_len(code_pieces(a)) + total_len(code_pieces(b)),
    decreases b.len(),
{
    if b.len() == 0 {
        assert(a + b =~= a);
        assert(code_pieces(b) =~= Seq::<(Seq<u8>, Option<TextRange>)>::empty());
    } else {
        lemma_code_concat(a, b.drop_last());
        assert((a + b).drop_last() =~= a + b.drop_last());
        let two = line_pieces(b.last());
        lemma_total_concat(code_pieces(a + b.drop_last()), two);
        lemma_total_concat(code_pieces(b.drop_last()), two);
    }
}

proof fn lemma_one_line(x: CodeLineView)
    ensures
        total_len(code_pieces(seq![x])) == x.2.len() + 1,
{
    let e = Seq::<CodeLineView>::empty();
    assert(seq![x].take(1) =~= seq![x]);
    assert(seq![x].take(0) =~= e);
    lemma_line_pieces(seq![x], 0);
    assert(code_pieces(e) =~= Seq::<(Seq<u8>, Option<TextRange>)>::empty());
}

proof fn lemma_lines_size(text: Seq<u8>, i: int, ls: int, pos0: int, st: FenceState)
    requires
        0 <= i <= text.len(),
        0 <= pos0 <= next_nl(text, i) - i,
    ensures
        total_len(code_pieces(lines_from(text, i, ls, pos0, st).1)) <= text.len() - i + 1,
    decreases text.len() - i,
{
    let j = next_nl(text, i);
    lemma_next_nl_bounds(text, i);
    let line = text.subrange(i, j);
    let step = line_step(line, ls, pos0, st);
    let empty = Seq::<CodeLineView>::empty();
    assert(code_pieces(empty) =~= Seq::<(Seq<u8>, Option<TextRange>)>::empty());
    assert(total_len(Seq::<(Seq<u8>, Option<TextRange>)>::empty()) == 0);
    if step.1.len() > 0 {
        assert(step.1[0].2.len() <= j - i);
        lemma_one_line(step.1[0]);
        assert(step.1 =~= seq![step.1[0]]);
    }
    assert(total_len(code_pieces(step.1)) <= j - i + 1);
    if j < text.len() {
        let rest = lines_from(text, j + 1, ls + (j - i) + 1, 0, step.0);
        lemma_next_nl_bounds(text, j + 1);
        lemma_lines_size(text, j + 1, ls + (j - i) + 1, 0, step.0);
        lemma_code_concat(step.1, rest.1);
    }
}

proof fn lemma_attrs_size(srcs: Seq<DocSource>, n: int, st: FenceState)
    requires
        0 <= n,
        forall|k: int| 0 <= k < srcs.len() ==> source_ok(#[trigger] srcs[k]),
    ensures
        total_len(code_pieces(attrs_from(srcs, n, st).1)) <= doc_size(srcs, n),
    decreases srcs.len() - n,
{
    if n >= srcs.len() {
        assert(code_pieces(Seq::<CodeLineView>::empty()) =~= Seq::<(Seq<u8>, Option<TextRange>)>::empty());
        assert(total_len(Seq::<(Seq<u8>, Option<TextRange>)>::empty()) == 0);
    } else {
        let a = srcs[n];
        assert(source_ok(srcs[n]));
        let first = lines_from(a.text@, 0, a.start as int, a.prefix_len as int, st);
        lemma_lines_size(a.text@, 0, a.start as int, a.prefix_len as int, st);
        lemma_attrs_size(srcs, n + 1, first.0);
        lemma_code_concat(first.1, attrs_from(srcs, n + 1, first.0).1);
    }
}

proof fn lemma_doc_size(srcs: Seq<DocSource>)
    requires
        forall|k: int| 0 <= k < srcs.len() ==> source_ok(#[trigger] srcs[k]),
    ensures
        total_len(doc_pieces(code_lines(srcs))) <= doc_size(srcs, 0) + 17,
{
    let ls = code_lines(srcs);
    lemma_attrs_size(srcs, 0, FenceState { in_block: false, is_doctest: false });
    let head = seq![(scaffold_open(), None::<TextRange>)];
    let tail = seq![(scaffold_close(), None::<TextRange>)];
    lemma_total_concat(head + code_pieces(ls), tail);
    lemma_total_concat(head, code_pieces(ls));
    assert(total_len(Seq::<(Seq<u8>, Option<TextRange>)>::empty()) == 0);
    assert(head.drop_last() =~= Seq::<(Seq<u8>, Option<TextRange>)>::empty());
    assert(tail.drop_last() =~= Seq::<(Seq<u8>, Option<TextRange>)>::empty());
}

/// Builds the synthetic document of a doc-test: `None` when the attributes
/// hold no example code; else the injector and the decoration ranges of the
/// kept lines.
pub fn doc_injection(srcs: &Vec<DocSource>) -> (r: Option<(Injector, Vec<TextRange>)>)
    requires
        forall|k: int| 0 <= k < srcs@.len() ==> source_ok(#[trigger] srcs@[k]),
        doc_size(srcs@, 0) + 17 <= usize::MAX,
    ensures
        r is None <==> code_lines(srcs@).len() == 0,
        match r {
            Some(p) => p.0.wf() && p.0.pieces() == doc_pieces(code_lines(srcs@)) && p.1@
                == code_lines(srcs@).map_values(|l: CodeLineView| l.0),
            None => true,
        },
{
    proof {
        lemma_doc_size(srcs@);
    }
    let lines = doc_code_lines(srcs);
    let ghost all = views(lines@);
    if lines.len() == 0 {
        return None;
    }
    let open: [u8; 15] = [102u8, 110u8, 32u8, 100u8, 111u8, 99u8, 116u8, 101u8, 115u8, 116u8, 40u8, 41u8, 32u8, 123u8, 10u8];
    let close: [u8; 2] = [10u8, 125u8];
    let nl: [u8; 1] = [10u8];
    assert(open@ == scaffold_open());
    assert(close@ == scaffold_close());
    assert(nl@ == newline());
    let ghost head = seq![(scaffold_open(), None::<TextRange>)];
    let ghost tail = seq![(scaffold_close(), None::<TextRange>)];
    proof {
        lemma_total_concat(head + code_pieces(all), tail);
        lemma_total_concat(head, code_pieces(all));
        assert(total_len(Seq::<(Seq<u8>, Option<TextRange>)>::empty()) == 0);
        assert(total_len(head) == 15) by {
            assert(head.drop_last() =~= Seq::<(Seq<u8>, Option<TextRange>)>::empty());
        }
        assert(total_len(tail) == 2) by {
            assert(tail.drop_last() =~= Seq::<(Seq<u8>, Option<TextRange>)>::empty());
        }
        assert(all.take(all.len() as int) =~= all);
    }
    let mut inj = Injector::new();
    inj.add_unmapped(&open);
    assert(inj.pieces() =~= head);
    let mut prefixes: Vec<TextRange> = Vec::new();
    let mut k: usize = 0;
    while k < lines.len()
        invariant
            k <= lines@.len(),
            all == views(lines@),
            all == code_lines(srcs@),
            forall|m: int| 0 <= m < lines@.len() ==> line_ok(#[trigger] lines@[m]@),
            nl@ == newline(),
            inj.wf(),
            inj.pieces() == head + code_pieces(all.take(k as int)),
            prefixes@ == all.take(k as int).map_values(|l: CodeLineView| l.0),
            total_len(head + code_pieces(all)) + 2 <= usize::MAX,
            total_len(head + code_pieces(all)) == total_len(head) + total_len(code_pieces(all)),
            total_len(head) == 15,
            all.take(all.len() as int) == all,
        decreases lines@.len() - k,
    {
        let l = &lines[k];
        assert(line_ok(lines@[k as int]@));
        assert(all[k as int] == l@);
        proof {
            lemma_line_pieces(all, k as int);
            lemma_code_prefix(all, k + 1, all.len() as int);
            lemma_total_concat(head, code_pieces(all.take(k as int)));
            crate::injector::lemma_length_conservation(&inj);
        }
        inj.add(l.code.as_slice(), l.source);
        inj.add_unmapped(&nl);
        proof {
            assert(inj.pieces() =~= head + code_pieces(all.take(k + 1)));
            assert(line_pieces(all[k as int]) == seq![(l.code@, Some(l.source)), (newline(), None::<TextRange>)]);
            assert(all.take(k + 1).map_values(|l: CodeLineView| l.0) =~= all.take(k as int).map_values(
                |l: CodeLineView| l.0,
            ).push(l.prefix));
        }
        prefixes.push(l.prefix);
        k = k + 1;
    }
    proof {
        crate::injector::lemma_length_conservation(&inj);
    }
    inj.add_unmapped(&close);
    proof {
        assert(inj.pieces() =~= doc_pieces(all));
        assert(prefixes@ =~= all.map_values(|l: CodeLineView| l.0));
    }
    Some((inj, prefixes))
}

proof fn lemma_rust_fence_empty()
    ensures
        rust_fence(Seq::<u8>::empty()),
{
    let e = Seq::<u8>::empty();
    assert(crate::fence::next_sep(e, 0) == 0);
    assert(crate::fence::trim_lo(e, 0, 0) == 0);
    assert(crate::fence::trim_hi(e, 0, 0) == 0);
}

/// A fence line toggles between prose and a fenced block and is itself never
/// kept; a fence with no tag that opens a block opens an example-code block.
pub proof fn lemma_fence_toggling(line: Seq<u8>, ls: int, pos0: int, st: FenceState)
    requires
        next_fence(line, 0) < line.len(),
    ensures
        line_step(line, ls, pos0, st).0.in_block == !st.in_block,
        line_step(line, ls, pos0, st).1.len() == 0,
        next_fence(line, 0) + 3 == line.len() ==> line_step(line, ls, pos0, st).0.is_doctest
            == !st.in_block,
{
    let f = next_fence(line, 0);
    if f + 3 == line.len() {
        lemma_rust_fence_empty();
        assert(line.subrange(f + 3, line.len() as int) =~= Seq::<u8>::empty());
    }
}

/// Starting from a state where example code lies only inside a block, every
/// line keeps it so, and a line is kept only inside a fenced block: text
/// outside any fence pair never reaches the synthetic document.
pub proof fn lemma_kept_only_inside_fence(line: Seq<u8>, ls: int, pos0: int, st: FenceState)
    requires
        st.is_doctest ==> st.in_block,
    ensures
        line_step(line, ls, pos0, st).0.is_doctest ==> line_step(line, ls, pos0, st).0.in_block,
        line_step(line, ls, pos0, st).1.len() > 0 ==> st.in_block && line_step(
            line,
            ls,
            pos0,
            st,
        ).0.in_block,
{
}

/// A kept line whose code, after its comment marker, starts with a space and
/// a `#` is copied without them, and the decoration range covers the marker,
/// the space and the `#`.
pub proof fn lemma_hidden_line(line: Seq<u8>, ls: int, pos0: int, st: FenceState)
    requires
        st.is_doctest,
        next_fence(line, 0) == line.len(),
        0 <= pos0,
        pos0 + 1 < line.len(),
        line[pos0] == 32u8,
        line[pos0 + 1] == 35u8,
    ensures
        line_step(line, ls, pos0, st).1 == seq![
            (
                TextRange { start: ls as usize, end: (ls + pos0 + 2) as usize },
                TextRange { start: (ls + pos0 + 2) as usize, end: (ls + line.len()) as usize },
                line.subrange(pos0 + 2, line.len() as int),
            ),
        ],
{
}

/// Every fence in `text` carries tags of some other kind than example code.
pub open spec fn no_example_fence(text: Seq<u8>) -> bool {
    forall|k: int|
        #![trigger fence_at(text, k)]
        fence_at(text, k) ==> !rust_fence(text.subrange(k + 3, next_nl(text, k)))
}

proof fn lemma_next_nl_mid(text: Seq<u8>, i: int, m: int)
    requires
        0 <= i <= m <= next_nl(text, i),
        i <= text.len(),
    ensures
        next_nl(text, m) == next_nl(text, i),
    decreases m - i,
{
    if i < m {
        lemma_next_nl_mid(text, i + 1, m);
    }
}

proof fn lemma_lines_no_code(text: Seq<u8>, i: int, ls: int, pos0: int, st: FenceState)
    requires
        !st.is_doctest,
        no_example_fence(text),
        0 <= i <= text.len(),
    ensures
        lines_from(text, i, ls, pos0, st).1.len() == 0,
        !lines_from(text, i, ls, pos0, st).0.is_doctest,
    decreases text.len() - i,
{
    let j = next_nl(text, i);
    lemma_next_nl_bounds(text, i);
    let line = text.subrange(i, j);
    let f = next_fence(line, 0);
    lemma_next_fence_bounds(line, 0);
    if f < line.len() {
        assert(fence_at(text, i + f));
        lemma_next_nl_mid(text, i, i + f);
        assert(line.subrange(f + 3, line.len() as int) =~= text.subrange(i + f + 3, j));
    }
    let st2 = line_step(line, ls, pos0, st).0;
    if j < text.len() {
        lemma_lines_no_code(text, j + 1, ls + (j - i) + 1, 0, st2);
    }
}

proof fn lemma_attrs_no_code(srcs: Seq<DocSource>, n: int, st: FenceState)
    requires
        !st.is_doctest,
        forall|k: int| 0 <= k < srcs.len() ==> no_example_fence(#[trigger] srcs[k].text@),
        0 <= n,
    ensures
        attrs_from(srcs, n, st).1.len() == 0,
    decreases srcs.len() - n,
{
    if n < srcs.len() {
        let a = srcs[n];
        assert(no_example_fence(srcs[n].text@));
        lemma_lines_no_code(a.text@, 0, a.start as int, a.prefix_len as int, st);
        let first = lines_from(a.text@, 0, a.start as int, a.prefix_len as int, st);
        lemma_attrs_no_code(srcs, n + 1, first.0);
    }
}

/// Documentation without any example-code fence yields no code lines, so no
/// synthetic document is built for it.
pub proof fn lemma_no_example_no_code(srcs: Seq<DocSource>)
    requires
        forall|k: int| 0 <= k < srcs.len() ==> no_example_fence(#[trigger] srcs[k].text@),
    ensures
        code_lines(srcs).len() == 0,
{
    lemma_attrs_no_code(srcs, 0, FenceState { in_block: false, is_doctest: false });
}

} // verus!
