//! Whitespace and the tags of a fenced code block.
use vstd::prelude::*;
use vstd::slice::slice_subrange;

verus! {

/// Byte length of the whitespace character (as `char::is_whitespace` has it)
/// encoded at `i`, or 0 when none starts there.
pub open spec fn ws_at(s: Seq<u8>, i: int) -> int {
    if i < 0 || i >= s.len() {
        0
    } else if s[i] == 9u8 || s[i] == 10u8 || s[i] == 11u8 || s[i] == 12u8 || s[i] == 13u8
        || s[i] == 32u8 {
        1
    } else if i + 1 < s.len() && s[i] == 0xC2u8 && (s[i + 1] == 0x85u8 || s[i + 1] == 0xA0u8) {
        2
    } else if i + 2 < s.len() && ((s[i] == 0xE1u8 && s[i + 1] == 0x9Au8 && s[i + 2] == 0x80u8)
        || (s[i] == 0xE2u8 && s[i + 1] == 0x80u8 && ((0x80u8 <= s[i + 2] && s[i + 2] <= 0x8Au8)
        || s[i + 2] == 0xA8u8 || s[i + 2] == 0xA9u8 || s[i + 2] == 0xAFu8))
        || (s[i] == 0xE2u8 && s[i + 1] == 0x81u8 && s[i + 2] == 0x9Fu8)
        || (s[i] == 0xE3u8 && s[i + 1] == 0x80u8 && s[i + 2] == 0x80u8)) {
        3
    } else {
        0
    }
}

/// Byte length of the whitespace character at `i`, or 0.
pub fn ws_len(s: &[u8], i: usize) -> (r: usize)
    ensures
        r == ws_at(s@, i as int),
        r <= 3,
{
    let n = s.len();
    if i >= n {
        return 0;
    }
    let a = s[i];
    if a == 9u8 || a == 10u8 || a == 11u8 || a == 12u8 || a == 13u8 || a == 32u8 {
        return 1;
    }
    if i + 1 < n && a == 0xC2u8 && (s[i + 1] == 0x85u8 || s[i + 1] == 0xA0u8) {
        return 2;
    }
    if n - i > 2 {
        let b = s[i + 1];
        let c = s[i + 2];
        if (a == 0xE1u8 && b == 0x9Au8 && c == 0x80u8) || (a == 0xE2u8 && b == 0x80u8 && ((0x80u8
            <= c && c <= 0x8Au8) || c == 0xA8u8 || c == 0xA9u8 || c == 0xAFu8)) || (a == 0xE2u8
            && b == 0x81u8 && c == 0x9Fu8) || (a == 0xE3u8 && b == 0x80u8 && c == 0x80u8) {
            return 3;
        }
    }
    0
}

/// The length of a whitespace character that ends at `j` and starts at or
/// after `i`, or 0.
pub open spec fn ws_before(s: Seq<u8>, i: int, j: int) -> int {
    if j - 1 >= i && ws_at(s, j - 1) == 1 {
        1
    } else if j - 2 >= i && ws_at(s, j - 2) == 2 {
        2
    } else if j - 3 >= i && ws_at(s, j - 3) == 3 {
        3
    } else {
        0
    }
}

/// Start of `s[i..j]` with leading whitespace removed.
pub open spec fn trim_lo(s: Seq<u8>, i: int, j: int) -> int
    decreases j - i,
{
    if i < j && ws_at(s, i) > 0 && i + ws_at(s, i) <= j {
        trim_lo(s, i + ws_at(s, i), j)
    } else {
        i
    }
}

/// End of `s[i..j]` with trailing whitespace removed.
pub open spec fn trim_hi(s: Seq<u8>, i: int, j: int) -> int
    decreases j - i,
{
    if i < j && ws_before(s, i, j) > 0 {
        trim_hi(s, i, j - ws_before(s, i, j))
    } else {
        j
    }
}

proof fn lemma_trim_bounds(s: Seq<u8>, i: int, j: int)
    requires
        i <= j,
    ensures
        i <= trim_lo(s, i, j) <= j,
        i <= trim_hi(s, i, j) <= j,
    decreases j - i,
{
    if i < j && ws_at(s, i) > 0 && i + ws_at(s, i) <= j {
        lemma_trim_bounds(s, i + ws_at(s, i), j);
    }
    if i < j && ws_before(s, i, j) > 0 {
        lemma_trim_bounds(s, i, j - ws_before(s, i, j));
    }
}

fn trim_range(s: &[u8], i: usize, j: usize) -> (r: (usize, usize))
    requires
        i <= j <= s@.len(),
    ensures
        r.0 == trim_lo(s@, i as int, j as int),
        r.1 == trim_hi(s@, r.0 as int, j as int),
        i <= r.0 <= r.1 <= j,
{
    let mut lo = i;
    let mut done = false;
    while !done && lo < j
        invariant
            i <= lo <= j <= s@.len(),
            trim_lo(s@, i as int, j as int) == trim_lo(s@, lo as int, j as int),
            done ==> trim_lo(s@, lo as int, j as int) == lo,
        decreases j - lo + if done { 0int } else { 1int },
    {
        let w = ws_len(s, lo);
        if w == 0 || w > j - lo {
            done = true;
        } else {
            lo = lo + w;
        }
    }
    let mut hi = j;
    let mut done = false;
    while !done && lo < hi
        invariant
            i <= lo <= hi <= j <= s@.len(),
            trim_hi(s@, lo as int, j as int) == trim_hi(s@, lo as int, hi as int),
            done ==> trim_hi(s@, lo as int, hi as int) == hi,
        decreases hi - lo + if done { 0int } else { 1int },
    {
        let w: usize = if ws_len(s, hi - 1) == 1 {
            1
        } else if hi - lo >= 2 && ws_len(s, hi - 2) == 2 {
            2
        } else if hi - lo >= 3 && ws_len(s, hi - 3) == 3 {
            3
        } else {
            0
        };
        assert(w == ws_before(s@, lo as int, hi as int));
        if w == 0 {
            done = true;
        } else {
            hi = hi - w;
        }
    }
    proof {
        lemma_trim_bounds(s@, lo as int, j as int);
    }
    (lo, hi)
}

pub open spec fn word_should_panic() -> Seq<u8> {
    seq![115u8, 104u8, 111u8, 117u8, 108u8, 100u8, 95u8, 112u8, 97u8, 110u8, 105u8, 99u8]
}

pub open spec fn word_no_run() -> Seq<u8> {
    seq![110u8, 111u8, 95u8, 114u8, 117u8, 110u8]
}

pub open spec fn word_ignore() -> Seq<u8> {
    seq![105u8, 103u8, 110u8, 111u8, 114u8, 101u8]
}

pub open spec fn word_allow_fail() -> Seq<u8> {
    seq![97u8, 108u8, 108u8, 111u8, 119u8, 95u8, 102u8, 97u8, 105u8, 108u8]
}

pub open spec fn word_rust() -> Seq<u8> {
    seq![114u8, 117u8, 115u8, 116u8]
}

pub open spec fn word_test_harness() -> Seq<u8> {
    seq![116u8, 101u8, 115u8, 116u8, 95u8, 104u8, 97u8, 114u8, 110u8, 101u8, 115u8, 115u8]
}

pub open spec fn word_compile_fail() -> Seq<u8> {
    seq![99u8, 111u8, 109u8, 112u8, 105u8, 108u8, 101u8, 95u8, 102u8, 97u8, 105u8, 108u8]
}

pub open spec fn word_edition() -> Seq<u8> {
    seq![101u8, 100u8, 105u8, 116u8, 105u8, 111u8, 110u8]
}

/// What a fence's tags have shown so far: tags of this language, other tags.
pub open spec fn tag_step(st: (bool, bool), t: Seq<u8>) -> (bool, bool) {
    let (rust, other) = st;
    if t == word_should_panic() || t == word_no_run() || t == word_ignore() || t
        == word_allow_fail() {
        (!other, other)
    } else if t == word_rust() {
        (true, other)
    } else if t == word_test_harness() || t == word_compile_fail() {
        (!other || rust, other)
    } else if t.len() >= 7 && t.subrange(0, 7) == word_edition() {
        (rust, other)
    } else if t.len() == 5 && t[0] == 69u8 {
        if error_code(t) {
            (!other || rust, other)
        } else {
            (rust, true)
        }
    } else {
        (rust, true)
    }
}

pub open spec fn is_digit(b: u8) -> bool {
    48u8 <= b && b <= 57u8
}

/// The four bytes after `E` read as an unsigned number: digits, or `+` and
/// three digits.
pub open spec fn error_code(t: Seq<u8>) -> bool {
    (is_digit(t[1]) || t[1] == 43u8) && is_digit(t[2]) && is_digit(t[3]) && is_digit(t[4])
}

/// A byte that separates the tags of a fence.
pub open spec fn is_sep(b: u8) -> bool {
    b == 44u8 || b == 32u8 || b == 9u8
}

/// The first separator at or after `i`, or the length of `s`.
pub open spec fn next_sep(s: Seq<u8>, i: int) -> int
    decreases s.len() - i,
{
    if i >= s.len() || i < 0 {
        s.len() as int
    } else if is_sep(s[i]) {
        i
    } else {
        next_sep(s, i + 1)
    }
}

proof fn lemma_next_sep_bounds(s: Seq<u8>, i: int)
    requires
        0 <= i <= s.len(),
    ensures
        i <= next_sep(s, i) <= s.len(),
    decreases s.len() - i,
{
    if i < s.len() && !is_sep(s[i]) {
        lemma_next_sep_bounds(s, i + 1);
    }
}

/// The tag state after the tags of `s` from `i` on: `s` is split at
/// separators, each piece trimmed, and empty pieces skipped.
pub open spec fn tags_from(s: Seq<u8>, i: int, st: (bool, bool)) -> (bool, bool)
    decreases s.len() - i,
    via tags_decrease
{
    if i < 0 || i > s.len() {
        st
    } else {
        let j = next_sep(s, i);
        let lo = trim_lo(s, i, j);
        let hi = trim_hi(s, lo, j);
        let st2 = if lo < hi {
            tag_step(st, s.subrange(lo, hi))
        } else {
            st
        };
        if j < s.len() {
            tags_from(s, j + 1, st2)
        } else {
            st2
        }
    }
}

#[via_fn]
proof fn tags_decrease(s: Seq<u8>, i: int, st: (bool, bool)) {
    if 0 <= i <= s.len() {
        lemma_next_sep_bounds(s, i);
    }
}

/// Whether a fence with these tags holds example code of this language: no
/// tag, or a tag of this language, or no tag of another.
pub open spec fn rust_fence(s: Seq<u8>) -> bool {
    let st = tags_from(s, 0, (false, false));
    !st.1 || st.0
}

fn same(s: &[u8], w: &[u8]) -> (r: bool)
    ensures
        r == (s@ == w@),
{
    if s.len() != w.len() {
        return false;
    }
    let mut k: usize = 0;
    while k < s.len()
        invariant
            s@.len() == w@.len(),
            0 <= k <= s@.len(),
            forall|m: int| 0 <= m < k ==> s@[m] == w@[m],
        decreases s@.len() - k,
    {
        if s[k] != w[k] {
            return false;
        }
        k = k + 1;
    }
    assert(s@ =~= w@);
    true
}

fn digit(b: u8) -> (r: bool)
    ensures
        r == is_digit(b),
{
    48u8 <= b && b <= 57u8
}

fn step_tag(st: (bool, bool), t: &[u8]) -> (r: (bool, bool))
    ensures
        r == tag_step(st, t@),
{
    let (rust, other) = st;
    let w_should_panic: [u8; 12] = [115u8, 104u8, 111u8, 117u8, 108u8, 100u8, 95u8, 112u8, 97u8, 110u8, 105u8, 99u8];
    assert(w_should_panic@ == word_should_panic());
    let w_no_run: [u8; 6] = [110u8, 111u8, 95u8, 114u8, 117u8, 110u8];
    assert(w_no_run@ == word_no_run());
    let w_ignore: [u8; 6] = [105u8, 103u8, 110u8, 111u8, 114u8, 101u8];
    assert(w_ignore@ == word_ignore());
    let w_allow_fail: [u8; 10] = [97u8, 108u8, 108u8, 111u8, 119u8, 95u8, 102u8, 97u8, 105u8, 108u8];
    assert(w_allow_fail@ == word_allow_fail());
    let w_rust: [u8; 4] = [114u8, 117u8, 115u8, 116u8];
    assert(w_rust@ == word_rust());
    let w_test_harness: [u8; 12] = [116u8, 101u8, 115u8, 116u8, 95u8, 104u8, 97u8, 114u8, 110u8, 101u8, 115u8, 115u8];
    assert(w_test_harness@ == word_test_harness());
    let w_compile_fail: [u8; 12] = [99u8, 111u8, 109u8, 112u8, 105u8, 108u8, 101u8, 95u8, 102u8, 97u8, 105u8, 108u8];
    assert(w_compile_fail@ == word_compile_fail());
    let w_edition: [u8; 7] = [101u8, 100u8, 105u8, 116u8, 105u8, 111u8, 110u8];
    assert(w_edition@ == word_edition());
    if same(t, &w_should_panic) || same(t, &w_no_run) || same(t, &w_ignore) || same(
        t,
        &w_allow_fail,
    ) {
        (!other, other)
    } else if same(t, &w_rust) {
        (true, other)
    } else if same(t, &w_test_harness) || same(t, &w_compile_fail) {
        (!other || rust, other)
    } else if t.len() >= 7 && same(slice_subrange(t, 0, 7), &w_edition) {
        (rust, other)
    } else if t.len() == 5 && t[0] == 69u8 {
        if (digit(t[1]) || t[1] == 43u8) && digit(t[2]) && digit(t[3]) && digit(t[4]) {
            (!other || rust, other)
        } else {
            (rust, true)
        }
    } else {
        (rust, true)
    }
}

/// Whether the tags after a fence mark example code of this language.
pub fn is_rust_fence(s: &[u8]) -> (r: bool)
    ensures
        r == rust_fence(s@),
{
    let mut st: (bool, bool) = (false, false);
    let mut i: usize = 0;
    let mut done = false;
    while !done
        invariant
            0 <= i <= s@.len(),
            !done ==> tags_from(s@, 0, (false, false)) == tags_from(s@, i as int, st),
            done ==> tags_from(s@, 0, (false, false)) == st,
        decreases s@.len() - i + if done { 0int } else { 1int },
    {
        let mut j: usize = i;
        while j < s.len() && !(s[j] == 44u8 || s[j] == 32u8 || s[j] == 9u8)
            invariant
                i <= j <= s@.len(),
                next_sep(s@, i as int) == next_sep(s@, j as int),
            decreases s@.len() - j,
        {
            j = j + 1;
        }
        let (lo, hi) = trim_range(s, i, j);
        if lo < hi {
            st = step_tag(st, slice_subrange(s, lo, hi));
        }
        if j >= s.len() {
            done = true;
        } else {
            i = j + 1;
        }
    }
    !st.1 || st.0
}

} // verus!
