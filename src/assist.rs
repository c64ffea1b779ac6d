//! The assist that turns an `impl Trait` parameter type at the cursor into a
//! named generic parameter of the enclosing function.
use vstd::prelude::*;
use vstd::slice::slice_subrange;

use crate::fixture::next_marker;

verus! {

pub open spec fn is_blank(b: u8) -> bool {
    b == 32u8 || b == 9u8 || b == 10u8 || b == 13u8
}

pub open spec fn is_ident(b: u8) -> bool {
    (97u8 <= b && b <= 122u8) || (65u8 <= b && b <= 90u8) || (48u8 <= b && b <= 57u8) || b == 95u8
}

pub open spec fn upper(b: u8) -> u8 {
    if 97u8 <= b && b <= 122u8 {
        (b - 32) as u8
    } else {
        b
    }
}

/// `p` moved back over blanks, no further than `lo`.
pub open spec fn back_ws(t: Seq<u8>, lo: int, p: int) -> int
    decreases p - lo,
{
    if p > lo && is_blank(t[p - 1]) {
        back_ws(t, lo, p - 1)
    } else {
        p
    }
}

/// How a byte changes the bracket depth: `(`, `[` and `<` open; `)`, `]`
/// and a `>` that does not end an arrow `->` close.
pub open spec fn delta(t: Seq<u8>, m: int) -> int {
    if t[m] == 40u8 || t[m] == 91u8 || t[m] == 60u8 {
        1
    } else if t[m] == 41u8 || t[m] == 93u8 {
        -1
    } else if t[m] == 62u8 && !(m > 0 && t[m - 1] == 45u8) {
        -1
    } else {
        0
    }
}

/// Where a parameter's type that is scanned from `m` at depth `d` ends: the
/// first `,` or `)` outside any bracket, or -1 when a bracket closes first or
/// the text ends.
pub open spec fn type_end(t: Seq<u8>, m: int, d: int) -> int
    decreases t.len() - m,
{
    if m < 0 || m >= t.len() {
        -1
    } else if d == 0 && (t[m] == 44u8 || t[m] == 41u8) {
        m
    } else if d + delta(t, m) < 0 {
        -1
    } else {
        type_end(t, m + 1, d + delta(t, m))
    }
}

/// The `>` that closes a generic list scanned from `m` at depth `d`, or -1.
pub open spec fn angle_close(t: Seq<u8>, m: int, d: int) -> int
    decreases t.len() - m,
{
    if m < 0 || m >= t.len() {
        -1
    } else if d == 0 && t[m] == 62u8 && delta(t, m) == -1 {
        m
    } else if d + delta(t, m) < 0 {
        -1
    } else {
        angle_close(t, m + 1, d + delta(t, m))
    }
}

/// `t[m..end]`, entered at depth `d`, never closes more brackets than are
/// open and ends at depth 0.
pub open spec fn balanced(t: Seq<u8>, m: int, end: int, d: int) -> bool
    decreases end - m,
{
    if m < 0 || m >= end || m >= t.len() {
        d == 0
    } else if d + delta(t, m) < 0 {
        false
    } else {
        balanced(t, m + 1, end, d + delta(t, m))
    }
}

/// The start of the run of name bytes that ends at `k`.
pub open spec fn back_ident(t: Seq<u8>, k: int) -> int
    decreases k,
{
    if k > 0 && k <= t.len() && is_ident(t[k - 1]) {
        back_ident(t, k - 1)
    } else {
        k
    }
}

/// The first byte at or after `i` that cannot be part of a name.
pub open spec fn ident_end(t: Seq<u8>, i: int) -> int
    decreases t.len() - i,
{
    if i >= t.len() || i < 0 {
        t.len() as int
    } else if !is_ident(t[i]) {
        i
    } else {
        ident_end(t, i + 1)
    }
}

pub open spec fn fn_kw() -> Seq<u8> {
    seq![102u8, 110u8, 32u8]
}

pub open spec fn impl_kw() -> Seq<u8> {
    seq![105u8, 109u8, 112u8, 108u8, 32u8]
}

/// The start of the last `fn ` that ends at or before `k`, or -1.
pub open spec fn fn_before(t: Seq<u8>, k: int) -> int
    decreases k,
{
    if k < 3 || k > t.len() {
        -1
    } else if t.subrange(k - 3, k) == fn_kw() {
        k - 3
    } else {
        fn_before(t, k - 1)
    }
}

/// The new generic parameter and where it goes, for a function whose name
/// ends at `g` and whose generic list, if any, closes at `close`: after the
/// last parameter of the list, into an empty list, or as a new list after the
/// name.
pub open spec fn insertion(t: Seq<u8>, g: int, close: int, param: Seq<u8>) -> (int, Seq<u8>) {
    if g < t.len() && t[g] == 60u8 {
        let p1 = back_ws(t, g + 1, close);
        let p2 = if p1 > g + 1 && p1 <= t.len() && t[p1 - 1] == 44u8 {
            back_ws(t, g + 1, p1 - 1)
        } else {
            p1
        };
        if p2 == g + 1 {
            (g + 1, param)
        } else {
            (p2, seq![44u8, 32u8] + param)
        }
    } else {
        (g, seq![60u8] + param + seq![62u8])
    }
}

/// Where the parameter list of the function whose name ends at `g` opens:
/// after its generic list, if it has one; -1 when that list does not close
/// before `c`.
pub open spec fn params_open(t: Seq<u8>, g: int, c: int) -> int {
    if g < t.len() && t[g] == 60u8 {
        let close = angle_close(t, g + 1, 0);
        if close < 0 || close >= c {
            -1
        } else {
            close + 1
        }
    } else {
        g
    }
}

/// The cursor at `c` starts the type of a parameter `name: ...` that stands
/// directly in the parameter list opening at `p0`: before the name comes the
/// `(` of the list or a `,` outside any bracket of the list.
pub open spec fn param_type_at(t: Seq<u8>, p0: int, c: int) -> bool {
    let k1 = back_ws(t, 0, c);
    let k2 = back_ws(t, 0, k1 - 1);
    let k3 = back_ident(t, k2);
    let s = back_ws(t, 0, k3) - 1;
    &&& 0 <= p0 < c <= t.len()
    &&& t[p0] == 40u8
    &&& k1 >= 1 && t[k1 - 1] == 58u8
    &&& k3 < k2
    &&& p0 <= s
    &&& (s == p0 || t[s] == 44u8)
    &&& balanced(t, p0 + 1, s, 0)
}

/// The text with the marker `$0` at `c` taken out.
pub open spec fn strip_marker(v: Seq<u8>, c: int) -> Seq<u8> {
    v.subrange(0, c) + v.subrange(c + 2, v.len() as int)
}

/// What the assist makes of `t`, the text with the cursor marker taken out,
/// with the cursor at `c`: the `impl` type of a parameter is replaced by a
/// name made of the first letter of its bounds, upper-cased, and that name
/// with the bounds is added to the function's generic list.
pub open spec fn replaced_at(t: Seq<u8>, c: int) -> Option<Seq<u8>> {
    let b0 = c + 5;
    let e = type_end(t, b0, 0);
    let be = back_ws(t, b0, e);
    let f = fn_before(t, c);
    let g = ident_end(t, f + 3);
    let p0 = params_open(t, g, c);
    if !(0 <= c && c + 5 <= t.len() && t.subrange(c, c + 5) == impl_kw()) {
        None
    } else if !(e >= 0 && be > b0 && t[b0] < 128u8) {
        None
    } else if !(f >= 0 && f + 3 < g && g <= c && p0 >= 0 && param_type_at(t, p0, c)) {
        None
    } else {
        let name = seq![upper(t[b0])];
        let param = name + seq![58u8, 32u8] + t.subrange(b0, be);
        let (ins, text) = insertion(t, g, p0 - 1, param);
        Some(
            t.subrange(0, ins) + text + t.subrange(ins, c) + name + t.subrange(be, t.len() as int),
        )
    }
}

/// What the assist makes of `v`, whose `$0` marks the cursor: the `impl`
/// type at the cursor becomes a parameter named by the first letter of its
/// first bound, declared with those bounds in the function's generic list.
pub open spec fn replaced(v: Seq<u8>) -> Option<Seq<u8>> {
    let c = next_marker(v, 0);
    if c >= v.len() {
        None
    } else {
        replaced_at(strip_marker(v, c), c)
    }
}

fn back_blank(t: &[u8], lo: usize, p: usize) -> (r: usize)
    requires
        lo <= p <= t@.len(),
    ensures
        r == back_ws(t@, lo as int, p as int),
        lo <= r <= p,
{
    let mut q = p;
    while q > lo && (t[q - 1] == 32u8 || t[q - 1] == 9u8 || t[q - 1] == 10u8 || t[q - 1] == 13u8)
        invariant
            lo <= q <= p <= t@.len(),
            back_ws(t@, lo as int, p as int) == back_ws(t@, lo as int, q as int),
        decreases q,
    {
        q = q - 1;
    }
    q
}

fn depth_change(t: &[u8], m: usize) -> (r: i8)
    requires
        m < t@.len(),
    ensures
        r == delta(t@, m as int),
{
    let b = t[m];
    if b == 40u8 || b == 91u8 || b == 60u8 {
        1
    } else if b == 41u8 || b == 93u8 {
        -1
    } else if b == 62u8 && !(m > 0 && t[m - 1] == 45u8) {
        -1
    } else {
        0
    }
}

fn find_type_end(t: &[u8], i: usize) -> (r: Option<usize>)
    ensures
        match r {
            Some(e) => e == type_end(t@, i as int, 0) && i <= e < t@.len(),
            None => type_end(t@, i as int, 0) < 0,
        },
{
    let mut m = i;
    let mut d: usize = 0;
    while m < t.len()
        invariant
            i <= m,
            d <= m - i,
            type_end(t@, i as int, 0) == type_end(t@, m as int, d as int),
        decreases t@.len() - m,
    {
        if d == 0 && (t[m] == 44u8 || t[m] == 41u8) {
            return Some(m);
        }
        let ch = depth_change(t, m);
        if ch < 0 {
            if d == 0 {
                return None;
            }
            d = d - 1;
        } else if ch > 0 {
            d = d + 1;
        }
        m = m + 1;
    }
    None
}

fn find_angle_close(t: &[u8], i: usize) -> (r: Option<usize>)
    ensures
        match r {
            Some(e) => e == angle_close(t@, i as int, 0) && i <= e < t@.len(),
            None => angle_close(t@, i as int, 0) < 0,
        },
{
    let mut m = i;
    let mut d: usize = 0;
    while m < t.len()
        invariant
            i <= m,
            d <= m - i,
            angle_close(t@, i as int, 0) == angle_close(t@, m as int, d as int),
        decreases t@.len() - m,
    {
        let ch = depth_change(t, m);
        if d == 0 && t[m] == 62u8 && ch == -1 {
            return Some(m);
        }
        if ch < 0 {
            if d == 0 {
                return None;
            }
            d = d - 1;
        } else if ch > 0 {
            d = d + 1;
        }
        m = m + 1;
    }
    None
}

fn is_balanced(t: &[u8], i: usize, end: usize) -> (r: bool)
    requires
        i >= 1,
        end <= t@.len(),
    ensures
        r == balanced(t@, i as int, end as int, 0),
{
    let mut m = i;
    let mut d: usize = 0;
    while m < end
        invariant
            i <= m,
            end <= t@.len(),
            d <= m - i,
            balanced(t@, i as int, end as int, 0) == balanced(t@, m as int, end as int, d as int),
        decreases end - m,
    {
        let ch = depth_change(t, m);
        if ch < 0 {
            if d == 0 {
                return false;
            }
            d = d - 1;
        } else if ch > 0 {
            d = d + 1;
        }
        m = m + 1;
    }
    d == 0
}

fn find_back_ident(t: &[u8], k: usize) -> (r: usize)
    requires
        k <= t@.len(),
    ensures
        r == back_ident(t@, k as int),
        r <= k,
{
    let mut q = k;
    while q > 0 && ((97u8 <= t[q - 1] && t[q - 1] <= 122u8) || (65u8 <= t[q - 1] && t[q - 1] <= 90u8)
        || (48u8 <= t[q - 1] && t[q - 1] <= 57u8) || t[q - 1] == 95u8)
        invariant
            q <= k <= t@.len(),
            back_ident(t@, k as int) == back_ident(t@, q as int),
        decreases q,
    {
        q = q - 1;
    }
    q
}

/// Whether the cursor at `c` starts a parameter's type directly in the list
/// that opens at `p0`.
fn check_param_type(t: &[u8], p0: usize, c: usize) -> (r: bool)
    requires
        c <= t@.len(),
    ensures
        r == param_type_at(t@, p0 as int, c as int),
{
    if !(p0 < c && t[p0] == 40u8) {
        return false;
    }
    let k1 = back_blank(t, 0, c);
    if !(k1 >= 1 && t[k1 - 1] == 58u8) {
        return false;
    }
    let k2 = back_blank(t, 0, k1 - 1);
    let k3 = find_back_ident(t, k2);
    if k3 >= k2 {
        return false;
    }
    let k4 = back_blank(t, 0, k3);
    if k4 < 1 || k4 - 1 < p0 {
        return false;
    }
    let sep = k4 - 1;
    if !(sep == p0 || t[sep] == 44u8) {
        return false;
    }
    is_balanced(t, p0 + 1, sep)
}

fn find_ident_end(t: &[u8], i: usize) -> (r: usize)
    requires
        i <= t@.len(),
    ensures
        r == ident_end(t@, i as int),
        i <= r <= t@.len(),
{
    let mut k = i;
    while k < t.len() && ((97u8 <= t[k] && t[k] <= 122u8) || (65u8 <= t[k] && t[k] <= 90u8) || (48u8
        <= t[k] && t[k] <= 57u8) || t[k] == 95u8)
        invariant
            i <= k <= t@.len(),
            ident_end(t@, i as int) == ident_end(t@, k as int),
        decreases t@.len() - k,
    {
        k = k + 1;
    }
    k
}

/// Start of the last `fn ` ending at or before `k`, if any.
fn find_fn_before(t: &[u8], k: usize) -> (r: Option<usize>)
    requires
        k <= t@.len(),
    ensures
        match r {
            Some(f) => f == fn_before(t@, k as int) && f + 3 <= k,
            None => fn_before(t@, k as int) < 0,
        },
{
    let mut q = k;
    while q >= 3
        invariant
            q <= k <= t@.len(),
            fn_before(t@, k as int) == fn_before(t@, q as int),
        decreases q,
    {
        if t[q - 3] == 102u8 && t[q - 2] == 110u8 && t[q - 1] == 32u8 {
            assert(t@.subrange(q - 3, q as int) =~= fn_kw());
            return Some(q - 3);
        }
        assert(t@.subrange(q - 3, q as int) != fn_kw()) by {
            assert(fn_kw()[0] == 102u8 && fn_kw()[1] == 110u8 && fn_kw()[2] == 32u8);
            if t@.subrange(q - 3, q as int) == fn_kw() {
                assert(t@.subrange(q - 3, q as int)[0] == t@[q - 3]);
                assert(t@.subrange(q - 3, q as int)[1] == t@[q - 2]);
                assert(t@.subrange(q - 3, q as int)[2] == t@[q - 1]);
            }
        }
        q = q - 1;
    }
    None
}

fn push_all(out: &mut Vec<u8>, s: &[u8])
    ensures
        final(out)@ == old(out)@ + s@,
{
    let mut i: usize = 0;
    while i < s.len()
        invariant
            i <= s@.len(),
            out@ == old(out)@ + s@.subrange(0, i as int),
        decreases s@.len() - i,
    {
        out.push(s[i]);
        i = i + 1;
        assert(out@ =~= old(out)@ + s@.subrange(0, i as int));
    }
    assert(s@.subrange(0, s@.len() as int) =~= s@);
}

fn make_insertion(t: &[u8], g: usize, close: usize, param: &[u8]) -> (r: (usize, Vec<u8>))
    requires
        g <= t@.len(),
        g < t@.len() && t@[g as int] == 60u8 ==> g < close <= t@.len(),
    ensures
        insertion(t@, g as int, close as int, param@) == (r.0 as int, r.1@),
        r.0 <= if g < t@.len() && t@[g as int] == 60u8 { close } else { g },
{
    let mut text: Vec<u8> = Vec::new();
    if g < t.len() && t[g] == 60u8 {
        let p1 = back_blank(t, g + 1, close);
        let p2 = if p1 > g + 1 && t[p1 - 1] == 44u8 {
            back_blank(t, g + 1, p1 - 1)
        } else {
            p1
        };
        if p2 == g + 1 {
            push_all(&mut text, param);
            (g + 1, text)
        } else {
            push_all(&mut text, &[44u8, 32u8]);
            push_all(&mut text, param);
            (p2, text)
        }
    } else {
        push_all(&mut text, &[60u8]);
        push_all(&mut text, param);
        push_all(&mut text, &[62u8]);
        (g, text)
    }
}

fn replace_at(t: &[u8], c: usize) -> (r: Option<Vec<u8>>)
    requires
        c <= t@.len(),
    ensures
        match r {
            Some(o) => replaced_at(t@, c as int) == Some(o@),
            None => replaced_at(t@, c as int) is None,
        },
{
    if !(t.len() >= 5 && c <= t.len() - 5 && t[c] == 105u8 && t[c + 1] == 109u8 && t[c + 2] == 112u8
        && t[c + 3] == 108u8 && t[c + 4] == 32u8) {
        proof {
            if c + 5 <= t@.len() && t@.subrange(c as int, c + 5) == impl_kw() {
                assert(t@.subrange(c as int, c + 5)[0] == t@[c as int]);
                assert(t@.subrange(c as int, c + 5)[1] == t@[c + 1]);
                assert(t@.subrange(c as int, c + 5)[2] == t@[c + 2]);
                assert(t@.subrange(c as int, c + 5)[3] == t@[c + 3]);
                assert(t@.subrange(c as int, c + 5)[4] == t@[c + 4]);
            }
        }
        return None;
    }
    assert(t@.subrange(c as int, c + 5) =~= impl_kw());
    let b0 = c + 5;
    let e = match find_type_end(t, b0) {
        Some(e) => e,
        None => {
            return None;
        },
    };
    let be = back_blank(t, b0, e);
    if !(be > b0 && t[b0] < 128u8) {
        return None;
    }
    let f = match find_fn_before(t, c) {
        Some(f) => f,
        None => {
            return None;
        },
    };
    let g = find_ident_end(t, f + 3);
    if g <= f + 3 || g > c {
        return None;
    }
    let p0: usize;
    if g < t.len() && t[g] == 60u8 {
        match find_angle_close(t, g + 1) {
            Some(close) => {
                if close >= c {
                    return None;
                }
                p0 = close + 1;
            },
            None => {
                return None;
            },
        }
    } else {
        p0 = g;
    }
    assert(p0 as int == params_open(t@, g as int, c as int));
    if !check_param_type(t, p0, c) {
        return None;
    }
    let first = t[b0];
    let up: u8 = if 97u8 <= first && first <= 122u8 {
        first - 32
    } else {
        first
    };
    let name: [u8; 1] = [up];
    assert(name@ =~= seq![upper(t@[b0 as int])]);
    let mut param: Vec<u8> = Vec::new();
    push_all(&mut param, &name);
    push_all(&mut param, &[58u8, 32u8]);
    push_all(&mut param, slice_subrange(t, b0, be));
    let (ins, ins_text) = make_insertion(t, g, p0 - 1, param.as_slice());
    let mut out: Vec<u8> = Vec::new();
    push_all(&mut out, slice_subrange(t, 0, ins));
    push_all(&mut out, ins_text.as_slice());
    push_all(&mut out, slice_subrange(t, ins, c));
    push_all(&mut out, &name);
    push_all(&mut out, slice_subrange(t, be, t.len()));
    Some(out)
}

/// Replaces the `impl Trait` parameter type at the `$0` cursor of `text` with
/// a generic parameter; `None` where the cursor is not on such a type.
pub fn replace_impl_trait_with_generic(text: &[u8]) -> (r: Option<Vec<u8>>)
    ensures
        match r {
            Some(o) => replaced(text@) == Some(o@),
            None => replaced(text@) is None,
        },
{
    let c = crate::fixture::find_marker(text, 0);
    if c >= text.len() {
        return None;
    }
    proof {
        crate::fixture::lemma_next_marker_bounds(text@, 0);
    }
    let mut t: Vec<u8> = Vec::new();
    push_all(&mut t, slice_subrange(text, 0, c));
    push_all(&mut t, slice_subrange(text, c + 2, text.len()));
    assert(t@ =~= strip_marker(text@, c as int));
    replace_at(t.as_slice(), c)
}

} // verus!
