//! Highlight ranges and how injected ones are carried back to the original
//! document.
use vstd::prelude::*;

use crate::injector::{mapped_up, Injector};
use crate::text_range::TextRange;

verus! {

/// The kind of a named symbol.
#[derive(Clone, Copy, Debug, PartialEq, Eq, Structural)]
pub enum SymbolKind {
    Module,
    Function,
    Struct,
    Enum,
    Union,
    Variant,
    Const,
    Static,
    Trait,
    TypeAlias,
}

/// The semantic category of a highlighted range.
#[derive(Clone, Copy, Debug, PartialEq, Eq, Structural)]
pub enum HlTag {
    Symbol(SymbolKind),
    BuiltinType,
    Comment,
    Keyword,
    StringLiteral,
    Other,
}

/// The kind of definition that a documentation link resolves to.
#[derive(Clone, Copy, Debug, PartialEq, Eq, Structural)]
pub enum DefKind {
    Module,
    Function,
    Struct,
    Enum,
    Union,
    Variant,
    Const,
    Static,
    Trait,
    TypeAlias,
    BuiltinType,
}

/// Modifier flags, one bit each.
pub const DOCUMENTATION: u64 = 1;
pub const INJECTED: u64 = 2;
pub const INTRA_DOC_LINK: u64 = 4;

/// A category with its modifier flags.
#[derive(Clone, Copy, Debug, PartialEq, Eq, Structural)]
pub struct Highlight {
    pub tag: HlTag,
    pub mods: u64,
}

/// A highlighted range.
#[derive(Clone, Copy, Debug, PartialEq, Eq)]
pub struct HlRange {
    pub range: TextRange,
    pub highlight: Highlight,
    pub binding_hash: Option<u64>,
}

pub open spec fn def_tag(def: DefKind) -> HlTag {
    match def {
        DefKind::Module => HlTag::Symbol(SymbolKind::Module),
        DefKind::Function => HlTag::Symbol(SymbolKind::Function),
        DefKind::Struct => HlTag::Symbol(SymbolKind::Struct),
        DefKind::Enum => HlTag::Symbol(SymbolKind::Enum),
        DefKind::Union => HlTag::Symbol(SymbolKind::Union),
        DefKind::Variant => HlTag::Symbol(SymbolKind::Variant),
        DefKind::Const => HlTag::Symbol(SymbolKind::Const),
        DefKind::Static => HlTag::Symbol(SymbolKind::Static),
        DefKind::Trait => HlTag::Symbol(SymbolKind::Trait),
        DefKind::TypeAlias => HlTag::Symbol(SymbolKind::TypeAlias),
        DefKind::BuiltinType => HlTag::BuiltinType,
    }
}

/// The category under which a link to a definition of this kind shows.
pub fn module_def_to_hl_tag(def: DefKind) -> (r: HlTag)
    ensures
        r == def_tag(def),
{
    match def {
        DefKind::Module => HlTag::Symbol(SymbolKind::Module),
        DefKind::Function => HlTag::Symbol(SymbolKind::Function),
        DefKind::Struct => HlTag::Symbol(SymbolKind::Struct),
        DefKind::Enum => HlTag::Symbol(SymbolKind::Enum),
        DefKind::Union => HlTag::Symbol(SymbolKind::Union),
        DefKind::Variant => HlTag::Symbol(SymbolKind::Variant),
        DefKind::Const => HlTag::Symbol(SymbolKind::Const),
        DefKind::Static => HlTag::Symbol(SymbolKind::Static),
        DefKind::Trait => HlTag::Symbol(SymbolKind::Trait),
        DefKind::TypeAlias => HlTag::Symbol(SymbolKind::TypeAlias),
        DefKind::BuiltinType => HlTag::BuiltinType,
    }
}

/// The highlight of a resolved documentation link at `range`.
pub fn doc_link_highlight(range: TextRange, def: DefKind) -> (r: HlRange)
    ensures
        r.range == range,
        r.highlight.tag == def_tag(def),
        r.highlight.mods == DOCUMENTATION | INJECTED | INTRA_DOC_LINK,
        r.binding_hash is None,
{
    HlRange {
        range,
        highlight: Highlight {
            tag: module_def_to_hl_tag(def),
            mods: DOCUMENTATION | INJECTED | INTRA_DOC_LINK,
        },
        binding_hash: None,
    }
}

/// The decoration of kept doc-test lines, highlighted as documentation
/// comments.
pub fn prefix_highlights(prefixes: &Vec<TextRange>) -> (r: Vec<HlRange>)
    ensures
        r@.len() == prefixes@.len(),
        forall|k: int|
            0 <= k < r@.len() ==> (#[trigger] r@[k]).range == prefixes@[k] && r@[k].highlight
                == (Highlight { tag: HlTag::Comment, mods: DOCUMENTATION })
                && r@[k].binding_hash is None,
{
    let mut out: Vec<HlRange> = Vec::new();
    let mut k: usize = 0;
    while k < prefixes.len()
        invariant
            k <= prefixes@.len(),
            out@.len() == k,
            forall|m: int|
                0 <= m < k ==> (#[trigger] out@[m]).range == prefixes@[m] && out@[m].highlight
                    == (Highlight { tag: HlTag::Comment, mods: DOCUMENTATION })
                    && out@[m].binding_hash is None,
        decreases prefixes@.len() - k,
    {
        out.push(
            HlRange {
                range: prefixes[k],
                highlight: Highlight { tag: HlTag::Comment, mods: DOCUMENTATION },
                binding_hash: None,
            },
        );
        k = k + 1;
    }
    out
}

/// The highlight of one decoration range of a kept doc-test line.
pub open spec fn prefix_hl(r: TextRange) -> HlRange {
    HlRange {
        range: r,
        highlight: Highlight { tag: HlTag::Comment, mods: DOCUMENTATION },
        binding_hash: None,
    }
}

fn push_all_hl(out: &mut Vec<HlRange>, s: &Vec<HlRange>)
    ensures
        final(out)@ == old(out)@ + s@,
{
    let mut i: usize = 0;
    while i < s.len()
        invariant
            i <= s@.len(),
            out@ == old(out)@ + s@.take(i as int),
        decreases s@.len() - i,
    {
        out.push(s[i]);
        i = i + 1;
        assert(out@ =~= old(out)@ + s@.take(i as int));
    }
    assert(s@.take(s@.len() as int) =~= s@);
}

/// The highlights of a doc-test in order: the resolved links, the highlights
/// carried back from the example code (already flagged as injected), then
/// the decoration of the kept lines as documentation comments.
pub fn doc_highlights(links: &Vec<HlRange>, injected: &Vec<HlRange>, prefixes: &Vec<TextRange>) -> (r:
    Vec<HlRange>)
    ensures
        r@ == links@ + injected@ + prefixes@.map_values(|p: TextRange| prefix_hl(p)),
{
    let mut out: Vec<HlRange> = Vec::new();
    push_all_hl(&mut out, links);
    push_all_hl(&mut out, injected);
    let tail = prefix_highlights(prefixes);
    assert(tail@ =~= prefixes@.map_values(|p: TextRange| prefix_hl(p)));
    push_all_hl(&mut out, &tail);
    assert(out@ =~= links@ + injected@ + prefixes@.map_values(|p: TextRange| prefix_hl(p)));
    out
}

/// One highlight of the synthetic document carried back: one highlight per
/// original range, with the extra flags `mods` set.
pub open spec fn lift(h: HlRange, ranges: Seq<TextRange>, mods: u64) -> Seq<HlRange> {
    ranges.map_values(
        |rg: TextRange|
            HlRange {
                range: rg,
                highlight: Highlight { tag: h.highlight.tag, mods: h.highlight.mods | mods },
                binding_hash: h.binding_hash,
            },
    )
}

/// All highlights of the synthetic document carried back, in order.
pub open spec fn remapped(cs: Seq<crate::injector::Chunk>, hls: Seq<HlRange>, mods: u64) -> Seq<
    HlRange,
>
    decreases hls.len(),
{
    if hls.len() == 0 {
        Seq::empty()
    } else {
        remapped(cs, hls.drop_last(), mods) + lift(
            hls.last(),
            mapped_up(cs, hls.last().range),
            mods,
        )
    }
}

/// Carries the highlights that the analyzer gave for the synthetic document
/// of `inj` back to the original document, setting the flags `mods` on each.
pub fn map_highlights(inj: &Injector, hls: &Vec<HlRange>, mods: u64) -> (r: Vec<HlRange>)
    requires
        inj.wf(),
        forall|k: int|
            0 <= k < hls@.len() ==> (#[trigger] hls@[k]).range.start <= hls@[k].range.end
                <= inj.text().len(),
    ensures
        r@ == remapped(inj.chunks(), hls@, mods),
{
    let mut out: Vec<HlRange> = Vec::new();
    let mut k: usize = 0;
    while k < hls.len()
        invariant
            inj.wf(),
            k <= hls@.len(),
            forall|m: int|
                0 <= m < hls@.len() ==> (#[trigger] hls@[m]).range.start <= hls@[m].range.end
                    <= inj.text().len(),
            out@ == remapped(inj.chunks(), hls@.take(k as int), mods),
        decreases hls@.len() - k,
    {
        let h = hls[k];
        assert(hls@[k as int] == h);
        let ranges = inj.map_range_up(h.range);
        let ghost before = out@;
        let mut i: usize = 0;
        while i < ranges.len()
            invariant
                i <= ranges@.len(),
                out@ == before + lift(h, ranges@.take(i as int), mods),
            decreases ranges@.len() - i,
        {
            out.push(
                HlRange {
                    range: ranges[i],
                    highlight: Highlight { tag: h.highlight.tag, mods: h.highlight.mods | mods },
                    binding_hash: h.binding_hash,
                },
            );
            proof {
                assert(lift(h, ranges@.take(i + 1), mods) =~= lift(h, ranges@.take(i as int), mods).push(
                    out@.last(),
                ));
            }
            i = i + 1;
        }
        proof {
            assert(ranges@.take(ranges@.len() as int) =~= ranges@);
            assert(hls@.take(k + 1).drop_last() =~= hls@.take(k as int));
        }
        k = k + 1;
    }
    assert(hls@.take(hls@.len() as int) =~= hls@);
    out
}

/// Running the mapping again on an unchanged synthetic document and unchanged
/// analyzer results gives the same highlights.
pub proof fn lemma_idempotent(a: &Injector, b: &Injector, ha: Seq<HlRange>, hb: Seq<HlRange>, mods: u64)
    requires
        a.chunks() == b.chunks(),
        ha == hb,
    ensures
        remapped(a.chunks(), ha, mods) == remapped(b.chunks(), hb, mods),
{
}

/// A string token of an attribute: its text with the quotes.
pub struct Token {
    pub is_string: bool,
    pub text: Vec<u8>,
}

/// The text between the quotes of `t` is `value`.
pub open spec fn holds_string(t: Token, value: Seq<u8>) -> bool {
    t.is_string && t.text@.len() >= 2 && t.text@.subrange(1, t.text@.len() - 1) == value
}

/// The first string token whose contents are `value`: where a documentation
/// attribute's text stands among its tokens.
pub fn find_doc_string_in_tokens(value: &[u8], tokens: &Vec<Token>) -> (r: Option<usize>)
    ensures
        match r {
            Some(i) => i < tokens@.len() && holds_string(tokens@[i as int], value@) && forall|
                k: int,
            |
                0 <= k < i ==> !holds_string(#[trigger] tokens@[k], value@),
            None => forall|k: int|
                0 <= k < tokens@.len() ==> !holds_string(#[trigger] tokens@[k], value@),
        },
{
    let mut i: usize = 0;
    while i < tokens.len()
        invariant
            i <= tokens@.len(),
            forall|k: int| 0 <= k < i ==> !holds_string(#[trigger] tokens@[k], value@),
        decreases tokens@.len() - i,
    {
        let t = &tokens[i];
        if t.is_string && t.text.len() >= 2 {
            let n = t.text.len();
            if n - 2 == value.len() {
                let mut k: usize = 0;
                let mut same = true;
                while k < value.len()
                    invariant
                        n == t.text@.len(),
                        n - 2 == value@.len(),
                        k <= value@.len(),
                        same == forall|m: int| 0 <= m < k ==> t.text@[m + 1] == value@[m],
                    decreases value@.len() - k,
                {
                    if t.text[k + 1] != value[k] {
                        same = false;
                    }
                    k = k + 1;
                }
                if same {
                    assert(t.text@.subrange(1, n - 1) =~= value@);
                    return Some(i);
                }
                assert(!holds_string(tokens@[i as int], value@)) by {
                    let m = choose|m: int| 0 <= m < value@.len() && t.text@[m + 1] != value@[m];
                    assert(t.text@.subrange(1, n - 1)[m] == t.text@[m + 1]);
                }
            }
        }
        i = i + 1;
    }
    None
}

} // verus!
