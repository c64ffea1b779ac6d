use hl_inject::def_map::view_def_map;
use hl_inject::fixture::split_fixture;
use hl_inject::highlight::{
    doc_link_highlight, find_doc_string_in_tokens, map_highlights, module_def_to_hl_tag,
    prefix_highlights, DefKind, HlRange, HlTag, Highlight, SymbolKind, Token, DOCUMENTATION,
    INJECTED, INTRA_DOC_LINK,
};
use hl_inject::injector::Injector;
use hl_inject::text_range::TextRange;

fn hl(start: usize, end: usize, tag: HlTag) -> HlRange {
    HlRange { range: TextRange::new(start, end), highlight: Highlight { tag, mods: 0 }, binding_hash: Some(7) }
}

#[test]
fn highlights_are_carried_back_and_flagged() {
    let mut inj = Injector::new();
    inj.add_unmapped(b"fn doctest() {\n");
    inj.add(b"let x = 1;", TextRange::new(25, 35));
    inj.add_unmapped(b"\n\n}");
    let hls = vec![hl(0, 2, HlTag::Keyword), hl(15, 18, HlTag::Keyword), hl(19, 20, HlTag::Other)];
    let out = map_highlights(&inj, &hls, INJECTED);
    assert_eq!(out.len(), 2);
    assert_eq!(out[0].range, TextRange::new(25, 28));
    assert_eq!(out[0].highlight, Highlight { tag: HlTag::Keyword, mods: INJECTED });
    assert_eq!(out[0].binding_hash, Some(7));
    assert_eq!(out[1].range, TextRange::new(29, 30));
    assert_eq!(out, map_highlights(&inj, &hls, INJECTED));
}

#[test]
fn fixture_highlights_keep_their_flags() {
    let (inj, _) = split_fixture(b"fn$0 f");
    let out = map_highlights(&inj, &vec![hl(0, 2, HlTag::Keyword), hl(3, 4, HlTag::Other)], 0);
    assert_eq!(out[0].range, TextRange::new(0, 2));
    assert_eq!(out[0].highlight.mods, 0);
    assert_eq!(out[1].range, TextRange::new(5, 6));
}

#[test]
fn link_and_prefix_highlights() {
    assert_eq!(module_def_to_hl_tag(DefKind::Struct), HlTag::Symbol(SymbolKind::Struct));
    assert_eq!(module_def_to_hl_tag(DefKind::BuiltinType), HlTag::BuiltinType);
    let h = doc_link_highlight(TextRange::new(4, 9), DefKind::Trait);
    assert_eq!(h.highlight.tag, HlTag::Symbol(SymbolKind::Trait));
    assert_eq!(h.highlight.mods, DOCUMENTATION | INJECTED | INTRA_DOC_LINK);
    let p = prefix_highlights(&vec![TextRange::new(0, 4)]);
    assert_eq!(p[0].highlight, Highlight { tag: HlTag::Comment, mods: DOCUMENTATION });
    assert_eq!(p[0].range, TextRange::new(0, 4));
}

#[test]
fn doc_string_found_among_tokens() {
    let tokens = vec![
        Token { is_string: false, text: b"doc".to_vec() },
        Token { is_string: true, text: b"\"other\"".to_vec() },
        Token { is_string: true, text: b"\" text\"".to_vec() },
    ];
    assert_eq!(find_doc_string_in_tokens(b" text", &tokens), Some(2));
    assert_eq!(find_doc_string_in_tokens(b"missing", &tokens), None);
    assert_eq!(find_doc_string_in_tokens(b"doc", &tokens), None);
}

#[test]
fn def_map_view_falls_back_to_note() {
    assert_eq!(view_def_map(None), "Not inside a function body");
    assert_eq!(view_def_map(Some("crate\nfoo: v".to_string())), "crate\nfoo: v");
}

#[test]
fn doc_highlights_in_spec_order() {
    let link = doc_link_highlight(TextRange::new(4, 9), DefKind::Function);
    let injected = vec![HlRange {
        range: TextRange::new(25, 28),
        highlight: Highlight { tag: HlTag::Keyword, mods: INJECTED },
        binding_hash: None,
    }];
    let out = hl_inject::highlight::doc_highlights(&vec![link], &injected, &vec![TextRange::new(21, 25)]);
    assert_eq!(out.len(), 3);
    assert_eq!(out[0], link);
    assert_eq!(out[1], injected[0]);
    assert_eq!(out[2].range, TextRange::new(21, 25));
    assert_eq!(out[2].highlight, Highlight { tag: HlTag::Comment, mods: DOCUMENTATION });
}
