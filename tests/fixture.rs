use hl_inject::fixture::{fixture_highlights, is_fixture_param, split_fixture};
use hl_inject::highlight::{map_highlights, Highlight, HlRange, HlTag, INJECTED};
use hl_inject::text_range::TextRange;

#[test]
fn marker_splits_fixture() {
    let (inj, markers) = split_fixture(b"abc$0def");
    assert_eq!(inj.finish(), b"abcdef".to_vec());
    assert_eq!(markers, vec![TextRange::new(3, 5)]);
    assert_eq!(inj.map_range_up(TextRange::new(0, 3)), vec![TextRange::new(0, 3)]);
    assert_eq!(inj.map_range_up(TextRange::new(3, 6)), vec![TextRange::new(5, 8)]);
}

#[test]
fn fixture_without_marker_is_one_chunk() {
    let (inj, markers) = split_fixture(b"fn main() {}");
    assert!(markers.is_empty());
    assert_eq!(inj.finish(), b"fn main() {}".to_vec());
    assert_eq!(inj.map_range_up(TextRange::new(0, 12)), vec![TextRange::new(0, 12)]);
}

#[test]
fn empty_fixture_gives_empty_document() {
    let (inj, markers) = split_fixture(b"");
    assert!(markers.is_empty());
    assert!(inj.finish().is_empty());
}

#[test]
fn several_markers() {
    let (inj, markers) = split_fixture(b"$0a$0$0b");
    assert_eq!(inj.finish(), b"ab".to_vec());
    assert_eq!(markers, vec![TextRange::new(0, 2), TextRange::new(3, 5), TextRange::new(5, 7)]);
    assert_eq!(inj.map_range_up(TextRange::new(1, 2)), vec![TextRange::new(7, 8)]);
}

#[test]
fn fixture_parameter_names() {
    assert!(is_fixture_param(b"ra_fixture"));
    assert!(is_fixture_param(b"ra_fixture_before"));
    assert!(!is_fixture_param(b"fixture"));
    assert!(!is_fixture_param(b"ra_fix"));
}

#[test]
fn fixture_highlights_in_document_order() {
    // the literal "abc$0def" stands at offset 9; its contents start at 10
    let (inj, markers) = split_fixture(b"abc$0def");
    let analyzed = vec![HlRange {
        range: TextRange::new(2, 4),
        highlight: Highlight { tag: HlTag::Other, mods: 0 },
        binding_hash: None,
    }];
    let injected = map_highlights(&inj, &analyzed, 0);
    let out = fixture_highlights(
        Some(TextRange::new(9, 10)),
        &markers,
        &injected,
        Some(TextRange::new(18, 19)),
        10,
    );
    let ranges: Vec<TextRange> = out.iter().map(|h| h.range).collect();
    assert_eq!(
        ranges,
        vec![
            TextRange::new(9, 10),
            TextRange::new(13, 15),
            TextRange::new(12, 13),
            TextRange::new(15, 16),
            TextRange::new(18, 19),
        ]
    );
    assert_eq!(out[0].highlight.tag, HlTag::StringLiteral);
    assert_eq!(out[1].highlight.tag, HlTag::Keyword);
    assert_eq!(out[2].highlight.tag, HlTag::Other);
    assert_eq!(out[2].highlight.mods, INJECTED);
    assert_eq!(out[1].highlight.mods, 0);
}
