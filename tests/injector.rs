use hl_inject::injector::Injector;
use hl_inject::text_range::TextRange;

fn r(start: usize, end: usize) -> TextRange {
    TextRange::new(start, end)
}

#[test]
fn mapped_chunk_maps_back_at_offset() {
    let mut inj = Injector::new();
    inj.add_unmapped(b"fn f() {\n");
    inj.add(b"let x = 1;", r(40, 50));
    inj.add_unmapped(b"\n");
    inj.add(b"x", r(100, 101));
    assert_eq!(inj.finish(), b"fn f() {\nlet x = 1;\nx".to_vec());
    // "x" of "let x" sits at synthetic offset 13, source offset 44
    assert_eq!(inj.map_range_up(r(13, 14)), vec![r(44, 45)]);
    assert_eq!(inj.map_range_up(r(20, 21)), vec![r(100, 101)]);
}

#[test]
fn unmapped_chunk_maps_to_nothing() {
    let mut inj = Injector::new();
    inj.add_unmapped(b"fn f() {\n");
    inj.add(b"abc", r(7, 10));
    assert_eq!(inj.map_range_up(r(0, 9)), Vec::<TextRange>::new());
    assert_eq!(inj.map_range_up(r(2, 5)), Vec::<TextRange>::new());
}

#[test]
fn range_across_chunks_is_split_and_clipped() {
    let mut inj = Injector::new();
    inj.add(b"ab", r(10, 12));
    inj.add_unmapped(b"--");
    inj.add(b"cd", r(30, 32));
    assert_eq!(inj.map_range_up(r(1, 5)), vec![r(11, 12), r(30, 31)]);
    assert_eq!(inj.map_range_up(r(0, 6)), vec![r(10, 12), r(30, 32)]);
}

#[test]
fn length_is_sum_of_chunks() {
    let mut inj = Injector::new();
    inj.add(b"", r(5, 5));
    inj.add_unmapped(b"xyz");
    inj.add(b"hello", r(0, 5));
    inj.add_unmapped(b"");
    assert_eq!(inj.text_bytes().len(), 8);
    assert_eq!(inj.finish(), inj.finish());
}

#[test]
fn empty_chunk_does_not_shift_offsets() {
    let mut inj = Injector::new();
    inj.add(b"", r(3, 3));
    inj.add(b"ab", r(20, 22));
    assert_eq!(inj.map_range_up(r(1, 2)), vec![r(21, 22)]);
}
