use hl_inject::doctest::{doc_code_lines, doc_injection, DocSource};
use hl_inject::text_range::TextRange;

fn comment(text: &str, start: usize) -> DocSource {
    DocSource { text: text.as_bytes().to_vec(), start, prefix_len: 3 }
}

fn comments(lines: &[&str]) -> Vec<DocSource> {
    let mut out = Vec::new();
    let mut start = 0;
    for l in lines {
        out.push(comment(l, start));
        start += l.len() + 1;
    }
    out
}

#[test]
fn fenced_block_is_example_code() {
    let srcs = comments(&["/// Example:", "/// ```", "/// let x = 1;", "/// ```", "/// done"]);
    let lines = doc_code_lines(&srcs);
    assert_eq!(lines.len(), 1);
    assert_eq!(lines[0].prefix, TextRange::new(21, 25));
    assert_eq!(lines[0].source, TextRange::new(25, 35));
    assert_eq!(lines[0].code, b"let x = 1;".to_vec());

    let (inj, prefixes) = doc_injection(&srcs).expect("example code found");
    assert_eq!(String::from_utf8(inj.finish()).unwrap(), "fn doctest() {\nlet x = 1;\n\n}");
    assert_eq!(prefixes, vec![TextRange::new(21, 25)]);
    // "let" in the synthetic document
    assert_eq!(inj.map_range_up(TextRange::new(15, 18)), vec![TextRange::new(25, 28)]);
    // the scaffold maps to nothing
    assert!(inj.map_range_up(TextRange::new(0, 15)).is_empty());
}

#[test]
fn text_outside_fences_is_skipped() {
    let srcs = comments(&["/// a", "/// ```", "/// b", "/// ```", "/// c", "/// ```", "/// d", "/// ```"]);
    let lines = doc_code_lines(&srcs);
    let codes: Vec<Vec<u8>> = lines.iter().map(|l| l.code.clone()).collect();
    assert_eq!(codes, vec![b"b".to_vec(), b"d".to_vec()]);
}

#[test]
fn hidden_line_marker_is_stripped() {
    let srcs = comments(&["/// ```", "/// # let x = 1;", "/// ```"]);
    let lines = doc_code_lines(&srcs);
    assert_eq!(lines.len(), 1);
    assert_eq!(lines[0].prefix, TextRange::new(8, 13));
    assert_eq!(lines[0].code, b" let x = 1;".to_vec());
    assert_eq!(lines[0].source, TextRange::new(13, 24));
}

#[test]
fn line_without_space_after_marker() {
    let srcs = comments(&["///```", "///#x", "///```"]);
    let lines = doc_code_lines(&srcs);
    assert_eq!(lines.len(), 1);
    assert_eq!(lines[0].prefix, TextRange::new(7, 11));
    assert_eq!(lines[0].code, b"x".to_vec());
}

#[test]
fn no_example_code_builds_nothing() {
    let srcs = comments(&["/// Just prose.", "/// ```text", "/// not code", "/// ```"]);
    assert!(doc_code_lines(&srcs).is_empty());
    assert!(doc_injection(&srcs).is_none());
    assert!(doc_injection(&comments(&["/// nothing here"])).is_none());
    assert!(doc_injection(&Vec::new()).is_none());
}

#[test]
fn doc_string_attribute_spans_lines() {
    let srcs = vec![DocSource { text: b"```\nfoo();\n```".to_vec(), start: 10, prefix_len: 0 }];
    let lines = doc_code_lines(&srcs);
    assert_eq!(lines.len(), 1);
    assert_eq!(lines[0].prefix, TextRange::new(14, 14));
    assert_eq!(lines[0].source, TextRange::new(14, 20));
    assert_eq!(lines[0].code, b"foo();".to_vec());
}

#[test]
fn unterminated_fence_runs_to_the_end() {
    let srcs = comments(&["/// ```rust", "/// a();", "/// b();"]);
    let lines = doc_code_lines(&srcs);
    assert_eq!(lines.len(), 2);
    assert_eq!(lines[1].code, b"b();".to_vec());
}

#[test]
fn injection_is_repeatable() {
    let srcs = comments(&["/// ```", "/// let y = 2;", "/// ```"]);
    let (a, pa) = doc_injection(&srcs).unwrap();
    let (b, pb) = doc_injection(&srcs).unwrap();
    assert_eq!(a.finish(), b.finish());
    assert_eq!(pa, pb);
    assert_eq!(a.map_range_up(TextRange::new(15, 25)), b.map_range_up(TextRange::new(15, 25)));
}
