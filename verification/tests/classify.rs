use markdown::{classify_line, Line, RawParagraph};

#[test]
fn ordered_marker_needs_the_dot() {
    match classify_line("1. First") {
        Line::OrderedListItem { content, indents, number } => {
            assert_eq!(content, "1. First");
            assert_eq!(indents, 0);
            assert_eq!(number, 1);
        },
        other => panic!("expected an ordered list item, got {:?}", other),
    }
    assert!(matches!(classify_line("1 First"), Line::NormalLine { .. }));
}

#[test]
fn heading_depth_is_unbounded_per_line() {
    match classify_line("##### five deep") {
        Line::Heading { level, .. } => assert_eq!(level, 5),
        other => panic!("expected a heading, got {:?}", other),
    }
    // Even without a following space the line classifier sees a heading.
    assert!(matches!(classify_line("#tight"), Line::Heading { level: 1, .. }));
}

#[test]
fn list_indentation_is_counted_untrimmed() {
    match classify_line("   - indented") {
        Line::UnorderedListItem { content, indents } => {
            assert_eq!(content, "   - indented");
            assert_eq!(indents, 3);
        },
        other => panic!("expected an unordered list item, got {:?}", other),
    }
}

#[test]
fn ordinal_values_and_overflow_default() {
    assert!(matches!(
        classify_line("12. twelfth"),
        Line::OrderedListItem { number: 12, .. }
    ));
    assert!(matches!(
        classify_line("007. bond"),
        Line::OrderedListItem { number: 7, .. }
    ));
    // 2^32 does not fit an ordinal; the parse fails and 1 is the default.
    assert!(matches!(
        classify_line("4294967296. huge"),
        Line::OrderedListItem { number: 1, .. }
    ));
    assert!(matches!(
        classify_line("4294967295. max"),
        Line::OrderedListItem { number: 4294967295, .. }
    ));
}

#[test]
fn digits_without_dot_are_normal() {
    assert!(matches!(classify_line("2024 was a year"), Line::NormalLine { .. }));
    assert!(matches!(classify_line("plain words"), Line::NormalLine { .. }));
    assert!(matches!(classify_line(""), Line::NormalLine { .. }));
}

#[test]
fn oversized_counts_clamp() {
    let deep = "#".repeat(300) + " far too deep";
    match classify_line(deep.as_str()) {
        Line::Heading { level, .. } => assert_eq!(level, 255),
        other => panic!("expected a heading, got {:?}", other),
    }
    let wide = " ".repeat(300) + "- far too wide";
    match classify_line(wide.as_str()) {
        Line::UnorderedListItem { indents, .. } => assert_eq!(indents, 255),
        other => panic!("expected an unordered list item, got {:?}", other),
    }
}

#[test]
fn classify_whole_paragraph() {
    let lines = vec![
        "# head".to_string(),
        "- item".to_string(),
        "3. third".to_string(),
        "tail".to_string(),
    ];
    let classified = RawParagraph::from_lines(lines).to_line_paragraph();
    let got = classified.lines();
    assert_eq!(got.len(), 4);
    assert!(matches!(got[0], Line::Heading { level: 1, .. }));
    assert!(matches!(got[1], Line::UnorderedListItem { indents: 0, .. }));
    assert!(matches!(got[2], Line::OrderedListItem { number: 3, .. }));
    assert!(matches!(got[3], Line::NormalLine { .. }));
}
