use markdown::Markdown;

#[test]
fn flat_headers_and_paragraphs() {
    let md = Markdown::from_str("# Title\nSome text\n## Sub\n### Deep");
    assert_eq!(
        md.to_html(),
        "<h1>Title</h1><p>Some text</p><h2>Sub</h2><h3>Deep</h3>"
    );
}

#[test]
fn flat_blank_lines_become_empty_paragraphs() {
    let md = Markdown::from_str("alpha\n\nbeta\n");
    assert_eq!(md.to_html(), "<p>alpha</p><p></p><p>beta</p>");
}

#[test]
fn flat_marker_without_space_stays_text() {
    let md = Markdown::from_str("#Title\n####    Deep");
    assert_eq!(md.to_html(), "<p>#Title</p><p>####    Deep</p>");
}

#[test]
fn flat_lines_are_trimmed() {
    let md = Markdown::from_str("   # Indented Title   \n  padded  ");
    assert_eq!(md.to_html(), "<h1>Indented Title</h1><p>padded</p>");
}

#[test]
fn flat_empty_document() {
    let md = Markdown::from_str("");
    assert_eq!(md.to_html(), "");
}
