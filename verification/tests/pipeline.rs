use markdown::{lines_to_paragraphs, render_document, Paragraph, ParseParagraphError};

#[test]
fn basic_sanity_test() {
    let input = r#"
# Title

## Second Title

### Third Title

Regular Paragraph
        "#;

    let raw_paragraphs = lines_to_paragraphs(input.lines().map(|l| l.to_string()).collect());
    let paragraphs = raw_paragraphs
        .iter()
        .map(|paragraph| Paragraph::parse(paragraph).unwrap())
        .collect::<Vec<Paragraph>>();

    assert_eq!(paragraphs[0].render_html(), "<h1>Title</h1>");
    assert_eq!(paragraphs[1].render_html(), "<h2>Second Title</h2>");
    assert_eq!(paragraphs[2].render_html(), "<h3>Third Title</h3>");
    assert_eq!(paragraphs[3].render_html(), "<p>Regular Paragraph</p>");
}

#[test]
fn unordered_bullet_list() {
    let input = r#"
- Neng Li is the President of China
- Shiva Deshpande is the King of the Universe
- Mazin Ahmed Ghizali is a communist
- Joseph Stalin is not white
        "#;

    let raw_paragraphs = lines_to_paragraphs(input.lines().map(|l| l.to_string()).collect());
    let paragraphs = raw_paragraphs
        .iter()
        .map(|paragraph| Paragraph::parse(paragraph).unwrap())
        .collect::<Vec<Paragraph>>();

    let expected_output = "<ul>".to_string()
        + "<li>Neng Li is the President of China</li>"
        + "<li>Shiva Deshpande is the King of the Universe</li>"
        + "<li>Mazin Ahmed Ghizali is a communist</li>"
        + "<li>Joseph Stalin is not white</li>"
        + "</ul>";
    assert_eq!(paragraphs.first().unwrap().render_html(), expected_output);
}

#[test]
fn four_paragraph_document() {
    let input = "# Title\n\n## Second\n\n### Third\n\nPlain text";
    let raw_paragraphs = lines_to_paragraphs(input.lines().map(|l| l.to_string()).collect());
    assert_eq!(raw_paragraphs.len(), 4);
    let paragraphs = raw_paragraphs
        .iter()
        .map(|paragraph| Paragraph::parse(paragraph).unwrap())
        .collect::<Vec<Paragraph>>();
    let body = render_document(&paragraphs);
    assert_eq!(
        body,
        "<h1>Title</h1><h2>Second</h2><h3>Third</h3><p>Plain text</p>"
    );
}

#[test]
fn list_of_four_items_in_order() {
    let input = "intro\n\n- first\n- second\n- third\n- fourth\n\noutro";
    let raw_paragraphs = lines_to_paragraphs(input.lines().map(|l| l.to_string()).collect());
    assert_eq!(raw_paragraphs.len(), 3);
    let list = Paragraph::parse(&raw_paragraphs[1]).unwrap();
    assert_eq!(
        list.render_html(),
        "<ul><li>first</li><li>second</li><li>third</li><li>fourth</li></ul>"
    );
}

#[test]
fn empty_input_yields_nothing() {
    let no_lines: Vec<String> = Vec::new();
    assert_eq!(lines_to_paragraphs(no_lines).len(), 0);

    let blank_lines = "   \n\n\t\n".lines().map(|l| l.to_string()).collect();
    assert_eq!(lines_to_paragraphs(blank_lines).len(), 0);

    let no_paragraphs: Vec<Paragraph> = Vec::new();
    assert_eq!(render_document(&no_paragraphs), "");
}

#[test]
fn multi_line_text_flows_into_one() {
    let lines = vec!["first line".to_string(), "  second line  ".to_string()];
    let raw_paragraphs = lines_to_paragraphs(lines);
    assert_eq!(raw_paragraphs.len(), 1);
    let paragraph = Paragraph::parse(&raw_paragraphs[0]).unwrap();
    assert_eq!(paragraph.render_html(), "<p>first line   second line</p>");
}

#[test]
fn mixed_list_is_an_error() {
    let lines = vec!["- first".to_string(), "not a list line".to_string()];
    let raw_paragraphs = lines_to_paragraphs(lines);
    assert_eq!(raw_paragraphs.len(), 1);
    let got = Paragraph::parse(&raw_paragraphs[0]);
    assert_eq!(got.unwrap_err(), ParseParagraphError::MixedListError);
}

#[test]
fn empty_paragraph_is_an_error() {
    let empty = markdown::RawParagraph::from_lines(Vec::new());
    let got = Paragraph::parse(&empty);
    assert_eq!(got.unwrap_err(), ParseParagraphError::EmptyParagraphError);
}

#[test]
fn deep_heading_marker_is_text() {
    let lines = vec!["#### too deep".to_string()];
    let paragraph = Paragraph::parse(&lines_to_paragraphs(lines)[0]).unwrap();
    assert_eq!(paragraph.render_html(), "<p>#### too deep</p>");
}

#[test]
fn heading_marker_needs_a_space() {
    let lines = vec!["#Title".to_string()];
    let paragraph = Paragraph::parse(&lines_to_paragraphs(lines)[0]).unwrap();
    assert_eq!(paragraph.render_html(), "<p>#Title</p>");
}

#[test]
fn heading_text_is_trimmed() {
    let lines = vec!["  ##   Second Title \t".to_string()];
    let paragraph = Paragraph::parse(&lines_to_paragraphs(lines)[0]).unwrap();
    assert_eq!(paragraph.render_html(), "<h2>Second Title</h2>");
}

#[test]
fn rendered_heading_level_in_digits() {
    let one = Paragraph::Heading { level: 7, text: "a".to_string() };
    assert_eq!(one.render_html(), "<h7>a</h7>");
    let two = Paragraph::Heading { level: 42, text: "b".to_string() };
    assert_eq!(two.render_html(), "<h42>b</h42>");
    let three = Paragraph::Heading { level: 255, text: "c".to_string() };
    assert_eq!(three.render_html(), "<h255>c</h255>");
}

#[test]
fn list_items_keep_inner_spacing() {
    let lines = vec!["-  spaced  item ".to_string()];
    let paragraph = Paragraph::parse(&lines_to_paragraphs(lines)[0]).unwrap();
    assert_eq!(paragraph.render_html(), "<ul><li> spaced  item</li></ul>");
}
