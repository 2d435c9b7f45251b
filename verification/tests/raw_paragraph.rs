use markdown::{Paragraph, RawParagraph, ToRawParagraphs};

#[test]
fn raw_paragraphs() {
    let input = r#"Neng Li is the President of China!
Nothing is greater than Neng Li!
China is so great under Neng Li!

Donald Trump is a lizard!
Who knew that such a man would be a lizard?
I thought he was human for once!"#;

    let expected_lines: [&[&'static str]; 2] = [
        &[
            "Neng Li is the President of China!",
            "Nothing is greater than Neng Li!",
            "China is so great under Neng Li!",
        ],
        &[
            "Donald Trump is a lizard!",
            "Who knew that such a man would be a lizard?",
            "I thought he was human for once!",
        ],
    ];

    let expected_paragraphs = expected_lines
        .map(|lines| RawParagraph::from_lines(lines.iter().map(|l| l.to_string()).collect()));

    let got_paragraphs = input.to_raw_paragraphs();
    assert_eq!(expected_paragraphs.len(), got_paragraphs.len());
    for (expected, got) in expected_paragraphs.iter().zip(got_paragraphs.iter()) {
        assert_eq!(expected, got);
    }
}

#[test]
fn round_trip_heading() {
    let paragraphs = "# Title".to_raw_paragraphs();
    assert_eq!(paragraphs.len(), 1);
    let built = Paragraph::parse(&paragraphs[0]).unwrap();
    assert_eq!(built.render_html(), "<h1>Title</h1>");
}

#[test]
fn blank_runs_at_either_end_are_dropped() {
    let paragraphs = "\n\n  \nonly one\n\n   ".to_raw_paragraphs();
    assert_eq!(paragraphs.len(), 1);
    assert_eq!(paragraphs[0].lines(), &vec!["only one".to_string()]);
}

#[test]
fn differing_kinds_share_a_paragraph() {
    let paragraphs = "# heading\n- list item\ntext".to_raw_paragraphs();
    assert_eq!(paragraphs.len(), 1);
    assert_eq!(paragraphs[0].lines().len(), 3);
}

#[test]
fn segmenting_rejoined_output_keeps_the_count() {
    let input = "a\nb\n\n\nc\n\nd e f\n";
    let first = input.to_raw_paragraphs();
    let rejoined = first
        .iter()
        .map(|p| p.lines().join("\n"))
        .collect::<Vec<String>>()
        .join("\n\n");
    let second = rejoined.as_str().to_raw_paragraphs();
    assert_eq!(first.len(), second.len());
    for (a, b) in first.iter().zip(second.iter()) {
        assert_eq!(a, b);
    }
}

#[test]
fn carriage_returns_are_stripped_at_line_ends() {
    let paragraphs = "alpha\r\nbeta\r\n\r\ngamma".to_raw_paragraphs();
    assert_eq!(paragraphs.len(), 2);
    assert_eq!(
        paragraphs[0].lines(),
        &vec!["alpha".to_string(), "beta".to_string()]
    );
    assert_eq!(paragraphs[1].lines(), &vec!["gamma".to_string()]);
}
