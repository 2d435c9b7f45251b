//! The paragraph builder and the HTML renderer: one raw paragraph is typed
//! as a whole (unordered list, heading of level 1-3, or flowed text) and
//! rendered to one HTML fragment.
//!
//! List membership is strict on purpose: once the first line commits the
//! paragraph to list form, every line must share the `- ` prefix, and a
//! violation is an error rather than a silent fallback. Embedded content is
//! inserted verbatim, without HTML escaping — a documented limitation.

use vstd::prelude::*;

use crate::line::heading_run;
use crate::segment::RawParagraph;
use crate::text::{
    join_space, join_with_space, lemma_count_prefix, lemma_count_prefix_is, spec_trim, trim_str,
};

verus! {

/// Why building a structured paragraph failed.
#[derive(Debug, PartialEq, Eq, Structural)]
pub enum ParseParagraphError {
    /// The builder was handed a paragraph with no lines at all.
    EmptyParagraphError,
    /// The first line committed the paragraph to list form, but a later
    /// line does not share the `- ` prefix.
    MixedListError,
}

/// The mathematical shape of a structured paragraph.
pub enum ParagraphModel {
    Heading { level: nat, text: Seq<char> },
    UnorderedList { items: Seq<Seq<char>> },
    Text { content: Seq<char> },
}

/// A trimmed line commits to list form when it starts with `- `.
pub open spec fn is_list_line(line: Seq<char>) -> bool {
    let t = spec_trim(line);
    t.len() >= 2 && t[0] == '-' && t[1] == ' '
}

pub open spec fn all_list_lines(ls: Seq<Seq<char>>) -> bool {
    forall|i: int| 0 <= i < ls.len() ==> is_list_line(#[trigger] ls[i])
}

/// A trimmed first line makes the paragraph a heading when it starts with a
/// run of one to three `#` characters followed by a space.
pub open spec fn is_heading_start(t: Seq<char>) -> bool {
    1 <= heading_run(t) <= 3 && heading_run(t) < t.len() && t[heading_run(t) as int] == ' '
}

/// The paragraph-typing rule: lists first (all lines must match once the
/// first commits), then level 1-3 headings on the first line, then flowed
/// text of all lines joined by single spaces.
pub open spec fn spec_build(ls: Seq<Seq<char>>) -> Result<ParagraphModel, ParseParagraphError> {
    if ls.len() == 0 {
        Err(ParseParagraphError::EmptyParagraphError)
    } else if all_list_lines(ls) {
        Ok(
            ParagraphModel::UnorderedList {
                items: ls.map_values(|l: Seq<char>| spec_trim(l).skip(2)),
            },
        )
    } else if is_list_line(ls[0]) {
        Err(ParseParagraphError::MixedListError)
    } else if is_heading_start(spec_trim(ls[0])) {
        let t = spec_trim(ls[0]);
        Ok(
            ParagraphModel::Heading {
                level: heading_run(t),
                text: spec_trim(t.skip(heading_run(t) as int + 1)),
            },
        )
    } else {
        Ok(ParagraphModel::Text { content: spec_trim(join_space(ls)) })
    }
}

/// A paragraph-level semantic value, chosen from the paragraph's lines as a
/// whole.
#[derive(Debug)]
pub enum Paragraph {
    Heading { level: u8, text: String },
    UnorderedList { items: Vec<String> },
    Text { content: String },
}

impl View for Paragraph {
    type V = ParagraphModel;

    open spec fn view(&self) -> ParagraphModel {
        match self {
            Paragraph::Heading { level, text } => ParagraphModel::Heading {
                level: *level as nat,
                text: text@,
            },
            Paragraph::UnorderedList { items } => ParagraphModel::UnorderedList {
                items: items.deep_view(),
            },
            Paragraph::Text { content } => ParagraphModel::Text { content: content@ },
        }
    }
}

impl DeepView for Paragraph {
    type V = ParagraphModel;

    open spec fn deep_view(&self) -> ParagraphModel {
        self.view()
    }
}

fn is_list_line_exec(line: &str) -> (r: bool)
    ensures
        r == is_list_line(line@),
{
    let t = trim_str(line);
    let tn = t.unicode_len();
    tn >= 2 && t.get_char(0) == '-' && t.get_char(1) == ' '
}

impl Paragraph {
    /// Types one raw paragraph. Fails on a zero-line paragraph, and on a
    /// paragraph whose first line commits to list form that a later line
    /// breaks; everything else degrades gracefully to flowed text.
    pub fn parse(p: &RawParagraph) -> (r: Result<Paragraph, ParseParagraphError>)
        ensures
            match r {
                Ok(pg) => spec_build(p@) == Ok::<ParagraphModel, ParseParagraphError>(pg@),
                Err(e) => spec_build(p@) == Err::<ParagraphModel, ParseParagraphError>(e),
            },
    {
        let lines = p.lines();
        let n = lines.len();
        if n == 0 {
            return Err(ParseParagraphError::EmptyParagraphError);
        }
        let mut all_list = true;
        let mut i: usize = 0;
        #[verifier::loop_isolation(false)]
        while i < n
            invariant
                i <= n,
                all_list <==> (forall|k: int| 0 <= k < i ==> is_list_line(#[trigger] p@[k])),
            decreases n - i,
        {
            proof {
                assert(lines.deep_view()[i as int] == lines@[i as int]@);
            }
            if !is_list_line_exec(lines[i].as_str()) {
                all_list = false;
            }
            i = i + 1;
        }
        if all_list {
            let ghost f = |l: Seq<char>| spec_trim(l).skip(2);
            let mut items: Vec<String> = Vec::new();
            let mut j: usize = 0;
            #[verifier::loop_isolation(false)]
            while j < n
                invariant
                    j <= n,
                    all_list_lines(p@),
                    items.deep_view().len() == j,
                    forall|k: int| 0 <= k < j ==> items.deep_view()[k] == spec_trim(p@[k]).skip(2),
                decreases n - j,
            {
                proof {
                    assert(lines.deep_view()[j as int] == lines@[j as int]@);
                    assert(is_list_line(p@[j as int]));
                }
                let ghost prev = items.deep_view();
                let t = trim_str(lines[j].as_str());
                let tn = t.unicode_len();
                let item = t.substring_char(2, tn).to_owned();
                proof {
                    assert(item@ =~= spec_trim(p@[j as int]).skip(2));
                }
                items.push(item);
                proof {
                    assert(items.deep_view() =~= prev.push(item@));
                }
                j = j + 1;
            }
            proof {
                assert(items.deep_view() =~= p@.map_values(f));
            }
            return Ok(Paragraph::UnorderedList { items });
        }
        proof {
            assert(lines.deep_view()[0] == lines@[0]@);
        }
        if is_list_line_exec(lines[0].as_str()) {
            return Err(ParseParagraphError::MixedListError);
        }
        let t = trim_str(lines[0].as_str());
        let tn = t.unicode_len();
        let mut run: usize = 0;
        #[verifier::loop_isolation(false)]
        while run < tn && t.get_char(run) == '#'
            invariant
                run <= tn,
                forall|k: int| 0 <= k < run ==> t@[k] == '#',
            decreases tn - run,
        {
            run = run + 1;
        }
        proof {
            let h = |c: char| c == '#';
            if run < tn {
                assert(!h(t@[run as int]));
            }
            lemma_count_prefix_is(t@, h, run as int);
        }
        if 1 <= run && run <= 3 && run < tn && t.get_char(run) == ' ' {
            let text = trim_str(t.substring_char(run + 1, tn)).to_owned();
            proof {
                assert(is_heading_start(t@));
                assert(t@.subrange(run + 1, tn as int) =~= t@.skip(run + 1));
            }
            return Ok(Paragraph::Heading { level: run as u8, text });
        }
        proof {
            assert(!is_heading_start(t@));
        }
        let joined = join_with_space(lines);
        let content = trim_str(joined.as_str()).to_owned();
        Ok(Paragraph::Text { content })
    }
}

/// Decimal digit characters of a heading level (at most three, since a
/// level fits in one byte).
pub open spec fn digit_char(d: nat) -> char {
    ((0x30 + d) as u8) as char
}

pub open spec fn spec_level_digits(n: nat) -> Seq<char> {
    if n < 10 {
        seq![digit_char(n)]
    } else if n < 100 {
        seq![digit_char(n / 10), digit_char(n % 10)]
    } else {
        seq![digit_char(n / 100), digit_char((n / 10) % 10), digit_char(n % 10)]
    }
}

/// One `<li>` element per item, in order.
pub open spec fn spec_render_items(items: Seq<Seq<char>>) -> Seq<char>
    decreases items.len(),
{
    if items.len() == 0 {
        Seq::empty()
    } else {
        spec_render_items(items.drop_last()) + seq!['<', 'l', 'i', '>'] + items.last() + seq![
            '<',
            '/',
            'l',
            'i',
            '>',
        ]
    }
}

/// The HTML fragment of one structured paragraph: `<h{level}>` for a
/// heading, `<ul>` of `<li>` elements for a list, `<p>` for text.
pub open spec fn spec_render(m: ParagraphModel) -> Seq<char> {
    match m {
        ParagraphModel::Heading { level, text } => seq!['<', 'h'] + spec_level_digits(level)
            + seq!['>'] + text + seq!['<', '/', 'h'] + spec_level_digits(level) + seq!['>'],
        ParagraphModel::UnorderedList { items } => seq!['<', 'u', 'l', '>'] + spec_render_items(
            items,
        ) + seq!['<', '/', 'u', 'l', '>'],
        ParagraphModel::Text { content } => seq!['<', 'p', '>'] + content + seq!['<', '/', 'p', '>'],
    }
}

/// Relies on `String::push`: appends exactly the one character.
#[verifier::external_body]
fn push_char(s: &mut String, c: char)
    ensures
        final(s)@ == old(s)@.push(c),
{
    s.push(c);
}

fn push_level_digits(out: &mut String, n: u8)
    ensures
        final(out)@ == old(out)@ + spec_level_digits(n as nat),
{
    let ghost start = out@;
    if n >= 100 {
        push_char(out, (0x30 + n / 100) as char);
        push_char(out, (0x30 + (n / 10) % 10) as char);
        push_char(out, (0x30 + n % 10) as char);
    } else if n >= 10 {
        push_char(out, (0x30 + n / 10) as char);
        push_char(out, (0x30 + n % 10) as char);
    } else {
        push_char(out, (0x30 + n) as char);
    }
    proof {
        assert(out@ =~= start + spec_level_digits(n as nat));
    }
}

impl Paragraph {
    /// Renders this paragraph to its HTML fragment. Pure and deterministic;
    /// the content is inserted verbatim.
    pub fn render_html(&self) -> (r: String)
        ensures
            r@ == spec_render(self@),
    {
        match self {
            Paragraph::Heading { level, text } => {
                let mut out = String::new();
                out.append("<h");
                push_level_digits(&mut out, *level);
                out.append(">");
                out.append(text.as_str());
                out.append("</h");
                push_level_digits(&mut out, *level);
                out.append(">");
                proof {
                    reveal_strlit("<h");
                    reveal_strlit(">");
                    reveal_strlit("</h");
                    assert("<h"@ =~= seq!['<', 'h']);
                    assert(">"@ =~= seq!['>']);
                    assert("</h"@ =~= seq!['<', '/', 'h']);
                    assert(out@ =~= spec_render(self@));
                }
                out
            },
            Paragraph::UnorderedList { items } => {
                let mut out = String::new();
                out.append("<ul>");
                proof {
                    reveal_strlit("<ul>");
                    assert("<ul>"@ =~= seq!['<', 'u', 'l', '>']);
                    assert(out@ =~= seq!['<', 'u', 'l', '>'] + spec_render_items(
                        items.deep_view().take(0),
                    ));
                }
                let mut i: usize = 0;
                #[verifier::loop_isolation(false)]
                while i < items.len()
                    invariant
                        i <= items.len(),
                        out@ =~= seq!['<', 'u', 'l', '>'] + spec_render_items(
                            items.deep_view().take(i as int),
                        ),
                    decreases items.len() - i,
                {
                    out.append("<li>");
                    out.append(items[i].as_str());
                    out.append("</li>");
                    proof {
                        reveal_strlit("<li>");
                        reveal_strlit("</li>");
                        assert("<li>"@ =~= seq!['<', 'l', 'i', '>']);
                        assert("</li>"@ =~= seq!['<', '/', 'l', 'i', '>']);
                        let dv = items.deep_view();
                        assert(dv.take(i + 1).drop_last() =~= dv.take(i as int));
                        assert(dv.take(i + 1).last() == dv[i as int]);
                        assert(dv[i as int] == items@[i as int]@);
                        assert(out@ =~= seq!['<', 'u', 'l', '>'] + spec_render_items(
                            dv.take(i + 1),
                        ));
                    }
                    i = i + 1;
                }
                out.append("</ul>");
                proof {
                    reveal_strlit("</ul>");
                    assert("</ul>"@ =~= seq!['<', '/', 'u', 'l', '>']);
                    assert(items.deep_view().take(items.len() as int) =~= items.deep_view());
                    assert(out@ =~= spec_render(self@));
                }
                out
            },
            Paragraph::Text { content } => {
                let mut out = String::new();
                out.append("<p>");
                out.append(content.as_str());
                out.append("</p>");
                proof {
                    reveal_strlit("<p>");
                    reveal_strlit("</p>");
                    assert("<p>"@ =~= seq!['<', 'p', '>']);
                    assert("</p>"@ =~= seq!['<', '/', 'p', '>']);
                    assert(out@ =~= spec_render(self@));
                }
                out
            },
        }
    }
}

/// The rendered document body: each paragraph's fragment, concatenated in
/// document order with nothing between.
pub open spec fn spec_render_doc(ms: Seq<ParagraphModel>) -> Seq<char>
    decreases ms.len(),
{
    if ms.len() == 0 {
        Seq::empty()
    } else {
        spec_render_doc(ms.drop_last()) + spec_render(ms.last())
    }
}

/// Renders a whole document: the ordered concatenation of each paragraph's
/// fragment, with no separators.
pub fn render_document(ps: &Vec<Paragraph>) -> (r: String)
    ensures
        r@ == spec_render_doc(ps.deep_view()),
{
    let mut out = String::new();
    let mut i: usize = 0;
    #[verifier::loop_isolation(false)]
    while i < ps.len()
        invariant
            i <= ps.len(),
            out@ =~= spec_render_doc(ps.deep_view().take(i as int)),
        decreases ps.len() - i,
    {
        let frag = ps[i].render_html();
        out.append(frag.as_str());
        proof {
            let dv = ps.deep_view();
            assert(dv.take(i + 1).drop_last() =~= dv.take(i as int));
            assert(dv.take(i + 1).last() == dv[i as int]);
            assert(dv[i as int] == ps@[i as int]@);
            assert(out@ =~= spec_render_doc(dv.take(i + 1)));
        }
        i = i + 1;
    }
    proof {
        assert(ps.deep_view().take(ps.len() as int) =~= ps.deep_view());
    }
    out
}

/// Law: a paragraph whose first trimmed line is a run of one to three `#`
/// characters followed by a space is typed as a heading at exactly that
/// level, its text the remainder of that line trimmed.
pub proof fn lemma_heading_paragraph(ls: Seq<Seq<char>>)
    requires
        ls.len() > 0,
        is_heading_start(spec_trim(ls[0])),
    ensures
        spec_build(ls) == Ok::<ParagraphModel, ParseParagraphError>(
            ParagraphModel::Heading {
                level: heading_run(spec_trim(ls[0])),
                text: spec_trim(spec_trim(ls[0]).skip(heading_run(spec_trim(ls[0])) as int + 1)),
            },
        ),
{
    let t = spec_trim(ls[0]);
    lemma_count_prefix(t, |c: char| c == '#');
    assert(t[0] == '#');
    assert(!is_list_line(ls[0]));
    assert(!all_list_lines(ls));
}

/// Law: four or more leading `#` characters on the first line are not a
/// paragraph-level heading; such a paragraph is typed as plain text.
pub proof fn lemma_deep_heading_is_text(ls: Seq<Seq<char>>)
    requires
        ls.len() > 0,
        heading_run(spec_trim(ls[0])) >= 4,
    ensures
        spec_build(ls) == Ok::<ParagraphModel, ParseParagraphError>(
            ParagraphModel::Text { content: spec_trim(join_space(ls)) },
        ),
{
    let t = spec_trim(ls[0]);
    lemma_count_prefix(t, |c: char| c == '#');
    assert(t[0] == '#');
    assert(!is_list_line(ls[0]));
    assert(!all_list_lines(ls));
    assert(!is_heading_start(t));
}

/// Law: when every trimmed line of a non-empty paragraph starts with `- `,
/// the paragraph is an unordered list with exactly one item per line, each
/// item its trimmed line with the two-character prefix removed.
pub proof fn lemma_list_paragraph(ls: Seq<Seq<char>>)
    requires
        ls.len() > 0,
        all_list_lines(ls),
    ensures
        spec_build(ls) == Ok::<ParagraphModel, ParseParagraphError>(
            ParagraphModel::UnorderedList {
                items: ls.map_values(|l: Seq<char>| spec_trim(l).skip(2)),
            },
        ),
        ls.map_values(|l: Seq<char>| spec_trim(l).skip(2)).len() == ls.len(),
        forall|i: int|
            0 <= i < ls.len() ==> ls.map_values(|l: Seq<char>| spec_trim(l).skip(2))[i]
                == spec_trim(#[trigger] ls[i]).skip(2),
{
}

/// Law: a document of no paragraphs renders to the empty body.
pub proof fn lemma_empty_document_renders_nothing()
    ensures
        spec_render_doc(Seq::<ParagraphModel>::empty()) == Seq::<char>::empty(),
{
}

} // verus!
