//! The line classifier: one line of text is assigned exactly one semantic
//! kind, with its metadata (heading level, list indentation, ordinal).
//! Unlike the paragraph builder, this path counts heading markers without an
//! upper bound on depth.

use vstd::prelude::*;

use crate::segment::RawParagraph;
use crate::text::{
    count_prefix, is_space, is_space_char, leading_ws, lemma_count_prefix_is, spec_trim, trim_str,
};

verus! {

pub open spec fn is_digit_char(c: char) -> bool {
    0x30 <= c as u32 && c as u32 <= 0x39
}

pub open spec fn digit_val(c: char) -> nat {
    ((c as u32) - 0x30) as nat
}

/// Base-10 value of a run of digit characters.
pub open spec fn digits_value(s: Seq<char>) -> nat
    decreases s.len(),
{
    if s.len() == 0 {
        0
    } else {
        digits_value(s.drop_last()) * 10 + digit_val(s.last())
    }
}

/// Values that would not fit in the classifier's counters clamp to the
/// largest representable one rather than failing.
pub open spec fn clamp_u8(n: nat) -> nat {
    if n > 255 {
        255
    } else {
        n
    }
}

/// Count of consecutive leading `#` characters.
pub open spec fn heading_run(t: Seq<char>) -> nat {
    count_prefix(t, |c: char| c == '#')
}

/// Count of consecutive leading ASCII digits.
pub open spec fn digit_run(t: Seq<char>) -> nat {
    count_prefix(t, |c: char| is_digit_char(c))
}

/// The ordinal an ordered-list marker carries: the value of its digit run,
/// or 1 when that value does not fit in the ordinal's type.
pub open spec fn ordinal_of(t: Seq<char>) -> nat {
    let v = digits_value(t.take(digit_run(t) as int));
    if v <= 0xffff_ffff {
        v
    } else {
        1
    }
}

/// The mathematical shape of a classified line.
pub enum LineModel {
    NormalLine { content: Seq<char> },
    Heading { content: Seq<char>, level: nat },
    UnorderedListItem { content: Seq<char>, indents: nat },
    OrderedListItem { content: Seq<char>, indents: nat, number: nat },
}

/// The classification rules, checked in precedence order against the
/// trimmed line; `content` always keeps the original, untrimmed line, and
/// indentation is counted on that untrimmed line.
pub open spec fn spec_classify(line: Seq<char>) -> LineModel {
    let t = spec_trim(line);
    if t.len() > 0 && t[0] == '#' {
        LineModel::Heading { content: line, level: clamp_u8(heading_run(t)) }
    } else if t.len() > 0 && t[0] == '-' {
        LineModel::UnorderedListItem { content: line, indents: clamp_u8(leading_ws(line)) }
    } else if t.len() > 0 && is_digit_char(t[0]) {
        if digit_run(t) < t.len() && t[digit_run(t) as int] == '.' {
            LineModel::OrderedListItem {
                content: line,
                indents: clamp_u8(leading_ws(line)),
                number: ordinal_of(t),
            }
        } else {
            LineModel::NormalLine { content: line }
        }
    } else {
        LineModel::NormalLine { content: line }
    }
}

/// One line tagged with its semantic kind and extracted metadata.
#[derive(Debug)]
pub enum Line {
    NormalLine { content: String },
    Heading { content: String, level: u8 },
    UnorderedListItem { content: String, indents: u8 },
    OrderedListItem { content: String, indents: u8, number: u32 },
}

impl View for Line {
    type V = LineModel;

    open spec fn view(&self) -> LineModel {
        match self {
            Line::NormalLine { content } => LineModel::NormalLine { content: content@ },
            Line::Heading { content, level } => LineModel::Heading {
                content: content@,
                level: *level as nat,
            },
            Line::UnorderedListItem { content, indents } => LineModel::UnorderedListItem {
                content: content@,
                indents: *indents as nat,
            },
            Line::OrderedListItem { content, indents, number } => LineModel::OrderedListItem {
                content: content@,
                indents: *indents as nat,
                number: *number as nat,
            },
        }
    }
}

impl DeepView for Line {
    type V = LineModel;

    open spec fn deep_view(&self) -> LineModel {
        self.view()
    }
}

fn is_digit(c: char) -> (r: bool)
    ensures
        r == is_digit_char(c),
{
    let u = c as u32;
    0x30 <= u && u <= 0x39
}

fn leading_ws_count(s: &str) -> (n: usize)
    ensures
        n == leading_ws(s@),
{
    let sn = s.unicode_len();
    let mut i: usize = 0;
    #[verifier::loop_isolation(false)]
    while i < sn && is_space(s.get_char(i))
        invariant
            i <= sn,
            forall|k: int| 0 <= k < i ==> is_space_char(s@[k]),
        decreases sn - i,
    {
        i = i + 1;
    }
    proof {
        let p = |c: char| is_space_char(c);
        if i < sn {
            assert(!p(s@[i as int]));
        }
        lemma_count_prefix_is(s@, p, i as int);
    }
    i
}

/// The digit run's value, or 1 when it overflows the ordinal's type.
fn parse_ordinal(t: &str, run: usize) -> (n: u32)
    requires
        run == digit_run(t@),
        run <= t@.len(),
    ensures
        n as nat == ordinal_of(t@),
{
    proof {
        crate::text::lemma_count_prefix(t@, |c: char| is_digit_char(c));
    }
    let mut val: u64 = 0;
    let mut over = false;
    let mut i: usize = 0;
    #[verifier::loop_isolation(false)]
    while i < run
        invariant
            i <= run,
            !over ==> val as nat == digits_value(t@.take(i as int)) && val <= 0xffff_ffff,
            over ==> digits_value(t@.take(i as int)) > 0xffff_ffff,
        decreases run - i,
    {
        let c = t.get_char(i);
        assert(is_digit_char(c));
        let d = (c as u32) - 0x30;
        proof {
            assert(t@.take(i + 1).drop_last() =~= t@.take(i as int));
            assert(t@.take(i + 1).last() == t@[i as int]);
            assert(digits_value(t@.take(i + 1)) == digits_value(t@.take(i as int)) * 10 + digit_val(
                c,
            ));
        }
        if !over {
            val = val * 10 + d as u64;
            if val > 0xffff_ffff {
                over = true;
            }
        } else {
            proof {
                assert(digits_value(t@.take(i + 1)) >= digits_value(t@.take(i as int)));
            }
        }
        i = i + 1;
    }
    proof {
        assert(t@.take(run as int) == t@.take(digit_run(t@) as int));
    }
    if over {
        1
    } else {
        val as u32
    }
}

/// Assigns one line its semantic kind; every line classifies to exactly one
/// variant, malformed input degrading (clamped level and indentation,
/// defaulted ordinal) rather than failing.
pub fn classify_line(line: &str) -> (l: Line)
    ensures
        l@ == spec_classify(line@),
{
    let t = trim_str(line);
    let tn = t.unicode_len();
    if tn > 0 && t.get_char(0) == '#' {
        let mut i: usize = 0;
        #[verifier::loop_isolation(false)]
        while i < tn && t.get_char(i) == '#'
            invariant
                i <= tn,
                forall|k: int| 0 <= k < i ==> t@[k] == '#',
            decreases tn - i,
        {
            i = i + 1;
        }
        proof {
            let p = |c: char| c == '#';
            if i < tn {
                assert(!p(t@[i as int]));
            }
            lemma_count_prefix_is(t@, p, i as int);
        }
        let level: u8 = if i > 255 {
            255
        } else {
            i as u8
        };
        Line::Heading { content: line.to_owned(), level }
    } else if tn > 0 && t.get_char(0) == '-' {
        let ind = leading_ws_count(line);
        let indents: u8 = if ind > 255 {
            255
        } else {
            ind as u8
        };
        Line::UnorderedListItem { content: line.to_owned(), indents }
    } else if tn > 0 && is_digit(t.get_char(0)) {
        let mut i: usize = 0;
        #[verifier::loop_isolation(false)]
        while i < tn && is_digit(t.get_char(i))
            invariant
                i <= tn,
                forall|k: int| 0 <= k < i ==> is_digit_char(t@[k]),
            decreases tn - i,
        {
            i = i + 1;
        }
        proof {
            let p = |c: char| is_digit_char(c);
            if i < tn {
                assert(!p(t@[i as int]));
            }
            lemma_count_prefix_is(t@, p, i as int);
        }
        if i < tn && t.get_char(i) == '.' {
            let number = parse_ordinal(t, i);
            let ind = leading_ws_count(line);
            let indents: u8 = if ind > 255 {
                255
            } else {
                ind as u8
            };
            Line::OrderedListItem { content: line.to_owned(), indents, number }
        } else {
            Line::NormalLine { content: line.to_owned() }
        }
    } else {
        Line::NormalLine { content: line.to_owned() }
    }
}

/// A paragraph's lines, each classified on its own.
#[derive(Debug)]
pub struct LineParagraph {
    lines: Vec<Line>,
}

impl View for LineParagraph {
    type V = Seq<LineModel>;

    closed spec fn view(&self) -> Seq<LineModel> {
        self.lines.deep_view()
    }
}

impl LineParagraph {
    /// The classified lines, in the paragraph's order.
    pub fn lines(&self) -> (r: &Vec<Line>)
        ensures
            r.deep_view() == self@,
    {
        &self.lines
    }
}

impl RawParagraph {
    /// Classifies each line of the paragraph, keeping the paragraph's
    /// order.
    pub fn to_line_paragraph(&self) -> (r: LineParagraph)
        ensures
            r@ == self@.map_values(|l: Seq<char>| spec_classify(l)),
    {
        let lines = self.lines();
        let mut out: Vec<Line> = Vec::new();
        let mut i: usize = 0;
        #[verifier::loop_isolation(false)]
        while i < lines.len()
            invariant
                i <= lines.len(),
                lines.deep_view() == self@,
                out.deep_view().len() == i,
                forall|k: int| 0 <= k < i ==> out.deep_view()[k] == spec_classify(self@[k]),
            decreases lines.len() - i,
        {
            let ghost prev = out.deep_view();
            let l = classify_line(lines[i].as_str());
            proof {
                assert(lines.deep_view()[i as int] == lines@[i as int]@);
            }
            out.push(l);
            proof {
                assert(out.deep_view() =~= prev.push(l@));
            }
            i = i + 1;
        }
        proof {
            assert(out.deep_view() =~= self@.map_values(|l: Seq<char>| spec_classify(l)));
        }
        LineParagraph { lines: out }
    }
}

} // verus!
