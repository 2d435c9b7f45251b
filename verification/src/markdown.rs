//! The flat per-line path: every line of the document, blank ones
//! included, becomes one element — a level 1-3 header when its trimmed form
//! starts `# `, `## ` or `### `, otherwise a plain paragraph — and the
//! document renders as the concatenation of the elements' fragments.

use vstd::prelude::*;

use crate::text::{spec_lines, spec_trim, split_lines, trim_str};

verus! {

/// The mathematical shape of one flat element.
pub enum ElementModel {
    Paragraph { text: Seq<char> },
    Header1 { text: Seq<char> },
    Header2 { text: Seq<char> },
    Header3 { text: Seq<char> },
}

/// The flat rule: a trimmed line starting `# `, `## ` or `### ` is a header
/// of that level with the marker stripped; any other line is a paragraph
/// holding the trimmed line.
pub open spec fn spec_classify_flat(line: Seq<char>) -> ElementModel {
    let t = spec_trim(line);
    if t.len() >= 2 && t[0] == '#' && t[1] == ' ' {
        ElementModel::Header1 { text: t.skip(2) }
    } else if t.len() >= 3 && t[0] == '#' && t[1] == '#' && t[2] == ' ' {
        ElementModel::Header2 { text: t.skip(3) }
    } else if t.len() >= 4 && t[0] == '#' && t[1] == '#' && t[2] == '#' && t[3] == ' ' {
        ElementModel::Header3 { text: t.skip(4) }
    } else {
        ElementModel::Paragraph { text: t }
    }
}

/// The HTML fragment of one flat element.
pub open spec fn spec_render_flat(e: ElementModel) -> Seq<char> {
    match e {
        ElementModel::Paragraph { text } => seq!['<', 'p', '>'] + text + seq!['<', '/', 'p', '>'],
        ElementModel::Header1 { text } => seq!['<', 'h', '1', '>'] + text + seq![
            '<',
            '/',
            'h',
            '1',
            '>',
        ],
        ElementModel::Header2 { text } => seq!['<', 'h', '2', '>'] + text + seq![
            '<',
            '/',
            'h',
            '2',
            '>',
        ],
        ElementModel::Header3 { text } => seq!['<', 'h', '3', '>'] + text + seq![
            '<',
            '/',
            'h',
            '3',
            '>',
        ],
    }
}

/// The rendered flat document: each element's fragment, concatenated in
/// order with nothing between.
pub open spec fn spec_render_flat_doc(es: Seq<ElementModel>) -> Seq<char>
    decreases es.len(),
{
    if es.len() == 0 {
        Seq::empty()
    } else {
        spec_render_flat_doc(es.drop_last()) + spec_render_flat(es.last())
    }
}

enum ElementType {
    Paragraph,
    Header1,
    Header2,
    Header3,
}

struct Element {
    element_type: ElementType,
    text: String,
}

impl Element {
    spec fn model(&self) -> ElementModel {
        match self.element_type {
            ElementType::Paragraph => ElementModel::Paragraph { text: self.text@ },
            ElementType::Header1 => ElementModel::Header1 { text: self.text@ },
            ElementType::Header2 => ElementModel::Header2 { text: self.text@ },
            ElementType::Header3 => ElementModel::Header3 { text: self.text@ },
        }
    }
}

/// A document parsed under the flat per-line rule.
pub struct Markdown {
    elements: Vec<Element>,
}

impl View for Markdown {
    type V = Seq<ElementModel>;

    closed spec fn view(&self) -> Seq<ElementModel> {
        Seq::new(self.elements@.len(), |i: int| self.elements@[i].model())
    }
}

/// Why a document could not be obtained from outside input.
#[derive(Debug)]
pub enum MarkdownError {
    FileReadError,
}

impl Markdown {
    /// Parses a whole document line by line under the flat rule; every
    /// line, blank ones included, yields exactly one element.
    pub fn from_str(contents: &str) -> (md: Markdown)
        ensures
            md@ == spec_lines(contents@).map_values(|l: Seq<char>| spec_classify_flat(l)),
    {
        let lines = split_lines(contents);
        let ghost ls = lines.deep_view();
        let mut elements: Vec<Element> = Vec::new();
        let mut i: usize = 0;
        #[verifier::loop_isolation(false)]
        while i < lines.len()
            invariant
                i <= lines.len(),
                ls == lines.deep_view(),
                elements@.len() == i,
                forall|k: int|
                    0 <= k < i ==> (#[trigger] elements@[k]).model() == spec_classify_flat(ls[k]),
            decreases lines.len() - i,
        {
            proof {
                assert(ls[i as int] == lines@[i as int]@);
            }
            let t = trim_str(lines[i].as_str());
            let tn = t.unicode_len();
            let e: Element = if tn >= 2 && t.get_char(0) == '#' && t.get_char(1) == ' ' {
                let text = t.substring_char(2, tn).to_owned();
                proof {
                    assert(text@ =~= spec_trim(ls[i as int]).skip(2));
                }
                Element { element_type: ElementType::Header1, text }
            } else if tn >= 3 && t.get_char(0) == '#' && t.get_char(1) == '#' && t.get_char(2)
                == ' ' {
                let text = t.substring_char(3, tn).to_owned();
                proof {
                    assert(text@ =~= spec_trim(ls[i as int]).skip(3));
                }
                Element { element_type: ElementType::Header2, text }
            } else if tn >= 4 && t.get_char(0) == '#' && t.get_char(1) == '#' && t.get_char(2)
                == '#' && t.get_char(3) == ' ' {
                let text = t.substring_char(4, tn).to_owned();
                proof {
                    assert(text@ =~= spec_trim(ls[i as int]).skip(4));
                }
                Element { element_type: ElementType::Header3, text }
            } else {
                Element { element_type: ElementType::Paragraph, text: t.to_owned() }
            };
            proof {
                assert(e.model() == spec_classify_flat(ls[i as int]));
            }
            elements.push(e);
            i = i + 1;
        }
        let md = Markdown { elements };
        proof {
            assert(md@ =~= ls.map_values(|l: Seq<char>| spec_classify_flat(l)));
        }
        md
    }

    /// Renders the document: one fragment per element, in order.
    pub fn to_html(&self) -> (r: String)
        ensures
            r@ == spec_render_flat_doc(self@),
    {
        let mut result = String::new();
        let mut i: usize = 0;
        proof {
            assert(self@.take(0) =~= Seq::<ElementModel>::empty());
        }
        #[verifier::loop_isolation(false)]
        while i < self.elements.len()
            invariant
                i <= self.elements.len(),
                self.elements.len() == self@.len(),
                result@ =~= spec_render_flat_doc(self@.take(i as int)),
            decreases self.elements.len() - i,
        {
            let e = &self.elements[i];
            proof {
                assert(self@[i as int] == self.elements@[i as int].model());
            }
            match e.element_type {
                ElementType::Paragraph => {
                    result.append("<p>");
                    result.append(e.text.as_str());
                    result.append("</p>");
                    proof {
                        reveal_strlit("<p>");
                        reveal_strlit("</p>");
                        assert("<p>"@ =~= seq!['<', 'p', '>']);
                        assert("</p>"@ =~= seq!['<', '/', 'p', '>']);
                    }
                },
                ElementType::Header1 => {
                    result.append("<h1>");
                    result.append(e.text.as_str());
                    result.append("</h1>");
                    proof {
                        reveal_strlit("<h1>");
                        reveal_strlit("</h1>");
                        assert("<h1>"@ =~= seq!['<', 'h', '1', '>']);
                        assert("</h1>"@ =~= seq!['<', '/', 'h', '1', '>']);
                    }
                },
                ElementType::Header2 => {
                    result.append("<h2>");
                    result.append(e.text.as_str());
                    result.append("</h2>");
                    proof {
                        reveal_strlit("<h2>");
                        reveal_strlit("</h2>");
                        assert("<h2>"@ =~= seq!['<', 'h', '2', '>']);
                        assert("</h2>"@ =~= seq!['<', '/', 'h', '2', '>']);
                    }
                },
                ElementType::Header3 => {
                    result.append("<h3>");
                    result.append(e.text.as_str());
                    result.append("</h3>");
                    proof {
                        reveal_strlit("<h3>");
                        reveal_strlit("</h3>");
                        assert("<h3>"@ =~= seq!['<', 'h', '3', '>']);
                        assert("</h3>"@ =~= seq!['<', '/', 'h', '3', '>']);
                    }
                },
            }
            proof {
                assert(self@.take(i + 1).drop_last() =~= self@.take(i as int));
                assert(self@.take(i + 1).last() == self@[i as int]);
                assert(result@ =~= spec_render_flat_doc(self@.take(i + 1)));
            }
            i = i + 1;
        }
        proof {
            assert(self@.take(self@.len() as int) =~= self@);
        }
        result
    }
}

} // verus!
