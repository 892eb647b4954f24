//! One line of a Leaflet document: its absolute line number, its raw
//! text, and the comment-stripped, trimmed variant every classification
//! works on.

use vstd::prelude::*;

use crate::text;

verus! {

/// Everything from the first `//` on is comment; what classification
/// sees is the rest, trimmed.
pub open spec fn clean_spec(s: Seq<u8>) -> Seq<u8> {
    text::trim_spec(s.take(text::find_sub_spec(s, text::str_bytes("//"))))
}

/// Spec-level shape of a line.
pub struct LineModel {
    pub number: int,
    pub text: Seq<u8>,
    pub clean: Seq<u8>,
}

/// The line a numbered stretch of text turns into.
pub open spec fn line_model(number: int, s: Seq<u8>) -> LineModel {
    LineModel { number, text: s, clean: clean_spec(s) }
}

/// Whether a line separates sections: exactly `---` after trimming the
/// raw text.
pub open spec fn is_separator(l: LineModel) -> bool {
    text::trim_spec(l.text) == seq![45u8, 45u8, 45u8]
}

#[derive(Debug)]
pub struct Line {
    pub absolute_line_number: usize,
    pub text: Vec<u8>,
    pub text_without_comments: Vec<u8>,
}

impl View for Line {
    type V = LineModel;

    open spec fn view(&self) -> LineModel {
        LineModel {
            number: self.absolute_line_number as int,
            text: self.text@,
            clean: self.text_without_comments@,
        }
    }
}

impl Clone for Line {
    fn clone(&self) -> (res: Self)
        ensures
            res@ == self@,
    {
        Line {
            absolute_line_number: self.absolute_line_number,
            text: self.text.clone(),
            text_without_comments: self.text_without_comments.clone(),
        }
    }
}

impl Line {
    pub fn new(absolute_line_number: usize, text: Vec<u8>) -> (r: Line)
        ensures
            r@ == line_model(absolute_line_number as int, text@),
    {
        proof {
            reveal_strlit("//");
        }
        let comment_pat = text::lit_bytes("//");
        let comment_at = text::find_sub(text.as_slice(), comment_pat);
        let before_comment = text::subrange_vec(text.as_slice(), 0, comment_at);
        let text_without_comments = text::trim(before_comment.as_slice());
        proof {
            assert(before_comment@ =~= text@.take(text::find_sub_spec(text@, text::str_bytes("//"))));
        }
        Line { absolute_line_number, text, text_without_comments }
    }

    pub fn is_section_separator(&self) -> (r: bool)
        ensures
            r == is_separator(self@),
    {
        let trimmed = text::trim(self.text.as_slice());
        if trimmed.len() == 3 {
            let r = trimmed[0] == 45 && trimmed[1] == 45 && trimmed[2] == 45;
            proof {
                if r {
                    assert(trimmed@ =~= seq![45u8, 45u8, 45u8]);
                } else {
                    assert(trimmed@ != seq![45u8, 45u8, 45u8]);
                }
            }
            r
        } else {
            proof {
                assert(trimmed@ != seq![45u8, 45u8, 45u8]);
            }
            false
        }
    }
}

} // verus!
