//! A contiguous run of lines between section separators, with its
//! starting line number and its newline-joined text.

use vstd::prelude::*;

use crate::leaflet::line::Line;
use crate::leaflet::line::LineModel;
use crate::text;

verus! {

/// Spec-level shape of a raw section.
pub struct RawSectionModel {
    pub start: int,
    pub lines: Seq<LineModel>,
    pub text: Seq<u8>,
}

/// The raw section a nonempty run of lines turns into: its first line's
/// number, the lines, and their texts joined with newlines.
pub open spec fn section_model(lines: Seq<LineModel>) -> RawSectionModel {
    RawSectionModel {
        start: if lines.len() > 0 {
            lines[0].number
        } else {
            0
        },
        lines,
        text: text::join_spec(lines.map_values(|l: LineModel| l.text), seq![10u8]),
    }
}

/// Whether a section takes part in Leaflet parsing: it does not carry
/// the case-insensitive opt-out marker.
pub open spec fn is_leaflet_section_spec(sec: RawSectionModel) -> bool {
    !text::contains_seq(text::lower_spec(sec.text), text::str_bytes("this isn't leaflet"))
}

#[derive(Debug)]
pub struct RawSection {
    pub starting_line_number: usize,
    pub lines: Vec<Line>,
    pub text: Vec<u8>,
}

impl View for RawSection {
    type V = RawSectionModel;

    open spec fn view(&self) -> RawSectionModel {
        RawSectionModel {
            start: self.starting_line_number as int,
            lines: self.lines@.map_values(|l: Line| l@),
            text: self.text@,
        }
    }
}

impl RawSection {
    /// Wraps a nonempty run of lines; the section's text is their texts
    /// joined with newlines.
    pub fn new(lines: Vec<Line>) -> (r: RawSection)
        requires
            lines@.len() > 0,
        ensures
            r@ == section_model(lines@.map_values(|l: Line| l@)),
    {
        let starting_line_number = lines[0].absolute_line_number;
        let ghost lm = lines@.map_values(|l: Line| l@);
        let ghost texts = lm.map_values(|l: LineModel| l.text);
        let mut section_text = text::subrange_vec(lines[0].text.as_slice(), 0, lines[0].text.len());
        proof {
            assert(section_text@ =~= texts[0]);
            assert(texts.take(1) =~= seq![texts[0]]);
            assert(text::join_spec(texts.take(1), seq![10u8]) == texts[0]);
        }
        let mut i: usize = 1;
        while i < lines.len()
            invariant
                1 <= i <= lines@.len(),
                lm == lines@.map_values(|l: Line| l@),
                texts == lm.map_values(|l: LineModel| l.text),
                texts.len() == lines@.len(),
                section_text@ =~= text::join_spec(texts.take(i as int), seq![10u8]),
            decreases lines@.len() - i,
        {
            section_text.push(10);
            let ghost before = section_text@;
            let mut j: usize = 0;
            while j < lines[i].text.len()
                invariant
                    0 <= j <= lines@[i as int].text@.len(),
                    1 <= i < lines@.len(),
                    section_text@ =~= before + lines@[i as int].text@.take(j as int),
                decreases lines@[i as int].text@.len() - j,
            {
                section_text.push(lines[i].text[j]);
                j = j + 1;
            }
            proof {
                assert(lines@[i as int].text@.take(lines@[i as int].text@.len() as int)
                    =~= lines@[i as int].text@);
                assert(texts[i as int] == lines@[i as int].text@);
                text::lemma_join_push(texts.take(i as int), seq![10u8], texts[i as int]);
                assert(texts.take(i as int).push(texts[i as int]) =~= texts.take(i + 1));
                assert(section_text@ =~= text::join_spec(texts.take(i + 1), seq![10u8]));
            }
            i = i + 1;
        }
        proof {
            assert(texts.take(texts.len() as int) =~= texts);
        }
        RawSection { starting_line_number, lines, text: section_text }
    }

    /// Whether this section takes part in Leaflet parsing.
    pub fn is_a_leaflet_section(&self) -> (r: bool)
        ensures
            r == is_leaflet_section_spec(self@),
    {
        proof {
            reveal_strlit("this isn't leaflet");
        }
        let lowered = text::to_lowercase(self.text.as_slice());
        let marker = text::lit_bytes("this isn't leaflet");
        !text::contains_bytes(lowered.as_slice(), marker)
    }
}

} // verus!
