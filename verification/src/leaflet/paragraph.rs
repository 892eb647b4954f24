//! A paragraph: the metadata in effect when it started, and the lines of
//! free text it holds. Each paragraph owns its own snapshot of the
//! metadata.

use vstd::prelude::*;

use crate::leaflet::line::Line;
use crate::leaflet::line::LineModel;
use crate::leaflet::metadata::Metadata;
use crate::leaflet::metadata::MetadataEntryModel;

verus! {

/// Spec-level shape of a paragraph.
pub struct ParagraphModel {
    pub metadata: Seq<MetadataEntryModel>,
    pub lines: Seq<LineModel>,
}

#[derive(Debug)]
pub struct Paragraph {
    pub lines: Vec<Line>,
    pub metadata: Metadata,
}

impl View for Paragraph {
    type V = ParagraphModel;

    open spec fn view(&self) -> ParagraphModel {
        ParagraphModel {
            metadata: self.metadata@,
            lines: self.lines@.map_values(|l: Line| l@),
        }
    }
}

impl Paragraph {
    pub fn new(metadata: Metadata, lines: Vec<Line>) -> (r: Paragraph)
        ensures
            r@.metadata == metadata@,
            r@.lines == lines@.map_values(|l: Line| l@),
    {
        Paragraph { lines, metadata }
    }
}

} // verus!
