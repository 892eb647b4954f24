//! The errors a Leaflet parse can end with. Parsing is deterministic
//! over static text, so every error is surfaced to the caller; nothing
//! is retried.

use vstd::prelude::*;

use crate::leaflet::line::Line;
use crate::leaflet::line::LineModel;
use crate::leaflet::schema::FieldDefinition;
use crate::leaflet::schema::FieldDefinitionModel;

verus! {

/// Spec-level shape of a parse error.
pub enum ParseErrorModel {
    NoLeafletSections,
    FirstSectionIsNotSchema,
    FieldDefinitionMissingName { line: LineModel },
    FieldDefinitionMissingType { line: LineModel },
    UnexpectedFieldType { line: LineModel, type_text: Seq<u8> },
    MissingRequiredFields { line: LineModel, missing_fields: Seq<FieldDefinitionModel> },
}

#[derive(Debug)]
pub enum ParseError {
    /// The whole document was separators and opted-out sections.
    NoLeafletSections,
    /// The first retained section lacks the schema marker.
    FirstSectionIsNotSchema,
    FieldDefinitionMissingName { line: Line },
    FieldDefinitionMissingType { line: Line },
    UnexpectedFieldType { line: Line, type_text: Vec<u8> },
    MissingRequiredFields { line: Line, missing_fields: Vec<FieldDefinition> },
}

impl View for ParseError {
    type V = ParseErrorModel;

    open spec fn view(&self) -> ParseErrorModel {
        match self {
            ParseError::NoLeafletSections => ParseErrorModel::NoLeafletSections,
            ParseError::FirstSectionIsNotSchema => ParseErrorModel::FirstSectionIsNotSchema,
            ParseError::FieldDefinitionMissingName { line } => {
                ParseErrorModel::FieldDefinitionMissingName { line: line@ }
            },
            ParseError::FieldDefinitionMissingType { line } => {
                ParseErrorModel::FieldDefinitionMissingType { line: line@ }
            },
            ParseError::UnexpectedFieldType { line, type_text } => {
                ParseErrorModel::UnexpectedFieldType { line: line@, type_text: type_text@ }
            },
            ParseError::MissingRequiredFields { line, missing_fields } => {
                ParseErrorModel::MissingRequiredFields {
                    line: line@,
                    missing_fields: missing_fields@.map_values(|fd: FieldDefinition| fd@),
                }
            },
        }
    }
}

impl ParseError {
    pub fn field_definition_missing_name(line: &Line) -> (r: ParseError)
        ensures
            r@ == (ParseErrorModel::FieldDefinitionMissingName { line: line@ }),
    {
        ParseError::FieldDefinitionMissingName { line: line.clone() }
    }

    pub fn field_definition_missing_type(line: &Line) -> (r: ParseError)
        ensures
            r@ == (ParseErrorModel::FieldDefinitionMissingType { line: line@ }),
    {
        ParseError::FieldDefinitionMissingType { line: line.clone() }
    }

    pub fn unexpected_field_type(line: &Line, type_text: &[u8]) -> (r: ParseError)
        ensures
            r@ == (ParseErrorModel::UnexpectedFieldType { line: line@, type_text: type_text@ }),
    {
        let copy = crate::text::subrange_vec(type_text, 0, type_text.len());
        proof {
            assert(copy@ =~= type_text@);
        }
        ParseError::UnexpectedFieldType { line: line.clone(), type_text: copy }
    }

    pub fn missing_required_fields(line: Line, missing_fields: Vec<FieldDefinition>) -> (r:
        ParseError)
        ensures
            r@ == (ParseErrorModel::MissingRequiredFields {
                line: line@,
                missing_fields: missing_fields@.map_values(|fd: FieldDefinition| fd@),
            }),
    {
        ParseError::MissingRequiredFields { line, missing_fields }
    }
}

} // verus!
