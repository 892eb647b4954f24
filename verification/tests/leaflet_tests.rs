//! Tests for the Leaflet document parser.

use library_of_babel::leaflet::document::{get_raw_sections, Document};
use library_of_babel::leaflet::metadata::{FieldValue, LineWas, Metadata, Valid};
use library_of_babel::leaflet::line::Line;
use library_of_babel::leaflet::parse_error::ParseError;
use library_of_babel::leaflet::raw_section::RawSection;
use library_of_babel::leaflet::schema::{ExpectedType, Required, Schema};
use library_of_babel::obsidian::vault::Vault;

fn bytes(s: &str) -> Vec<u8> {
    s.as_bytes().to_vec()
}

fn empty_vault() -> Vault {
    Vault::from_items(bytes("/vault"), Vec::new())
}

#[test]
fn test_get_raw_sections() {
    let document_text = bytes("---\nline 1\nline 2\n---\n---\nline 5");

    let raw_sections = get_raw_sections(&document_text);

    assert_eq!(raw_sections.len(), 2);

    assert_eq!(raw_sections[0].text, bytes("line 1\nline 2"));
    assert_eq!(raw_sections[0].starting_line_number, 1);

    assert_eq!(raw_sections[1].text, bytes("line 5"));
    assert_eq!(raw_sections[1].starting_line_number, 5);
}

#[test]
fn parses_a_document_with_schema_and_one_section() {
    let text = bytes(
        "this is a leaflet schema\ndate: yyyy.mm.dd\ntitle: string\ncount: optional u64\n---\ndate: 2024.01.15\ntitle: morning walk\n\nfrost on the window\n",
    );
    let vault = empty_vault();
    let document = Document::from_str(&vault, text).unwrap();
    assert_eq!(document.schema.expected_fields.len(), 3);
    assert_eq!(document.sections.len(), 1);
    let section = &document.sections[0];
    assert_eq!(section.paragraphs.len(), 1);
    let paragraph = &section.paragraphs[0];
    assert_eq!(paragraph.lines.len(), 1);
    assert_eq!(paragraph.lines[0].text, bytes("frost on the window"));
    assert_eq!(paragraph.metadata.fields.len(), 2);
}

#[test]
fn no_leaflet_sections_error() {
    let text = bytes("---\n---\n");
    let vault = empty_vault();
    match Document::from_str(&vault, text) {
        Err(ParseError::NoLeafletSections) => {}
        other => panic!("expected NoLeafletSections, got {:?}", other),
    }
}

#[test]
fn opted_out_sections_are_dropped() {
    let text = bytes("this isn't leaflet, just notes\n---\nmore notes");
    let vault = empty_vault();
    match Document::from_str(&vault, text) {
        Err(ParseError::FirstSectionIsNotSchema) => {}
        other => panic!("expected FirstSectionIsNotSchema, got {:?}", other),
    }
}

#[test]
fn first_section_must_be_schema() {
    let text = bytes("just some text\n---\nmore text");
    let vault = empty_vault();
    match Document::from_str(&vault, text) {
        Err(ParseError::FirstSectionIsNotSchema) => {}
        other => panic!("expected FirstSectionIsNotSchema, got {:?}", other),
    }
}

#[test]
fn unexpected_field_type_error() {
    let text = bytes("this is a leaflet schema\nmood: color\n---\nhello");
    let vault = empty_vault();
    match Document::from_str(&vault, text) {
        Err(ParseError::UnexpectedFieldType { type_text, .. }) => {
            assert_eq!(type_text, bytes("color"));
        }
        other => panic!("expected UnexpectedFieldType, got {:?}", other),
    }
}

#[test]
fn field_definition_missing_type_error() {
    let text = bytes("this is a leaflet schema\njust a name without a colon\n---\nhello");
    let vault = empty_vault();
    match Document::from_str(&vault, text) {
        Err(ParseError::FieldDefinitionMissingType { .. }) => {}
        other => panic!("expected FieldDefinitionMissingType, got {:?}", other),
    }
}

#[test]
fn missing_required_field_fails_at_first_text_line() {
    let text = bytes("this is a leaflet schema\ndate: yyyy.mm.dd\n---\nfree text before the date");
    let vault = empty_vault();
    match Document::from_str(&vault, text) {
        Err(ParseError::MissingRequiredFields { line, missing_fields }) => {
            assert_eq!(line.text, bytes("free text before the date"));
            assert_eq!(missing_fields.len(), 1);
            assert_eq!(missing_fields[0].name.bytes, bytes("date"));
        }
        other => panic!("expected MissingRequiredFields, got {:?}", other),
    }
}

#[test]
fn optional_field_may_be_omitted() {
    let text = bytes("this is a leaflet schema\nnote: optional string\n---\nsome paragraph text");
    let vault = empty_vault();
    let document = Document::from_str(&vault, text).unwrap();
    assert_eq!(document.sections.len(), 1);
    assert_eq!(document.sections[0].paragraphs.len(), 1);
}

#[test]
fn required_field_omitted_fails() {
    let text = bytes("this is a leaflet schema\nnote: string\n---\nsome paragraph text");
    let vault = empty_vault();
    match Document::from_str(&vault, text) {
        Err(ParseError::MissingRequiredFields { .. }) => {}
        other => panic!("expected MissingRequiredFields, got {:?}", other),
    }
}

#[test]
fn invalid_date_demotes_line_to_paragraph_text() {
    // No such calendar date: the line is ordinary text, not an error, so
    // the parse fails only because the required date never arrives.
    let text = bytes("this is a leaflet schema\nwhen: yyyy.mm.dd\n---\nwhen: [[2024.02.30]]");
    let vault = empty_vault();
    match Document::from_str(&vault, text) {
        Err(ParseError::MissingRequiredFields { line, .. }) => {
            assert_eq!(line.text, bytes("when: [[2024.02.30]]"));
        }
        other => panic!("expected MissingRequiredFields, got {:?}", other),
    }
}

#[test]
fn leap_day_parses_as_date() {
    let text = bytes("this is a leaflet schema\nwhen: yyyy.mm.dd\n---\nwhen: [[2024.02.29]]\ntext");
    let vault = empty_vault();
    let document = Document::from_str(&vault, text).unwrap();
    let paragraph = &document.sections[0].paragraphs[0];
    match &paragraph.metadata.fields[0].value {
        FieldValue::YyyyMmDd(d) => {
            assert_eq!(d.year, 2024);
            assert_eq!(d.month, 2);
            assert_eq!(d.day, 29);
        }
        other => panic!("expected a date, got {:?}", other),
    }
}

#[test]
fn comments_are_stripped_before_classification() {
    let text = bytes(
        "this is a leaflet schema\ncount: u64 // how many\n---\ncount: 7 // lucky\nbody text",
    );
    let vault = empty_vault();
    let document = Document::from_str(&vault, text).unwrap();
    let paragraph = &document.sections[0].paragraphs[0];
    match &paragraph.metadata.fields[0].value {
        FieldValue::U64(n) => assert_eq!(*n, 7),
        other => panic!("expected a number, got {:?}", other),
    }
}

#[test]
fn malformed_number_falls_through_to_text() {
    let text = bytes("this is a leaflet schema\ncount: optional u64\n---\ncount: seven\nmore");
    let vault = empty_vault();
    let document = Document::from_str(&vault, text).unwrap();
    let paragraph = &document.sections[0].paragraphs[0];
    // Both lines are paragraph text: "count: seven" is not a valid u64.
    assert_eq!(paragraph.lines.len(), 2);
    assert_eq!(paragraph.metadata.fields.len(), 0);
}

#[test]
fn blank_lines_split_paragraphs_without_empty_paragraphs() {
    let text = bytes("this is a leaflet schema\n---\none\n\n\n\ntwo\nthree\n");
    let vault = empty_vault();
    let document = Document::from_str(&vault, text).unwrap();
    let section = &document.sections[0];
    assert_eq!(section.paragraphs.len(), 2);
    assert_eq!(section.paragraphs[0].lines.len(), 1);
    assert_eq!(section.paragraphs[1].lines.len(), 2);
}

#[test]
fn later_metadata_overwrites_earlier() {
    let text = bytes(
        "this is a leaflet schema\ntitle: string\n---\ntitle: first\nbody\n\ntitle: second\nmore body\n",
    );
    let vault = empty_vault();
    let document = Document::from_str(&vault, text).unwrap();
    let section = &document.sections[0];
    assert_eq!(section.paragraphs.len(), 2);
    match &section.paragraphs[0].metadata.fields[0].value {
        FieldValue::String(s) => assert_eq!(s, &bytes("first")),
        other => panic!("unexpected value {:?}", other),
    }
    match &section.paragraphs[1].metadata.fields[0].value {
        FieldValue::String(s) => assert_eq!(s, &bytes("second")),
        other => panic!("unexpected value {:?}", other),
    }
}

#[test]
fn schema_accessors_report_required_fields() {
    let section_lines = vec![
        Line::new(0, bytes("this is a leaflet schema")),
        Line::new(1, bytes("date: yyyy.mm.dd")),
        Line::new(2, bytes("note: optional string")),
    ];
    let raw = RawSection::new(section_lines);
    assert!(raw.is_a_leaflet_section());
    let schema = Schema::from_raw_section(&raw).unwrap();
    let required = schema.required_fields();
    assert_eq!(required.len(), 1);
    assert_eq!(required[0].name.bytes, bytes("date"));
    let fd = schema.field_definition(b" Date ").unwrap();
    assert!(matches!(fd.expected_type, ExpectedType::YyyyMmDd));
    assert!(matches!(fd.required, Required::Yes));
    assert!(schema.field_definition(b"absent").is_none());
}

#[test]
fn metadata_classifies_lines() {
    let vault = empty_vault();
    let schema_lines = vec![
        Line::new(0, bytes("this is a leaflet schema")),
        Line::new(1, bytes("title: string")),
    ];
    let schema = Schema::from_raw_section(&RawSection::new(schema_lines)).unwrap();
    let mut metadata = Metadata::new();
    let classified = metadata.try_add_field(&vault, &schema, &Line::new(5, bytes("title: hello")));
    assert!(matches!(classified, LineWas::ValidMetadataField));
    let classified = metadata.try_add_field(&vault, &schema, &Line::new(6, bytes("   ")));
    assert!(matches!(classified, LineWas::Empty));
    let classified = metadata.try_add_field(&vault, &schema, &Line::new(7, bytes("plain words")));
    assert!(matches!(classified, LineWas::OtherText));
    assert!(matches!(metadata.is_valid(&schema), Valid::Yes));
}

#[test]
fn values_run_to_the_end_of_the_line_past_later_colons() {
    let text = bytes(
        "this is a leaflet schema\ntitle: string\n---\ntitle: 10:30 meeting\nbody",
    );
    let vault = empty_vault();
    let document = Document::from_str(&vault, text).unwrap();
    let paragraph = &document.sections[0].paragraphs[0];
    match &paragraph.metadata.fields[0].value {
        FieldValue::String(s) => assert_eq!(s, &bytes("10:30 meeting")),
        other => panic!("expected the whole value, got {:?}", other),
    }
}

#[test]
fn a_colon_inside_a_numeric_value_makes_the_line_text() {
    let text = bytes(
        "this is a leaflet schema\ncount: optional u64\n---\ncount: 10:30\nbody",
    );
    let vault = empty_vault();
    let document = Document::from_str(&vault, text).unwrap();
    let paragraph = &document.sections[0].paragraphs[0];
    // "10:30" is no u64, so the line is ordinary paragraph text.
    assert_eq!(paragraph.metadata.fields.len(), 0);
    assert_eq!(paragraph.lines.len(), 2);
}

#[test]
fn schema_type_text_runs_to_the_end_of_the_line() {
    let text = bytes("this is a leaflet schema\ndate: yyyy.mm.dd: note\n---\nbody");
    let vault = empty_vault();
    match Document::from_str(&vault, text) {
        Err(ParseError::UnexpectedFieldType { type_text, .. }) => {
            assert_eq!(type_text, bytes("yyyy.mm.dd: note"));
        }
        other => panic!("expected UnexpectedFieldType, got {:?}", other),
    }
}

#[test]
fn date_values_are_trimmed_before_parsing() {
    let vault = empty_vault();
    let parsed = library_of_babel::leaflet::metadata::try_parse_field_value(
        &vault,
        &ExpectedType::YyyyMmDd,
        b"  [[2024.02.29]]  ",
    );
    match parsed {
        Some(FieldValue::YyyyMmDd(d)) => {
            assert_eq!((d.year, d.month, d.day), (2024, 2, 29));
        }
        other => panic!("expected a date, got {:?}", other),
    }
}

#[test]
fn section_separator_recognizes_trimmed_dashes() {
    assert!(Line::new(0, bytes("  ---  ")).is_section_separator());
    assert!(!Line::new(0, bytes("----")).is_section_separator());
    assert!(!Line::new(0, bytes("--")).is_section_separator());
}
