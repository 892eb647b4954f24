//! One parsed section: the metadata/paragraph state machine run over the
//! section's lines.
//!
//! Walking the lines in order, a valid metadata line updates the running
//! metadata, an empty line closes the pending paragraph, and any other
//! text joins the pending paragraph — but only once every required field
//! is present; otherwise the whole parse fails.

use vstd::prelude::*;

use crate::leaflet::line::LineModel;
use crate::leaflet::metadata::ClassifiedLine;
use crate::leaflet::metadata::LineWas;
use crate::leaflet::metadata::Metadata;
use crate::leaflet::metadata::MetadataEntryModel;
use crate::leaflet::metadata::Valid;
use crate::leaflet::metadata::classify_spec;
use crate::leaflet::metadata::md_insert;
use crate::leaflet::metadata::missing_spec;
use crate::leaflet::paragraph::Paragraph;
use crate::leaflet::paragraph::ParagraphModel;
use crate::leaflet::parse_error::ParseError;
use crate::leaflet::parse_error::ParseErrorModel;
use crate::leaflet::raw_section::RawSection;
use crate::leaflet::raw_section::RawSectionModel;
use crate::leaflet::schema::FieldDefinitionModel;
use crate::leaflet::schema::Schema;
use crate::obsidian::file::FileView;
use crate::obsidian::vault::Vault;
use crate::leaflet::line::Line;

verus! {

/// Closing a paragraph: pending lines become one paragraph carrying a
/// snapshot of the running metadata; no pending lines, no paragraph.
pub open spec fn flush_spec(md: Seq<MetadataEntryModel>, pending: Seq<LineModel>) -> Seq<
    ParagraphModel,
> {
    if pending.len() == 0 {
        Seq::empty()
    } else {
        seq![ParagraphModel { metadata: md, lines: pending }]
    }
}

/// The state machine, one line at a time: the final paragraph list, or
/// the first error.
pub open spec fn section_loop_spec(
    files: Seq<FileView>,
    schema: Seq<FieldDefinitionModel>,
    lines: Seq<LineModel>,
    md: Seq<MetadataEntryModel>,
    pending: Seq<LineModel>,
    paras: Seq<ParagraphModel>,
) -> Result<Seq<ParagraphModel>, ParseErrorModel>
    decreases lines.len(),
{
    if lines.len() == 0 {
        Ok(paras + flush_spec(md, pending))
    } else {
        match classify_spec(files, schema, lines[0]) {
            ClassifiedLine::Field { name, value } => section_loop_spec(
                files,
                schema,
                lines.skip(1),
                md_insert(md, name, value),
                pending,
                paras,
            ),
            ClassifiedLine::Empty => section_loop_spec(
                files,
                schema,
                lines.skip(1),
                md,
                Seq::empty(),
                paras + flush_spec(md, pending),
            ),
            ClassifiedLine::Other => {
                if missing_spec(schema, md).len() == 0 {
                    section_loop_spec(
                        files,
                        schema,
                        lines.skip(1),
                        md,
                        pending.push(lines[0]),
                        paras,
                    )
                } else {
                    Err(
                        ParseErrorModel::MissingRequiredFields {
                            line: lines[0],
                            missing_fields: missing_spec(schema, md),
                        },
                    )
                }
            },
        }
    }
}

/// What parsing one raw section gives: the machine run from an empty
/// state over the section's lines.
pub open spec fn section_spec(
    files: Seq<FileView>,
    schema: Seq<FieldDefinitionModel>,
    sec: RawSectionModel,
) -> Result<Seq<ParagraphModel>, ParseErrorModel> {
    section_loop_spec(files, schema, sec.lines, Seq::empty(), Seq::empty(), Seq::empty())
}

/// An ordered list of paragraphs.
#[derive(Debug)]
pub struct Section {
    pub paragraphs: Vec<Paragraph>,
}

impl View for Section {
    type V = Seq<ParagraphModel>;

    open spec fn view(&self) -> Seq<ParagraphModel> {
        self.paragraphs@.map_values(|p: Paragraph| p@)
    }
}

impl Section {
    /// Runs the state machine over one raw section: link-typed fields
    /// resolve against the vault's files; required-field validation is
    /// enforced lazily, when non-metadata text first appears.
    pub fn from_raw_section(vault: &Vault, schema: &Schema, raw_section: &RawSection) -> (r:
        Result<Section, ParseError>)
        ensures
            match r {
                Ok(s) => section_spec(vault.spec_file_views(), schema@, raw_section@) == Ok::<
                    Seq<ParagraphModel>,
                    ParseErrorModel,
                >(s@),
                Err(e) => section_spec(vault.spec_file_views(), schema@, raw_section@) == Err::<
                    Seq<ParagraphModel>,
                    ParseErrorModel,
                >(e@),
            },
    {
        let ghost fv = vault.spec_file_views();
        let ghost lm = raw_section.lines@.map_values(|l: Line| l@);
        let mut metadata = Metadata::new();
        let mut paragraph_lines: Vec<Line> = Vec::new();
        let mut paragraphs: Vec<Paragraph> = Vec::new();
        let mut i: usize = 0;
        proof {
            assert(lm.skip(0) =~= lm);
            assert(paragraph_lines@.map_values(|l: Line| l@) =~= Seq::<LineModel>::empty());
            assert(paragraphs@.map_values(|p: Paragraph| p@) =~= Seq::<ParagraphModel>::empty());
            assert(raw_section@.lines =~= lm);
        }
        while i < raw_section.lines.len()
            invariant
                0 <= i <= raw_section.lines@.len(),
                fv == vault.spec_file_views(),
                lm == raw_section.lines@.map_values(|l: Line| l@),
                section_spec(fv, schema@, raw_section@) == section_loop_spec(
                    fv,
                    schema@,
                    lm.skip(i as int),
                    metadata@,
                    paragraph_lines@.map_values(|l: Line| l@),
                    paragraphs@.map_values(|p: Paragraph| p@),
                ),
            decreases raw_section.lines@.len() - i,
        {
            let line = &raw_section.lines[i];
            let ghost md_before = metadata@;
            let ghost pend_before = paragraph_lines@.map_values(|l: Line| l@);
            let ghost paras_before = paragraphs@.map_values(|p: Paragraph| p@);
            proof {
                assert(lm[i as int] == raw_section.lines@[i as int]@);
                assert(lm.skip(i as int)[0] == lm[i as int]);
                assert(lm.skip(i as int).skip(1) =~= lm.skip(i + 1));
            }
            match metadata.try_add_field(vault, schema, line) {
                LineWas::ValidMetadataField => {
                    proof {
                        assert(classify_spec(fv, schema@, lm[i as int]) is Field);
                        let cf = classify_spec(fv, schema@, lm[i as int]);
                        assert(metadata@ == md_insert(md_before, cf->Field_name, cf->Field_value));
                        assert(section_loop_spec(
                            fv,
                            schema@,
                            lm.skip(i as int),
                            md_before,
                            pend_before,
                            paras_before,
                        ) == section_loop_spec(
                            fv,
                            schema@,
                            lm.skip(i as int).skip(1),
                            md_insert(md_before, cf->Field_name, cf->Field_value),
                            pend_before,
                            paras_before,
                        ));
                        assert(section_loop_spec(
                            fv,
                            schema@,
                            lm.skip(i as int),
                            md_before,
                            pend_before,
                            paras_before,
                        ) == section_loop_spec(
                            fv,
                            schema@,
                            lm.skip(i + 1),
                            metadata@,
                            paragraph_lines@.map_values(|l: Line| l@),
                            paragraphs@.map_values(|p: Paragraph| p@),
                        ));
                    }
                },
                LineWas::Empty => {
                    if paragraph_lines.len() > 0 {
                        let snapshot = metadata.clone();
                        let ghost pprev = paragraphs@;
                        let ghost pendingv = paragraph_lines@.map_values(|l: Line| l@);
                        let paragraph = Paragraph::new(snapshot, paragraph_lines);
                        let ghost paragraphv = paragraph@;
                        paragraphs.push(paragraph);
                        paragraph_lines = Vec::new();
                        proof {
                            let view_of = |p: Paragraph| p@;
                            pprev.lemma_push_map_commute(view_of, paragraphs@[pprev.len() as int]);
                            assert(paragraphs@ =~= pprev.push(paragraphs@[pprev.len() as int]));
                            assert(paragraphs@.map_values(view_of) =~= pprev.map_values(
                                view_of,
                            ).push(paragraphv));
                            assert(pprev.map_values(view_of).push(paragraphv)
                                =~= pprev.map_values(view_of) + flush_spec(
                                paragraphv.metadata,
                                pendingv,
                            ));
                            assert(paragraph_lines@.map_values(|l: Line| l@) =~= Seq::<
                                LineModel,
                            >::empty());
                            assert(paragraph_lines@.map_values(|l: Line| l@) == Seq::<
                                LineModel,
                            >::empty());
                            assert(paragraphs@.map_values(|p: Paragraph| p@) == paras_before
                                + flush_spec(md_before, pend_before));
                            assert(section_loop_spec(
                                fv,
                                schema@,
                                lm.skip(i as int),
                                md_before,
                                pend_before,
                                paras_before,
                            ) == section_loop_spec(
                                fv,
                                schema@,
                                lm.skip(i + 1),
                                metadata@,
                                paragraph_lines@.map_values(|l: Line| l@),
                                paragraphs@.map_values(|p: Paragraph| p@),
                            ));
                        }
                    } else {
                        proof {
                            assert(pend_before =~= Seq::<LineModel>::empty());
                            assert(paras_before + flush_spec(md_before, pend_before)
                                =~= paras_before);
                            assert(paragraph_lines@.map_values(|l: Line| l@) == Seq::<
                                LineModel,
                            >::empty());
                            assert(section_loop_spec(
                                fv,
                                schema@,
                                lm.skip(i as int),
                                md_before,
                                pend_before,
                                paras_before,
                            ) == section_loop_spec(
                                fv,
                                schema@,
                                lm.skip(i + 1),
                                metadata@,
                                paragraph_lines@.map_values(|l: Line| l@),
                                paragraphs@.map_values(|p: Paragraph| p@),
                            ));
                        }
                    }
                },
                LineWas::OtherText => {
                    match metadata.is_valid(schema) {
                        Valid::Yes => {
                            let ghost lprev = paragraph_lines@;
                            paragraph_lines.push(line.clone());
                            proof {
                                let view_of = |l: Line| l@;
                                lprev.lemma_push_map_commute(
                                    view_of,
                                    paragraph_lines@[lprev.len() as int],
                                );
                                assert(paragraph_lines@ =~= lprev.push(
                                    paragraph_lines@[lprev.len() as int],
                                ));
                                assert(paragraph_lines@.map_values(view_of) =~= lprev.map_values(
                                    view_of,
                                ).push(lm[i as int]));
                                assert(paragraph_lines@.map_values(|l: Line| l@) == pend_before
                                    .push(lm[i as int]));
                                assert(section_loop_spec(
                                    fv,
                                    schema@,
                                    lm.skip(i as int),
                                    md_before,
                                    pend_before,
                                    paras_before,
                                ) == section_loop_spec(
                                    fv,
                                    schema@,
                                    lm.skip(i + 1),
                                    metadata@,
                                    paragraph_lines@.map_values(|l: Line| l@),
                                    paragraphs@.map_values(|p: Paragraph| p@),
                                ));
                            }
                        },
                        Valid::No { missing_fields } => {
                            let err = ParseError::missing_required_fields(
                                line.clone(),
                                missing_fields,
                            );
                            return Err(err);
                        },
                    }
                },
            }
            i = i + 1;
        }
        proof {
            assert(lm.skip(lm.len() as int) =~= Seq::<LineModel>::empty());
        }
        if paragraph_lines.len() > 0 {
            let snapshot = metadata.clone();
            let ghost pprev = paragraphs@;
            let ghost pendingv = paragraph_lines@.map_values(|l: Line| l@);
            let paragraph = Paragraph::new(snapshot, paragraph_lines);
            let ghost paragraphv = paragraph@;
            paragraphs.push(paragraph);
            proof {
                let view_of = |p: Paragraph| p@;
                pprev.lemma_push_map_commute(view_of, paragraphs@[pprev.len() as int]);
                assert(paragraphs@ =~= pprev.push(paragraphs@[pprev.len() as int]));
                assert(paragraphs@.map_values(view_of) =~= pprev.map_values(view_of).push(
                    paragraphv,
                ));
                assert(paragraphs@.map_values(view_of) =~= pprev.map_values(view_of)
                    + flush_spec(paragraphv.metadata, pendingv));
            }
        } else {
            proof {
                assert(paragraphs@.map_values(|p: Paragraph| p@) + flush_spec(
                    metadata@,
                    paragraph_lines@.map_values(|l: Line| l@),
                ) =~= paragraphs@.map_values(|p: Paragraph| p@));
            }
        }
        Ok(Section { paragraphs })
    }
}

} // verus!
