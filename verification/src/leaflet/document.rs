//! The whole Leaflet parse: split the text into raw sections, drop
//! opted-out sections, read the schema from the first one left, and run
//! the state machine over the rest. The first error aborts the parse.

use vstd::prelude::*;

use crate::leaflet::line::Line;
use crate::leaflet::line::LineModel;
use crate::leaflet::line::is_separator;
use crate::leaflet::line::line_model;
use crate::leaflet::paragraph::ParagraphModel;
use crate::leaflet::parse_error::ParseError;
use crate::leaflet::parse_error::ParseErrorModel;
use crate::leaflet::raw_section::RawSection;
use crate::leaflet::raw_section::RawSectionModel;
use crate::leaflet::raw_section::is_leaflet_section_spec;
use crate::leaflet::raw_section::section_model;
use crate::leaflet::schema::FieldDefinitionModel;
use crate::leaflet::schema::Schema;
use crate::leaflet::schema::schema_spec;
use crate::leaflet::section::Section;
use crate::leaflet::section::section_spec;
use crate::obsidian::file::FileView;
use crate::obsidian::vault::Vault;
use crate::text;

verus! {

/// The numbered lines of a document.
pub open spec fn lines_of_spec(s: Seq<u8>) -> Seq<LineModel> {
    Seq::new(text::lines_spec(s).len(), |i: int| line_model(i, text::lines_spec(s)[i]))
}

/// Index of the first separator line at or after position 0, or the
/// length.
pub open spec fn find_sep_spec(lines: Seq<LineModel>) -> int
    decreases lines.len(),
{
    if lines.len() == 0 {
        0
    } else if is_separator(lines[0]) {
        0
    } else {
        1 + find_sep_spec(lines.skip(1))
    }
}

pub proof fn lemma_find_sep_spec(lines: Seq<LineModel>)
    ensures
        0 <= find_sep_spec(lines) <= lines.len(),
        find_sep_spec(lines) < lines.len() ==> is_separator(lines[find_sep_spec(lines)]),
        forall|j: int| 0 <= j < find_sep_spec(lines) ==> !is_separator(lines[j]),
    decreases lines.len(),
{
    if lines.len() > 0 && !is_separator(lines[0]) {
        lemma_find_sep_spec(lines.skip(1));
        assert forall|j: int| 0 <= j < find_sep_spec(lines) implies !is_separator(lines[j]) by {
            if j > 0 {
                assert(!is_separator(lines.skip(1)[j - 1]));
            }
        }
    }
}

proof fn lemma_find_sep_at(lines: Seq<LineModel>, i: int)
    requires
        0 <= i <= lines.len(),
        forall|j: int| 0 <= j < i ==> !is_separator(lines[j]),
        i < lines.len() ==> is_separator(lines[i]),
    ensures
        find_sep_spec(lines) == i,
    decreases i,
{
    if lines.len() == 0 {
    } else if i == 0 {
    } else {
        lemma_find_sep_at(lines.skip(1), i - 1);
    }
}

/// The runs of lines between separator lines; empty runs are dropped.
pub open spec fn split_sections_spec(lines: Seq<LineModel>) -> Seq<Seq<LineModel>>
    decreases lines.len(),
    via split_sections_spec_decreases
{
    let k = find_sep_spec(lines);
    let head = lines.take(k);
    let rest = if k < lines.len() {
        split_sections_spec(lines.skip(k + 1))
    } else {
        Seq::empty()
    };
    if head.len() == 0 {
        rest
    } else {
        seq![head] + rest
    }
}

#[via_fn]
proof fn split_sections_spec_decreases(lines: Seq<LineModel>) {
    lemma_find_sep_spec(lines);
}

/// The raw sections of a document's text.
pub open spec fn raw_sections_spec(s: Seq<u8>) -> Seq<RawSectionModel> {
    split_sections_spec(lines_of_spec(s)).map_values(|g: Seq<LineModel>| section_model(g))
}

/// The sections kept for parsing: those without the opt-out marker.
pub open spec fn retained_sections_spec(s: Seq<u8>) -> Seq<RawSectionModel> {
    raw_sections_spec(s).filter(|sec: RawSectionModel| is_leaflet_section_spec(sec))
}

/// Parses remaining sections front to back; the first error aborts.
pub open spec fn parse_sections_spec(
    files: Seq<FileView>,
    schema: Seq<FieldDefinitionModel>,
    secs: Seq<RawSectionModel>,
) -> Result<Seq<Seq<ParagraphModel>>, ParseErrorModel>
    decreases secs.len(),
{
    if secs.len() == 0 {
        Ok(Seq::empty())
    } else {
        match section_spec(files, schema, secs[0]) {
            Err(e) => Err(e),
            Ok(ps) => match parse_sections_spec(files, schema, secs.skip(1)) {
                Err(e) => Err(e),
                Ok(rest) => Ok(seq![ps] + rest),
            },
        }
    }
}

/// Spec-level shape of a document.
pub struct DocumentModel {
    pub schema: Seq<FieldDefinitionModel>,
    pub sections: Seq<Seq<ParagraphModel>>,
}

/// The whole parse: no retained section is an error; the first retained
/// section must be the schema; each remaining section runs the state
/// machine.
pub open spec fn document_spec(files: Seq<FileView>, s: Seq<u8>) -> Result<
    DocumentModel,
    ParseErrorModel,
> {
    let retained = retained_sections_spec(s);
    if retained.len() == 0 {
        Err(ParseErrorModel::NoLeafletSections)
    } else {
        match schema_spec(retained[0]) {
            Err(e) => Err(e),
            Ok(schema) => match parse_sections_spec(files, schema, retained.skip(1)) {
                Err(e) => Err(e),
                Ok(sections) => Ok(DocumentModel { schema, sections }),
            },
        }
    }
}

/// A parsed Leaflet document: one schema, then the parsed sections.
#[derive(Debug)]
pub struct Document {
    pub schema: Schema,
    pub sections: Vec<Section>,
}

impl View for Document {
    type V = DocumentModel;

    open spec fn view(&self) -> DocumentModel {
        DocumentModel {
            schema: self.schema@,
            sections: self.sections@.map_values(|s: Section| s@),
        }
    }
}

/// Splits a document's text into raw sections: lines that are exactly
/// `---` after trimming separate sections, and empty runs between
/// separators are dropped.
pub fn get_raw_sections(document_text: &[u8]) -> (r: Vec<RawSection>)
    ensures
        r@.map_values(|rs: RawSection| rs@) =~= raw_sections_spec(document_text@),
{
    let line_texts = text::split_lines(document_text);
    let mut numbered_lines: Vec<Line> = Vec::new();
    let mut i: usize = 0;
    while i < line_texts.len()
        invariant
            0 <= i <= line_texts@.len(),
            numbered_lines@.len() == i,
            forall|j: int|
                0 <= j < i ==> #[trigger] numbered_lines@[j]@ == line_model(
                    j,
                    line_texts@.map_values(|t: Vec<u8>| t@)[j],
                ),
        decreases line_texts@.len() - i,
    {
        let ghost before = numbered_lines@;
        let mut line_text: Vec<u8> = Vec::new();
        let source = &line_texts[i];
        let mut j: usize = 0;
        while j < source.len()
            invariant
                0 <= j <= source@.len(),
                line_text@ =~= source@.take(j as int),
            decreases source@.len() - j,
        {
            line_text.push(source[j]);
            j = j + 1;
        }
        proof {
            assert(line_text@ =~= line_texts@[i as int]@);
            assert(line_texts@.map_values(|t: Vec<u8>| t@)[i as int] == line_texts@[i as int]@);
        }
        numbered_lines.push(Line::new(i, line_text));
        i = i + 1;
    }
    let ghost lm = numbered_lines@.map_values(|l: Line| l@);
    proof {
        assert forall|j: int| 0 <= j < lm.len() implies lm[j] == lines_of_spec(document_text@)[j]
            by {
            assert(lm[j] == numbered_lines@[j]@);
        }
        assert(lm =~= lines_of_spec(document_text@));
    }
    let mut r: Vec<RawSection> = Vec::new();
    let mut pos: usize = 0;
    proof {
        assert(lm.skip(0) =~= lm);
        assert(r@.map_values(|rs: RawSection| rs@) =~= Seq::<RawSectionModel>::empty());
    }
    while pos < numbered_lines.len()
        invariant
            0 <= pos <= numbered_lines@.len(),
            lm == numbered_lines@.map_values(|l: Line| l@),
            lm == lines_of_spec(document_text@),
            raw_sections_spec(document_text@) =~= r@.map_values(|rs: RawSection| rs@)
                + split_sections_spec(lm.skip(pos as int)).map_values(
                |g: Seq<LineModel>| section_model(g),
            ),
        decreases numbered_lines@.len() - pos,
    {
        let ghost rest = lm.skip(pos as int);
        let mut k: usize = pos;
        while k < numbered_lines.len() && !numbered_lines[k].is_section_separator()
            invariant
                pos <= k <= numbered_lines@.len(),
                lm == numbered_lines@.map_values(|l: Line| l@),
                forall|j: int| pos <= j < k ==> !is_separator(lm[j]),
            decreases numbered_lines@.len() - k,
        {
            proof {
                assert(lm[k as int] == numbered_lines@[k as int]@);
            }
            k = k + 1;
        }
        proof {
            if k < numbered_lines@.len() {
                assert(lm[k as int] == numbered_lines@[k as int]@);
            }
            assert(forall|j: int| 0 <= j < k - pos ==> !is_separator(rest[j]));
            if k - pos < rest.len() {
                assert(rest[k - pos] == lm[k as int]);
            }
            lemma_find_sep_at(rest, k - pos);
        }
        let mut group: Vec<Line> = Vec::new();
        let mut g: usize = pos;
        while g < k
            invariant
                pos <= g <= k <= numbered_lines@.len(),
                lm == numbered_lines@.map_values(|l: Line| l@),
                group@.map_values(|l: Line| l@) =~= lm.subrange(pos as int, g as int),
            decreases k - g,
        {
            let ghost gprev = group@;
            group.push(numbered_lines[g].clone());
            proof {
                let view_of = |l: Line| l@;
                gprev.lemma_push_map_commute(view_of, group@[gprev.len() as int]);
                assert(group@ =~= gprev.push(group@[gprev.len() as int]));
                assert(group@[gprev.len() as int]@ == lm[g as int]);
                assert(group@.map_values(view_of) =~= lm.subrange(pos as int, g + 1));
            }
            g = g + 1;
        }
        proof {
            assert(rest.take(k - pos) =~= lm.subrange(pos as int, k as int));
        }
        if group.len() > 0 {
            let section = RawSection::new(group);
            let ghost rprev = r@;
            let ghost sectionv = section@;
            r.push(section);
            proof {
                let view_of = |rs: RawSection| rs@;
                rprev.lemma_push_map_commute(view_of, r@[rprev.len() as int]);
                assert(r@ =~= rprev.push(r@[rprev.len() as int]));
                assert(r@.map_values(view_of) =~= rprev.map_values(view_of).push(sectionv));
            }
        }
        if k < numbered_lines.len() {
            proof {
                assert(rest.skip(k - pos + 1) =~= lm.skip(k + 1));
                assert(split_sections_spec(rest) == if rest.take(k - pos).len() == 0 {
                    split_sections_spec(lm.skip(k + 1))
                } else {
                    seq![rest.take(k - pos)] + split_sections_spec(lm.skip(k + 1))
                });
                if rest.take(k - pos).len() > 0 {
                    assert(split_sections_spec(rest).map_values(
                        |gg: Seq<LineModel>| section_model(gg),
                    ) =~= seq![section_model(rest.take(k - pos))] + split_sections_spec(
                        lm.skip(k + 1),
                    ).map_values(|gg: Seq<LineModel>| section_model(gg)));
                }
            }
            pos = k + 1;
        } else {
            proof {
                assert(find_sep_spec(rest) == rest.len());
                assert(rest.take(rest.len() as int) =~= rest);
                assert(split_sections_spec(rest) == if rest.len() == 0 {
                    Seq::<Seq<LineModel>>::empty()
                } else {
                    seq![rest]
                });
                if rest.len() > 0 {
                    assert(rest =~= rest.take(k - pos));
                    assert(split_sections_spec(rest).map_values(
                        |gg: Seq<LineModel>| section_model(gg),
                    ) =~= seq![section_model(rest.take(k - pos))]);
                }
            }
            proof {
                assert(r@.map_values(|rs: RawSection| rs@) =~= raw_sections_spec(
                    document_text@,
                ));
            }
            return r;
        }
    }
    proof {
        assert(split_sections_spec(lm.skip(pos as int)) =~= Seq::<Seq<LineModel>>::empty());
        assert(split_sections_spec(lm.skip(pos as int)).map_values(
            |g: Seq<LineModel>| section_model(g),
        ) =~= Seq::<RawSectionModel>::empty());
    }
    r
}

/// Splitting a parse of sections at `i`.
proof fn lemma_parse_sections_split(
    files: Seq<FileView>,
    schema: Seq<FieldDefinitionModel>,
    secs: Seq<RawSectionModel>,
    i: int,
)
    requires
        0 <= i <= secs.len(),
        parse_sections_spec(files, schema, secs.take(i)) is Ok,
    ensures
        parse_sections_spec(files, schema, secs) == match parse_sections_spec(
            files,
            schema,
            secs.skip(i),
        ) {
            Err(e) => Err::<Seq<Seq<ParagraphModel>>, ParseErrorModel>(e),
            Ok(rest) => Ok(parse_sections_spec(files, schema, secs.take(i))->Ok_0 + rest),
        },
    decreases i,
{
    if i == 0 {
        assert(secs.take(0) =~= Seq::<RawSectionModel>::empty());
        assert(secs.skip(0) =~= secs);
        match parse_sections_spec(files, schema, secs) {
            Err(e) => {},
            Ok(rest) => {
                assert(parse_sections_spec(files, schema, secs.take(0))->Ok_0 + rest =~= rest);
            },
        }
    } else {
        assert(secs.take(i)[0] == secs[0]);
        assert(secs.take(i).skip(1) =~= secs.skip(1).take(i - 1));
        match section_spec(files, schema, secs[0]) {
            Err(e) => {
                assert(false);
            },
            Ok(ps) => {
                lemma_parse_sections_split(files, schema, secs.skip(1), i - 1);
                assert(secs.skip(1).skip(i - 1) =~= secs.skip(i));
                match parse_sections_spec(files, schema, secs.skip(i)) {
                    Err(e) => {},
                    Ok(rest) => {
                        assert(seq![ps] + (parse_sections_spec(
                            files,
                            schema,
                            secs.skip(1).take(i - 1),
                        )->Ok_0 + rest) =~= (seq![ps] + parse_sections_spec(
                            files,
                            schema,
                            secs.skip(1).take(i - 1),
                        )->Ok_0) + rest);
                        assert(parse_sections_spec(files, schema, secs.take(i))->Ok_0
                            =~= seq![ps] + parse_sections_spec(
                            files,
                            schema,
                            secs.skip(1).take(i - 1),
                        )->Ok_0);
                    },
                }
            },
        }
    }
}

/// One more section parsed fine: the prefix result grows by one.
proof fn lemma_parse_sections_step(
    files: Seq<FileView>,
    schema: Seq<FieldDefinitionModel>,
    secs: Seq<RawSectionModel>,
    i: int,
    ps: Seq<ParagraphModel>,
)
    requires
        0 <= i < secs.len(),
        parse_sections_spec(files, schema, secs.take(i)) is Ok,
        section_spec(files, schema, secs[i]) == Ok::<Seq<ParagraphModel>, ParseErrorModel>(ps),
    ensures
        parse_sections_spec(files, schema, secs.take(i + 1)) == Ok::<
            Seq<Seq<ParagraphModel>>,
            ParseErrorModel,
        >(parse_sections_spec(files, schema, secs.take(i))->Ok_0.push(ps)),
    decreases i,
{
    if i == 0 {
        assert(secs.take(0) =~= Seq::<RawSectionModel>::empty());
        assert(parse_sections_spec(files, schema, Seq::<RawSectionModel>::empty()) == Ok::<
            Seq<Seq<ParagraphModel>>,
            ParseErrorModel,
        >(Seq::empty()));
        assert(secs.take(1) =~= seq![secs[0]]);
        assert(secs.take(1)[0] == secs[0]);
        assert(secs.take(1).skip(1) =~= Seq::<RawSectionModel>::empty());
        assert(parse_sections_spec(files, schema, secs.take(1)) == Ok::<
            Seq<Seq<ParagraphModel>>,
            ParseErrorModel,
        >(seq![ps] + Seq::<Seq<ParagraphModel>>::empty()));
        assert(parse_sections_spec(files, schema, secs.take(0))->Ok_0.push(ps) =~= seq![ps]
            + Seq::<Seq<ParagraphModel>>::empty());
    } else {
        assert(secs.take(i)[0] == secs[0]);
        assert(secs.take(i + 1)[0] == secs[0]);
        match section_spec(files, schema, secs[0]) {
            Err(e) => {
                assert(parse_sections_spec(files, schema, secs.take(i)) is Err);
                assert(false);
            },
            Ok(ps0) => {
                assert(secs.take(i).skip(1) =~= secs.skip(1).take(i - 1));
                assert(secs.take(i + 1).skip(1) =~= secs.skip(1).take(i));
                assert(secs.skip(1)[i - 1] == secs[i]);
                lemma_parse_sections_step(files, schema, secs.skip(1), i - 1, ps);
                assert(parse_sections_spec(files, schema, secs.skip(1).take(i - 1)) is Ok);
                assert(parse_sections_spec(files, schema, secs.take(i)) == Ok::<
                    Seq<Seq<ParagraphModel>>,
                    ParseErrorModel,
                >(seq![ps0] + parse_sections_spec(files, schema, secs.skip(1).take(i - 1))->Ok_0));
                assert(parse_sections_spec(files, schema, secs.take(i + 1)) == Ok::<
                    Seq<Seq<ParagraphModel>>,
                    ParseErrorModel,
                >(seq![ps0] + parse_sections_spec(files, schema, secs.skip(1).take(i))->Ok_0));
                assert(seq![ps0] + parse_sections_spec(
                    files,
                    schema,
                    secs.skip(1).take(i - 1),
                )->Ok_0.push(ps) =~= (seq![ps0] + parse_sections_spec(
                    files,
                    schema,
                    secs.skip(1).take(i - 1),
                )->Ok_0).push(ps));
            },
        }
    }
}

impl Document {
    /// Parses one page's text into a Leaflet document against the vault's
    /// files: split into sections, drop opted-out sections, read the
    /// schema from the first kept section, then run every remaining
    /// section through the state machine. The first error aborts.
    pub fn from_str(vault: &Vault, document_text: Vec<u8>) -> (r: Result<Document, ParseError>)
        ensures
            match r {
                Ok(d) => document_spec(vault.spec_file_views(), document_text@) == Ok::<
                    DocumentModel,
                    ParseErrorModel,
                >(d@),
                Err(e) => document_spec(vault.spec_file_views(), document_text@) == Err::<
                    DocumentModel,
                    ParseErrorModel,
                >(e@),
            },
    {
        let ghost fv = vault.spec_file_views();
        let raw_sections = get_raw_sections(document_text.as_slice());
        let ghost rsv = raw_sections@.map_values(|rs: RawSection| rs@);
        let mut retained: Vec<RawSection> = Vec::new();
        let mut i: usize = 0;
        proof {
            assert(rsv.take(0) =~= Seq::<RawSectionModel>::empty());
            reveal_with_fuel(Seq::filter, 2);
            assert(retained@.map_values(|rs: RawSection| rs@) =~= Seq::<
                RawSectionModel,
            >::empty());
        }
        while i < raw_sections.len()
            invariant
                0 <= i <= raw_sections@.len(),
                rsv == raw_sections@.map_values(|rs: RawSection| rs@),
                retained@.map_values(|rs: RawSection| rs@) =~= rsv.take(i as int).filter(
                    |sec: RawSectionModel| is_leaflet_section_spec(sec),
                ),
            decreases raw_sections@.len() - i,
        {
            proof {
                assert(rsv.take(i + 1).drop_last() =~= rsv.take(i as int));
                assert(rsv.take(i + 1).last() == rsv[i as int]);
                assert(rsv[i as int] == raw_sections@[i as int]@);
                reveal_with_fuel(Seq::filter, 2);
            }
            if raw_sections[i].is_a_leaflet_section() {
                let ghost rprev = retained@;
                let kept = take_section(&raw_sections, i);
                let ghost keptv = kept@;
                retained.push(kept);
                proof {
                    let view_of = |rs: RawSection| rs@;
                    rprev.lemma_push_map_commute(view_of, retained@[rprev.len() as int]);
                    assert(retained@ =~= rprev.push(retained@[rprev.len() as int]));
                    assert(retained@.map_values(view_of) =~= rprev.map_values(view_of).push(
                        keptv,
                    ));
                }
            }
            i = i + 1;
        }
        proof {
            assert(rsv.take(rsv.len() as int) =~= rsv);
            assert(retained@.map_values(|rs: RawSection| rs@) =~= retained_sections_spec(
                document_text@,
            ));
        }
        if retained.len() == 0 {
            return Err(ParseError::NoLeafletSections);
        }
        let schema = match Schema::from_raw_section(&retained[0]) {
            Ok(s) => s,
            Err(e) => {
                proof {
                    assert(retained@.map_values(|rs: RawSection| rs@)[0] == retained@[0]@);
                }
                return Err(e);
            },
        };
        proof {
            assert(retained@.map_values(|rs: RawSection| rs@)[0] == retained@[0]@);
        }
        let ghost retv = retained@.map_values(|rs: RawSection| rs@);
        let ghost remv = retv.skip(1);
        let mut sections: Vec<Section> = Vec::new();
        let mut s: usize = 1;
        proof {
            assert(remv.take(0) =~= Seq::<RawSectionModel>::empty());
            assert(parse_sections_spec(fv, schema@, Seq::<RawSectionModel>::empty()) == Ok::<
                Seq<Seq<ParagraphModel>>,
                ParseErrorModel,
            >(Seq::empty()));
            assert(sections@.map_values(|sc: Section| sc@) =~= Seq::<
                Seq<ParagraphModel>,
            >::empty());
        }
        while s < retained.len()
            invariant
                1 <= s <= retained@.len(),
                fv == vault.spec_file_views(),
                retv == retained@.map_values(|rs: RawSection| rs@),
                retv == retained_sections_spec(document_text@),
                retv.len() >= 1,
                schema_spec(retv[0]) == Ok::<Seq<FieldDefinitionModel>, ParseErrorModel>(
                    schema@,
                ),
                remv == retv.skip(1),
                remv.len() == retained@.len() - 1,
                parse_sections_spec(fv, schema@, remv.take(s - 1)) == Ok::<
                    Seq<Seq<ParagraphModel>>,
                    ParseErrorModel,
                >(sections@.map_values(|sc: Section| sc@)),
            decreases retained@.len() - s,
        {
            proof {
                assert(remv[s - 1] == retv[s as int]);
                assert(retv[s as int] == retained@[s as int]@);
            }
            match Section::from_raw_section(vault, &schema, &retained[s]) {
                Ok(section) => {
                    let ghost sprev = sections@;
                    let ghost sectionv = section@;
                    sections.push(section);
                    proof {
                        assert(remv.take(s - 1 + 1).drop_last() =~= remv.take(s - 1));
                        lemma_parse_sections_step(fv, schema@, remv, s - 1, sectionv);
                        let view_of = |sc: Section| sc@;
                        sprev.lemma_push_map_commute(view_of, sections@[sprev.len() as int]);
                        assert(sections@ =~= sprev.push(sections@[sprev.len() as int]));
                        assert(sections@.map_values(view_of) =~= sprev.map_values(view_of).push(
                            sectionv,
                        ));
                    }
                },
                Err(e) => {
                    proof {
                        lemma_parse_sections_split(fv, schema@, remv, s - 1);
                        assert(remv.skip(s - 1)[0] == remv[s - 1]);
                        assert(parse_sections_spec(fv, schema@, remv.skip(s - 1)) == Err::<
                            Seq<Seq<ParagraphModel>>,
                            ParseErrorModel,
                        >(e@));
                    }
                    return Err(e);
                },
            }
            s = s + 1;
        }
        proof {
            assert(remv.take(remv.len() as int) =~= remv);
        }
        Ok(Document { schema, sections })
    }
}

/// A by-value copy of one raw section out of a shared list.
fn take_section(sections: &Vec<RawSection>, i: usize) -> (r: RawSection)
    requires
        i < sections@.len(),
    ensures
        r@ == sections@[i as int]@,
{
    let source = &sections[i];
    let mut lines: Vec<Line> = Vec::new();
    let mut j: usize = 0;
    while j < source.lines.len()
        invariant
            0 <= j <= source.lines@.len(),
            lines@.len() == j,
            forall|w: int| 0 <= w < j ==> #[trigger] lines@[w]@ == source.lines@[w]@,
        decreases source.lines@.len() - j,
    {
        lines.push(source.lines[j].clone());
        j = j + 1;
    }
    let r = RawSection {
        starting_line_number: source.starting_line_number,
        lines,
        text: text::subrange_vec(source.text.as_slice(), 0, source.text.len()),
    };
    proof {
        assert(r.text@ =~= source.text@);
        assert forall|w: int| 0 <= w < r@.lines.len() implies r@.lines[w] == source@.lines[w] by {
            assert(r@.lines[w] == r.lines@[w]@);
            assert(source@.lines[w] == source.lines@[w]@);
        }
        assert(r@.lines =~= source@.lines);
    }
    r
}

} // verus!
