//! Library-wide laws, stated and proved over the same spec functions the
//! public contracts use.

use vstd::prelude::*;

use crate::leaflet::document::document_spec;
use crate::leaflet::document::parse_sections_spec;
use crate::leaflet::document::retained_sections_spec;
use crate::leaflet::line::LineModel;
use crate::leaflet::metadata::ClassifiedLine;
use crate::leaflet::metadata::MetadataEntryModel;
use crate::leaflet::metadata::classify_spec;
use crate::leaflet::metadata::lemma_md_index;
use crate::leaflet::metadata::md_has;
use crate::leaflet::metadata::md_index;
use crate::leaflet::metadata::md_insert;
use crate::leaflet::metadata::missing_spec;
use crate::leaflet::paragraph::ParagraphModel;
use crate::leaflet::parse_error::ParseErrorModel;
use crate::leaflet::raw_section::RawSectionModel;
use crate::leaflet::schema::FieldDefinitionModel;
use crate::leaflet::schema::Required;
use crate::leaflet::schema::schema_spec;
use crate::leaflet::section::section_loop_spec;
use crate::leaflet::section::section_spec;
use crate::obsidian::file::FileView;
use crate::obsidian::reference::first_match_spec;
use crate::obsidian::reference::key_matches;
use crate::obsidian::reference::lemma_first_match_spec;
use crate::obsidian::reference::resolve_spec;

verus! {

/// A name held at some entry is a held name.
proof fn lemma_md_has_witness(md: Seq<MetadataEntryModel>, x: Seq<u8>, j: int)
    requires
        0 <= j < md.len(),
        md[j].name == x,
    ensures
        md_has(md, x),
{
    lemma_md_index(md, x);
    if md_index(md, x) >= md.len() {
        assert(md[j].name != x);
    }
}

/// Inserting a field never removes one: every name held before is held
/// after.
proof fn lemma_md_insert_keeps(
    md: Seq<MetadataEntryModel>,
    n: Seq<u8>,
    v: crate::leaflet::metadata::FieldValueModel,
    x: Seq<u8>,
)
    requires
        md_has(md, x),
    ensures
        md_has(md_insert(md, n, v), x),
{
    lemma_md_index(md, x);
    lemma_md_index(md, n);
    let md2 = md_insert(md, n, v);
    let i = md_index(md, x);
    let p = md_index(md, n);
    if p < md.len() {
        if i == p {
            assert(md[p].name == x && md[p].name == n);
            assert(md2[p].name == x);
            lemma_md_has_witness(md2, x, p);
        } else {
            assert(md2[i] == md[i]);
            lemma_md_has_witness(md2, x, i);
        }
    } else {
        assert(md2[i] == md[i]);
        lemma_md_has_witness(md2, x, i);
    }
}

/// A filtered element is an element.
proof fn lemma_filter_elem_member(
    schema: Seq<FieldDefinitionModel>,
    pred: spec_fn(FieldDefinitionModel) -> bool,
    i: int,
)
    requires
        0 <= i < schema.filter(pred).len(),
    ensures
        exists|w: int| 0 <= w < schema.len() && schema[w] == schema.filter(pred)[i],
    decreases schema.len(),
{
    reveal_with_fuel(Seq::filter, 2);
    if schema.len() > 0 {
        assert(schema.drop_last().push(schema.last()) =~= schema);
        if pred(schema.last()) && i == schema.filter(pred).len() - 1 {
            assert(schema.filter(pred)[i] == schema.last());
            assert(schema[schema.len() - 1] == schema.filter(pred)[i]);
        } else {
            lemma_filter_elem_member(schema.drop_last(), pred, i);
            let w = choose|w: int|
                0 <= w < schema.drop_last().len() && schema.drop_last()[w] == schema.drop_last()
                    .filter(pred)[i];
            assert(schema[w] == schema.filter(pred)[i]);
        }
    }
}

/// Once every required field is present, it stays present: the missing
/// list can only shrink to or stay at empty as metadata grows.
proof fn lemma_satisfied_stays_satisfied(
    schema: Seq<FieldDefinitionModel>,
    md: Seq<MetadataEntryModel>,
    n: Seq<u8>,
    v: crate::leaflet::metadata::FieldValueModel,
)
    requires
        missing_spec(schema, md).len() == 0,
    ensures
        missing_spec(schema, md_insert(md, n, v)).len() == 0,
{
    let md2 = md_insert(md, n, v);
    let pred2 = |fd: FieldDefinitionModel| fd.required == Required::Yes && !md_has(md2, fd.name);
    if missing_spec(schema, md2).len() > 0 {
        schema.lemma_filter_pred(pred2, 0);
        let fd = missing_spec(schema, md2)[0];
        lemma_filter_elem_member(schema, pred2, 0);
        let w = choose|w: int| 0 <= w < schema.len() && schema[w] == fd;
        if md_has(md, fd.name) {
            lemma_md_insert_keeps(md, n, v, fd.name);
            assert(false);
        } else {
            lemma_filter_member_absent(schema, md, w);
            assert(false);
        }
    }
}

/// A required field of the schema that the metadata misses always shows
/// up in the missing list.
proof fn lemma_filter_member_absent(
    schema: Seq<FieldDefinitionModel>,
    md: Seq<MetadataEntryModel>,
    w: int,
)
    requires
        0 <= w < schema.len(),
        schema[w].required == Required::Yes,
        !md_has(md, schema[w].name),
    ensures
        missing_spec(schema, md).len() > 0,
    decreases schema.len(),
{
    let pred = |fd: FieldDefinitionModel| fd.required == Required::Yes && !md_has(md, fd.name);
    reveal_with_fuel(Seq::filter, 2);
    if schema.len() > 0 {
        assert(schema.drop_last().push(schema.last()) =~= schema);
        if w == schema.len() - 1 {
            assert(pred(schema.last()));
        } else {
            lemma_filter_member_absent(schema.drop_last(), md, w);
            if pred(schema.last()) {
            } else {
                assert(schema.filter(pred) =~= schema.drop_last().filter(pred));
            }
        }
    }
}

/// Whether, walking the lines, the running metadata satisfies every
/// required field by the time the first ordinary text line appears.
pub open spec fn required_met_at_first_text(
    files: Seq<FileView>,
    schema: Seq<FieldDefinitionModel>,
    lines: Seq<LineModel>,
    md: Seq<MetadataEntryModel>,
) -> bool
    decreases lines.len(),
{
    if lines.len() == 0 {
        true
    } else {
        match classify_spec(files, schema, lines[0]) {
            ClassifiedLine::Field { name, value } => required_met_at_first_text(
                files,
                schema,
                lines.skip(1),
                md_insert(md, name, value),
            ),
            ClassifiedLine::Empty => required_met_at_first_text(files, schema, lines.skip(1), md),
            ClassifiedLine::Other => missing_spec(schema, md).len() == 0,
        }
    }
}

/// A section whose metadata already satisfies the schema can never fail:
/// growth of the metadata keeps it satisfied.
proof fn lemma_section_never_fails_when_satisfied(
    files: Seq<FileView>,
    schema: Seq<FieldDefinitionModel>,
    lines: Seq<LineModel>,
    md: Seq<MetadataEntryModel>,
    pending: Seq<LineModel>,
    paras: Seq<ParagraphModel>,
)
    requires
        missing_spec(schema, md).len() == 0,
    ensures
        section_loop_spec(files, schema, lines, md, pending, paras) is Ok,
    decreases lines.len(),
{
    if lines.len() > 0 {
        match classify_spec(files, schema, lines[0]) {
            ClassifiedLine::Field { name, value } => {
                lemma_satisfied_stays_satisfied(schema, md, name, value);
                lemma_section_never_fails_when_satisfied(
                    files,
                    schema,
                    lines.skip(1),
                    md_insert(md, name, value),
                    pending,
                    paras,
                );
            },
            ClassifiedLine::Empty => {
                lemma_section_never_fails_when_satisfied(
                    files,
                    schema,
                    lines.skip(1),
                    md,
                    Seq::empty(),
                    paras + crate::leaflet::section::flush_spec(md, pending),
                );
            },
            ClassifiedLine::Other => {
                lemma_section_never_fails_when_satisfied(
                    files,
                    schema,
                    lines.skip(1),
                    md,
                    pending.push(lines[0]),
                    paras,
                );
            },
        }
    }
}

/// The section state machine succeeds exactly when every required field
/// is present by the first ordinary text line. Later text lines cannot
/// fail once the first has passed, because metadata only grows.
pub proof fn lemma_section_parses_iff_required_met(
    files: Seq<FileView>,
    schema: Seq<FieldDefinitionModel>,
    lines: Seq<LineModel>,
    md: Seq<MetadataEntryModel>,
    pending: Seq<LineModel>,
    paras: Seq<ParagraphModel>,
)
    ensures
        (section_loop_spec(files, schema, lines, md, pending, paras) is Ok)
            == required_met_at_first_text(files, schema, lines, md),
    decreases lines.len(),
{
    if lines.len() > 0 {
        match classify_spec(files, schema, lines[0]) {
            ClassifiedLine::Field { name, value } => {
                lemma_section_parses_iff_required_met(
                    files,
                    schema,
                    lines.skip(1),
                    md_insert(md, name, value),
                    pending,
                    paras,
                );
            },
            ClassifiedLine::Empty => {
                lemma_section_parses_iff_required_met(
                    files,
                    schema,
                    lines.skip(1),
                    md,
                    Seq::empty(),
                    paras + crate::leaflet::section::flush_spec(md, pending),
                );
            },
            ClassifiedLine::Other => {
                if missing_spec(schema, md).len() == 0 {
                    lemma_section_never_fails_when_satisfied(
                        files,
                        schema,
                        lines.skip(1),
                        md,
                        pending.push(lines[0]),
                        paras,
                    );
                }
            },
        }
    }
}

/// For a document with exactly one retained section after the schema,
/// the whole parse succeeds exactly when that section's metadata
/// satisfies every required field before its first non-metadata line.
pub proof fn lemma_single_section_parse(files: Seq<FileView>, s: Seq<u8>)
    requires
        retained_sections_spec(s).len() == 2,
        schema_spec(retained_sections_spec(s)[0]) is Ok,
    ensures
        (document_spec(files, s) is Ok) == required_met_at_first_text(
            files,
            schema_spec(retained_sections_spec(s)[0])->Ok_0,
            retained_sections_spec(s)[1].lines,
            Seq::empty(),
        ),
{
    let retained = retained_sections_spec(s);
    let schema = schema_spec(retained[0])->Ok_0;
    let rest = retained.skip(1);
    assert(rest =~= seq![retained[1]]);
    assert(rest[0] == retained[1]);
    assert(rest.skip(1) =~= Seq::<RawSectionModel>::empty());
    assert(parse_sections_spec(files, schema, Seq::<RawSectionModel>::empty()) == Ok::<
        Seq<Seq<ParagraphModel>>,
        ParseErrorModel,
    >(Seq::empty()));
    lemma_section_parses_iff_required_met(
        files,
        schema,
        retained[1].lines,
        Seq::empty(),
        Seq::empty(),
        Seq::empty(),
    );
}

/// Each parsed section of a successful end-to-end parse is exactly what
/// reparsing that raw section alone gives: the round trip of splitting,
/// reparsing the schema, and reparsing each section reproduces the
/// end-to-end structure.
pub proof fn lemma_parse_round_trip(files: Seq<FileView>, s: Seq<u8>)
    requires
        document_spec(files, s) is Ok,
    ensures
        retained_sections_spec(s).len() >= 1,
        schema_spec(retained_sections_spec(s)[0]) == Ok::<
            Seq<FieldDefinitionModel>,
            ParseErrorModel,
        >(document_spec(files, s)->Ok_0.schema),
        document_spec(files, s)->Ok_0.sections.len() == retained_sections_spec(s).len() - 1,
        forall|i: int|
            1 <= i < retained_sections_spec(s).len() ==> section_spec(
                files,
                document_spec(files, s)->Ok_0.schema,
                #[trigger] retained_sections_spec(s)[i],
            ) == Ok::<Seq<ParagraphModel>, ParseErrorModel>(
                document_spec(files, s)->Ok_0.sections[i - 1],
            ),
{
    let retained = retained_sections_spec(s);
    let schema = document_spec(files, s)->Ok_0.schema;
    lemma_parse_sections_elements(files, schema, retained.skip(1));
    assert forall|i: int| 1 <= i < retained.len() implies section_spec(
        files,
        schema,
        #[trigger] retained[i],
    ) == Ok::<Seq<ParagraphModel>, ParseErrorModel>(
        document_spec(files, s)->Ok_0.sections[i - 1],
    ) by {
        assert(retained.skip(1)[i - 1] == retained[i]);
    }
}

/// A successful fold holds one parsed section per raw section, each the
/// section's own parse.
proof fn lemma_parse_sections_elements(
    files: Seq<FileView>,
    schema: Seq<FieldDefinitionModel>,
    secs: Seq<RawSectionModel>,
)
    requires
        parse_sections_spec(files, schema, secs) is Ok,
    ensures
        parse_sections_spec(files, schema, secs)->Ok_0.len() == secs.len(),
        forall|i: int|
            0 <= i < secs.len() ==> section_spec(files, schema, #[trigger] secs[i]) == Ok::<
                Seq<ParagraphModel>,
                ParseErrorModel,
            >(parse_sections_spec(files, schema, secs)->Ok_0[i]),
    decreases secs.len(),
{
    if secs.len() > 0 {
        lemma_parse_sections_elements(files, schema, secs.skip(1));
        assert forall|i: int| 0 <= i < secs.len() implies section_spec(
            files,
            schema,
            #[trigger] secs[i],
        ) == Ok::<Seq<ParagraphModel>, ParseErrorModel>(
            parse_sections_spec(files, schema, secs)->Ok_0[i],
        ) by {
            if i > 0 {
                assert(secs.skip(1)[i - 1] == secs[i]);
                assert(parse_sections_spec(files, schema, secs)->Ok_0[i] == parse_sections_spec(
                    files,
                    schema,
                    secs.skip(1),
                )->Ok_0[i - 1]);
            }
        }
    }
}

/// Resolution is deterministic and favors older files: when file `i`
/// matches key `k`, no earlier key function matches any file, and no
/// earlier file matches key `k`, then `i` is the resolved file —
/// whatever else the list holds.
pub proof fn lemma_resolution_prefers_first(
    link_text: Seq<u8>,
    files: Seq<FileView>,
    k: int,
    i: int,
)
    requires
        0 <= k <= 3,
        0 <= i < files.len(),
        key_matches(k, link_text, files[i]),
        forall|kk: int, j: int|
            0 <= kk < k && 0 <= j < files.len() ==> !(#[trigger] key_matches(
                kk,
                link_text,
                files[j],
            )),
        forall|j: int| 0 <= j < i ==> !key_matches(k, link_text, #[trigger] files[j]),
    ensures
        resolve_spec(link_text, files) == first_match_spec(k, link_text, files),
        first_match_spec(k, link_text, files) <= i,
        key_matches(k, link_text, files[first_match_spec(k, link_text, files)]),
{
    lemma_first_match_spec(0, link_text, files);
    lemma_first_match_spec(1, link_text, files);
    lemma_first_match_spec(2, link_text, files);
    lemma_first_match_spec(3, link_text, files);
    let m = first_match_spec(k, link_text, files);
    if m > i {
        assert(!key_matches(k, link_text, files[i]));
    }
    assert forall|kk: int| 0 <= kk < k implies first_match_spec(kk, link_text, files)
        == files.len() by {
        if first_match_spec(kk, link_text, files) < files.len() {
            assert(key_matches(kk, link_text, files[first_match_spec(kk, link_text, files)]));
        }
    }
}

/// The missing-fields list is exactly the unmet required fields: every
/// listed field is required and absent, and every required, absent
/// schema field is listed. An optional field never appears.
pub proof fn lemma_missing_fields_exact(
    schema: Seq<FieldDefinitionModel>,
    md: Seq<MetadataEntryModel>,
)
    ensures
        forall|i: int|
            0 <= i < missing_spec(schema, md).len() ==> (#[trigger] missing_spec(schema, md)[i])
                .required == Required::Yes && !md_has(md, missing_spec(schema, md)[i].name),
        forall|j: int|
            0 <= j < schema.len() && (#[trigger] schema[j]).required == Required::Yes && !md_has(
                md,
                schema[j].name,
            ) ==> missing_spec(schema, md).contains(schema[j]),
{
    let pred = |fd: FieldDefinitionModel| fd.required == Required::Yes && !md_has(md, fd.name);
    assert forall|i: int| 0 <= i < missing_spec(schema, md).len() implies (#[trigger] missing_spec(
        schema,
        md,
    )[i]).required == Required::Yes && !md_has(md, missing_spec(schema, md)[i].name) by {
        schema.lemma_filter_pred(pred, i);
    }
    assert forall|j: int|
        0 <= j < schema.len() && (#[trigger] schema[j]).required == Required::Yes && !md_has(
            md,
            schema[j].name,
        ) implies missing_spec(schema, md).contains(schema[j]) by {
        lemma_filter_has_member(schema, pred, j);
    }
}

proof fn lemma_filter_has_member(
    schema: Seq<FieldDefinitionModel>,
    pred: spec_fn(FieldDefinitionModel) -> bool,
    j: int,
)
    requires
        0 <= j < schema.len(),
        pred(schema[j]),
    ensures
        schema.filter(pred).contains(schema[j]),
    decreases schema.len(),
{
    reveal_with_fuel(Seq::filter, 2);
    assert(schema.drop_last().push(schema.last()) =~= schema);
    if j == schema.len() - 1 {
        assert(schema.filter(pred).last() == schema[j]);
    } else {
        lemma_filter_has_member(schema.drop_last(), pred, j);
        let w = choose|w: int|
            0 <= w < schema.drop_last().filter(pred).len() && schema.drop_last().filter(pred)[w]
                == schema[j];
        if pred(schema.last()) {
            assert(schema.filter(pred) =~= schema.drop_last().filter(pred).push(schema.last()));
            assert(schema.filter(pred)[w] == schema[j]);
        } else {
            assert(schema.filter(pred) =~= schema.drop_last().filter(pred));
        }
    }
}


/// Whether a line would set the metadata field named `fname`.
pub open spec fn line_sets_field(
    files: Seq<FileView>,
    schema: Seq<FieldDefinitionModel>,
    l: LineModel,
    fname: Seq<u8>,
) -> bool {
    match classify_spec(files, schema, l) {
        ClassifiedLine::Field { name, value } => name == fname,
        ClassifiedLine::Empty => false,
        ClassifiedLine::Other => false,
    }
}

/// The first line the machine classifies as ordinary text, if any.
pub open spec fn first_text_line(
    files: Seq<FileView>,
    schema: Seq<FieldDefinitionModel>,
    lines: Seq<LineModel>,
) -> Option<LineModel>
    decreases lines.len(),
{
    if lines.len() == 0 {
        None
    } else {
        match classify_spec(files, schema, lines[0]) {
            ClassifiedLine::Other => Some(lines[0]),
            ClassifiedLine::Field { name, value } => first_text_line(files, schema, lines.skip(1)),
            ClassifiedLine::Empty => first_text_line(files, schema, lines.skip(1)),
        }
    }
}

/// Inserting under one name leaves every other name absent.
proof fn lemma_md_insert_absent_stays(
    md: Seq<MetadataEntryModel>,
    n: Seq<u8>,
    v: crate::leaflet::metadata::FieldValueModel,
    x: Seq<u8>,
)
    requires
        !md_has(md, x),
        n != x,
    ensures
        !md_has(md_insert(md, n, v), x),
{
    lemma_md_index(md, x);
    lemma_md_index(md, n);
    let md2 = md_insert(md, n, v);
    let p = md_index(md, n);
    assert forall|j: int| 0 <= j < md2.len() implies md2[j].name != x by {
        if p < md.len() && j == p {
            assert(md2[j].name == n);
        } else if p < md.len() || j < md.len() {
            assert(md2[j] == md[j]);
        } else {
            assert(md2[j].name == n);
        }
    }
    lemma_md_index(md2, x);
    if md_index(md2, x) < md2.len() {
        assert(md2[md_index(md2, x)].name != x);
    }
}

/// Two schemas with the same names and types classify every line alike:
/// the required flag is never consulted during classification.
proof fn lemma_field_index_same_names(
    s1: Seq<FieldDefinitionModel>,
    s2: Seq<FieldDefinitionModel>,
    n: Seq<u8>,
)
    requires
        s1.len() == s2.len(),
        forall|i: int| 0 <= i < s1.len() ==> (#[trigger] s1[i]).name == s2[i].name,
    ensures
        crate::leaflet::schema::field_index(s1, n) == crate::leaflet::schema::field_index(s2, n),
    decreases s1.len(),
{
    if s1.len() > 0 {
        assert(s1[0].name == s2[0].name);
        if s1[0].name != n {
            assert forall|i: int| 0 <= i < s1.skip(1).len() implies (#[trigger] s1.skip(
                1,
            )[i]).name == s2.skip(1)[i].name by {
                assert(s1.skip(1)[i] == s1[i + 1]);
                assert(s2.skip(1)[i] == s2[i + 1]);
            }
            lemma_field_index_same_names(s1.skip(1), s2.skip(1), n);
        }
    }
}

proof fn lemma_classify_same(
    files: Seq<FileView>,
    s1: Seq<FieldDefinitionModel>,
    s2: Seq<FieldDefinitionModel>,
    l: LineModel,
)
    requires
        s1.len() == s2.len(),
        forall|i: int|
            0 <= i < s1.len() ==> (#[trigger] s1[i]).name == s2[i].name && s1[i].expected_type
                == s2[i].expected_type,
    ensures
        classify_spec(files, s1, l) == classify_spec(files, s2, l),
{
    if l.clean.len() > 0 {
        let k = crate::text::find_byte_spec(l.clean, 58);
        if k < l.clean.len() {
            let key = crate::text::trim_spec(l.clean.take(k));
            let n = crate::leaflet::normalized_string::normalize_spec(key);
            lemma_field_index_same_names(s1, s2, n);
            crate::leaflet::schema::lemma_field_index(s1, n);
            let fi = crate::leaflet::schema::field_index(s1, n);
            if fi < s1.len() {
                assert(s1[fi].expected_type == s2[fi].expected_type);
            }
        }
    }
}

proof fn lemma_first_text_same(
    files: Seq<FileView>,
    s1: Seq<FieldDefinitionModel>,
    s2: Seq<FieldDefinitionModel>,
    lines: Seq<LineModel>,
)
    requires
        s1.len() == s2.len(),
        forall|i: int|
            0 <= i < s1.len() ==> (#[trigger] s1[i]).name == s2[i].name && s1[i].expected_type
                == s2[i].expected_type,
    ensures
        first_text_line(files, s1, lines) == first_text_line(files, s2, lines),
        forall|i: int, fname: Seq<u8>|
            0 <= i < lines.len() ==> #[trigger] line_sets_field(files, s1, lines[i], fname)
                == line_sets_field(files, s2, lines[i], fname),
    decreases lines.len(),
{
    assert forall|i: int, fname: Seq<u8>|
        0 <= i < lines.len() implies #[trigger] line_sets_field(files, s1, lines[i], fname)
        == line_sets_field(files, s2, lines[i], fname) by {
        lemma_classify_same(files, s1, s2, lines[i]);
    }
    if lines.len() > 0 {
        lemma_classify_same(files, s1, s2, lines[0]);
        lemma_first_text_same(files, s1, s2, lines.skip(1));
    }
}

/// A run that succeeds and whose lines never set `fname` leaves `fname`
/// out of every paragraph's metadata snapshot.
proof fn lemma_section_metadata_avoids(
    files: Seq<FileView>,
    schema: Seq<FieldDefinitionModel>,
    lines: Seq<LineModel>,
    md: Seq<MetadataEntryModel>,
    pending: Seq<LineModel>,
    paras: Seq<ParagraphModel>,
    fname: Seq<u8>,
)
    requires
        section_loop_spec(files, schema, lines, md, pending, paras) is Ok,
        !md_has(md, fname),
        forall|i: int|
            0 <= i < lines.len() ==> !line_sets_field(files, schema, #[trigger] lines[i], fname),
        forall|p: int| 0 <= p < paras.len() ==> !md_has((#[trigger] paras[p]).metadata, fname),
    ensures
        forall|p: int|
            0 <= p < section_loop_spec(files, schema, lines, md, pending, paras)->Ok_0.len()
                ==> !md_has(
                (#[trigger] section_loop_spec(
                    files,
                    schema,
                    lines,
                    md,
                    pending,
                    paras,
                )->Ok_0[p]).metadata,
                fname,
            ),
    decreases lines.len(),
{
    let flushed = paras + crate::leaflet::section::flush_spec(md, pending);
    assert forall|p: int| 0 <= p < flushed.len() implies !md_has(
        (#[trigger] flushed[p]).metadata,
        fname,
    ) by {
        if p >= paras.len() {
            assert(flushed[p].metadata == md);
        }
    }
    if lines.len() > 0 {
        assert forall|i: int| 0 <= i < lines.skip(1).len() implies !line_sets_field(
            files,
            schema,
            #[trigger] lines.skip(1)[i],
            fname,
        ) by {
            assert(lines.skip(1)[i] == lines[i + 1]);
        }
        match classify_spec(files, schema, lines[0]) {
            ClassifiedLine::Field { name, value } => {
                assert(!line_sets_field(files, schema, lines[0], fname));
                assert(name != fname);
                lemma_md_insert_absent_stays(md, name, value, fname);
                lemma_section_metadata_avoids(
                    files,
                    schema,
                    lines.skip(1),
                    md_insert(md, name, value),
                    pending,
                    paras,
                    fname,
                );
            },
            ClassifiedLine::Empty => {
                lemma_section_metadata_avoids(
                    files,
                    schema,
                    lines.skip(1),
                    md,
                    Seq::empty(),
                    flushed,
                    fname,
                );
            },
            ClassifiedLine::Other => {
                lemma_section_metadata_avoids(
                    files,
                    schema,
                    lines.skip(1),
                    md,
                    pending.push(lines[0]),
                    paras,
                    fname,
                );
            },
        }
    }
}

/// Under a schema whose field `f` is required but never set, the machine
/// fails exactly at the first text line, with `f` among the missing
/// fields; with no text line it still succeeds.
proof fn lemma_required_absent_aborts(
    files: Seq<FileView>,
    schema2: Seq<FieldDefinitionModel>,
    f: int,
    lines: Seq<LineModel>,
    md: Seq<MetadataEntryModel>,
    pending: Seq<LineModel>,
    paras: Seq<ParagraphModel>,
)
    requires
        0 <= f < schema2.len(),
        schema2[f].required == Required::Yes,
        !md_has(md, schema2[f].name),
        forall|i: int|
            0 <= i < lines.len() ==> !line_sets_field(
                files,
                schema2,
                #[trigger] lines[i],
                schema2[f].name,
            ),
    ensures
        ({
            let res = section_loop_spec(files, schema2, lines, md, pending, paras);
            match first_text_line(files, schema2, lines) {
                None => res is Ok,
                Some(l) => {
                    &&& res is Err
                    &&& res->Err_0 is MissingRequiredFields
                    &&& res->Err_0->MissingRequiredFields_line == l
                    &&& res->Err_0->MissingRequiredFields_missing_fields.contains(schema2[f])
                },
            }
        }),
    decreases lines.len(),
{
    if lines.len() > 0 {
        assert forall|i: int| 0 <= i < lines.skip(1).len() implies !line_sets_field(
            files,
            schema2,
            #[trigger] lines.skip(1)[i],
            schema2[f].name,
        ) by {
            assert(lines.skip(1)[i] == lines[i + 1]);
        }
        match classify_spec(files, schema2, lines[0]) {
            ClassifiedLine::Field { name, value } => {
                assert(!line_sets_field(files, schema2, lines[0], schema2[f].name));
                assert(name != schema2[f].name);
                lemma_md_insert_absent_stays(md, name, value, schema2[f].name);
                lemma_required_absent_aborts(
                    files,
                    schema2,
                    f,
                    lines.skip(1),
                    md_insert(md, name, value),
                    pending,
                    paras,
                );
            },
            ClassifiedLine::Empty => {
                lemma_required_absent_aborts(
                    files,
                    schema2,
                    f,
                    lines.skip(1),
                    md,
                    Seq::empty(),
                    paras + crate::leaflet::section::flush_spec(md, pending),
                );
            },
            ClassifiedLine::Other => {
                lemma_filter_member_absent(schema2, md, f);
                lemma_missing_fields_exact(schema2, md);
                assert(missing_spec(schema2, md).contains(schema2[f]));
            },
        }
    }
}

/// A field the schema marks optional may simply be omitted: a section
/// that never sets it, and has every other required field in place by
/// its first text line, parses — and no paragraph's metadata holds the
/// field. Had the same field been marked required instead, the same
/// section would fail at its first text line with that field among the
/// missing ones.
pub proof fn lemma_optional_field_omission(
    files: Seq<FileView>,
    schema: Seq<FieldDefinitionModel>,
    f: int,
    lines: Seq<LineModel>,
)
    requires
        0 <= f < schema.len(),
        schema[f].required == Required::No,
        forall|i: int|
            0 <= i < lines.len() ==> !line_sets_field(
                files,
                schema,
                #[trigger] lines[i],
                schema[f].name,
            ),
        required_met_at_first_text(files, schema, lines, Seq::empty()),
    ensures
        section_loop_spec(files, schema, lines, Seq::empty(), Seq::empty(), Seq::empty()) is Ok,
        forall|p: int|
            0 <= p < section_loop_spec(
                files,
                schema,
                lines,
                Seq::empty(),
                Seq::empty(),
                Seq::empty(),
            )->Ok_0.len() ==> !md_has(
                (#[trigger] section_loop_spec(
                    files,
                    schema,
                    lines,
                    Seq::empty(),
                    Seq::empty(),
                    Seq::empty(),
                )->Ok_0[p]).metadata,
                schema[f].name,
            ),
        ({
            let schema2 = schema.update(
                f,
                FieldDefinitionModel {
                    name: schema[f].name,
                    required: Required::Yes,
                    expected_type: schema[f].expected_type,
                },
            );
            let res = section_loop_spec(
                files,
                schema2,
                lines,
                Seq::empty(),
                Seq::empty(),
                Seq::empty(),
            );
            match first_text_line(files, schema, lines) {
                None => res is Ok,
                Some(l) => {
                    &&& res is Err
                    &&& res->Err_0 is MissingRequiredFields
                    &&& res->Err_0->MissingRequiredFields_line == l
                    &&& res->Err_0->MissingRequiredFields_missing_fields.contains(schema2[f])
                },
            }
        }),
{
    lemma_section_parses_iff_required_met(
        files,
        schema,
        lines,
        Seq::empty(),
        Seq::empty(),
        Seq::empty(),
    );
    lemma_section_metadata_avoids(
        files,
        schema,
        lines,
        Seq::empty(),
        Seq::empty(),
        Seq::empty(),
        schema[f].name,
    );
    let schema2 = schema.update(
        f,
        FieldDefinitionModel {
            name: schema[f].name,
            required: Required::Yes,
            expected_type: schema[f].expected_type,
        },
    );
    assert forall|i: int| 0 <= i < schema.len() implies (#[trigger] schema[i]).name
        == schema2[i].name && schema[i].expected_type == schema2[i].expected_type by {}
    lemma_first_text_same(files, schema, schema2, lines);
    assert forall|i: int| 0 <= i < lines.len() implies !line_sets_field(
        files,
        schema2,
        #[trigger] lines[i],
        schema2[f].name,
    ) by {
        assert(!line_sets_field(files, schema, lines[i], schema[f].name));
        assert(schema2[f].name == schema[f].name);
    }
    lemma_required_absent_aborts(
        files,
        schema2,
        f,
        lines,
        Seq::empty(),
        Seq::empty(),
        Seq::empty(),
    );
}

} // verus!
