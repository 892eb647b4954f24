//! The schema of a Leaflet document: an ordered list of field
//! definitions, each a normalized name, a required/optional marker, and
//! an expected type.

use vstd::prelude::*;

use crate::leaflet::line::Line;
use crate::leaflet::line::LineModel;
use crate::leaflet::normalized_string::NormalizedString;
use crate::leaflet::normalized_string::normalize_spec;
use crate::leaflet::parse_error::ParseError;
use crate::leaflet::parse_error::ParseErrorModel;
use crate::leaflet::raw_section::RawSection;
use crate::leaflet::raw_section::RawSectionModel;
use crate::text;

verus! {

/// The four field types a schema can ask for.
#[derive(Debug, Clone, Copy, PartialEq, Eq, Structural)]
pub enum ExpectedType {
    YyyyMmDd,
    String,
    U64,
    Link,
}

/// Whether a field must be present before free text starts.
#[derive(Debug, Clone, Copy, PartialEq, Eq, Structural)]
pub enum Required {
    Yes,
    No,
}

/// Spec-level shape of a field definition.
pub struct FieldDefinitionModel {
    pub name: Seq<u8>,
    pub required: Required,
    pub expected_type: ExpectedType,
}

/// One schema entry.
#[derive(Debug)]
pub struct FieldDefinition {
    pub name: NormalizedString,
    pub required: Required,
    pub expected_type: ExpectedType,
}

impl View for FieldDefinition {
    type V = FieldDefinitionModel;

    open spec fn view(&self) -> FieldDefinitionModel {
        FieldDefinitionModel {
            name: self.name@,
            required: self.required,
            expected_type: self.expected_type,
        }
    }
}

impl Clone for FieldDefinition {
    fn clone(&self) -> (res: Self)
        ensures
            res@ == self@,
    {
        FieldDefinition {
            name: self.name.clone(),
            required: self.required,
            expected_type: self.expected_type,
        }
    }
}

impl ExpectedType {
    /// The literal keyword that names this type in a schema line.
    pub fn as_str(&self) -> (r: &'static str)
        ensures
            text::str_bytes(r) == type_keyword(*self),
            vstd::string::is_ascii(r),
    {
        let r = match self {
            ExpectedType::YyyyMmDd => "yyyy.mm.dd",
            ExpectedType::String => "string",
            ExpectedType::U64 => "u64",
            ExpectedType::Link => "link",
        };
        proof {
            reveal_strlit("yyyy.mm.dd");
            reveal_strlit("string");
            reveal_strlit("u64");
            reveal_strlit("link");
        }
        r
    }
}

/// The keyword of each expected type.
pub open spec fn type_keyword(t: ExpectedType) -> Seq<u8> {
    match t {
        ExpectedType::YyyyMmDd => text::str_bytes("yyyy.mm.dd"),
        ExpectedType::String => text::str_bytes("string"),
        ExpectedType::U64 => text::str_bytes("u64"),
        ExpectedType::Link => text::str_bytes("link"),
    }
}

/// Which type a keyword names, if any.
pub open spec fn type_of_keyword(s: Seq<u8>) -> Option<ExpectedType> {
    if s == text::str_bytes("yyyy.mm.dd") {
        Some(ExpectedType::YyyyMmDd)
    } else if s == text::str_bytes("string") {
        Some(ExpectedType::String)
    } else if s == text::str_bytes("u64") {
        Some(ExpectedType::U64)
    } else if s == text::str_bytes("link") {
        Some(ExpectedType::Link)
    } else {
        None
    }
}

/// What a schema line defines, or which error it raises. The name is
/// everything before the first colon, normalized; the type text is
/// everything after the first colon, trimmed, with an `optional `
/// prefix marking the field optional.
pub open spec fn field_def_spec(l: LineModel) -> Result<FieldDefinitionModel, ParseErrorModel> {
    let k = text::find_byte_spec(l.clean, 58);
    if k >= l.clean.len() {
        Err(ParseErrorModel::FieldDefinitionMissingType { line: l })
    } else {
        let name = normalize_spec(l.clean.take(k));
        let type_text = text::trim_spec(l.clean.skip(k + 1));
        let optional = text::str_bytes("optional ");
        let (inner, required) = if text::starts_with_spec(type_text, optional) {
            (type_text.skip(9), Required::No)
        } else {
            (type_text, Required::Yes)
        };
        match type_of_keyword(inner) {
            Some(t) => Ok(FieldDefinitionModel { name, required, expected_type: t }),
            None => Err(ParseErrorModel::UnexpectedFieldType { line: l, type_text: inner }),
        }
    }
}

impl FieldDefinition {
    /// Reads one schema line.
    pub fn from_line(line: &Line) -> (r: Result<FieldDefinition, ParseError>)
        ensures
            match r {
                Ok(fd) => field_def_spec(line@) == Ok::<FieldDefinitionModel, ParseErrorModel>(
                    fd@,
                ),
                Err(e) => field_def_spec(line@) == Err::<FieldDefinitionModel, ParseErrorModel>(
                    e@,
                ),
            },
    {
        proof {
            reveal_strlit("optional ");
            reveal_strlit("yyyy.mm.dd");
            reveal_strlit("string");
            reveal_strlit("u64");
            reveal_strlit("link");
        }
        let clean = &line.text_without_comments;
        let k = text::find_byte(clean.as_slice(), 58);
        if k >= clean.len() {
            return Err(ParseError::field_definition_missing_type(line));
        }
        let name_part = text::subrange_vec(clean.as_slice(), 0, k);
        let name = NormalizedString::new(name_part.as_slice());
        proof {
            assert(name_part@ =~= clean@.take(k as int));
        }
        let type_raw = text::subrange_vec(clean.as_slice(), k + 1, clean.len());
        proof {
            assert(type_raw@ =~= clean@.skip(k + 1));
        }
        let type_text = text::trim(type_raw.as_slice());
        let optional_pat = text::lit_bytes("optional ");
        let (inner, required): (Vec<u8>, Required) = if text::starts_with(
            type_text.as_slice(),
            optional_pat,
        ) {
            (text::subrange_vec(type_text.as_slice(), 9, type_text.len()), Required::No)
        } else {
            (text::subrange_vec(type_text.as_slice(), 0, type_text.len()), Required::Yes)
        };
        proof {
            if text::starts_with_spec(type_text@, text::str_bytes("optional ")) {
                assert(inner@ =~= type_text@.skip(9));
            } else {
                assert(inner@ =~= type_text@);
            }
        }
        let expected_type: ExpectedType = if text::bytes_eq(
            inner.as_slice(),
            text::lit_bytes("yyyy.mm.dd"),
        ) {
            ExpectedType::YyyyMmDd
        } else if text::bytes_eq(inner.as_slice(), text::lit_bytes("string")) {
            ExpectedType::String
        } else if text::bytes_eq(inner.as_slice(), text::lit_bytes("u64")) {
            ExpectedType::U64
        } else if text::bytes_eq(inner.as_slice(), text::lit_bytes("link")) {
            ExpectedType::Link
        } else {
            return Err(ParseError::unexpected_field_type(line, inner.as_slice()));
        };
        Ok(FieldDefinition { name, required, expected_type })
    }
}

/// Lines of a schema section that define fields: nonempty after comment
/// stripping, and not the marker line itself.
pub open spec fn schema_line_filter(l: LineModel) -> bool {
    l.clean.len() > 0 && !text::contains_seq(
        text::lower_spec(l.clean),
        text::str_bytes("this is a leaflet schema"),
    )
}

/// Whether a section carries the case-insensitive schema marker.
pub open spec fn has_schema_marker(sec: RawSectionModel) -> bool {
    text::contains_seq(text::lower_spec(sec.text), text::str_bytes("this is a leaflet schema"))
}

/// Reads field definitions front to back; the first bad line aborts.
pub open spec fn parse_defs_spec(ls: Seq<LineModel>) -> Result<
    Seq<FieldDefinitionModel>,
    ParseErrorModel,
>
    decreases ls.len(),
{
    if ls.len() == 0 {
        Ok(Seq::empty())
    } else {
        match field_def_spec(ls[0]) {
            Err(e) => Err(e),
            Ok(fd) => match parse_defs_spec(ls.skip(1)) {
                Err(e) => Err(e),
                Ok(fds) => Ok(seq![fd] + fds),
            },
        }
    }
}

/// What parsing a schema section gives: its field definitions, or the
/// error; a section without the marker is no schema at all.
pub open spec fn schema_spec(sec: RawSectionModel) -> Result<
    Seq<FieldDefinitionModel>,
    ParseErrorModel,
> {
    if !has_schema_marker(sec) {
        Err(ParseErrorModel::FirstSectionIsNotSchema)
    } else {
        parse_defs_spec(sec.lines.filter(|l: LineModel| schema_line_filter(l)))
    }
}

/// Splitting a parse at `i` : if the first `i` lines parsed fine, the
/// whole parse is the prefix result plus the rest's parse.
proof fn lemma_parse_defs_split(ls: Seq<LineModel>, i: int)
    requires
        0 <= i <= ls.len(),
        parse_defs_spec(ls.take(i)) is Ok,
    ensures
        parse_defs_spec(ls) == match parse_defs_spec(ls.skip(i)) {
            Err(e) => Err::<Seq<FieldDefinitionModel>, ParseErrorModel>(e),
            Ok(fds) => Ok(parse_defs_spec(ls.take(i))->Ok_0 + fds),
        },
    decreases i,
{
    if i == 0 {
        assert(ls.take(0) =~= Seq::<LineModel>::empty());
        assert(ls.skip(0) =~= ls);
        match parse_defs_spec(ls) {
            Err(e) => {},
            Ok(fds) => {
                assert(parse_defs_spec(ls.take(0))->Ok_0 + fds =~= fds);
            },
        }
    } else {
        assert(ls.take(i)[0] == ls[0]);
        assert(ls.take(i).skip(1) =~= ls.skip(1).take(i - 1));
        match field_def_spec(ls[0]) {
            Err(e) => {
                assert(false);
            },
            Ok(fd) => {
                lemma_parse_defs_split(ls.skip(1), i - 1);
                assert(ls.skip(1).skip(i - 1) =~= ls.skip(i));
                match parse_defs_spec(ls.skip(i)) {
                    Err(e) => {},
                    Ok(fds) => {
                        assert(parse_defs_spec(ls.skip(1).take(i - 1)) is Ok);
                        assert(seq![fd] + (parse_defs_spec(ls.skip(1).take(i - 1))->Ok_0 + fds)
                            =~= (seq![fd] + parse_defs_spec(ls.skip(1).take(i - 1))->Ok_0) + fds);
                        assert(parse_defs_spec(ls.take(i))->Ok_0 =~= seq![fd] + parse_defs_spec(
                            ls.skip(1).take(i - 1),
                        )->Ok_0);
                    },
                }
            },
        }
    }
}

/// One more line parsed fine: the prefix result grows by one.
proof fn lemma_parse_defs_step(ls: Seq<LineModel>, i: int, fd: FieldDefinitionModel)
    requires
        0 <= i < ls.len(),
        parse_defs_spec(ls.take(i)) is Ok,
        field_def_spec(ls[i]) == Ok::<FieldDefinitionModel, ParseErrorModel>(fd),
    ensures
        parse_defs_spec(ls.take(i + 1)) == Ok::<Seq<FieldDefinitionModel>, ParseErrorModel>(
            parse_defs_spec(ls.take(i))->Ok_0.push(fd),
        ),
    decreases i,
{
    if i == 0 {
        assert(ls.take(0) =~= Seq::<LineModel>::empty());
        assert(parse_defs_spec(Seq::<LineModel>::empty()) == Ok::<
            Seq<FieldDefinitionModel>,
            ParseErrorModel,
        >(Seq::empty()));
        assert(ls.take(1) =~= seq![ls[0]]);
        assert(ls.take(1)[0] == ls[0]);
        assert(ls.take(1).skip(1) =~= Seq::<LineModel>::empty());
        assert(parse_defs_spec(ls.take(1)) == Ok::<Seq<FieldDefinitionModel>, ParseErrorModel>(
            seq![fd] + Seq::<FieldDefinitionModel>::empty(),
        ));
        assert(parse_defs_spec(ls.take(0))->Ok_0.push(fd) =~= seq![fd] + Seq::<
            FieldDefinitionModel,
        >::empty());
    } else {
        assert(ls.take(i)[0] == ls[0]);
        assert(ls.take(i + 1)[0] == ls[0]);
        match field_def_spec(ls[0]) {
            Err(e) => {
                assert(parse_defs_spec(ls.take(i)) is Err);
                assert(false);
            },
            Ok(fd0) => {
                assert(ls.take(i).skip(1) =~= ls.skip(1).take(i - 1));
                assert(ls.take(i + 1).skip(1) =~= ls.skip(1).take(i));
                assert(ls.skip(1)[i - 1] == ls[i]);
                lemma_parse_defs_step(ls.skip(1), i - 1, fd);
                assert(parse_defs_spec(ls.skip(1).take(i - 1)) is Ok);
                assert(parse_defs_spec(ls.skip(1).take(i)) == Ok::<
                    Seq<FieldDefinitionModel>,
                    ParseErrorModel,
                >(parse_defs_spec(ls.skip(1).take(i - 1))->Ok_0.push(fd)));
                assert(parse_defs_spec(ls.take(i)) == Ok::<
                    Seq<FieldDefinitionModel>,
                    ParseErrorModel,
                >(seq![fd0] + parse_defs_spec(ls.skip(1).take(i - 1))->Ok_0));
                assert(parse_defs_spec(ls.take(i + 1)) == Ok::<
                    Seq<FieldDefinitionModel>,
                    ParseErrorModel,
                >(seq![fd0] + parse_defs_spec(ls.skip(1).take(i))->Ok_0));
                assert(seq![fd0] + parse_defs_spec(ls.skip(1).take(i - 1))->Ok_0.push(fd)
                    =~= (seq![fd0] + parse_defs_spec(ls.skip(1).take(i - 1))->Ok_0).push(fd));
            },
        }
    }
}

/// A schema: the ordered field definitions of the first retained
/// section.
#[derive(Debug)]
pub struct Schema {
    pub expected_fields: Vec<FieldDefinition>,
}

impl View for Schema {
    type V = Seq<FieldDefinitionModel>;

    open spec fn view(&self) -> Seq<FieldDefinitionModel> {
        self.expected_fields@.map_values(|fd: FieldDefinition| fd@)
    }
}

/// Index of the first schema field with `name`, or the schema's length.
pub open spec fn field_index(schema: Seq<FieldDefinitionModel>, name: Seq<u8>) -> int
    decreases schema.len(),
{
    if schema.len() == 0 {
        0
    } else if schema[0].name == name {
        0
    } else {
        1 + field_index(schema.skip(1), name)
    }
}

pub proof fn lemma_field_index(schema: Seq<FieldDefinitionModel>, name: Seq<u8>)
    ensures
        0 <= field_index(schema, name) <= schema.len(),
        field_index(schema, name) < schema.len() ==> schema[field_index(schema, name)].name
            == name,
        forall|j: int| 0 <= j < field_index(schema, name) ==> schema[j].name != name,
    decreases schema.len(),
{
    if schema.len() > 0 && schema[0].name != name {
        lemma_field_index(schema.skip(1), name);
        assert forall|j: int| 0 <= j < field_index(schema, name) implies schema[j].name != name by {
            if j > 0 {
                assert(schema.skip(1)[j - 1].name != name);
            }
        }
    }
}

proof fn lemma_field_index_at(schema: Seq<FieldDefinitionModel>, name: Seq<u8>, i: int)
    requires
        0 <= i <= schema.len(),
        forall|j: int| 0 <= j < i ==> schema[j].name != name,
        i < schema.len() ==> schema[i].name == name,
    ensures
        field_index(schema, name) == i,
    decreases i,
{
    if schema.len() == 0 {
    } else if i == 0 {
    } else {
        lemma_field_index_at(schema.skip(1), name, i - 1);
    }
}

impl Schema {
    /// Reads the schema from the first retained section: every nonempty,
    /// non-marker line must define a field.
    pub fn from_raw_section(raw_section: &RawSection) -> (r: Result<Schema, ParseError>)
        ensures
            match r {
                Ok(s) => schema_spec(raw_section@) == Ok::<
                    Seq<FieldDefinitionModel>,
                    ParseErrorModel,
                >(s@),
                Err(e) => schema_spec(raw_section@) == Err::<
                    Seq<FieldDefinitionModel>,
                    ParseErrorModel,
                >(e@),
            },
    {
        proof {
            reveal_strlit("this is a leaflet schema");
        }
        let marker = text::lit_bytes("this is a leaflet schema");
        let lowered = text::to_lowercase(raw_section.text.as_slice());
        if !text::contains_bytes(lowered.as_slice(), marker) {
            return Err(ParseError::FirstSectionIsNotSchema);
        }
        let ghost lm = raw_section.lines@.map_values(|l: Line| l@);
        let ghost kept = lm.filter(|l: LineModel| schema_line_filter(l));
        let mut expected_fields: Vec<FieldDefinition> = Vec::new();
        let mut i: usize = 0;
        let ghost mut seen = Seq::<LineModel>::empty();
        proof {
            assert(lm.take(0) =~= Seq::<LineModel>::empty());
            Seq::<LineModel>::empty().lemma_filter_len(|l: LineModel| schema_line_filter(l));
            assert(lm.take(0).filter(|l: LineModel| schema_line_filter(l))
                =~= Seq::<LineModel>::empty());
            assert(parse_defs_spec(Seq::<LineModel>::empty()) == Ok::<
                Seq<FieldDefinitionModel>,
                ParseErrorModel,
            >(Seq::empty()));
            assert(expected_fields@.map_values(|fd: FieldDefinition| fd@) =~= Seq::<
                FieldDefinitionModel,
            >::empty());
        }
        while i < raw_section.lines.len()
            invariant
                0 <= i <= raw_section.lines@.len(),
                lm == raw_section.lines@.map_values(|l: Line| l@),
                kept == lm.filter(|l: LineModel| schema_line_filter(l)),
                marker@ =~= text::str_bytes("this is a leaflet schema"),
                has_schema_marker(raw_section@),
                parse_defs_spec(lm.take(i as int).filter(|l: LineModel| schema_line_filter(l)))
                    == Ok::<Seq<FieldDefinitionModel>, ParseErrorModel>(
                    expected_fields@.map_values(|fd: FieldDefinition| fd@),
                ),
            decreases raw_section.lines@.len() - i,
        {
            let line = &raw_section.lines[i];
            let ghost prefix = lm.take(i as int).filter(|l: LineModel| schema_line_filter(l));
            proof {
                assert(lm[i as int] == raw_section.lines@[i as int]@);
                assert(lm.take(i + 1).drop_last() =~= lm.take(i as int));
                assert(lm.take(i + 1).last() == lm[i as int]);
                reveal_with_fuel(Seq::filter, 2);
            }
            let is_empty_line = line.text_without_comments.len() == 0;
            let lowered_line = text::to_lowercase(line.text_without_comments.as_slice());
            let is_marker_line = text::contains_bytes(lowered_line.as_slice(), marker);
            if !is_empty_line && !is_marker_line {
                proof {
                    assert(schema_line_filter(lm[i as int]));
                    assert(lm.take(i + 1).filter(|l: LineModel| schema_line_filter(l))
                        =~= prefix.push(lm[i as int]));
                }
                match FieldDefinition::from_line(line) {
                    Ok(fd) => {
                        let ghost fdv = fd@;
                        let ghost eprev = expected_fields@;
                        expected_fields.push(fd);
                        proof {
                            assert(prefix.push(lm[i as int]).take(prefix.len() as int)
                                =~= prefix);
                            assert(prefix.push(lm[i as int])[prefix.len() as int]
                                == lm[i as int]);
                            lemma_parse_defs_step(
                                prefix.push(lm[i as int]),
                                prefix.len() as int,
                                fdv,
                            );
                            assert(prefix.push(lm[i as int]).take(prefix.len() as int + 1)
                                =~= prefix.push(lm[i as int]));
                            let view_of = |fd: FieldDefinition| fd@;
                            eprev.lemma_push_map_commute(view_of, expected_fields@[eprev.len() as int]);
                            assert(expected_fields@ =~= eprev.push(
                                expected_fields@[eprev.len() as int],
                            ));
                            assert(expected_fields@.map_values(view_of) =~= eprev.map_values(
                                view_of,
                            ).push(fdv));
                        }
                    },
                    Err(e) => {
                        proof {
                            let n = prefix.len() as int;
                            lemma_filter_take_prefix(lm, i as int);
                            assert(kept.take(n) =~= prefix);
                            lemma_filter_skip_head(lm, i as int);
                            assert(n < kept.len() && kept.skip(n)[0] == lm[i as int]);
                            lemma_parse_defs_split(kept, n);
                            assert(field_def_spec(kept.skip(n)[0]) == Err::<
                                FieldDefinitionModel,
                                ParseErrorModel,
                            >(e@));
                            assert(parse_defs_spec(kept.skip(n)) == Err::<
                                Seq<FieldDefinitionModel>,
                                ParseErrorModel,
                            >(e@));
                            assert(parse_defs_spec(kept) == Err::<
                                Seq<FieldDefinitionModel>,
                                ParseErrorModel,
                            >(e@));
                            assert(raw_section@.lines =~= lm);
                            assert(schema_spec(raw_section@) == Err::<
                                Seq<FieldDefinitionModel>,
                                ParseErrorModel,
                            >(e@));
                        }
                        return Err(e);
                    },
                }
            } else {
                proof {
                    assert(!schema_line_filter(lm[i as int]));
                    assert(lm.take(i + 1).filter(|l: LineModel| schema_line_filter(l)) =~= prefix);
                }
            }
            i = i + 1;
        }
        proof {
            assert(lm.take(lm.len() as int) =~= lm);
            assert(raw_section@.lines =~= lm);
        }
        Ok(Schema { expected_fields })
    }

    /// The required fields, in schema order.
    pub fn required_fields(&self) -> (r: Vec<&FieldDefinition>)
        ensures
            r@.map_values(|fd: &FieldDefinition| fd@) =~= self@.filter(
                |fd: FieldDefinitionModel| fd.required == Required::Yes,
            ),
    {
        let mut r: Vec<&FieldDefinition> = Vec::new();
        let mut i: usize = 0;
        proof {
            assert(self@.take(0) =~= Seq::<FieldDefinitionModel>::empty());
            reveal_with_fuel(Seq::filter, 2);
            assert(r@.map_values(|fd: &FieldDefinition| fd@) =~= Seq::<
                FieldDefinitionModel,
            >::empty());
        }
        while i < self.expected_fields.len()
            invariant
                0 <= i <= self.expected_fields@.len(),
                self@.len() == self.expected_fields@.len(),
                r@.map_values(|fd: &FieldDefinition| fd@) =~= self@.take(i as int).filter(
                    |fd: FieldDefinitionModel| fd.required == Required::Yes,
                ),
            decreases self.expected_fields@.len() - i,
        {
            let ghost prev = r@.map_values(|fd: &FieldDefinition| fd@);
            proof {
                assert(self@.take(i + 1).drop_last() =~= self@.take(i as int));
                assert(self@.take(i + 1).last() == self@[i as int]);
                reveal_with_fuel(Seq::filter, 2);
            }
            let is_required = match self.expected_fields[i].required {
                Required::Yes => true,
                Required::No => false,
            };
            if is_required {
                let element = &self.expected_fields[i];
                let ghost rprev = r@;
                r.push(element);
                proof {
                    let view_of = |fd: &FieldDefinition| fd@;
                    rprev.lemma_push_map_commute(view_of, element);
                    assert(self@[i as int].required == Required::Yes);
                    assert(element@ == self@[i as int]);
                }
            }
            i = i + 1;
        }
        proof {
            assert(self@.take(self@.len() as int) =~= self@);
        }
        r
    }

    /// The definition of the field `name` normalizes to, if the schema
    /// has one.
    pub fn field_definition(&self, name: &[u8]) -> (r: Option<&FieldDefinition>)
        ensures
            match r {
                Some(fd) => field_index(self@, normalize_spec(name@)) < self@.len() && fd@
                    == self@[field_index(self@, normalize_spec(name@))],
                None => field_index(self@, normalize_spec(name@)) == self@.len(),
            },
    {
        let normalized = NormalizedString::new(name);
        let mut i: usize = 0;
        while i < self.expected_fields.len()
            invariant
                0 <= i <= self.expected_fields@.len(),
                normalized@ == normalize_spec(name@),
                self@.len() == self.expected_fields@.len(),
                forall|j: int| 0 <= j < i ==> #[trigger] self@[j].name != normalize_spec(name@),
            decreases self.expected_fields@.len() - i,
        {
            proof {
                assert(self@[i as int] == self.expected_fields@[i as int]@);
            }
            if text::bytes_eq(
                self.expected_fields[i].name.bytes.as_slice(),
                normalized.bytes.as_slice(),
            ) {
                proof {
                    lemma_field_index_at(self@, normalize_spec(name@), i as int);
                }
                return Some(&self.expected_fields[i]);
            }
            i = i + 1;
        }
        proof {
            lemma_field_index_at(self@, normalize_spec(name@), self@.len() as int);
        }
        None
    }
}

/// A filtered sequence splits at any point into the filtered prefix and
/// the filtered remainder.
proof fn lemma_filter_decompose(lm: Seq<LineModel>, i: int)
    requires
        0 <= i <= lm.len(),
    ensures
        (lm.filter(|l: LineModel| schema_line_filter(l)) =~= lm.take(i).filter(
            |l: LineModel| schema_line_filter(l),
        ) + lm.skip(i).filter(|l: LineModel| schema_line_filter(l))),
{
    let pred = |l: LineModel| schema_line_filter(l);
    assert(lm =~= lm.take(i) + lm.skip(i));
    Seq::<LineModel>::filter_distributes_over_add(lm.take(i), lm.skip(i), pred);
}

/// A kept head stays the head of the filtered sequence.
proof fn lemma_filter_head(s: Seq<LineModel>)
    requires
        s.len() > 0,
        schema_line_filter(s[0]),
    ensures
        s.filter(|l: LineModel| schema_line_filter(l)).len() > 0,
        s.filter(|l: LineModel| schema_line_filter(l))[0] == s[0],
{
    let pred = |l: LineModel| schema_line_filter(l);
    assert(s =~= seq![s[0]] + s.skip(1));
    Seq::<LineModel>::filter_distributes_over_add(seq![s[0]], s.skip(1), pred);
    reveal_with_fuel(Seq::filter, 2);
    assert(seq![s[0]].drop_last() =~= Seq::<LineModel>::empty());
    assert(seq![s[0]].filter(pred) =~= seq![s[0]]);
}

/// Filtering a strict prefix gives a prefix of the filtered sequence.
proof fn lemma_filter_take_prefix(lm: Seq<LineModel>, i: int)
    requires
        0 <= i <= lm.len(),
    ensures
        (lm.filter(|l: LineModel| schema_line_filter(l)).take(
            lm.take(i).filter(|l: LineModel| schema_line_filter(l)).len() as int,
        ) =~= lm.take(i).filter(|l: LineModel| schema_line_filter(l))),
{
    let pred = |l: LineModel| schema_line_filter(l);
    lemma_filter_decompose(lm, i);
}

/// The first kept line at or after `i` heads the filtered remainder.
proof fn lemma_filter_skip_head(lm: Seq<LineModel>, i: int)
    requires
        0 <= i < lm.len(),
        schema_line_filter(lm[i]),
    ensures
        ({
            let pred = |l: LineModel| schema_line_filter(l);
            let n = lm.take(i).filter(pred).len() as int;
            n < lm.filter(pred).len() && lm.filter(pred)[n] == lm[i]
        }),
{
    let pred = |l: LineModel| schema_line_filter(l);
    lemma_filter_decompose(lm, i);
    assert(lm.skip(i)[0] == lm[i]);
    lemma_filter_head(lm.skip(i));
}

} // verus!
