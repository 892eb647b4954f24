//! The running metadata of a section: typed field values keyed by
//! normalized field name, built line by line, and the classification of
//! each line that drives the section state machine.

use vstd::prelude::*;

use crate::date;
use crate::date::Date;
use crate::leaflet::line::Line;
use crate::leaflet::line::LineModel;
use crate::leaflet::normalized_string::NormalizedString;
use crate::leaflet::normalized_string::normalize_spec;
use crate::leaflet::schema::ExpectedType;
use crate::leaflet::schema::FieldDefinition;
use crate::leaflet::schema::FieldDefinitionModel;
use crate::leaflet::schema::Required;
use crate::leaflet::schema::Schema;
use crate::leaflet::schema::field_index;
use crate::leaflet::schema::lemma_field_index;
use crate::obsidian::reference::link_text_spec;
use crate::obsidian::reference::resolve_id_spec;
use crate::obsidian::vault::Vault;
use crate::obsidian::vault_item::VaultItemId;
use crate::obsidian::wiki_link_string::WikiLinkString;
use crate::obsidian::wiki_link_string::wiki_link_shaped;
use crate::text;

verus! {

/// Spec-level shape of a field value.
pub enum FieldValueModel {
    YyyyMmDd(Date),
    String(Seq<u8>),
    U64(u64),
    Link { wiki_link_text: Seq<u8>, link_text: Seq<u8>, vault_item_id: Option<Seq<u8>> },
}

/// A typed metadata value.
#[derive(Debug)]
pub enum FieldValue {
    YyyyMmDd(Date),
    String(Vec<u8>),
    U64(u64),
    Link {
        wiki_link_text: WikiLinkString,
        /// Nothing when the link names no loaded vault item.
        vault_item_id: Option<VaultItemId>,
    },
}

impl View for FieldValue {
    type V = FieldValueModel;

    open spec fn view(&self) -> FieldValueModel {
        match self {
            FieldValue::YyyyMmDd(d) => FieldValueModel::YyyyMmDd(*d),
            FieldValue::String(s) => FieldValueModel::String(s@),
            FieldValue::U64(n) => FieldValueModel::U64(*n),
            FieldValue::Link { wiki_link_text, vault_item_id } => FieldValueModel::Link {
                wiki_link_text: wiki_link_text.text@,
                link_text: wiki_link_text.link_text@,
                vault_item_id: match vault_item_id {
                    Some(id) => Some(id@),
                    None => None,
                },
            },
        }
    }
}

impl Clone for FieldValue {
    fn clone(&self) -> (res: Self)
        ensures
            res@ == self@,
    {
        match self {
            FieldValue::YyyyMmDd(d) => FieldValue::YyyyMmDd(*d),
            FieldValue::String(s) => FieldValue::String(s.clone()),
            FieldValue::U64(n) => FieldValue::U64(*n),
            FieldValue::Link { wiki_link_text, vault_item_id } => FieldValue::Link {
                wiki_link_text: wiki_link_text.clone(),
                vault_item_id: match vault_item_id {
                    Some(id) => Some(id.clone()),
                    None => None,
                },
            },
        }
    }
}

/// One name/value entry of the running metadata.
pub struct MetadataEntryModel {
    pub name: Seq<u8>,
    pub value: FieldValueModel,
}

#[derive(Debug)]
pub struct MetadataField {
    pub name: NormalizedString,
    pub value: FieldValue,
}

impl View for MetadataField {
    type V = MetadataEntryModel;

    open spec fn view(&self) -> MetadataEntryModel {
        MetadataEntryModel { name: self.name@, value: self.value@ }
    }
}

impl Clone for MetadataField {
    fn clone(&self) -> (res: Self)
        ensures
            res@ == self@,
    {
        MetadataField { name: self.name.clone(), value: self.value.clone() }
    }
}

/// Index of the first entry named `n`, or `md.len()`.
pub open spec fn md_index(md: Seq<MetadataEntryModel>, n: Seq<u8>) -> int
    decreases md.len(),
{
    if md.len() == 0 {
        0
    } else if md[0].name == n {
        0
    } else {
        1 + md_index(md.skip(1), n)
    }
}

pub proof fn lemma_md_index(md: Seq<MetadataEntryModel>, n: Seq<u8>)
    ensures
        0 <= md_index(md, n) <= md.len(),
        md_index(md, n) < md.len() ==> md[md_index(md, n)].name == n,
        forall|j: int| 0 <= j < md_index(md, n) ==> md[j].name != n,
    decreases md.len(),
{
    if md.len() > 0 && md[0].name != n {
        lemma_md_index(md.skip(1), n);
        assert forall|j: int| 0 <= j < md_index(md, n) implies md[j].name != n by {
            if j > 0 {
                assert(md.skip(1)[j - 1].name != n);
            }
        }
    }
}

proof fn lemma_md_index_at(md: Seq<MetadataEntryModel>, n: Seq<u8>, i: int)
    requires
        0 <= i <= md.len(),
        forall|j: int| 0 <= j < i ==> md[j].name != n,
        i < md.len() ==> md[i].name == n,
    ensures
        md_index(md, n) == i,
    decreases i,
{
    if md.len() == 0 {
    } else if i == 0 {
    } else {
        lemma_md_index_at(md.skip(1), n, i - 1);
    }
}

/// Whether the metadata holds an entry named `n`.
pub open spec fn md_has(md: Seq<MetadataEntryModel>, n: Seq<u8>) -> bool {
    md_index(md, n) < md.len()
}

/// Inserting overwrites the existing entry, or appends a new one.
pub open spec fn md_insert(md: Seq<MetadataEntryModel>, n: Seq<u8>, v: FieldValueModel) -> Seq<
    MetadataEntryModel,
> {
    if md_index(md, n) < md.len() {
        md.update(md_index(md, n), MetadataEntryModel { name: n, value: v })
    } else {
        md.push(MetadataEntryModel { name: n, value: v })
    }
}

/// How one line is classified against a schema and the files it can
/// link to.
pub enum ClassifiedLine {
    Field { name: Seq<u8>, value: FieldValueModel },
    Empty,
    Other,
}

/// What a typed field value parses to, if anything. A failed parse is
/// not an error: the line falls through to ordinary paragraph text.
pub open spec fn parse_value_spec(
    files: Seq<crate::obsidian::file::FileView>,
    t: ExpectedType,
    value: Seq<u8>,
) -> Option<FieldValueModel> {
    match t {
        ExpectedType::Link => {
            if wiki_link_shaped(value) {
                Some(
                    FieldValueModel::Link {
                        wiki_link_text: value,
                        link_text: link_text_spec(value),
                        vault_item_id: resolve_id_spec(link_text_spec(value), files),
                    },
                )
            } else {
                None
            }
        },
        ExpectedType::String => Some(FieldValueModel::String(text::trim_spec(value))),
        ExpectedType::U64 => {
            if text::is_u64_literal(value) {
                Some(FieldValueModel::U64(text::dec_value(text::digits_part(value)) as u64))
            } else {
                None
            }
        },
        ExpectedType::YyyyMmDd => parse_date_value_spec(value),
    }
}

/// A date field value: trimmed, optionally unwrapped from `[[...]]`,
/// then exactly three dot-separated numbers naming a real calendar date.
pub open spec fn parse_date_value_spec(value: Seq<u8>) -> Option<FieldValueModel> {
    let c0 = text::trim_spec(value);
    let c1 = if text::starts_with_spec(c0, seq![91u8, 91u8]) {
        c0.skip(2)
    } else {
        c0
    };
    let c2 = if text::ends_with_spec(c1, seq![93u8, 93u8]) {
        c1.take(c1.len() - 2)
    } else {
        c1
    };
    let parts = text::split_on_byte_spec(c2, 46);
    if parts.len() != 3 {
        None
    } else if !date::is_i32_literal(parts[0]) {
        None
    } else if !date::is_u32_literal(parts[1]) {
        None
    } else if !date::is_u32_literal(parts[2]) {
        None
    } else {
        let year = date::i32_literal_value(parts[0]);
        let month = text::dec_value(text::digits_part(parts[1]));
        let day = text::dec_value(text::digits_part(parts[2]));
        if date::date_valid(year, month, day) {
            Some(
                FieldValueModel::YyyyMmDd(
                    Date { year: year as i32, month: month as u8, day: day as u8 },
                ),
            )
        } else {
            None
        }
    }
}

/// How a line classifies: empty closes the paragraph; `key: value` with
/// a schema-known key and a well-typed value is metadata; everything
/// else is paragraph text.
pub open spec fn classify_spec(
    files: Seq<crate::obsidian::file::FileView>,
    schema: Seq<FieldDefinitionModel>,
    l: LineModel,
) -> ClassifiedLine {
    if l.clean.len() == 0 {
        ClassifiedLine::Empty
    } else {
        let k = text::find_byte_spec(l.clean, 58);
        if k >= l.clean.len() {
            ClassifiedLine::Other
        } else {
            let key = text::trim_spec(l.clean.take(k));
            let value = text::trim_spec(l.clean.skip(k + 1));
            let fi = field_index(schema, normalize_spec(key));
            if fi >= schema.len() {
                ClassifiedLine::Other
            } else {
                match parse_value_spec(files, schema[fi].expected_type, value) {
                    None => ClassifiedLine::Other,
                    Some(v) => ClassifiedLine::Field { name: normalize_spec(key), value: v },
                }
            }
        }
    }
}

/// Required schema fields the metadata does not hold yet, in schema
/// order. Optional fields are never in this list.
pub open spec fn missing_spec(
    schema: Seq<FieldDefinitionModel>,
    md: Seq<MetadataEntryModel>,
) -> Seq<FieldDefinitionModel> {
    schema.filter(|fd: FieldDefinitionModel| fd.required == Required::Yes && !md_has(md, fd.name))
}

/// What one line did to the metadata.
#[derive(Debug, Clone, Copy, PartialEq, Eq, Structural)]
pub enum LineWas {
    ValidMetadataField,
    Empty,
    OtherText,
}

/// Whether the metadata satisfies a schema's required fields.
#[derive(Debug)]
pub enum Valid {
    Yes,
    No { missing_fields: Vec<FieldDefinition> },
}

/// The running metadata of a section.
#[derive(Debug)]
pub struct Metadata {
    pub fields: Vec<MetadataField>,
}

impl View for Metadata {
    type V = Seq<MetadataEntryModel>;

    open spec fn view(&self) -> Seq<MetadataEntryModel> {
        self.fields@.map_values(|f: MetadataField| f@)
    }
}

impl Clone for Metadata {
    fn clone(&self) -> (res: Self)
        ensures
            res@ == self@,
    {
        let mut fields: Vec<MetadataField> = Vec::new();
        let mut i: usize = 0;
        while i < self.fields.len()
            invariant
                0 <= i <= self.fields@.len(),
                fields@.len() == i,
                forall|j: int| 0 <= j < i ==> #[trigger] fields@[j]@ == self.fields@[j]@,
            decreases self.fields@.len() - i,
        {
            fields.push(self.fields[i].clone());
            i = i + 1;
        }
        let res = Metadata { fields };
        proof {
            assert forall|j: int| 0 <= j < res@.len() implies res@[j] == self@[j] by {
                assert(res@[j] == res.fields@[j]@);
                assert(self@[j] == self.fields@[j]@);
            }
            assert(res@ =~= self@);
        }
        res
    }
}

impl Metadata {
    pub fn new() -> (r: Metadata)
        ensures
            r@ =~= Seq::<MetadataEntryModel>::empty(),
    {
        Metadata { fields: Vec::new() }
    }

    /// Classifies one line; a valid metadata field is inserted
    /// (overwriting an earlier value of the same name), any other line
    /// leaves the metadata unchanged.
    pub fn try_add_field(&mut self, vault: &Vault, schema: &Schema, line: &Line) -> (r: LineWas)
        ensures
            match classify_spec(vault.spec_file_views(), schema@, line@) {
                ClassifiedLine::Empty => r == LineWas::Empty && final(self)@ == old(self)@,
                ClassifiedLine::Other => r == LineWas::OtherText && final(self)@ == old(self)@,
                ClassifiedLine::Field { name, value } => {
                    &&& r == LineWas::ValidMetadataField
                    &&& final(self)@ == md_insert(old(self)@, name, value)
                },
            },
    {
        let clean = &line.text_without_comments;
        if clean.len() == 0 {
            return LineWas::Empty;
        }
        let k = text::find_byte(clean.as_slice(), 58);
        if k >= clean.len() {
            return LineWas::OtherText;
        }
        let key_part = text::subrange_vec(clean.as_slice(), 0, k);
        proof {
            assert(key_part@ =~= clean@.take(k as int));
        }
        let key = text::trim(key_part.as_slice());
        let value_part = text::subrange_vec(clean.as_slice(), k + 1, clean.len());
        proof {
            assert(value_part@ =~= clean@.skip(k + 1));
        }
        let value = text::trim(value_part.as_slice());
        let field_definition = match schema.field_definition(key.as_slice()) {
            Some(fd) => fd,
            None => {
                proof {
                    lemma_field_index(schema@, normalize_spec(key@));
                }
                return LineWas::OtherText;
            },
        };
        proof {
            assert(normalize_spec(key@) == normalize_spec(text::trim_spec(clean@.take(k as int))))
                by {
                assert(text::trim_spec(text::trim_spec(clean@.take(k as int))) =~= text::trim_spec(
                    clean@.take(k as int),
                )) by {
                    text::lemma_trim_idempotent(clean@.take(k as int));
                }
            }
        }
        let field_value = match try_parse_field_value(
            vault,
            &field_definition.expected_type,
            value.as_slice(),
        ) {
            Some(v) => v,
            None => {
                return LineWas::OtherText;
            },
        };
        let name = NormalizedString::new(key.as_slice());
        proof {
            assert(name@ == normalize_spec(text::trim_spec(clean@.take(k as int)))) by {
                text::lemma_trim_idempotent(clean@.take(k as int));
            }
        }
        self.insert(name, field_value);
        LineWas::ValidMetadataField
    }

    /// Inserts a value under a name, overwriting an entry of that name.
    fn insert(&mut self, name: NormalizedString, value: FieldValue)
        ensures
            final(self)@ == md_insert(old(self)@, name@, value@),
    {
        let ghost md0 = self@;
        let mut i: usize = 0;
        while i < self.fields.len()
            invariant
                0 <= i <= self.fields@.len(),
                self@ == md0,
                md0 == old(self)@,
                forall|j: int| 0 <= j < i ==> #[trigger] md0[j].name != name@,
            decreases self.fields@.len() - i,
        {
            proof {
                assert(md0[i as int] == self.fields@[i as int]@);
            }
            if text::bytes_eq(self.fields[i].name.bytes.as_slice(), name.bytes.as_slice()) {
                proof {
                    lemma_md_index_at(md0, name@, i as int);
                }
                let ghost fprev = self.fields@;
                let entry = MetadataField { name, value };
                let ghost entryv = entry@;
                self.fields.set(i, entry);
                proof {
                    assert forall|j: int| 0 <= j < self@.len() implies self@[j] == md_insert(
                        md0,
                        name@,
                        entryv.value,
                    )[j] by {
                        assert(self@[j] == self.fields@[j]@);
                        if j != i {
                            assert(self.fields@[j] == fprev[j]);
                        }
                    }
                    assert(self@ =~= md_insert(md0, name@, entryv.value));
                }
                return ;
            }
            i = i + 1;
        }
        proof {
            lemma_md_index_at(md0, name@, md0.len() as int);
        }
        let ghost fprev = self.fields@;
        let entry = MetadataField { name, value };
        let ghost entryv = entry@;
        self.fields.push(entry);
        proof {
            assert forall|j: int| 0 <= j < self@.len() implies self@[j] == md_insert(
                md0,
                name@,
                entryv.value,
            )[j] by {
                assert(self@[j] == self.fields@[j]@);
                if j < fprev.len() {
                    assert(self.fields@[j] == fprev[j]);
                }
            }
            assert(self@ =~= md_insert(md0, name@, entryv.value));
        }
    }

    /// Checks the schema's required fields: all present, or the missing
    /// ones in schema order.
    pub fn is_valid(&self, schema: &Schema) -> (r: Valid)
        ensures
            match r {
                Valid::Yes => missing_spec(schema@, self@).len() == 0,
                Valid::No { missing_fields } => missing_fields@.map_values(
                    |fd: FieldDefinition| fd@,
                ) =~= missing_spec(schema@, self@) && missing_spec(schema@, self@).len() > 0,
            },
    {
        let mut missing: Vec<FieldDefinition> = Vec::new();
        let mut i: usize = 0;
        proof {
            assert(schema@.take(0) =~= Seq::<FieldDefinitionModel>::empty());
            reveal_with_fuel(Seq::filter, 2);
            assert(missing@.map_values(|fd: FieldDefinition| fd@) =~= Seq::<
                FieldDefinitionModel,
            >::empty());
        }
        while i < schema.expected_fields.len()
            invariant
                0 <= i <= schema.expected_fields@.len(),
                schema@.len() == schema.expected_fields@.len(),
                missing@.map_values(|fd: FieldDefinition| fd@) =~= schema@.take(i as int).filter(
                    |fd: FieldDefinitionModel|
                        fd.required == Required::Yes && !md_has(self@, fd.name),
                ),
            decreases schema.expected_fields@.len() - i,
        {
            proof {
                assert(schema@.take(i + 1).drop_last() =~= schema@.take(i as int));
                assert(schema@.take(i + 1).last() == schema@[i as int]);
                assert(schema@[i as int] == schema.expected_fields@[i as int]@);
                reveal_with_fuel(Seq::filter, 2);
            }
            let fd = &schema.expected_fields[i];
            let is_required = match fd.required {
                Required::Yes => true,
                Required::No => false,
            };
            if is_required && !self.has_field(fd.name.bytes.as_slice()) {
                let ghost mprev = missing@;
                let cloned = fd.clone();
                let ghost clonedv = cloned@;
                missing.push(cloned);
                proof {
                    let view_of = |fd: FieldDefinition| fd@;
                    mprev.lemma_push_map_commute(view_of, missing@[mprev.len() as int]);
                    assert(missing@ =~= mprev.push(missing@[mprev.len() as int]));
                    assert(missing@[mprev.len() as int]@ == clonedv);
                }
            }
            i = i + 1;
        }
        proof {
            assert(schema@.take(schema@.len() as int) =~= schema@);
        }
        if missing.len() == 0 {
            proof {
                assert(missing_spec(schema@, self@) =~= Seq::<FieldDefinitionModel>::empty());
            }
            Valid::Yes
        } else {
            Valid::No { missing_fields: missing }
        }
    }

    /// Whether an entry with exactly this (already normalized) name is
    /// held.
    fn has_field(&self, name: &[u8]) -> (r: bool)
        ensures
            r == md_has(self@, name@),
    {
        let mut i: usize = 0;
        while i < self.fields.len()
            invariant
                0 <= i <= self.fields@.len(),
                forall|j: int| 0 <= j < i ==> #[trigger] self@[j].name != name@,
            decreases self.fields@.len() - i,
        {
            proof {
                assert(self@[i as int] == self.fields@[i as int]@);
            }
            if text::bytes_eq(self.fields[i].name.bytes.as_slice(), name) {
                proof {
                    lemma_md_index_at(self@, name@, i as int);
                }
                return true;
            }
            i = i + 1;
        }
        proof {
            lemma_md_index_at(self@, name@, self@.len() as int);
        }
        false
    }
}

/// Parses a value as the schema's expected type for its field. A parse
/// failure is nothing, not an error.
pub fn try_parse_field_value(vault: &Vault, expected_type: &ExpectedType, value: &[u8]) -> (r:
    Option<FieldValue>)
    ensures
        match r {
            Some(v) => parse_value_spec(vault.spec_file_views(), *expected_type, value@) == Some(
                v@,
            ),
            None => parse_value_spec(vault.spec_file_views(), *expected_type, value@) is None,
        },
{
    match expected_type {
        ExpectedType::Link => {
            match WikiLinkString::from_str(value) {
                Ok(wiki_link) => {
                    let vault_item_id = vault.vault_item_id_by_wiki_link(value);
                    Some(FieldValue::Link { wiki_link_text: wiki_link, vault_item_id })
                },
                Err(()) => None,
            }
        },
        ExpectedType::String => Some(FieldValue::String(text::trim(value))),
        ExpectedType::U64 => {
            match text::parse_u64(value) {
                Some(n) => Some(FieldValue::U64(n)),
                None => None,
            }
        },
        ExpectedType::YyyyMmDd => {
            match parse_date_value(value) {
                Some(d) => Some(FieldValue::YyyyMmDd(d)),
                None => None,
            }
        },
    }
}

/// Reads a `yyyy.mm.dd` field value, with an optional `[[...]]` wrapper.
fn parse_date_value(value: &[u8]) -> (r: Option<Date>)
    ensures
        match r {
            Some(d) => parse_date_value_spec(value@) == Some(FieldValueModel::YyyyMmDd(d)),
            None => parse_date_value_spec(value@) is None,
        },
{
    let mut open_pat: Vec<u8> = Vec::new();
    open_pat.push(91);
    open_pat.push(91);
    let mut close_pat: Vec<u8> = Vec::new();
    close_pat.push(93);
    close_pat.push(93);
    proof {
        assert(open_pat@ =~= seq![91u8, 91u8]);
        assert(close_pat@ =~= seq![93u8, 93u8]);
    }
    let c0 = text::trim(value);
    let c1: Vec<u8> = if text::starts_with(c0.as_slice(), open_pat.as_slice()) {
        text::subrange_vec(c0.as_slice(), 2, c0.len())
    } else {
        text::subrange_vec(c0.as_slice(), 0, c0.len())
    };
    proof {
        if text::starts_with_spec(c0@, seq![91u8, 91u8]) {
            assert(c1@ =~= c0@.skip(2));
        } else {
            assert(c1@ =~= c0@);
        }
    }
    let c2: Vec<u8> = if text::ends_with(c1.as_slice(), close_pat.as_slice()) {
        text::subrange_vec(c1.as_slice(), 0, c1.len() - 2)
    } else {
        text::subrange_vec(c1.as_slice(), 0, c1.len())
    };
    proof {
        if text::ends_with_spec(c1@, seq![93u8, 93u8]) {
            assert(c2@ =~= c1@.take(c1@.len() - 2));
        } else {
            assert(c2@ =~= c1@);
        }
    }
    let parts = text::split_on_byte(c2.as_slice(), 46);
    if parts.len() != 3 {
        return None;
    }
    let year: i32 = match date::parse_i32(parts[0].as_slice()) {
        Some(y) => y,
        None => {
            return None;
        },
    };
    let month: u32 = match date::parse_u32(parts[1].as_slice()) {
        Some(m) => m,
        None => {
            return None;
        },
    };
    let day: u32 = match date::parse_u32(parts[2].as_slice()) {
        Some(d) => d,
        None => {
            return None;
        },
    };
    let month_count = if 1 <= month && month <= 12 {
        date::days_in_month_count(year, month as u8)
    } else {
        0
    };
    if 1 <= month && month <= 12 && 1 <= day && (day as u64) <= (month_count as u64) {
        Some(Date { year, month: month as u8, day: day as u8 })
    } else {
        proof {
            assert(!date::date_valid(year as int, month as int, day as int));
        }
        None
    }
}

} // verus!
