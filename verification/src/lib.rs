//! Vault note model and Leaflet document parser.
//!
//! The library ingests a folder of plain-text notes (a "vault") and extracts
//! cross-note wikilink references and tags, with byte positions tracked so the
//! text can be rewritten in place, and parses opted-in notes into
//! schema-validated "Leaflet" documents: typed metadata blocks interleaved
//! with free-text paragraphs.
//!
//! All text is handled as UTF-8 bytes (`Vec<u8>`), so that recorded ranges are
//! exact byte ranges into the owning buffer. Reading the vault from disk is
//! left to the caller; everything here is pure computation.

pub mod controllers;
pub mod date;
pub mod image_asset;
pub mod laws;
pub mod light_dark_image;
pub mod leaflet;
pub mod obsidian;
pub mod route;
pub mod santoka_haiku_2023_06_26;
pub mod text;

use vstd::prelude::*;

use crate::date::Month;
use crate::date::DayOfTheMonth;
use crate::date::Year;
use crate::obsidian::page::Page;
use crate::obsidian::vault::Vault;
use crate::obsidian::vault_item::VaultItem;
use crate::obsidian::vault_item::VaultItemId;
use crate::route::decimal_of;

verus! {

/// One calendar page of the vault: a year, a month, or a day.
#[derive(Debug, Clone, Copy, PartialEq, Eq, Structural)]
pub enum UnitOfTime {
    Year(Year),
    Month(Year, Month),
    Day(Year, Month, DayOfTheMonth),
}

impl UnitOfTime {
    /// The year the unit belongs to.
    pub fn year(&self) -> (r: Year)
        ensures
            r == self.spec_year(),
    {
        match self {
            UnitOfTime::Year(year) => *year,
            UnitOfTime::Month(year, ..) => *year,
            UnitOfTime::Day(year, ..) => *year,
        }
    }

    pub open spec fn spec_year(self) -> Year {
        match self {
            UnitOfTime::Year(year) => year,
            UnitOfTime::Month(year, ..) => year,
            UnitOfTime::Day(year, ..) => year,
        }
    }
}

/// A number printed at width two: one digit gets a leading zero, a
/// negative number keeps its sign.
pub open spec fn padded_number(n: int) -> Seq<u8> {
    if 0 <= n < 10 {
        seq![48u8] + decimal_of(n)
    } else if n >= 10 {
        decimal_of(n)
    } else {
        seq![45u8] + decimal_of(-n)
    }
}

/// Formats a number at width two.
pub fn format_padded(n: i64) -> (r: Vec<u8>)
    ensures
        r@ =~= padded_number(n as int),
{
    let mut r: Vec<u8> = Vec::new();
    if 0 <= n && n < 10 {
        r.push(48);
    }
    if n < 0 {
        r.push(45);
    }
    let magnitude: u64 = if n < 0 {
        (-(n as i128)) as u64
    } else {
        n as u64
    };
    let digits = text::format_u64(magnitude);
    proof {
        crate::route::lemma_format_is_decimal(digits@, magnitude as int);
    }
    crate::controllers::append_bytes(&mut r, digits.as_slice());
    r
}

/// The file name of a calendar page: `{year}.md`, `{year}.{month}.md` or
/// `{year}.{month}.{day}.md`, each number at width two.
pub open spec fn unit_file_name(unit: UnitOfTime) -> Seq<u8> {
    match unit {
        UnitOfTime::Year(year) => padded_number(year.0 as int) + crate::text::str_bytes(".md"),
        UnitOfTime::Month(year, month) => padded_number(year.0 as int) + seq![46u8]
            + padded_number(month.0 as int) + crate::text::str_bytes(".md"),
        UnitOfTime::Day(year, month, day) => padded_number(year.0 as int) + seq![46u8]
            + padded_number(month.0 as int) + seq![46u8] + padded_number(day.0 as int)
            + crate::text::str_bytes(".md"),
    }
}

/// Where a calendar page lives: under `{year}/`, inside `years/` unless
/// it is the current year's folder.
pub open spec fn unit_path(unit: UnitOfTime, current_year: Year) -> Seq<u8> {
    let base = padded_number(unit.spec_year().0 as int) + seq![47u8] + unit_file_name(unit);
    if unit.spec_year() == current_year {
        base
    } else {
        crate::text::str_bytes("years/") + base
    }
}

/// The identity of a calendar page. The caller supplies the current
/// year, which decides whether the page files under `years/`.
pub fn get_id_for_unit_of_time(unit_of_time: UnitOfTime, current_year: Year) -> (r: VaultItemId)
    ensures
        r@ =~= unit_path(unit_of_time, current_year),
{
    proof {
        reveal_strlit(".md");
        reveal_strlit("years/");
    }
    let mut file_name: Vec<u8> = Vec::new();
    match unit_of_time {
        UnitOfTime::Year(year) => {
            let y = format_padded(year.0 as i64);
            crate::controllers::append_bytes(&mut file_name, y.as_slice());
        },
        UnitOfTime::Month(year, month) => {
            let y = format_padded(year.0 as i64);
            crate::controllers::append_bytes(&mut file_name, y.as_slice());
            file_name.push(46);
            let m = format_padded(month.0 as i64);
            crate::controllers::append_bytes(&mut file_name, m.as_slice());
        },
        UnitOfTime::Day(year, month, day) => {
            let y = format_padded(year.0 as i64);
            crate::controllers::append_bytes(&mut file_name, y.as_slice());
            file_name.push(46);
            let m = format_padded(month.0 as i64);
            crate::controllers::append_bytes(&mut file_name, m.as_slice());
            file_name.push(46);
            let d = format_padded(day.0 as i64);
            crate::controllers::append_bytes(&mut file_name, d.as_slice());
        },
    }
    crate::controllers::append_bytes(&mut file_name, text::lit_bytes(".md"));
    proof {
        assert(file_name@ =~= unit_file_name(unit_of_time));
    }
    let mut path: Vec<u8> = Vec::new();
    let in_current_year = unit_of_time.year().0 == current_year.0;
    if !in_current_year {
        crate::controllers::append_bytes(&mut path, text::lit_bytes("years/"));
    }
    let y = format_padded(unit_of_time.year().0 as i64);
    crate::controllers::append_bytes(&mut path, y.as_slice());
    path.push(47);
    crate::controllers::append_bytes(&mut path, file_name.as_slice());
    proof {
        assert(path@ =~= unit_path(unit_of_time, current_year));
    }
    VaultItemId::from_path_from_vault_root(path)
}


/// Whether a page carries a reference resolved to `topic_id`.
pub open spec fn page_refers_to(page: Page, topic_id: Seq<u8>) -> bool {
    exists|k: int|
        0 <= k < page@.references.len() && (#[trigger] page@.references[k]).vault_item_id == Some(
            topic_id,
        )
}

/// Whether `pair` is the rename of one page that the people pass moves:
/// its old absolute path and its new absolute path under `people/`.
pub open spec fn is_people_move_pair(
    items: Seq<VaultItem>,
    topic_id: Seq<u8>,
    pair: (Vec<u8>, Vec<u8>),
) -> bool {
    exists|i: int|
        0 <= i < items.len() && should_move_to_people(#[trigger] items[i], topic_id) && pair.0@
            == items[i]->Page_0.file.absolute_path@ && pair.1@
            == items[i]->Page_0.file.vault_path@ + seq![47u8] + (crate::text::str_bytes("people/")
            + items[i]->Page_0.file.path_from_vault_root@)
}

/// Whether a vault item is a person page outside the people folder: a
/// page referencing the people topic whose path does not start with
/// `people/`.
pub open spec fn should_move_to_people(item: VaultItem, topic_id: Seq<u8>) -> bool {
    &&& item is Page
    &&& page_refers_to(item->Page_0, topic_id)
    &&& !crate::text::starts_with_spec(
        item->Page_0.file.path_from_vault_root@,
        crate::text::str_bytes("people/"),
    )
}

/// Moves every page that references the people topic into the `people/`
/// folder: each such page's file is re-derived under
/// `people/<old path>`, everything else is untouched. The returned
/// pairs are the renames — old and new absolute path — for the caller
/// to apply to the directory tree in the same order.
pub fn move_people_into_people_folder(vault: &mut Vault) -> (r: Vec<(Vec<u8>, Vec<u8>)>)
    requires
        ({
            let idx = crate::obsidian::vault::id_index(
                old(vault).items@,
                crate::text::str_bytes("topics + tags/People.md"),
            );
            idx < old(vault).items@.len() && old(vault).items@[idx] is Page
        }),
    ensures
        final(vault).path == old(vault).path,
        final(vault).items@.len() == old(vault).items@.len(),
        ({
            let topic_id = crate::text::str_bytes("topics + tags/People.md");
            &&& forall|i: int|
                0 <= i < old(vault).items@.len() && !should_move_to_people(
                    #[trigger] old(vault).items@[i],
                    topic_id,
                ) ==> final(vault).items@[i] == old(vault).items@[i]
            &&& forall|i: int|
                0 <= i < old(vault).items@.len() && should_move_to_people(
                    #[trigger] old(vault).items@[i],
                    topic_id,
                ) ==> {
                    let p0 = old(vault).items@[i]->Page_0;
                    let cur = final(vault).items@[i];
                    &&& cur is Page
                    &&& cur->Page_0.id == p0.id
                    &&& cur->Page_0.contents == p0.contents
                    &&& cur->Page_0.references == p0.references
                    &&& cur->Page_0.tags == p0.tags
                    &&& cur->Page_0.file@ == crate::obsidian::file::spec_file_new(
                        p0.file.vault_path@,
                        p0.file.vault_path@ + seq![47u8] + (crate::text::str_bytes("people/")
                            + p0.file.path_from_vault_root@),
                        p0.file.contents@,
                        p0.file.created_at,
                    )
                }
            &&& forall|i: int|
                0 <= i < old(vault).items@.len() && should_move_to_people(
                    #[trigger] old(vault).items@[i],
                    topic_id,
                ) ==> exists|j: int|
                    0 <= j < r@.len() && (#[trigger] r@[j]).0@ == old(
                        vault,
                    ).items@[i]->Page_0.file.absolute_path@ && r@[j].1@ == old(
                        vault,
                    ).items@[i]->Page_0.file.vault_path@ + seq![47u8] + (crate::text::str_bytes(
                        "people/",
                    ) + old(vault).items@[i]->Page_0.file.path_from_vault_root@)
            &&& forall|j: int|
                0 <= j < r@.len() ==> is_people_move_pair(
                    old(vault).items@,
                    topic_id,
                    #[trigger] r@[j],
                )
        }),
{
    proof {
        reveal_strlit("topics + tags/People.md");
        reveal_strlit("people/");
    }
    let ghost topic = crate::text::str_bytes("topics + tags/People.md");
    let topic_path = text::lit_bytes("topics + tags/People.md");
    let topic_id = match vault.item_at_path(topic_path) {
        Some(item) => item.id().clone(),
        None => {
            proof {
                crate::obsidian::vault::lemma_id_index(vault.items@, topic);
                assert(false);
            }
            VaultItemId::from_path_from_vault_root(Vec::new())
        },
    };
    proof {
        crate::obsidian::vault::lemma_id_index(vault.items@, topic);
        assert(topic_id@ == topic);
    }
    let people_prefix = text::lit_bytes("people/");
    let mut r: Vec<(Vec<u8>, Vec<u8>)> = Vec::new();
    let mut i: usize = 0;
    while i < vault.items.len()
        invariant
            0 <= i <= vault.items@.len(),
            topic_id@ == topic,
            topic == crate::text::str_bytes("topics + tags/People.md"),
            people_prefix@ == crate::text::str_bytes("people/"),
            vault.path == old(vault).path,
            vault.items@.len() == old(vault).items@.len(),
            forall|j: int| i <= j < vault.items@.len() ==> vault.items@[j] == old(vault).items@[j],
            forall|j: int|
                0 <= j < i && !should_move_to_people(#[trigger] old(vault).items@[j], topic)
                    ==> vault.items@[j] == old(vault).items@[j],
            forall|j: int|
                0 <= j < i && should_move_to_people(#[trigger] old(vault).items@[j], topic) ==> {
                    let p0 = old(vault).items@[j]->Page_0;
                    let cur = vault.items@[j];
                    &&& cur is Page
                    &&& cur->Page_0.id == p0.id
                    &&& cur->Page_0.contents == p0.contents
                    &&& cur->Page_0.references == p0.references
                    &&& cur->Page_0.tags == p0.tags
                    &&& cur->Page_0.file@ == crate::obsidian::file::spec_file_new(
                        p0.file.vault_path@,
                        p0.file.vault_path@ + seq![47u8] + (crate::text::str_bytes("people/")
                            + p0.file.path_from_vault_root@),
                        p0.file.contents@,
                        p0.file.created_at,
                    )
                },
            forall|j: int|
                0 <= j < i && should_move_to_people(#[trigger] old(vault).items@[j], topic)
                    ==> exists|w: int|
                    0 <= w < r@.len() && (#[trigger] r@[w]).0@ == old(
                        vault,
                    ).items@[j]->Page_0.file.absolute_path@ && r@[w].1@ == old(
                        vault,
                    ).items@[j]->Page_0.file.vault_path@ + seq![47u8] + (crate::text::str_bytes(
                        "people/",
                    ) + old(vault).items@[j]->Page_0.file.path_from_vault_root@),
            forall|w: int|
                0 <= w < r@.len() ==> is_people_move_pair(
                    old(vault).items@,
                    topic,
                    #[trigger] r@[w],
                ),
        decreases vault.items@.len() - i,
    {
        let ghost old_item = vault.items@[i as int];
        let mut do_move = false;
        let mut new_rel: Vec<u8> = Vec::new();
        let mut old_abs: Vec<u8> = Vec::new();
        let mut new_abs: Vec<u8> = Vec::new();
        match &vault.items[i] {
            VaultItem::Page(page) => {
                if page.has_a_reference_to(&topic_id) && !text::starts_with(
                    page.file.path_from_vault_root.as_slice(),
                    people_prefix,
                ) {
                    do_move = true;
                    crate::controllers::append_bytes(&mut new_rel, people_prefix);
                    crate::controllers::append_bytes(
                        &mut new_rel,
                        page.file.path_from_vault_root.as_slice(),
                    );
                    crate::controllers::append_bytes(
                        &mut old_abs,
                        page.file.absolute_path.as_slice(),
                    );
                    crate::controllers::append_bytes(
                        &mut new_abs,
                        page.file.vault_path.as_slice(),
                    );
                    new_abs.push(47);
                    crate::controllers::append_bytes(&mut new_abs, new_rel.as_slice());
                    proof {
                        assert(page_refers_to(old_item->Page_0, topic)) by {
                            let k = choose|k: int|
                                0 <= k < page@.references.len() && (
                                #[trigger] page@.references[k]).vault_item_id == Some(topic_id@);
                            assert((old_item->Page_0)@.references[k].vault_item_id == Some(
                                topic,
                            ));
                        }
                        assert(should_move_to_people(old_item, topic));
                    }
                } else {
                    proof {
                        if page_refers_to(old_item->Page_0, topic) {
                            let k = choose|k: int|
                                0 <= k < (old_item->Page_0)@.references.len() && (#[trigger] (
                                old_item->Page_0)@.references[k]).vault_item_id == Some(topic);
                            assert(page@.references[k].vault_item_id == Some(topic_id@));
                        }
                        assert(!should_move_to_people(old_item, topic));
                    }
                }
            },
            VaultItem::NonPage { .. } => {
                proof {
                    assert(!should_move_to_people(old_item, topic));
                }
            },
        }
        if do_move {
            vault.move_item_file(i, new_rel.as_slice());
            let ghost oa = old_abs@;
            let ghost na = new_abs@;
            let ghost rprev = r@;
            r.push((old_abs, new_abs));
            proof {
                let p0 = old(vault).items@[i as int]->Page_0;
                assert(r@[r@.len() - 1].0@ =~= p0.file.absolute_path@);
                assert(na =~= p0.file.vault_path@ + seq![47u8] + (crate::text::str_bytes(
                    "people/",
                ) + p0.file.path_from_vault_root@));
                assert(r@[r@.len() - 1].1@ =~= p0.file.vault_path@ + seq![47u8] + (
                crate::text::str_bytes("people/") + p0.file.path_from_vault_root@));
                assert forall|w: int| 0 <= w < r@.len() implies is_people_move_pair(
                    old(vault).items@,
                    topic,
                    #[trigger] r@[w],
                ) by {
                    if w < rprev.len() {
                        assert(r@[w] == rprev[w]);
                    } else {
                        assert(should_move_to_people(old(vault).items@[i as int], topic));
                        assert(r@[w].0@ == old(vault).items@[i as int]->Page_0.file.absolute_path@);
                        assert(r@[w].1@ == old(vault).items@[i as int]->Page_0.file.vault_path@
                            + seq![47u8] + (crate::text::str_bytes("people/") + old(
                            vault,
                        ).items@[i as int]->Page_0.file.path_from_vault_root@));
                    }
                }
                assert forall|j: int|
                    0 <= j < i + 1 && should_move_to_people(
                        #[trigger] old(vault).items@[j],
                        topic,
                    ) implies exists|w: int|
                    0 <= w < r@.len() && (#[trigger] r@[w]).0@ == old(
                        vault,
                    ).items@[j]->Page_0.file.absolute_path@ && r@[w].1@ == old(
                        vault,
                    ).items@[j]->Page_0.file.vault_path@ + seq![47u8] + (crate::text::str_bytes(
                        "people/",
                    ) + old(vault).items@[j]->Page_0.file.path_from_vault_root@) by {
                    if j < i {
                        let w = choose|w: int|
                            0 <= w < rprev.len() && (#[trigger] rprev[w]).0@ == old(
                                vault,
                            ).items@[j]->Page_0.file.absolute_path@ && rprev[w].1@ == old(
                                vault,
                            ).items@[j]->Page_0.file.vault_path@ + seq![47u8] + (
                            crate::text::str_bytes("people/") + old(
                                vault,
                            ).items@[j]->Page_0.file.path_from_vault_root@);
                        assert(r@[w] == rprev[w]);
                    } else {
                        assert(0 <= r@.len() - 1 < r@.len());
                    }
                }
            }
        }
        i = i + 1;
    }
    r
}

} // verus!
