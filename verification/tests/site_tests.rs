//! Tests for the site-facing helpers: routes, the poem database,
//! controller names, and the vault maintenance operations.

use library_of_babel::controllers::controller_name_to_selector;
use library_of_babel::controllers::show_hide::ShowHide;
use library_of_babel::date::{Month, Year};
use library_of_babel::obsidian::file::{Contents, File};
use library_of_babel::obsidian::page::Page;
use library_of_babel::obsidian::vault::Vault;
use library_of_babel::obsidian::vault_item::{parse_files, VaultItem, VaultItemId};
use library_of_babel::route::Route;
use library_of_babel::santoka_haiku_2023_06_26::{
    Database, Poem, PoemId, Publication, PublicationId, Translator, TranslatorId,
};
use library_of_babel::{get_id_for_unit_of_time, move_people_into_people_folder, UnitOfTime};
use library_of_babel::date::DayOfTheMonth;

fn bytes(s: &str) -> Vec<u8> {
    s.as_bytes().to_vec()
}

fn markdown_file(vault: &str, rel: &str, text: &str, created_at: u64) -> File {
    let absolute = format!("{}/{}", vault, rel);
    File::new(
        vault.as_bytes(),
        absolute.into_bytes(),
        Contents::Markdown { text: bytes(text) },
        created_at,
    )
}

fn sample_database() -> Database {
    Database {
        created_at: bytes("2023-06-26T00:00:00Z"),
        poems: vec![
            Poem {
                id: PoemId(1),
                translator_id: TranslatorId(10),
                publication_id: PublicationId(100),
                english_text: bytes("into the wind"),
                japanese_text: Some(bytes("kaze no naka")),
            },
            Poem {
                id: PoemId(2),
                translator_id: TranslatorId(10),
                publication_id: PublicationId(100),
                english_text: bytes("deep in the mountains"),
                japanese_text: None,
            },
            Poem {
                id: PoemId(3),
                translator_id: TranslatorId(11),
                publication_id: PublicationId(101),
                english_text: bytes("a crow"),
                japanese_text: Some("烏".as_bytes().to_vec()),
            },
            Poem {
                id: PoemId(4),
                translator_id: TranslatorId(10),
                publication_id: PublicationId(100),
                english_text: bytes("third"),
                japanese_text: None,
            },
            Poem {
                id: PoemId(5),
                translator_id: TranslatorId(10),
                publication_id: PublicationId(100),
                english_text: bytes("fourth"),
                japanese_text: None,
            },
        ],
        translators: vec![
            Translator { id: TranslatorId(10), name: bytes("first translator") },
            Translator { id: TranslatorId(11), name: bytes("second translator") },
        ],
        publications: vec![
            Publication {
                id: PublicationId(100),
                name: bytes("collected haiku"),
                year: Some(1926),
                translator_id: TranslatorId(10),
                description: bytes("early work"),
            },
            Publication {
                id: PublicationId(101),
                name: bytes("later haiku"),
                year: None,
                translator_id: TranslatorId(11),
                description: bytes("late work"),
            },
        ],
    }
}

#[test]
fn database_lookups_find_records_by_id() {
    let db = sample_database();
    assert_eq!(db.translator(TranslatorId(11)).name, bytes("second translator"));
    assert_eq!(db.publication(PublicationId(100)).name, bytes("collected haiku"));
}

#[test]
fn every_poem_has_valid_foreign_keys() {
    let db = sample_database();
    for poem in &db.poems {
        // These lookups require the ids to exist; they return the records.
        assert_eq!(db.publication(poem.publication_id).id, poem.publication_id);
        assert_eq!(db.translator(poem.translator_id).id, poem.translator_id);
    }
}

#[test]
fn romaji_detection_looks_for_ascii() {
    let db = sample_database();
    assert!(db.poems[0].japanese_text_is_romaji());
    assert!(!db.poems[1].japanese_text_is_romaji());
    assert!(!db.poems[2].japanese_text_is_romaji());
    assert_eq!(db.poems[0].japanese_text_or_default(), b"kaze no naka");
    assert_eq!(db.poems[1].japanese_text_or_default(), b"");
}

#[test]
fn publications_partition_their_poems() {
    let db = sample_database();
    let publication = db.publication(PublicationId(100));
    assert_eq!(publication.poems(&db).len(), 4);
    assert_eq!(publication.preview_poems(&db).len(), 3);
    assert_eq!(publication.non_preview_poems(&db).len(), 1);
    assert!(publication.has_non_preview_poems(&db));
    assert!(publication.has_japanese_text(&db));

    let later = db.publication(PublicationId(101));
    assert_eq!(later.poems(&db).len(), 1);
    assert!(!later.has_non_preview_poems(&db));

    assert_eq!(publication.year_or_unknown(), bytes("1926"));
    assert_eq!(later.year_or_unknown(), bytes("unknown"));
}

#[test]
fn routes_round_trip_through_their_paths() {
    let ids = vec![PublicationId(7), PublicationId(19)];
    let fixed = [Route::BuildTime, Route::Home, Route::NotFound, Route::Santoka, Route::Work];
    for route in fixed {
        let path = route.to_path();
        assert_eq!(Route::parse_path(&path, &ids), route);
    }
    let poems = Route::NonPreviewPoems { publication_id: PublicationId(19) };
    assert_eq!(poems.to_path(), bytes("/non-preview-poems/19"));
    assert_eq!(Route::parse_path(b"/non-preview-poems/19", &ids), poems);
    // An id the site does not know is not found, as is a malformed path.
    assert_eq!(Route::parse_path(b"/non-preview-poems/8", &ids), Route::NotFound);
    assert_eq!(Route::parse_path(b"/nowhere", &ids), Route::NotFound);
}

#[test]
fn selectors_match_prefixed_classes() {
    let selector = controller_name_to_selector(b"controller:replace");
    assert_eq!(
        selector,
        bytes("[class^='controller:replace'], [class*=' controller:replace']")
    );
}

#[test]
fn show_hide_class_names() {
    let controller = ShowHide::new();
    assert_eq!(controller.container(), "controller:show-hide");
    assert_eq!(controller.toggle(), "controller:show-hide:toggle");
    assert_eq!(controller.show_by_default(), "controller:show-hide:show-by-default");
    assert_eq!(
        controller.hide_by_default(),
        "controller:show-hide:hide-by-default hidden"
    );
}

#[test]
fn calendar_page_ids_pad_and_prefix() {
    let current = Year::new(2024);
    let year_id = get_id_for_unit_of_time(UnitOfTime::Year(Year::new(2024)), current);
    assert_eq!(year_id.path, bytes("2024/2024.md"));
    let month_id = get_id_for_unit_of_time(
        UnitOfTime::Month(Year::new(2024), Month::new(3)),
        current,
    );
    assert_eq!(month_id.path, bytes("2024/2024.03.md"));
    let day_id = get_id_for_unit_of_time(
        UnitOfTime::Day(Year::new(2025), Month::new(11), DayOfTheMonth::new(7)),
        current,
    );
    // Another year's pages file under the years folder.
    assert_eq!(day_id.path, bytes("years/2025/2025.11.07.md"));
}

#[test]
fn find_or_create_page_reuses_or_synthesizes() {
    let one = markdown_file("/v", "one.md", "", 1);
    let items = parse_files(vec![one]);
    let mut vault = Vault::from_items(bytes("/v"), items);

    let existing_id = VaultItemId::from_path_from_vault_root(bytes("one.md"));
    let existing = vault.find_or_create_page(&existing_id, bytes("ignored"), 9);
    assert_eq!(existing.id().path, bytes("one.md"));
    assert_eq!(vault.items().len(), 1);

    let fresh_id = VaultItemId::from_path_from_vault_root(bytes("two.md"));
    let fresh = vault.find_or_create_page(&fresh_id, bytes("see [[one]]"), 9);
    match fresh {
        VaultItem::Page(page) => {
            assert_eq!(page.id.path, bytes("two.md"));
            assert_eq!(
                page.references[0].vault_item_id.as_ref().unwrap().path,
                bytes("one.md")
            );
        }
        VaultItem::NonPage { .. } => panic!("expected a page"),
    }
    assert_eq!(vault.items().len(), 2);
}

#[test]
fn people_pages_move_into_the_people_folder() {
    let topic = markdown_file("/v", "topics + tags/People.md", "", 1);
    let person = markdown_file("/v", "ada.md", "about [[People]]", 2);
    let already_there = markdown_file("/v", "people/grace.md", "also [[People]]", 3);
    let unrelated = markdown_file("/v", "notes.md", "nothing here", 4);
    let items = parse_files(vec![topic, person, already_there, unrelated]);
    let mut vault = Vault::from_items(bytes("/v"), items);

    let renames = move_people_into_people_folder(&mut vault);

    assert_eq!(renames.len(), 1);
    assert_eq!(renames[0].0, bytes("/v/ada.md"));
    assert_eq!(renames[0].1, bytes("/v/people/ada.md"));

    // The moved page's file was re-derived under the new path.
    let moved = vault
        .items()
        .iter()
        .find_map(|item| match item {
            VaultItem::Page(page) if page.file.file_name == bytes("ada.md") => Some(page),
            _ => None,
        })
        .unwrap();
    assert_eq!(moved.file.path_from_vault_root, bytes("people/ada.md"));
    assert_eq!(moved.file.absolute_path, bytes("/v/people/ada.md"));
}

#[test]
fn replacing_one_reference_shifts_the_rest() {
    let files: Vec<File> = Vec::new();
    let file = markdown_file("/v", "page.md", "", 1);
    let mut page = Page::parse(&files, file, bytes("a [[one]] b [[two]] c"));
    let mut target = page.references[0].clone();
    let mut references = std::mem::take(&mut page.references);
    let mut contents = std::mem::take(&mut page.contents);

    Page::replace_reference_text(
        &mut target,
        bytes("[[renamed one]]"),
        &mut references,
        &mut contents,
    );

    assert_eq!(contents, bytes("a [[renamed one]] b [[two]] c"));
    assert_eq!(references[0].text, bytes("[[renamed one]]"));
    // The untouched later reference still covers exactly its own text.
    let second = &references[1];
    assert_eq!(
        &contents[second.range_start..second.range_end],
        b"[[two]]"
    );
}
