//! Tests for the vault model: files, references, tags, pages, and the
//! vault index.

use library_of_babel::date::{days_in_month, is_valid_day_of_month, is_valid_month, months, Month, Year};
use library_of_babel::obsidian::file::{Contents, File, FileExtension, ContentType};
use library_of_babel::obsidian::page::Page;
use library_of_babel::obsidian::reference::{scan_wikilinks, Reference};
use library_of_babel::obsidian::span::Span;
use library_of_babel::obsidian::tag::Tag;
use library_of_babel::obsidian::vault::Vault;
use library_of_babel::obsidian::vault_item::{parse_files, VaultItem, VaultItemId};
use library_of_babel::obsidian::wiki_link_string::WikiLinkString;

fn bytes(s: &str) -> Vec<u8> {
    s.as_bytes().to_vec()
}

fn markdown_file(vault: &str, rel: &str, text: &str, created_at: u64) -> File {
    let absolute = format!("{}/{}", vault, rel);
    File::new(
        vault.as_bytes(),
        absolute.into_bytes(),
        Contents::Markdown { text: bytes(text) },
        created_at,
    )
}

#[test]
fn file_names_are_derived_from_the_path() {
    let f = markdown_file("/vault", "people/richard feynman.md", "", 1);
    assert_eq!(f.file_name, bytes("richard feynman.md"));
    assert_eq!(f.file_name_without_extension, bytes("richard feynman"));
    assert_eq!(f.path_from_vault_root, bytes("people/richard feynman.md"));
    assert_eq!(
        f.path_from_vault_root_without_extension,
        bytes("people/richard feynman")
    );
}

#[test]
fn unknown_extensions_classify_as_unknown() {
    assert!(matches!(
        FileExtension::from_str(b"png").content_type(),
        ContentType::Image
    ));
    assert!(matches!(
        FileExtension::from_str(b"md").content_type(),
        ContentType::Markdown
    ));
    assert!(matches!(
        FileExtension::from_str(b"xyz").content_type(),
        ContentType::Unknown
    ));
    assert_eq!(FileExtension::from_str(b"3gp").as_str(), "3gp");
}

#[test]
fn scanning_finds_wikilinks_and_embeds() {
    let text = bytes("see [[note one]] and ![[image.png]] end");
    let ranges = scan_wikilinks(&text);
    assert_eq!(ranges.len(), 2);
    assert_eq!(&text[ranges[0].0..ranges[0].1], b"[[note one]]");
    assert_eq!(&text[ranges[1].0..ranges[1].1], b"![[image.png]]");
}

#[test]
fn lazy_matching_stops_at_first_close() {
    let text = bytes("[[a]] trailing ]] and [[b]]");
    let ranges = scan_wikilinks(&text);
    assert_eq!(ranges.len(), 2);
    assert_eq!(&text[ranges[0].0..ranges[0].1], b"[[a]]");
    assert_eq!(&text[ranges[1].0..ranges[1].1], b"[[b]]");
}

#[test]
fn newlines_do_not_cross_wikilinks() {
    let text = bytes("[[broken\nlink]] [[whole]]");
    let ranges = scan_wikilinks(&text);
    assert_eq!(ranges.len(), 1);
    assert_eq!(&text[ranges[0].0..ranges[0].1], b"[[whole]]");
}

#[test]
fn resolution_prefers_older_files_and_tighter_keys() {
    // Sorted oldest first: "note.md" is older than "a/note.md".
    let f1 = markdown_file("/v", "note.md", "", 1);
    let f2 = markdown_file("/v", "a/note.md", "", 2);
    let files = vec![f1, f2];

    // The file-name-without-extension key matches both; the older file
    // wins, whatever the order of any internal structure.
    let refs = Reference::parse_references(&bytes("[[note]]"), &files);
    assert_eq!(refs.len(), 1);
    assert_eq!(
        refs[0].vault_item_id.as_ref().unwrap().path,
        bytes("note.md")
    );

    // The full-relative-path key is more specific and picks the newer
    // file when the link text spells it out.
    let refs = Reference::parse_references(&bytes("[[a/note.md]]"), &files);
    assert_eq!(
        refs[0].vault_item_id.as_ref().unwrap().path,
        bytes("a/note.md")
    );

    // No key matches: the reference is unresolved, not an error.
    let refs = Reference::parse_references(&bytes("[[stranger]]"), &files);
    assert!(refs[0].vault_item_id.is_none());
}

#[test]
fn inner_brackets_and_bangs_are_stripped_from_link_text() {
    let files: Vec<File> = Vec::new();
    let refs = Reference::parse_references(&bytes("![[pic!x.png]]"), &files);
    assert_eq!(refs.len(), 1);
    assert!(refs[0].is_embed);
    assert_eq!(refs[0].text_between_double_brackets, bytes("picx.png"));
    assert_eq!(refs[0].text, bytes("![[pic!x.png]]"));
}

#[test]
fn try_as_date_reads_dotted_dates() {
    let files: Vec<File> = Vec::new();
    let refs = Reference::parse_references(&bytes("[[2024.06.21]]"), &files);
    let date = refs[0].try_as_date().unwrap();
    assert_eq!((date.year, date.month, date.day), (2024, 6, 21));

    let refs = Reference::parse_references(&bytes("[[2024.02.30]]"), &files);
    assert!(refs[0].try_as_date().is_none());

    let refs = Reference::parse_references(&bytes("[[not.a.date.at.all]]"), &files);
    assert!(refs[0].try_as_date().is_none());
}

#[test]
fn tags_are_runs_of_non_whitespace_after_a_hash() {
    let tags = Tag::parse_tags(&bytes("a #one line with #two/tags and#three\n#four"));
    let expected: Vec<Vec<u8>> = vec![bytes("one"), bytes("two/tags"), bytes("three"), bytes("four")];
    assert_eq!(tags, expected);
}

#[test]
fn replacing_references_shifts_later_ranges() {
    let file = markdown_file("/v", "page.md", "", 1);
    let files: Vec<File> = Vec::new();
    let contents = bytes("start [[first]] middle [[second]] end");
    let mut page = Page::parse(&files, file, contents);
    assert_eq!(page.references.len(), 2);
    let old_len = page.contents.len();

    // First replacement is shorter, second is longer.
    let new_texts = vec![bytes("[[1]]"), bytes("[[second one]]")];
    page.find_and_replace_text_for_references(&new_texts);

    assert_eq!(page.contents, bytes("start [[1]] middle [[second one]] end"));

    // Re-scanning finds the second replacement at its shifted position.
    let ranges = scan_wikilinks(&page.contents);
    assert_eq!(ranges.len(), 2);
    assert_eq!(ranges[1].0, page.references[1].range_start);
    assert_eq!(ranges[1].1, page.references[1].range_end);

    // The total length delta is the sum of the two individual deltas.
    let delta_one = "[[1]]".len() as i64 - "[[first]]".len() as i64;
    let delta_two = "[[second one]]".len() as i64 - "[[second]]".len() as i64;
    assert_eq!(
        page.contents.len() as i64,
        old_len as i64 + delta_one + delta_two
    );
}

#[test]
fn spans_shift_and_splice() {
    let mut buffer = bytes("one [[x]] two");
    let mut span = Span::new(b"[[x]]", 4, 9);
    let delta = span.update_text(b"[[xyz]]", &mut buffer);
    assert_eq!(buffer, bytes("one [[xyz]] two"));
    assert_eq!(delta, 2);
    assert_eq!((span.range_start, span.range_end), (4, 11));
    assert_eq!(span.text, bytes("[[xyz]]"));

    let mut other = Span::new(b"two", 10, 13);
    other.shift_range(delta);
    assert_eq!((other.range_start, other.range_end), (12, 15));
    assert_eq!(&buffer[other.range_start..other.range_end], b"two");
}

#[test]
fn page_lookups_by_link_text_and_target() {
    let target = markdown_file("/v", "topic.md", "", 1);
    let files = vec![target];
    let file = markdown_file("/v", "page.md", "", 2);
    let page = Page::parse(&files, file, bytes("about [[topic]] here"));
    assert!(page.find_reference_by_link_text(b"topic").is_some());
    assert!(page.find_reference_by_link_text(b"other").is_none());
    let id = VaultItemId::from_path_from_vault_root(bytes("topic.md"));
    assert!(page.has_a_reference_to(&id));
    let absent = VaultItemId::from_path_from_vault_root(bytes("absent.md"));
    assert!(!page.has_a_reference_to(&absent));
}

#[test]
fn parse_files_sorts_oldest_first_before_resolving() {
    // Passed newest first; the vault still resolves toward the oldest.
    let newer = markdown_file("/v", "a/note.md", "", 9);
    let older = markdown_file("/v", "note.md", "link [[note]]", 3);
    let items = parse_files(vec![newer, older]);
    assert_eq!(items.len(), 2);
    // Items come out oldest first.
    assert_eq!(items[0].id().path, bytes("note.md"));
    match &items[0] {
        VaultItem::Page(page) => {
            assert_eq!(
                page.references[0].vault_item_id.as_ref().unwrap().path,
                bytes("note.md")
            );
        }
        VaultItem::NonPage { .. } => panic!("expected a page"),
    }
}

#[test]
fn equal_stamps_keep_their_original_order() {
    // Three files share one creation stamp; the sort is stable, so they
    // come out in the order they were handed in.
    let a = markdown_file("/v", "a.md", "", 5);
    let b = markdown_file("/v", "b.md", "", 5);
    let newer = markdown_file("/v", "z.md", "", 9);
    let c = markdown_file("/v", "c.md", "", 5);
    let items = parse_files(vec![a, b, newer, c]);
    let order: Vec<Vec<u8>> = items.iter().map(|it| it.id().path.clone()).collect();
    assert_eq!(
        order,
        vec![bytes("a.md"), bytes("b.md"), bytes("c.md"), bytes("z.md")]
    );
}

#[test]
fn vault_lookups_and_creation() {
    let one = markdown_file("/v", "one.md", "see [[two]]", 1);
    let two = markdown_file("/v", "two.md", "", 2);
    let items = parse_files(vec![one, two]);
    let mut vault = Vault::from_items(bytes("/v"), items);

    assert!(vault.item_at_path(b"one.md").is_some());
    assert!(vault.item_at_path(b"three.md").is_none());

    let id = VaultItemId::from_path_from_vault_root(bytes("two.md"));
    assert!(vault.item(&id).is_some());
    assert!(vault.item_mut(&id).is_some());
    assert_eq!(vault.items().len(), 2);
    assert_eq!(vault.files().len(), 2);
    assert_eq!(vault.pages().len(), 2);

    // The reference in "one.md" resolved to "two.md"; the vault can hand
    // the referenced item back.
    let one_id = VaultItemId::from_path_from_vault_root(bytes("one.md"));
    let reference = match vault.item(&one_id).unwrap() {
        VaultItem::Page(page) => page.references[0].clone(),
        VaultItem::NonPage { .. } => panic!("expected a page"),
    };
    let found = vault.referenced_item(&reference).unwrap();
    assert_eq!(found.id().path, bytes("two.md"));

    // Resolution through a wikilink-shaped field value.
    let resolved = vault.vault_item_id_by_wiki_link(b"[[two]]").unwrap();
    assert_eq!(resolved.path, bytes("two.md"));
    assert!(vault.vault_item_id_by_wiki_link(b"[[zzz]]").is_none());

    let absolute = vault.absolute_path_to_item(&id);
    assert_eq!(absolute, bytes("/v/two.md"));

    let fresh = vault.create_page(
        &VaultItemId::from_path_from_vault_root(bytes("fresh.md")),
        bytes("a link to [[one]]"),
        9,
    );
    match fresh {
        VaultItem::Page(page) => {
            assert_eq!(page.id.path, bytes("fresh.md"));
            assert_eq!(
                page.references[0].vault_item_id.as_ref().unwrap().path,
                bytes("one.md")
            );
        }
        VaultItem::NonPage { .. } => panic!("expected a page"),
    }
}

#[test]
fn wiki_link_strings_require_bracket_shape() {
    assert!(WikiLinkString::from_str(b"[[ok]]").is_ok());
    assert!(WikiLinkString::from_str(b"not a link").is_err());
    let link = WikiLinkString::from_str(b"[[inner text]]").unwrap();
    assert_eq!(link.link_text, bytes("inner text"));
}

#[test]
fn calendar_helpers_know_month_lengths() {
    assert_eq!(months().len(), 12);
    assert!(is_valid_month(12));
    assert!(!is_valid_month(0));
    assert!(is_valid_day_of_month(31));
    assert!(!is_valid_day_of_month(32));
    assert_eq!(days_in_month(Year::new(2024), Month::new(2)).len(), 29);
    assert_eq!(days_in_month(Year::new(1900), Month::new(2)).len(), 28);
    assert_eq!(days_in_month(Year::new(2000), Month::new(2)).len(), 29);
    assert_eq!(days_in_month(Year::new(2023), Month::new(11)).len(), 30);
}
