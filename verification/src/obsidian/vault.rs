//! The vault index: every loaded item, addressed by its path-derived
//! identity, in the oldest-first order the loader established.
//!
//! Walking the directory tree is the caller's job; the index itself is an
//! in-memory snapshot and all lookups and edits here are pure.

use vstd::prelude::*;

use crate::obsidian::file::Contents;
use crate::obsidian::file::File;
use crate::obsidian::file::FileView;
use crate::obsidian::file::spec_file_new;
use crate::obsidian::page::Page;
use crate::obsidian::reference::Reference;
use crate::obsidian::reference::extract_link_text;
use crate::obsidian::reference::find_closest_matching_file;
use crate::obsidian::reference::link_text_spec;
use crate::obsidian::reference::resolve_id_spec;
use crate::obsidian::reference::views_of_files;
use crate::obsidian::vault_item::VaultItem;
use crate::obsidian::vault_item::VaultItemId;
use crate::obsidian::vault_item::spec_item_from_file;
use crate::text;

verus! {

/// Index of the first item whose identity is `id`, or `items.len()`.
pub open spec fn id_index(items: Seq<VaultItem>, id: Seq<u8>) -> int
    decreases items.len(),
{
    if items.len() == 0 {
        0
    } else if items[0].spec_id() == id {
        0
    } else {
        1 + id_index(items.skip(1), id)
    }
}

pub proof fn lemma_id_index(items: Seq<VaultItem>, id: Seq<u8>)
    ensures
        0 <= id_index(items, id) <= items.len(),
        id_index(items, id) < items.len() ==> items[id_index(items, id)].spec_id() == id,
        forall|j: int| 0 <= j < id_index(items, id) ==> items[j].spec_id() != id,
    decreases items.len(),
{
    if items.len() > 0 && items[0].spec_id() != id {
        lemma_id_index(items.skip(1), id);
        assert forall|j: int| 0 <= j < id_index(items, id) implies items[j].spec_id() != id by {
            if j > 0 {
                assert(items.skip(1)[j - 1].spec_id() != id);
            }
        }
    }
}

proof fn lemma_id_index_at(items: Seq<VaultItem>, id: Seq<u8>, i: int)
    requires
        0 <= i <= items.len(),
        forall|j: int| 0 <= j < i ==> items[j].spec_id() != id,
        i < items.len() ==> items[i].spec_id() == id,
    ensures
        id_index(items, id) == i,
    decreases i,
{
    if items.len() == 0 {
    } else if i == 0 {
    } else {
        lemma_id_index_at(items.skip(1), id, i - 1);
    }
}

/// A mutable borrow of one item, so edits can be framed field by field.
fn vault_item_at_mut(v: &mut Vec<VaultItem>, i: usize) -> (element: &mut VaultItem)
    requires
        i < old(v)@.len(),
    ensures
        *element == old(v)@[i as int],
        final(v)@ == old(v)@.update(i as int, *final(element)),
{
    &mut v[i]
}

/// The page payloads of the items, in item order: exactly the `Page`
/// variants, one each, nothing else.
pub open spec fn pages_of(items: Seq<VaultItem>) -> Seq<Page> {
    items.filter(|it: VaultItem| it is Page).map_values(|it: VaultItem| it->Page_0)
}

/// The in-memory snapshot of one vault.
#[derive(Debug)]
pub struct Vault {
    /// The root directory the items were loaded from.
    pub path: Vec<u8>,
    /// Every loaded item, oldest first; identities are unique.
    pub items: Vec<VaultItem>,
}

impl Vault {
    /// Identities are unique: two files cannot share a path.
    pub open spec fn wf(self) -> bool {
        forall|i: int, j: int|
            0 <= i < j < self.items@.len() ==> #[trigger] self.items@[i].spec_id()
                != #[trigger] self.items@[j].spec_id()
    }

    /// The file names the resolver sees, in item order.
    pub open spec fn spec_file_views(self) -> Seq<FileView> {
        self.items@.map_values(|it: VaultItem| it.spec_file()@)
    }

    /// Wraps already-loaded items. The caller (which walked the
    /// filesystem) passes them sorted oldest first, with unique
    /// identities.
    pub fn from_items(path: Vec<u8>, items: Vec<VaultItem>) -> (r: Vault)
        requires
            forall|i: int, j: int|
                0 <= i < j < items@.len() ==> #[trigger] items@[i].spec_id()
                    != #[trigger] items@[j].spec_id(),
        ensures
            r.path == path,
            r.items == items,
            r.wf(),
    {
        Vault { path, items }
    }

    /// The item at a vault-relative path, if any.
    pub fn item_at_path(&self, path_from_vault_root: &[u8]) -> (r: Option<&VaultItem>)
        ensures
            match r {
                Some(it) => id_index(self.items@, path_from_vault_root@) < self.items@.len() && *it
                    == self.items@[id_index(self.items@, path_from_vault_root@)],
                None => id_index(self.items@, path_from_vault_root@) == self.items@.len(),
            },
    {
        let copy = text::subrange_vec(path_from_vault_root, 0, path_from_vault_root.len());
        proof {
            assert(copy@ =~= path_from_vault_root@);
        }
        let id = VaultItemId::from_path_from_vault_root(copy);
        self.item(&id)
    }

    /// The item with identity `id`, if any.
    pub fn item(&self, id: &VaultItemId) -> (r: Option<&VaultItem>)
        ensures
            match r {
                Some(it) => id_index(self.items@, id@) < self.items@.len() && *it
                    == self.items@[id_index(self.items@, id@)],
                None => id_index(self.items@, id@) == self.items@.len(),
            },
    {
        let mut i: usize = 0;
        while i < self.items.len()
            invariant
                0 <= i <= self.items@.len(),
                forall|j: int| 0 <= j < i ==> self.items@[j].spec_id() != id@,
            decreases self.items@.len() - i,
        {
            if text::bytes_eq(self.items[i].id().path.as_slice(), id.path.as_slice()) {
                proof {
                    lemma_id_index_at(self.items@, id@, i as int);
                }
                return Some(&self.items[i]);
            }
            i = i + 1;
        }
        proof {
            lemma_id_index_at(self.items@, id@, self.items@.len() as int);
        }
        None
    }

    /// The item with identity `id`, mutable, if any.
    pub fn item_mut(&mut self, id: &VaultItemId) -> (r: Option<&mut VaultItem>)
        ensures
            final(self).path == old(self).path,
            match r {
                Some(it) => {
                    let idx = id_index(old(self).items@, id@);
                    &&& idx < old(self).items@.len()
                    &&& *it == old(self).items@[idx]
                    &&& final(self).items@ == old(self).items@.update(idx, *final(it))
                },
                None => {
                    &&& id_index(old(self).items@, id@) == old(self).items@.len()
                    &&& *final(self) == *old(self)
                },
            },
    {
        let mut i: usize = 0;
        while i < self.items.len()
            invariant
                0 <= i <= self.items@.len(),
                *self == *old(self),
                forall|j: int| 0 <= j < i ==> self.items@[j].spec_id() != id@,
            decreases self.items@.len() - i,
        {
            if text::bytes_eq(self.items[i].id().path.as_slice(), id.path.as_slice()) {
                proof {
                    lemma_id_index_at(self.items@, id@, i as int);
                }
                let element = vault_item_at_mut(&mut self.items, i);
                return Some(element);
            }
            i = i + 1;
        }
        proof {
            lemma_id_index_at(self.items@, id@, self.items@.len() as int);
        }
        None
    }

    /// All items, in order.
    pub fn items(&self) -> (r: &Vec<VaultItem>)
        ensures
            r == &self.items,
    {
        &self.items
    }

    /// All items, mutable. The caller is responsible for keeping
    /// identities unique.
    pub fn items_mut(&mut self) -> (r: &mut Vec<VaultItem>)
        ensures
            *r == old(self).items,
            final(self).items == *final(r),
            final(self).path == old(self).path,
    {
        &mut self.items
    }

    /// Copies of every item's file, in item order: what the resolver
    /// matches link text against.
    pub fn files(&self) -> (r: Vec<File>)
        ensures
            views_of_files(r@) =~= self.spec_file_views(),
    {
        let mut r: Vec<File> = Vec::new();
        let mut i: usize = 0;
        while i < self.items.len()
            invariant
                0 <= i <= self.items@.len(),
                r@.len() == i,
                forall|j: int| 0 <= j < i ==> #[trigger] r@[j]@ == self.items@[j].spec_file()@,
            decreases self.items@.len() - i,
        {
            r.push(self.items[i].file().clone());
            i = i + 1;
        }
        proof {
            assert forall|j: int| 0 <= j < r@.len() implies views_of_files(r@)[j]
                == self.spec_file_views()[j] by {
                assert(r@[j]@ == self.items@[j].spec_file()@);
            }
        }
        r
    }

    /// The pages among the items: exactly the `Page` items, in item
    /// order, one each.
    pub fn pages(&self) -> (r: Vec<&Page>)
        ensures
            r@.map_values(|p: &Page| *p) =~= pages_of(self.items@),
    {
        let mut r: Vec<&Page> = Vec::new();
        let mut i: usize = 0;
        proof {
            assert(self.items@.take(0) =~= Seq::<VaultItem>::empty());
            reveal_with_fuel(Seq::filter, 2);
            assert(r@.map_values(|p: &Page| *p) =~= Seq::<Page>::empty());
        }
        while i < self.items.len()
            invariant
                0 <= i <= self.items@.len(),
                r@.map_values(|p: &Page| *p) =~= pages_of(self.items@.take(i as int)),
            decreases self.items@.len() - i,
        {
            let ghost pred = |it: VaultItem| it is Page;
            let ghost payload = |it: VaultItem| it->Page_0;
            proof {
                assert(self.items@.take(i + 1).drop_last() =~= self.items@.take(i as int));
                assert(self.items@.take(i + 1).last() == self.items@[i as int]);
                reveal_with_fuel(Seq::filter, 2);
            }
            match &self.items[i] {
                VaultItem::Page(page) => {
                    let ghost rprev = r@;
                    let ghost fprev = self.items@.take(i as int).filter(pred);
                    proof {
                        assert(*page == self.items@[i as int]->Page_0);
                        assert(self.items@.take(i + 1).filter(pred) =~= fprev.push(
                            self.items@[i as int],
                        ));
                    }
                    r.push(page);
                    proof {
                        rprev.lemma_push_map_commute(|p: &Page| *p, page);
                        assert(r@.map_values(|p: &Page| *p) =~= rprev.map_values(
                            |p: &Page| *p,
                        ).push(*page));
                        fprev.lemma_push_map_commute(payload, self.items@[i as int]);
                        assert(pages_of(self.items@.take(i + 1)) =~= fprev.map_values(
                            payload,
                        ).push(self.items@[i as int]->Page_0));
                    }
                },
                VaultItem::NonPage { .. } => {
                    proof {
                        assert(self.items@.take(i + 1).filter(pred) =~= self.items@.take(
                            i as int,
                        ).filter(pred));
                    }
                },
            }
            i = i + 1;
        }
        proof {
            assert(self.items@.take(self.items@.len() as int) =~= self.items@);
        }
        r
    }

    /// The item a resolved reference points at, if it is loaded.
    pub fn referenced_item(&self, reference: &Reference) -> (r: Option<&VaultItem>)
        ensures
            match reference.vault_item_id {
                Some(_) => true,
                None => r is None,
            },
            match r {
                Some(it) => {
                    &&& reference@.vault_item_id is Some
                    &&& id_index(self.items@, reference@.vault_item_id->0) < self.items@.len()
                    &&& *it == self.items@[id_index(self.items@, reference@.vault_item_id->0)]
                },
                None => true,
            },
            r is None ==> (reference@.vault_item_id is None || id_index(
                self.items@,
                reference@.vault_item_id->0,
            ) == self.items@.len()),
    {
        match &reference.vault_item_id {
            Some(id) => self.item(id),
            None => None,
        }
    }

    /// The vault's root directory.
    pub fn path(&self) -> (r: &Vec<u8>)
        ensures
            r == &self.path,
    {
        &self.path
    }

    /// Where an item's file lives on disk: the vault root, a slash, and
    /// the vault-relative path.
    pub fn absolute_path_to_item(&self, id: &VaultItemId) -> (r: Vec<u8>)
        ensures
            r@ =~= self.path@ + seq![47u8] + id@,
    {
        let mut r = text::subrange_vec(self.path.as_slice(), 0, self.path.len());
        r.push(47);
        let mut i: usize = 0;
        while i < id.path.len()
            invariant
                0 <= i <= id.path@.len(),
                r@ =~= self.path@ + seq![47u8] + id.path@.take(i as int),
            decreases id.path@.len() - i,
        {
            r.push(id.path[i]);
            i = i + 1;
        }
        proof {
            assert(id.path@.take(id.path@.len() as int) =~= id.path@);
        }
        r
    }

    /// Builds (but does not insert) a fresh page item at `id` with the
    /// given markdown text. Writing the file to disk is the caller's job;
    /// the creation stamp comes from it. References in the new page are
    /// resolved against the items already loaded.
    pub fn create_page(&self, id: &VaultItemId, contents: Vec<u8>, created_at: u64) -> (r:
        VaultItem)
        ensures
            r@ == spec_item_from_file(
                spec_file_new(
                    self.path@,
                    self.path@ + seq![47u8] + id@,
                    crate::obsidian::file::ContentsView::Markdown { text: contents@ },
                    created_at,
                ),
                self.spec_file_views(),
            ),
    {
        let absolute_path = self.absolute_path_to_item(id);
        let file = File::new(
            self.path.as_slice(),
            absolute_path,
            Contents::Markdown { text: contents },
            created_at,
        );
        let files = self.files();
        let item = VaultItem::from_file(&file, &files);
        item
    }

    /// The item at `id`, or a fresh page there: when nothing is loaded
    /// under `id`, a page file is synthesized from the given markdown
    /// text and inserted. The caller writes the same bytes to disk and
    /// supplies the resulting creation stamp.
    pub fn find_or_create_page(&mut self, id: &VaultItemId, contents: Vec<u8>, created_at: u64)
        -> (r: &VaultItem)
        ensures
            final(self).path == old(self).path,
            id_index(old(self).items@, id@) < old(self).items@.len() ==> {
                &&& *final(self) == *old(self)
                &&& *r == old(self).items@[id_index(old(self).items@, id@)]
            },
            id_index(old(self).items@, id@) == old(self).items@.len() ==> {
                &&& final(self).items@.len() == old(self).items@.len() + 1
                &&& final(self).items@.take(old(self).items@.len() as int) == old(self).items@
                &&& final(self).items@.last()@ == spec_item_from_file(
                    spec_file_new(
                        old(self).path@,
                        old(self).path@ + seq![47u8] + id@,
                        crate::obsidian::file::ContentsView::Markdown { text: contents@ },
                        created_at,
                    ),
                    old(self).spec_file_views(),
                )
                &&& *r == final(self).items@.last()
            },
            old(self).wf() ==> final(self).wf(),
    {
        let ghost items0 = self.items@;
        let mut found: usize = self.items.len();
        let mut i: usize = 0;
        while i < self.items.len()
            invariant
                0 <= i <= self.items@.len(),
                *self == *old(self),
                found == self.items@.len(),
                forall|j: int| 0 <= j < i ==> self.items@[j].spec_id() != id@,
            decreases self.items@.len() - i,
        {
            if text::bytes_eq(self.items[i].id().path.as_slice(), id.path.as_slice()) {
                proof {
                    lemma_id_index_at(self.items@, id@, i as int);
                }
                found = i;
                return &self.items[found];
            }
            i = i + 1;
        }
        proof {
            lemma_id_index_at(self.items@, id@, self.items@.len() as int);
        }
        let new_item = self.create_page(id, contents, created_at);
        proof {
            lemma_created_page_keeps_id(self.path@, id@);
        }
        self.items.push(new_item);
        proof {
            assert(self.items@.take(items0.len() as int) =~= items0);
            if old(self).wf() {
                assert forall|a: int, b: int|
                    0 <= a < b < self.items@.len() implies #[trigger] self.items@[a].spec_id()
                    != #[trigger] self.items@[b].spec_id() by {
                    if b == self.items@.len() - 1 {
                        assert(self.items@[a] == items0[a]);
                        assert(self.items@[b].spec_id() == id@);
                        assert(items0[a].spec_id() != id@);
                    } else {
                        assert(self.items@[a] == items0[a] && self.items@[b] == items0[b]);
                    }
                }
            }
        }
        let last = self.items.len() - 1;
        &self.items[last]
    }

    /// Re-derives one page's file at a new vault-relative path, keeping
    /// everything else about the page. Renaming on disk is the caller's
    /// job; the item's identity deliberately stays what it was loaded
    /// under.
    pub fn move_item_file(&mut self, i: usize, new_path_from_vault_root: &[u8])
        requires
            i < old(self).items@.len(),
            old(self).items@[i as int] is Page,
        ensures
            final(self).path == old(self).path,
            final(self).items@.len() == old(self).items@.len(),
            forall|j: int|
                0 <= j < old(self).items@.len() && j != i ==> final(self).items@[j] == old(
                    self,
                ).items@[j],
            ({
                let p0 = old(self).items@[i as int]->Page_0;
                let cur = final(self).items@[i as int];
                &&& cur is Page
                &&& cur->Page_0.id == p0.id
                &&& cur->Page_0.contents == p0.contents
                &&& cur->Page_0.references == p0.references
                &&& cur->Page_0.tags == p0.tags
                &&& cur->Page_0.file@ == spec_file_new(
                    p0.file.vault_path@,
                    p0.file.vault_path@ + seq![47u8] + new_path_from_vault_root@,
                    p0.file.contents@,
                    p0.file.created_at,
                )
            }),
    {
        let element = vault_item_at_mut(&mut self.items, i);
        match element {
            VaultItem::Page(page) => {
                page.file.move_file(new_path_from_vault_root);
            },
            VaultItem::NonPage { .. } => {},
        }
    }

    /// Resolves the link text of a wikilink-shaped string against this
    /// vault's files, in item order, and gives the winning item's
    /// identity.
    pub fn vault_item_id_by_wiki_link(&self, wiki_link: &[u8]) -> (r: Option<VaultItemId>)
        ensures
            match r {
                Some(id) => resolve_id_spec(link_text_spec(wiki_link@), self.spec_file_views())
                    == Some(id@),
                None => resolve_id_spec(link_text_spec(wiki_link@), self.spec_file_views())
                    is None,
            },
    {
        let link_text = extract_link_text(wiki_link);
        let files = self.files();
        match find_closest_matching_file(link_text.as_slice(), &files) {
            Some(f) => {
                proof {
                    let fv = views_of_files(files@);
                    let lt = link_text_spec(wiki_link@);
                    crate::obsidian::reference::lemma_first_match_spec(0, lt, fv);
                    crate::obsidian::reference::lemma_first_match_spec(1, lt, fv);
                    crate::obsidian::reference::lemma_first_match_spec(2, lt, fv);
                    crate::obsidian::reference::lemma_first_match_spec(3, lt, fv);
                    let idx = crate::obsidian::reference::resolve_spec(lt, fv);
                    assert(0 <= idx < files@.len());
                    assert(fv[idx] == files@[idx]@);
                }
                Some(VaultItemId::from_file(f))
            },
            None => None,
        }
    }
}

/// A page created under the vault root at a vault-relative path keeps
/// that path as its identity: stripping the root (and the joining
/// slash) from the joined path gives the path back.
proof fn lemma_created_page_keeps_id(root: Seq<u8>, rel: Seq<u8>)
    ensures
        crate::obsidian::file::rel_path_spec(root, root + seq![47u8] + rel) == rel,
        spec_file_new(
            root,
            root + seq![47u8] + rel,
            crate::obsidian::file::ContentsView::Markdown { text: Seq::empty() },
            0,
        ).path_from_vault_root == rel,
{
    let abs = root + seq![47u8] + rel;
    assert(abs.take(root.len() as int) =~= root);
    assert(text::starts_with_spec(abs, root));
    let stripped = abs.skip(root.len() as int);
    assert(stripped =~= seq![47u8] + rel);
    assert(stripped[0] == 47);
    assert(stripped.skip(1) =~= rel);
    assert(crate::obsidian::file::rel_path_spec(root, abs) =~= rel);
}

} // verus!
