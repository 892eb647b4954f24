//! Items of a loaded vault: pages with parsed references and tags, and
//! opaque non-page files, each addressed by a stable path-derived identity.

use vstd::multiset::Multiset;
use vstd::prelude::*;

use crate::obsidian::file::Contents;
use crate::obsidian::file::File;
use crate::obsidian::page::Page;
use crate::obsidian::reference::Reference;
use crate::text;

verus! {

/// A stable, content-independent identity for a vault item: its path
/// relative to the vault root.
#[derive(Debug)]
pub struct VaultItemId {
    pub path: Vec<u8>,
}

impl Clone for VaultItemId {
    fn clone(&self) -> (res: Self)
        ensures
            res@ == self@,
    {
        VaultItemId { path: self.path.clone() }
    }
}

impl View for VaultItemId {
    type V = Seq<u8>;

    open spec fn view(&self) -> Seq<u8> {
        self.path@
    }
}

impl VaultItemId {
    pub fn from_path_from_vault_root(path_from_vault_root: Vec<u8>) -> (r: VaultItemId)
        ensures
            r@ == path_from_vault_root@,
    {
        VaultItemId { path: path_from_vault_root }
    }

    pub fn from_file(file: &File) -> (r: VaultItemId)
        ensures
            r@ == file.path_from_vault_root@,
    {
        VaultItemId {
            path: text::subrange_vec(
                file.path_from_vault_root.as_slice(),
                0,
                file.path_from_vault_root.len(),
            ),
        }
    }

    pub fn path_from_vault_root(&self) -> (r: &Vec<u8>)
        ensures
            r@ == self@,
    {
        &self.path
    }
}

impl PartialEq for VaultItemId {
    fn eq(&self, other: &VaultItemId) -> (r: bool) {
        text::bytes_eq(self.path.as_slice(), other.path.as_slice())
    }
}

impl vstd::std_specs::cmp::PartialEqSpecImpl for VaultItemId {
    open spec fn obeys_eq_spec() -> bool {
        true
    }

    open spec fn eq_spec(&self, other: &VaultItemId) -> bool {
        self@ == other@
    }
}

impl Eq for VaultItemId {

}

/// One loaded vault entry: a parsed page, or an opaque non-page file.
#[derive(Debug, Clone)]
pub enum VaultItem {
    Page(Page),
    NonPage { id: VaultItemId, file: File },
}

impl VaultItem {
    /// Classifies a file: markdown becomes a parsed page, anything else a
    /// non-page item. `files` is the whole vault, sorted oldest first, for
    /// reference resolution.
    pub fn from_file(file: &File, files: &Vec<File>) -> (r: VaultItem)
        ensures
            r@ == spec_item_from_file(file@, crate::obsidian::reference::views_of_files(files@)),
    {
        match &file.contents {
            Contents::Markdown { text: md_text } => {
                let page = Page::parse(files, file.clone(), md_text.clone());
                VaultItem::Page(page)
            },
            _ => VaultItem::NonPage { id: VaultItemId::from_file(file), file: file.clone() },
        }
    }

    /// The stable identity: the file's vault-relative path.
    pub fn id(&self) -> (r: &VaultItemId)
        ensures
            r@ == self.spec_id(),
    {
        match self {
            VaultItem::Page(page) => &page.id,
            VaultItem::NonPage { id, .. } => id,
        }
    }

    /// Identity of the item, in spec terms.
    pub open spec fn spec_id(&self) -> Seq<u8> {
        match self {
            VaultItem::Page(page) => page.id@,
            VaultItem::NonPage { id, .. } => id@,
        }
    }

    /// The underlying file.
    pub fn file(&self) -> (r: &File)
        ensures
            *r == self.spec_file(),
    {
        match self {
            VaultItem::Page(page) => &page.file,
            VaultItem::NonPage { file, .. } => file,
        }
    }

    pub open spec fn spec_file(&self) -> File {
        match self {
            VaultItem::Page(page) => page.file,
            VaultItem::NonPage { file, .. } => *file,
        }
    }

    /// The page inside, when this item is one.
    pub fn try_into_page(&self) -> (r: Option<&Page>)
        ensures
            match self {
                VaultItem::Page(page) => r == Some(page),
                VaultItem::NonPage { .. } => r is None,
            },
    {
        match self {
            VaultItem::Page(page) => Some(page),
            VaultItem::NonPage { .. } => None,
        }
    }

    /// The page inside, mutable, when this item is one.
    pub fn try_into_page_mut(&mut self) -> (r: Option<&mut Page>)
        ensures
            match *old(self) {
                VaultItem::Page(page) => {
                    &&& r is Some
                    &&& *(r->0) == page
                    &&& *final(self) == VaultItem::Page(*(final(r->0)))
                },
                VaultItem::NonPage { .. } => r is None && *final(self) == *old(self),
            },
    {
        match self {
            VaultItem::Page(page) => Some(page),
            VaultItem::NonPage { .. } => None,
        }
    }

    pub fn is_image(&self) -> (r: bool)
        ensures
            r == (self.spec_file().contents matches Contents::Image {  }),
    {
        self.file().is_image()
    }
}

/// The item a file turns into, in spec terms: `files` is the list it is
/// resolved against.
pub open spec fn spec_item_from_file(file: crate::obsidian::file::FileView, files: Seq<
    crate::obsidian::file::FileView,
>) -> VaultItemView {
    match file.contents {
        crate::obsidian::file::ContentsView::Markdown { text: md_text } => VaultItemView::Page(
            crate::obsidian::page::spec_page_parse(file, md_text, files),
        ),
        _ => VaultItemView::NonPage { id: file.path_from_vault_root, file },
    }
}

/// Spec-level shape of a vault item.
pub enum VaultItemView {
    Page(crate::obsidian::page::PageView),
    NonPage { id: Seq<u8>, file: crate::obsidian::file::FileView },
}

impl View for VaultItem {
    type V = VaultItemView;

    open spec fn view(&self) -> VaultItemView {
        match self {
            VaultItem::Page(page) => VaultItemView::Page(page@),
            VaultItem::NonPage { id, file } => VaultItemView::NonPage { id: id@, file: file@ },
        }
    }
}

/// Sorts files oldest first (stably), then classifies each into a vault
/// item against the sorted list, so that reference resolution ties break
/// toward older files.
pub fn parse_files(files: Vec<File>) -> (r: Vec<VaultItem>)
    ensures
        r@.len() == files@.len(),
        exists|sorted: Seq<File>|
            {
                &&& sorted_by_created_at(sorted)
                &&& sorted.to_multiset() == files@.to_multiset()
                &&& forall|t: u64| #[trigger] with_stamp(sorted, t) == with_stamp(files@, t)
                &&& r@.map_values(|it: VaultItem| it@) =~= sorted.map_values(
                    |f: File|
                        spec_item_from_file(
                            f@,
                            crate::obsidian::reference::views_of_files(sorted),
                        ),
                )
            },
{
    let sorted = sort_files_by_created_at(files);
    let mut r: Vec<VaultItem> = Vec::new();
    let mut i: usize = 0;
    while i < sorted.len()
        invariant
            0 <= i <= sorted@.len(),
            r@.map_values(|it: VaultItem| it@) =~= sorted@.take(i as int).map_values(
                |f: File|
                    spec_item_from_file(
                        f@,
                        crate::obsidian::reference::views_of_files(sorted@),
                    ),
            ),
        decreases sorted@.len() - i,
    {
        let item = VaultItem::from_file(&sorted[i], &sorted);
        let ghost rprev = r@;
        let ghost itemv = item@;
        r.push(item);
        proof {
            let f = |ff: File|
                spec_item_from_file(ff@, crate::obsidian::reference::views_of_files(sorted@));
            let view_of = |it: VaultItem| it@;
            rprev.lemma_push_map_commute(view_of, item);
            assert(r@.map_values(view_of) =~= rprev.map_values(view_of).push(itemv));
            sorted@.lemma_map_take_succ(f, i as int);
            assert(sorted@.take(i + 1).map_values(f) =~= sorted@.take(i as int).map_values(
                f,
            ).push(f(sorted@[i as int])));
            assert(itemv == f(sorted@[i as int]));
            assert(rprev.map_values(view_of) =~= sorted@.take(i as int).map_values(f));
            assert(r@.map_values(view_of) =~= sorted@.take(i + 1).map_values(f));
        }
        i = i + 1;
    }
    proof {
        assert(sorted@.take(sorted@.len() as int) =~= sorted@);
    }
    r
}

/// The files carrying one creation stamp, in their original order.
pub open spec fn with_stamp(files: Seq<File>, t: u64) -> Seq<File> {
    files.filter(|f: File| f.created_at == t)
}

/// A sequence without the stamp has no part of it.
proof fn lemma_with_stamp_none(s: Seq<File>, t: u64)
    requires
        forall|j: int| 0 <= j < s.len() ==> (#[trigger] s[j]).created_at != t,
    ensures
        with_stamp(s, t) =~= Seq::<File>::empty(),
    decreases s.len(),
{
    reveal_with_fuel(Seq::filter, 2);
    if s.len() > 0 {
        assert(s.drop_last().push(s.last()) =~= s);
        lemma_with_stamp_none(s.drop_last(), t);
    }
}

/// Removing the first file of the minimal stamp takes exactly the head
/// of that stamp's subsequence and leaves every other stamp's
/// subsequence whole.
proof fn lemma_with_stamp_remove_first_min(s: Seq<File>, min_i: int)
    requires
        0 <= min_i < s.len(),
        forall|j: int| 0 <= j < min_i ==> (#[trigger] s[j]).created_at > s[min_i].created_at,
    ensures
        with_stamp(s, s[min_i].created_at) =~= seq![s[min_i]] + with_stamp(
            s.remove(min_i),
            s[min_i].created_at,
        ),
        forall|t: u64|
            t != s[min_i].created_at ==> #[trigger] with_stamp(s.remove(min_i), t) == with_stamp(
                s,
                t,
            ),
{
    let chosen = s[min_i];
    let before = s.take(min_i);
    let after = s.skip(min_i + 1);
    assert(s =~= before + (seq![chosen] + after));
    assert(s.remove(min_i) =~= before + after);
    assert forall|t: u64| true implies #[trigger] with_stamp(s, t) == with_stamp(before, t) + (
    with_stamp(seq![chosen], t) + with_stamp(after, t)) by {
        let pred = |f: File| f.created_at == t;
        Seq::<File>::filter_distributes_over_add(before, seq![chosen] + after, pred);
        Seq::<File>::filter_distributes_over_add(seq![chosen], after, pred);
    }
    assert forall|t: u64| true implies #[trigger] with_stamp(s.remove(min_i), t) == with_stamp(
        before,
        t,
    ) + with_stamp(after, t) by {
        let pred = |f: File| f.created_at == t;
        Seq::<File>::filter_distributes_over_add(before, after, pred);
    }
    assert forall|t: u64| true implies #[trigger] with_stamp(seq![chosen], t) == (if chosen
        .created_at == t {
        seq![chosen]
    } else {
        Seq::<File>::empty()
    }) by {
        reveal_with_fuel(Seq::filter, 2);
        assert(seq![chosen].drop_last() =~= Seq::<File>::empty());
    }
    lemma_with_stamp_none(before, chosen.created_at);
    assert(with_stamp(s, chosen.created_at) =~= seq![chosen] + with_stamp(
        s.remove(min_i),
        chosen.created_at,
    ));
}

/// Whether `files` is ordered oldest first.
pub open spec fn sorted_by_created_at(files: Seq<File>) -> bool {
    forall|i: int, j: int|
        0 <= i < j < files.len() ==> #[trigger] files[i].created_at <= #[trigger] files[j].created_at
}

/// Stable selection sort by creation time, oldest first: each round
/// moves the first file with the smallest remaining stamp. Stability is
/// part of the contract: every stamp's files keep their original order.
fn sort_files_by_created_at(files: Vec<File>) -> (r: Vec<File>)
    ensures
        sorted_by_created_at(r@),
        r@.to_multiset() == files@.to_multiset(),
        r@.len() == files@.len(),
        forall|t: u64| #[trigger] with_stamp(r@, t) == with_stamp(files@, t),
{
    broadcast use vstd::seq_lib::group_to_multiset_ensures;

    let mut r: Vec<File> = Vec::new();
    let mut rest = files;
    let ghost files0 = rest@;
    proof {
        assert(r@.to_multiset() =~= Multiset::<File>::empty());
        assert(r@.to_multiset().add(rest@.to_multiset()) =~= files0.to_multiset());
        assert forall|t: u64| true implies #[trigger] with_stamp(r@, t) + with_stamp(rest@, t)
            == with_stamp(files0, t) by {
            reveal_with_fuel(Seq::filter, 2);
            assert(with_stamp(r@, t) =~= Seq::<File>::empty());
            assert(with_stamp(r@, t) + with_stamp(rest@, t) =~= with_stamp(files0, t));
        }
    }
    while rest.len() > 0
        invariant
            sorted_by_created_at(r@),
            r@.to_multiset().add(rest@.to_multiset()) == files0.to_multiset(),
            r@.len() + rest@.len() == files0.len(),
            forall|t: u64| #[trigger] with_stamp(r@, t) + with_stamp(rest@, t) == with_stamp(
                files0,
                t,
            ),
            forall|j: int, k: int|
                0 <= j < r@.len() && 0 <= k < rest@.len() ==> #[trigger] r@[j].created_at
                    <= #[trigger] rest@[k].created_at,
        decreases rest@.len(),
    {
        let mut min_i: usize = 0;
        let mut i: usize = 1;
        while i < rest.len()
            invariant
                0 <= min_i < i <= rest@.len(),
                rest@.len() > 0,
                forall|j: int|
                    0 <= j < i ==> rest@[min_i as int].created_at <= #[trigger] rest@[j].created_at,
                forall|j: int|
                    0 <= j < min_i ==> (#[trigger] rest@[j]).created_at > rest@[min_i
                        as int].created_at,
            decreases rest@.len() - i,
        {
            if rest[i].created_at < rest[min_i].created_at {
                min_i = i;
            }
            i = i + 1;
        }
        let ghost rest0 = rest@;
        let ghost r0 = r@;
        let chosen = rest.remove(min_i);
        r.push(chosen);
        proof {
            lemma_with_stamp_remove_first_min(rest0, min_i as int);
            assert forall|t: u64| true implies #[trigger] with_stamp(r@, t) + with_stamp(rest@, t)
                == with_stamp(files0, t) by {
                reveal_with_fuel(Seq::filter, 2);
                assert(r@.drop_last() =~= r0);
                if chosen.created_at == t {
                    assert(with_stamp(r@, t) =~= with_stamp(r0, t).push(chosen));
                    assert(with_stamp(r0, t).push(chosen) + with_stamp(rest@, t) =~= with_stamp(
                        r0,
                        t,
                    ) + (seq![chosen] + with_stamp(rest@, t)));
                    assert(seq![chosen] + with_stamp(rest@, t) =~= with_stamp(rest0, t));
                } else {
                    assert(with_stamp(r@, t) =~= with_stamp(r0, t));
                    assert(with_stamp(rest@, t) == with_stamp(rest0, t));
                }
            }
            rest0.to_multiset_ensures();
            r0.to_multiset_ensures();
            assert(rest0.remove(min_i as int).to_multiset() =~= rest0.to_multiset().remove(
                rest0[min_i as int],
            ));
            assert(rest@.to_multiset() =~= rest0.to_multiset().remove(chosen)) by {
                assert(rest@ == rest0.remove(min_i as int));
            }
            assert(r0.push(chosen).to_multiset() =~= r0.to_multiset().insert(chosen));
            assert(r@.to_multiset() =~= r0.to_multiset().insert(chosen)) by {
                assert(r@ == r0.push(chosen));
            }
            assert(rest0.to_multiset().count(chosen) > 0) by {
                assert(rest0.contains(chosen));
            }
            assert(r@.to_multiset().add(rest@.to_multiset()) =~= files0.to_multiset());
            assert forall|j: int, k: int|
                0 <= j < r@.len() && 0 <= k < rest@.len() implies #[trigger] r@[j].created_at
                <= #[trigger] rest@[k].created_at by {
                if j < r0.len() {
                    if k < min_i {
                        assert(rest@[k] == rest0[k]);
                    } else {
                        assert(rest@[k] == rest0[k + 1]);
                    }
                } else {
                    assert(r@[j] == chosen);
                    if k < min_i {
                        assert(rest@[k] == rest0[k]);
                        assert(chosen.created_at <= rest0[k].created_at);
                    } else {
                        assert(rest@[k] == rest0[k + 1]);
                        assert(chosen.created_at <= rest0[k + 1].created_at);
                    }
                }
            }
            assert forall|a: int, b: int| 0 <= a < b < r@.len() implies #[trigger] r@[a].created_at
                <= #[trigger] r@[b].created_at by {
                if b < r0.len() {
                    assert(r@[a] == r0[a] && r@[b] == r0[b]);
                } else {
                    assert(r@[b] == chosen);
                    assert(r@[a] == r0[a]);
                    assert(r0[a].created_at <= rest0[min_i as int].created_at);
                }
            }
        }
    }
    proof {
        assert(rest@.to_multiset() =~= Multiset::<File>::empty()) by {
            assert(rest@.len() == rest@.to_multiset().len());
        }
        assert(r@.to_multiset() =~= files0.to_multiset());
        assert forall|t: u64| true implies #[trigger] with_stamp(r@, t) == with_stamp(files0, t)
            by {
            lemma_with_stamp_none(rest@, t);
            assert(with_stamp(r@, t) + with_stamp(rest@, t) =~= with_stamp(r@, t));
        }
    }
    r
}

} // verus!
