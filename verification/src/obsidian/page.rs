//! A markdown page of the vault: its raw text plus the references and
//! tags parsed from it, with the rewrite protocol that keeps every
//! recorded range correct while the text is edited in place.

use vstd::prelude::*;

use crate::obsidian::file::File;
use crate::obsidian::file::FileView;
use crate::obsidian::reference::Reference;
use crate::obsidian::reference::ReferenceView;
use crate::obsidian::reference::spec_references;
use crate::obsidian::tag::Tag;
use crate::obsidian::tag::spec_tags;
use crate::obsidian::vault_item::VaultItemId;
use crate::text;

verus! {

/// A parsed page.
#[derive(Debug, Clone)]
pub struct Page {
    pub id: VaultItemId,
    pub file: File,
    pub contents: Vec<u8>,
    pub references: Vec<Reference>,
    pub tags: Vec<Vec<u8>>,
}

/// Spec-level shape of a page.
pub struct PageView {
    pub id: Seq<u8>,
    pub file: FileView,
    pub contents: Seq<u8>,
    pub references: Seq<ReferenceView>,
    pub tags: Seq<Seq<u8>>,
}

impl View for Page {
    type V = PageView;

    open spec fn view(&self) -> PageView {
        PageView {
            id: self.id@,
            file: self.file@,
            contents: self.contents@,
            references: self.references@.map_values(|r: Reference| r@),
            tags: self.tags@.map_values(|t: Vec<u8>| t@),
        }
    }
}

/// What parsing a page's text gives.
pub open spec fn spec_page_parse(file: FileView, contents: Seq<u8>, files: Seq<FileView>)
    -> PageView {
    PageView {
        id: file.path_from_vault_root,
        file,
        contents,
        references: spec_references(contents, files),
        tags: spec_tags(contents),
    }
}

/// References recorded against a buffer: in order, non-overlapping, each
/// range inside the buffer and carrying exactly the spanned text.
pub open spec fn refs_wf(refs: Seq<ReferenceView>, buf: Seq<u8>) -> bool {
    &&& forall|i: int|
        0 <= i < refs.len() ==> 0 <= #[trigger] refs[i].range_start <= refs[i].range_end
            <= buf.len()
    &&& forall|i: int|
        0 <= i < refs.len() ==> #[trigger] refs[i].text == buf.subrange(
            refs[i].range_start,
            refs[i].range_end,
        )
    &&& forall|i: int, j: int|
        0 <= i < j < refs.len() ==> #[trigger] refs[i].range_end <= #[trigger] refs[j].range_start
}

/// Sum of the replacement texts' lengths.
pub open spec fn sum_lens(texts: Seq<Seq<u8>>) -> int
    decreases texts.len(),
{
    if texts.len() == 0 {
        0
    } else {
        sum_lens(texts.drop_last()) + texts.last().len()
    }
}

proof fn lemma_sum_lens_take(texts: Seq<Seq<u8>>, i: int)
    requires
        0 <= i < texts.len(),
    ensures
        sum_lens(texts.take(i + 1)) == sum_lens(texts.take(i)) + texts[i].len(),
        sum_lens(texts.take(i)) >= 0,
    decreases i,
{
    assert(texts.take(i + 1).drop_last() =~= texts.take(i));
    if i > 0 {
        lemma_sum_lens_take(texts, i - 1);
        assert(texts.take(i).drop_last() =~= texts.take(i - 1));
    } else {
        assert(texts.take(0) =~= Seq::<Seq<u8>>::empty());
    }
}

proof fn lemma_sum_lens_prefix(texts: Seq<Seq<u8>>, i: int)
    requires
        0 <= i <= texts.len(),
    ensures
        sum_lens(texts.take(i)) <= sum_lens(texts),
        sum_lens(texts.take(i)) >= 0,
    decreases texts.len() - i,
{
    if i == texts.len() {
        assert(texts.take(i) =~= texts);
        if i > 0 {
            lemma_sum_lens_take(texts, i - 1);
        }
    } else {
        lemma_sum_lens_take(texts, i);
        lemma_sum_lens_prefix(texts, i + 1);
    }
}

/// The buffer after every reference's range is replaced by its new text,
/// working left to right on the original coordinates: the part of the
/// result from original position `pos` on, with references `i..` left.
pub open spec fn replace_all_from(
    buf: Seq<u8>,
    refs: Seq<ReferenceView>,
    texts: Seq<Seq<u8>>,
    i: int,
    pos: int,
) -> Seq<u8>
    decreases refs.len() - i when 0 <= i <= refs.len()
{
    if i >= refs.len() {
        buf.skip(pos)
    } else {
        buf.subrange(pos, refs[i].range_start) + texts[i] + replace_all_from(
            buf,
            refs,
            texts,
            i + 1,
            refs[i].range_end,
        )
    }
}

/// Shift accumulated by the first `i` replacements.
pub open spec fn shift_sum(refs: Seq<ReferenceView>, texts: Seq<Seq<u8>>, i: int) -> int
    decreases i when 0 <= i
{
    if i <= 0 {
        0
    } else {
        shift_sum(refs, texts, i - 1) + texts[i - 1].len() - (refs[i - 1].range_end - refs[i
            - 1].range_start)
    }
}

/// Index of the first reference whose range is exactly `s..e`, or the
/// length.
pub open spec fn range_match_index(refs: Seq<ReferenceView>, s: int, e: int) -> int
    decreases refs.len(),
{
    if refs.len() == 0 {
        0
    } else if refs[0].range_start == s && refs[0].range_end == e {
        0
    } else {
        1 + range_match_index(refs.skip(1), s, e)
    }
}

pub proof fn lemma_range_match_index(refs: Seq<ReferenceView>, s: int, e: int)
    ensures
        0 <= range_match_index(refs, s, e) <= refs.len(),
        range_match_index(refs, s, e) < refs.len() ==> refs[range_match_index(
            refs,
            s,
            e,
        )].range_start == s && refs[range_match_index(refs, s, e)].range_end == e,
        forall|j: int|
            0 <= j < range_match_index(refs, s, e) ==> !((#[trigger] refs[j]).range_start == s
                && refs[j].range_end == e),
    decreases refs.len(),
{
    if refs.len() > 0 && !(refs[0].range_start == s && refs[0].range_end == e) {
        lemma_range_match_index(refs.skip(1), s, e);
        assert forall|j: int| 0 <= j < range_match_index(refs, s, e) implies !((#[trigger] refs[j])
            .range_start == s && refs[j].range_end == e) by {
            if j > 0 {
                assert(!(refs.skip(1)[j - 1].range_start == s && refs.skip(1)[j - 1].range_end
                    == e));
            }
        }
    }
}

/// A mutable borrow of one element, so the rewrite loop can edit a
/// reference and the shared buffer side by side.
fn ref_at_mut(v: &mut Vec<Reference>, i: usize) -> (element: &mut Reference)
    requires
        i < old(v)@.len(),
    ensures
        *element == old(v)@[i as int],
        final(v)@ == old(v)@.update(i as int, *final(element)),
{
    &mut v[i]
}

impl Page {
    /// Parses a page: scans the contents once for references (resolved
    /// against `files`, sorted oldest first) and for tags.
    pub fn parse(files: &Vec<File>, file: File, contents: Vec<u8>) -> (r: Page)
        ensures
            r@ == spec_page_parse(
                file@,
                contents@,
                crate::obsidian::reference::views_of_files(files@),
            ),
            refs_wf(r@.references, r@.contents),
    {
        let parsed = parse_page_contents(contents.as_slice(), files);
        proof {
            crate::obsidian::reference::lemma_scan_spec_wf(contents@, 0);
            let refs = spec_references(contents@, crate::obsidian::reference::views_of_files(files@));
            let scan = crate::obsidian::reference::scan_spec(contents@, 0);
            assert forall|i: int| 0 <= i < refs.len() implies 0 <= #[trigger] refs[i].range_start
                <= refs[i].range_end <= contents@.len() && refs[i].text == contents@.subrange(
                refs[i].range_start,
                refs[i].range_end,
            ) by {
                assert(refs[i] == crate::obsidian::reference::spec_reference(
                    contents@.subrange(scan[i].0, scan[i].1),
                    scan[i].0,
                    scan[i].1,
                    crate::obsidian::reference::views_of_files(files@),
                ));
            }
            assert forall|i: int, j: int| 0 <= i < j < refs.len() implies #[trigger] refs[i].range_end
                <= #[trigger] refs[j].range_start by {
                assert(scan[i].1 <= scan[j].0);
            }
        }
        Page {
            id: VaultItemId::from_file(&file),
            file,
            contents,
            references: parsed.references,
            tags: parsed.tags,
        }
    }

    /// Replaces the text of every reference, in order, with the matching
    /// entry of `new_texts`, maintaining the running range shift so that
    /// after the call every reference's range is exact again.
    pub fn find_and_replace_text_for_references(&mut self, new_texts: &Vec<Vec<u8>>)
        requires
            new_texts@.len() == old(self)@.references.len(),
            refs_wf(old(self)@.references, old(self)@.contents),
            old(self)@.contents.len() < 0x2000_0000_0000_0000,
            sum_lens(new_texts@.map_values(|t: Vec<u8>| t@)) < 0x2000_0000_0000_0000,
        ensures
            final(self)@.contents =~= replace_all_from(
                old(self)@.contents,
                old(self)@.references,
                new_texts@.map_values(|t: Vec<u8>| t@),
                0,
                0,
            ),
            final(self)@.references.len() == old(self)@.references.len(),
            forall|i: int|
                0 <= i < old(self)@.references.len() ==> {
                    let prev = old(self).references@[i]@;
                    let cur = (#[trigger] final(self).references@[i])@;
                    &&& cur.range_start == prev.range_start + shift_sum(
                        old(self)@.references,
                        new_texts@.map_values(|t: Vec<u8>| t@),
                        i,
                    )
                    &&& cur.range_end == cur.range_start + new_texts@[i]@.len()
                    &&& cur.text == new_texts@[i]@
                    &&& cur.is_embed == prev.is_embed
                    &&& cur.link_text == prev.link_text
                    &&& cur.vault_item_id == prev.vault_item_id
                },
            final(self)@.contents.len() == old(self)@.contents.len() + shift_sum(
                old(self)@.references,
                new_texts@.map_values(|t: Vec<u8>| t@),
                old(self)@.references.len() as int,
            ),
            final(self)@.id == old(self)@.id,
            final(self)@.file == old(self)@.file,
            final(self)@.tags == old(self)@.tags,
    {
        let ghost buf0 = self.contents@;
        let ghost refs0 = self.references@.map_values(|r: Reference| r@);
        let ghost texts = new_texts@.map_values(|t: Vec<u8>| t@);
        let mut cumulative_range_shift: i64 = 0;
        let mut k: usize = 0;
        let ghost mut prev_end: int = 0;
        proof {
            assert(buf0.skip(0) =~= buf0);
        }
        while k < self.references.len()
            invariant
                0 <= k <= self.references@.len(),
                self.id == old(self).id,
                self.file == old(self).file,
                self.tags == old(self).tags,
                self.references@.len() == refs0.len(),
                new_texts@.len() == refs0.len(),
                texts == new_texts@.map_values(|t: Vec<u8>| t@),
                refs_wf(refs0, buf0),
                buf0.len() < 0x2000_0000_0000_0000,
                sum_lens(texts) < 0x2000_0000_0000_0000,
                0 <= prev_end <= buf0.len(),
                k < refs0.len() ==> prev_end <= refs0[k as int].range_start,
                k == 0 ==> prev_end == 0,
                k > 0 ==> prev_end == refs0[k - 1].range_end,
                cumulative_range_shift == shift_sum(refs0, texts, k as int),
                0 <= prev_end + cumulative_range_shift,
                prev_end + cumulative_range_shift + (buf0.len() - prev_end) == self.contents@.len(),
                cumulative_range_shift <= sum_lens(texts.take(k as int)),
                sum_lens(texts.take(k as int)) >= 0,
                self.contents@.subrange(
                    prev_end + cumulative_range_shift,
                    self.contents@.len() as int,
                ) =~= buf0.skip(prev_end),
                replace_all_from(buf0, refs0, texts, 0, 0) =~= self.contents@.subrange(
                    0,
                    prev_end + cumulative_range_shift,
                ) + replace_all_from(buf0, refs0, texts, k as int, prev_end),
                forall|i: int|
                    k <= i < refs0.len() ==> (#[trigger] self.references@[i])@ == refs0[i],
                forall|i: int|
                    0 <= i < k ==> {
                        let prev = refs0[i];
                        let cur = (#[trigger] self.references@[i])@;
                        &&& cur.range_start == prev.range_start + shift_sum(refs0, texts, i)
                        &&& cur.range_end == cur.range_start + texts[i].len()
                        &&& cur.text == texts[i]
                        &&& cur.is_embed == prev.is_embed
                        &&& cur.link_text == prev.link_text
                        &&& cur.vault_item_id == prev.vault_item_id
                    },
            decreases refs0.len() - k,
        {
            proof {
                lemma_sum_lens_take(texts, k as int);
                lemma_sum_lens_prefix(texts, k as int);
                lemma_sum_lens_prefix(texts, k + 1);
            }
            let new_text: &Vec<u8> = &new_texts[k];
            let current_len: usize = self.contents.len();
            proof {
                let start0 = refs0[k as int].range_start;
                let end0 = refs0[k as int].range_end;
                let cs = cumulative_range_shift as int;
                assert(current_len == prev_end + cs + (buf0.len() - prev_end));
                assert(end0 + cs <= current_len);
                assert(texts[k as int].len() <= sum_lens(texts));
            }
            let ghost contents_before = self.contents@;
            let rf = ref_at_mut(&mut self.references, k);
            proof {
                assert(rf@ == refs0[k as int]);
                assert(refs0[k as int].text.len() == refs0[k as int].range_end - refs0[k
                    as int].range_start);
            }
            rf.shift_range(cumulative_range_shift);
            let delta = rf.update_text(new_text.as_slice(), &mut self.contents);
            proof {
                assert(delta == texts[k as int].len() - (refs0[k as int].range_end - refs0[k
                    as int].range_start));
                assert(cumulative_range_shift + delta <= sum_lens(texts.take(k + 1)));
                assert(refs0[k as int].range_end + cumulative_range_shift + delta == refs0[k
                    as int].range_start + cumulative_range_shift + texts[k as int].len());
                assert(refs0[k as int].range_end + cumulative_range_shift + delta >= 0);
            }
            proof {
                let start0 = refs0[k as int].range_start;
                let end0 = refs0[k as int].range_end;
                let cs = cumulative_range_shift as int;
                assert(contents_before.subrange(0, start0 + cs) =~= contents_before.subrange(
                    0,
                    prev_end + cs,
                ) + buf0.subrange(prev_end, start0)) by {
                    assert(contents_before.subrange(prev_end + cs, contents_before.len() as int)
                        =~= buf0.skip(prev_end));
                    assert(buf0.subrange(prev_end, start0) =~= buf0.skip(prev_end).subrange(
                        0,
                        start0 - prev_end,
                    ));
                    assert(contents_before.subrange(prev_end + cs, start0 + cs)
                        =~= contents_before.subrange(
                        prev_end + cs,
                        contents_before.len() as int,
                    ).subrange(0, start0 - prev_end));
                };
                assert(contents_before.skip(end0 + cs) =~= buf0.skip(end0)) by {
                    assert(contents_before.subrange(prev_end + cs, contents_before.len() as int)
                        =~= buf0.skip(prev_end));
                    assert(contents_before.skip(end0 + cs) =~= contents_before.subrange(
                        prev_end + cs,
                        contents_before.len() as int,
                    ).skip(end0 - prev_end));
                    assert(buf0.skip(end0) =~= buf0.skip(prev_end).skip(end0 - prev_end));
                };
            }
            cumulative_range_shift = cumulative_range_shift + delta;
            proof {
                let start0 = refs0[k as int].range_start;
                let end0 = refs0[k as int].range_end;
                let done = start0 + shift_sum(refs0, texts, k as int) + texts[k as int].len();
                assert(self.contents@.subrange(0, done) =~= contents_before.subrange(
                    0,
                    start0 + shift_sum(refs0, texts, k as int),
                ) + texts[k as int]);
                assert(self.contents@.subrange(done, self.contents@.len() as int) =~= buf0.skip(
                    end0,
                ));
                assert(replace_all_from(buf0, refs0, texts, k as int, prev_end) =~= buf0.subrange(
                    prev_end,
                    start0,
                ) + texts[k as int] + replace_all_from(buf0, refs0, texts, k + 1, end0));
                assert(replace_all_from(buf0, refs0, texts, 0, 0) =~= self.contents@.subrange(
                    0,
                    done,
                ) + replace_all_from(buf0, refs0, texts, k + 1, end0)) by {
                    assert(self.contents@.subrange(0, done) =~= contents_before.subrange(
                        0,
                        prev_end + shift_sum(refs0, texts, k as int),
                    ) + buf0.subrange(prev_end, start0) + texts[k as int]);
                };
                prev_end = end0;
            }
            k = k + 1;
        }
        proof {
            assert(replace_all_from(buf0, refs0, texts, refs0.len() as int, prev_end) =~= buf0.skip(
                prev_end,
            ));
            assert(self.contents@ =~= self.contents@.subrange(
                0,
                prev_end + cumulative_range_shift,
            ) + self.contents@.subrange(
                prev_end + cumulative_range_shift,
                self.contents@.len() as int,
            ));
            assert(replace_all_from(buf0, refs0, texts, 0, 0) =~= self.contents@);
        }
    }

    /// Rewrites the one reference whose recorded range equals the target
    /// reference's range, keeping every other reference's range correct:
    /// references before it are untouched, references after it are
    /// shifted by the length delta. The protocol walks all references in
    /// order carrying the running shift, exactly as a full rewrite does.
    ///
    /// The references must be exact for the buffer and nonempty, and the
    /// replacement may not shift a later reference's range exactly onto
    /// the target range, which only a pathological replacement could.
    pub fn replace_reference_text(
        reference_to_update: &mut Reference,
        new_text: Vec<u8>,
        references: &mut Vec<Reference>,
        contents: &mut Vec<u8>,
    )
        requires
            refs_wf(
                old(references)@.map_values(|r: Reference| r@),
                old(contents)@,
            ),
            forall|i: int|
                0 <= i < old(references)@.len() ==> (#[trigger] old(references)@[i]@).range_start
                    < old(references)@[i]@.range_end,
            old(reference_to_update).range_start <= old(reference_to_update).range_end,
            old(contents)@.len() < 0x2000_0000_0000_0000,
            new_text@.len() < 0x2000_0000_0000_0000,
            forall|i: int|
                0 <= i < old(references)@.len() ==> !((#[trigger] old(references)@[i]@).range_start
                    + new_text@.len() - (old(reference_to_update).range_end - old(
                    reference_to_update,
                ).range_start) == old(reference_to_update).range_start && old(
                    references,
                )@[i]@.range_end + new_text@.len() - (old(reference_to_update).range_end - old(
                    reference_to_update,
                ).range_start) == old(reference_to_update).range_end) || new_text@.len() == (old(
                    reference_to_update,
                ).range_end - old(reference_to_update).range_start),
        ensures
            *final(reference_to_update) == *old(reference_to_update),
            final(references)@.len() == old(references)@.len(),
            ({
                let tgt_s = old(reference_to_update).range_start as int;
                let tgt_e = old(reference_to_update).range_end as int;
                let refs0 = old(references)@.map_values(|r: Reference| r@);
                let hit = range_match_index(refs0, tgt_s, tgt_e);
                if hit < refs0.len() {
                    let delta = new_text@.len() - (tgt_e - tgt_s);
                    &&& final(contents)@ =~= old(contents)@.subrange(0, tgt_s) + new_text@ + old(
                        contents,
                    )@.skip(tgt_e)
                    &&& forall|i: int|
                        0 <= i < hit ==> (#[trigger] final(references)@[i])@ == refs0[i]
                    &&& {
                        let cur = final(references)@[hit]@;
                        &&& cur.range_start == tgt_s
                        &&& cur.range_end == tgt_s + new_text@.len()
                        &&& cur.text == new_text@
                        &&& cur.is_embed == refs0[hit].is_embed
                        &&& cur.link_text == refs0[hit].link_text
                        &&& cur.vault_item_id == refs0[hit].vault_item_id
                    }
                    &&& forall|i: int|
                        hit < i < refs0.len() ==> {
                            let cur = (#[trigger] final(references)@[i])@;
                            &&& cur.range_start == refs0[i].range_start + delta
                            &&& cur.range_end == refs0[i].range_end + delta
                            &&& cur.text == refs0[i].text
                            &&& cur.is_embed == refs0[i].is_embed
                            &&& cur.link_text == refs0[i].link_text
                            &&& cur.vault_item_id == refs0[i].vault_item_id
                        }
                } else {
                    &&& final(contents)@ == old(contents)@
                    &&& final(references)@ == old(references)@
                }
            }),
    {
        let ghost refs0 = references@.map_values(|r: Reference| r@);
        let ghost buf0 = contents@;
        let tgt_start: usize = reference_to_update.range_start;
        let tgt_end: usize = reference_to_update.range_end;
        proof {
            lemma_range_match_index(refs0, tgt_start as int, tgt_end as int);
        }
        let ghost hit = range_match_index(refs0, tgt_start as int, tgt_end as int);
        let mut cumulative_range_shift: i64 = 0;
        let mut k: usize = 0;
        while k < references.len()
            invariant
                0 <= k <= references@.len(),
                references@.len() == refs0.len(),
                refs_wf(refs0, buf0),
                forall|i: int|
                    0 <= i < refs0.len() ==> (#[trigger] refs0[i]).range_start
                        < refs0[i].range_end,
                buf0.len() < 0x2000_0000_0000_0000,
                new_text@.len() < 0x2000_0000_0000_0000,
                hit == range_match_index(refs0, tgt_start as int, tgt_end as int),
                0 <= hit <= refs0.len(),
                hit < refs0.len() ==> refs0[hit].range_start == tgt_start
                    && refs0[hit].range_end == tgt_end,
                forall|j: int|
                    0 <= j < hit ==> !((#[trigger] refs0[j]).range_start == tgt_start
                        && refs0[j].range_end == tgt_end),
                *reference_to_update == *old(reference_to_update),
                tgt_start == old(reference_to_update).range_start,
                tgt_end == old(reference_to_update).range_end,
                tgt_start <= tgt_end,
                forall|i: int|
                    0 <= i < old(references)@.len() ==> !((#[trigger] old(
                        references,
                    )@[i]@).range_start + new_text@.len() - (tgt_end - tgt_start) == tgt_start
                        && old(references)@[i]@.range_end + new_text@.len() - (tgt_end - tgt_start)
                        == tgt_end) || new_text@.len() == (tgt_end - tgt_start),
                refs0 == old(references)@.map_values(|r: Reference| r@),
                k <= hit ==> {
                    &&& cumulative_range_shift == 0
                    &&& contents@ == buf0
                    &&& references@ == old(references)@
                },
                hit < refs0.len() && k > hit ==> {
                    let delta = new_text@.len() - (tgt_end - tgt_start);
                    &&& cumulative_range_shift == delta
                    &&& contents@ =~= buf0.subrange(0, tgt_start as int) + new_text@ + buf0.skip(
                        tgt_end as int,
                    )
                    &&& contents@.len() == buf0.len() + delta
                    &&& forall|i: int|
                        0 <= i < hit ==> (#[trigger] references@[i])@ == refs0[i]
                    &&& {
                        let cur = references@[hit]@;
                        &&& cur.range_start == tgt_start
                        &&& cur.range_end == tgt_start + new_text@.len()
                        &&& cur.text == new_text@
                        &&& cur.is_embed == refs0[hit].is_embed
                        &&& cur.link_text == refs0[hit].link_text
                        &&& cur.vault_item_id == refs0[hit].vault_item_id
                    }
                    &&& forall|i: int|
                        hit < i < k ==> {
                            let cur = (#[trigger] references@[i])@;
                            &&& cur.range_start == refs0[i].range_start + delta
                            &&& cur.range_end == refs0[i].range_end + delta
                            &&& cur.text == refs0[i].text
                            &&& cur.is_embed == refs0[i].is_embed
                            &&& cur.link_text == refs0[i].link_text
                            &&& cur.vault_item_id == refs0[i].vault_item_id
                        }
                    &&& forall|i: int|
                        k <= i < refs0.len() ==> (#[trigger] references@[i])@ == refs0[i]
                },
            decreases refs0.len() - k,
        {
            let current_len: usize = contents.len();
            let ghost refs_before = references@;
            proof {
                if k > hit && hit < refs0.len() {
                    assert(refs0[hit].range_end <= refs0[k as int].range_start);
                    assert(refs0[k as int].range_end + cumulative_range_shift <= current_len);
                } else {
                    assert(cumulative_range_shift == 0);
                    assert(refs0[k as int].range_end <= buf0.len());
                }
                assert((references@[k as int])@ == refs0[k as int] || references@
                    == old(references)@);
                assert((references@[k as int])@.range_start < (references@[k as int])@.range_end);
            }
            let rf = ref_at_mut(references, k);
            rf.shift_range(cumulative_range_shift);
            let matches_target = rf.range_start == tgt_start && rf.range_end == tgt_end;
            if matches_target {
                proof {
                    if k > hit {
                        // A later reference shifted exactly onto the target:
                        // the precondition rules this out unless the lengths
                        // are unchanged, and then ranges are disjoint.
                        let delta = new_text@.len() - (tgt_end - tgt_start);
                        assert(refs0[k as int].range_start + delta == tgt_start
                            && refs0[k as int].range_end + delta == tgt_end);
                        if new_text@.len() == (tgt_end - tgt_start) {
                            assert(refs0[k as int].range_start == tgt_start);
                            assert(hit < k);
                            assert(refs0[hit].range_end <= refs0[k as int].range_start);
                            assert(false);
                        } else {
                            assert(false);
                        }
                    }
                    assert(k == hit);
                    assert(refs0[k as int].text.len() == refs0[k as int].range_end - refs0[k
                        as int].range_start);
                }
                let delta = rf.update_text(new_text.as_slice(), contents);
                cumulative_range_shift = cumulative_range_shift + delta;
            } else {
                proof {
                    if k < hit || hit >= refs0.len() {
                        assert(references@ =~= refs_before);
                        assert(references@ == old(references)@);
                    }
                }
            }
            k = k + 1;
        }
    }

    /// The first reference whose link text equals `link_text`.
    pub fn find_reference_by_link_text(&self, link_text: &[u8]) -> (r: Option<&Reference>)
        ensures
            match r {
                Some(rf) => exists|i: int|
                    {
                        &&& 0 <= i < self@.references.len()
                        &&& #[trigger] self@.references[i].link_text == link_text@
                        &&& rf@ == self@.references[i]
                        &&& forall|j: int|
                            0 <= j < i ==> #[trigger] self@.references[j].link_text != link_text@
                    },
                None => forall|i: int|
                    0 <= i < self@.references.len() ==> #[trigger] self@.references[i].link_text
                        != link_text@,
            },
    {
        let mut i: usize = 0;
        while i < self.references.len()
            invariant
                0 <= i <= self@.references.len(),
                forall|j: int|
                    0 <= j < i ==> #[trigger] self@.references[j].link_text != link_text@,
            decreases self@.references.len() - i,
        {
            proof {
                assert(self@.references[i as int] == self.references@[i as int]@);
            }
            if text::bytes_eq(
                self.references[i].text_between_double_brackets.as_slice(),
                link_text,
            ) {
                proof {
                    let w = i as int;
                    assert(self@.references[w].link_text == link_text@);
                    assert(forall|j: int|
                        0 <= j < w ==> #[trigger] self@.references[j].link_text != link_text@);
                }
                return Some(&self.references[i]);
            }
            i = i + 1;
        }
        None
    }

    /// Whether any reference of this page resolved to `target_id`.
    pub fn has_a_reference_to(&self, target_id: &VaultItemId) -> (r: bool)
        ensures
            r == exists|i: int|
                0 <= i < self@.references.len() && #[trigger] self@.references[i].vault_item_id
                    == Some(target_id@),
    {
        let mut i: usize = 0;
        while i < self.references.len()
            invariant
                0 <= i <= self@.references.len(),
                forall|j: int|
                    0 <= j < i ==> #[trigger] self@.references[j].vault_item_id != Some(
                        target_id@,
                    ),
            decreases self@.references.len() - i,
        {
            proof {
                assert(self@.references[i as int] == self.references@[i as int]@);
            }
            if self.references[i].refers_to(target_id) {
                return true;
            }
            i = i + 1;
        }
        false
    }
}

/// What one scan of a page's text yields.
pub struct ParsedPageContents {
    pub references: Vec<Reference>,
    pub tags: Vec<Vec<u8>>,
}

/// Scans page text once for references and tags.
pub fn parse_page_contents(page_contents: &[u8], files: &Vec<File>) -> (r: ParsedPageContents)
    ensures
        r.references@.map_values(|rf: Reference| rf@) =~= spec_references(
            page_contents@,
            crate::obsidian::reference::views_of_files(files@),
        ),
        r.tags@.map_values(|t: Vec<u8>| t@) =~= spec_tags(page_contents@),
{
    let references = Reference::parse_references(page_contents, files);
    let tags = Tag::parse_tags(page_contents);
    ParsedPageContents { references, tags }
}

} // verus!
