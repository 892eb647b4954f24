//! Wikilink references: scanning note text for `[[...]]` / `![[...]]`
//! occurrences, resolving their link text to a file, and rewriting them in
//! place while the recorded byte ranges stay correct.

use vstd::prelude::*;

use crate::date;
use crate::date::Date;
use crate::obsidian::file::File;
use crate::obsidian::file::FileView;
use crate::obsidian::vault_item::VaultItemId;
use crate::text;

verus! {

/// How a wikilink may open at position `p`: `![[` (3 bytes), `[[`
/// (2 bytes), or not at all (0).
pub open spec fn open_len_spec(s: Seq<u8>, p: int) -> int {
    if p + 3 <= s.len() && s[p] == 33 && s[p + 1] == 91 && s[p + 2] == 91 {
        3
    } else if p + 2 <= s.len() && s[p] == 91 && s[p + 1] == 91 {
        2
    } else {
        0
    }
}

/// The closing `]]` pattern.
pub open spec fn close_pat() -> Seq<u8> {
    seq![93u8, 93u8]
}

/// Where a wikilink starting at `p` ends (one past its final `]]`), or
/// `-1` when no wikilink starts there. The inner text is the shortest
/// nonempty stretch up to a `]]`, and may not contain a newline: this is
/// the lazy pattern `!?\[\[.+?\]\]`.
pub open spec fn match_end_spec(s: Seq<u8>, p: int) -> int {
    let ol = open_len_spec(s, p);
    if ol == 0 {
        -1
    } else {
        let inner_start = p + ol;
        if inner_start + 1 > s.len() {
            -1
        } else {
            let q = inner_start + 1 + text::find_sub_spec(s.skip(inner_start + 1), close_pat());
            if q + 2 > s.len() {
                -1
            } else {
                let nl = inner_start + text::find_byte_spec(s.skip(inner_start), 10);
                if nl < q {
                    -1
                } else {
                    q + 2
                }
            }
        }
    }
}

pub proof fn lemma_match_end_bounds(s: Seq<u8>, p: int)
    requires
        0 <= p,
        match_end_spec(s, p) >= 0,
    ensures
        p + 5 <= match_end_spec(s, p) <= s.len(),
{
    let ol = open_len_spec(s, p);
    let inner_start = p + ol;
    text::lemma_find_sub_spec(s.skip(inner_start + 1), close_pat());
    let q = inner_start + 1 + text::find_sub_spec(s.skip(inner_start + 1), close_pat());
    assert(q >= inner_start + 1);
    assert(q + 2 <= s.len());
}

/// First position at or after `c` where a wikilink starts, or `s.len()`.
pub open spec fn next_match_spec(s: Seq<u8>, c: int) -> int
    decreases s.len() - c when 0 <= c <= s.len()
{
    if c >= s.len() {
        s.len() as int
    } else if match_end_spec(s, c) >= 0 {
        c
    } else {
        next_match_spec(s, c + 1)
    }
}

pub proof fn lemma_next_match_spec(s: Seq<u8>, c: int)
    requires
        0 <= c <= s.len(),
    ensures
        c <= next_match_spec(s, c) <= s.len(),
        next_match_spec(s, c) < s.len() ==> match_end_spec(s, next_match_spec(s, c)) >= 0,
        forall|j: int| c <= j < next_match_spec(s, c) ==> match_end_spec(s, j) < 0,
    decreases s.len() - c,
{
    if c < s.len() && match_end_spec(s, c) < 0 {
        lemma_next_match_spec(s, c + 1);
    }
}

/// The ranges of all wikilinks in `s` from position `c` on: leftmost
/// first, non-overlapping, each scan resuming at the previous end.
pub open spec fn scan_spec(s: Seq<u8>, c: int) -> Seq<(int, int)>
    decreases s.len() - c when 0 <= c <= s.len()
    via scan_spec_decreases
{
    let p = next_match_spec(s, c);
    if p >= s.len() {
        Seq::empty()
    } else {
        seq![(p, match_end_spec(s, p))] + scan_spec(s, match_end_spec(s, p))
    }
}

#[via_fn]
proof fn scan_spec_decreases(s: Seq<u8>, c: int) {
    lemma_next_match_spec(s, c);
    let p = next_match_spec(s, c);
    if p < s.len() {
        lemma_match_end_bounds(s, p);
    }
}

/// Where the wikilink starting at `p` ends, or nothing; executable.
pub fn match_end_at(s: &[u8], p: usize) -> (r: Option<usize>)
    requires
        p <= s@.len(),
    ensures
        match r {
            Some(e) => match_end_spec(s@, p as int) == e,
            None => match_end_spec(s@, p as int) < 0,
        },
{
    let len: usize = s.len();
    let ol: usize = if len >= 3 && p <= len - 3 && s[p] == 33 && s[p + 1] == 91 && s[p + 2]
        == 91 {
        3
    } else if len >= 2 && p <= len - 2 && s[p] == 91 && s[p + 1] == 91 {
        2
    } else {
        proof {
            assert(open_len_spec(s@, p as int) == 0);
        }
        return None;
    };
    let inner_start: usize = p + ol;
    if inner_start >= len {
        return None;
    }
    let rest = &s[inner_start + 1..len];
    let mut close_buf: Vec<u8> = Vec::new();
    close_buf.push(93);
    close_buf.push(93);
    proof {
        assert(close_buf@ =~= close_pat());
        assert(rest@ =~= s@.skip(inner_start + 1));
        text::lemma_find_sub_spec(s@.skip(inner_start + 1), close_pat());
    }
    let crel = text::find_sub(rest, close_buf.as_slice());
    let q: usize = inner_start + 1 + crel;
    if q >= len - 1 {
        return None;
    }
    let rest_nl = &s[inner_start..len];
    proof {
        assert(rest_nl@ =~= s@.skip(inner_start as int));
        text::lemma_find_byte_spec(s@.skip(inner_start as int), 10);
    }
    let nlrel = text::find_byte(rest_nl, 10);
    let nl: usize = inner_start + nlrel;
    if nl < q {
        return None;
    }
    Some(q + 2)
}

/// First wikilink start at or after `c`; executable.
fn next_match_exec(s: &[u8], c: usize) -> (r: usize)
    requires
        c <= s@.len(),
    ensures
        r == next_match_spec(s@, c as int),
        c <= r <= s@.len(),
{
    let mut p: usize = c;
    while p < s.len()
        invariant
            c <= p <= s@.len(),
            forall|j: int| c <= j < p ==> match_end_spec(s@, j) < 0,
        decreases s@.len() - p,
    {
        match match_end_at(s, p) {
            Some(_) => {
                proof {
                    lemma_next_match_at(s@, c as int, p as int);
                }
                return p;
            },
            None => {
                p = p + 1;
            },
        }
    }
    proof {
        lemma_next_match_at(s@, c as int, s@.len() as int);
    }
    p
}

/// All wikilink ranges in `s`, leftmost first, non-overlapping.
pub fn scan_wikilinks(s: &[u8]) -> (r: Vec<(usize, usize)>)
    ensures
        r@.map_values(|pr: (usize, usize)| (pr.0 as int, pr.1 as int)) =~= scan_spec(s@, 0),
{
    let mut r: Vec<(usize, usize)> = Vec::new();
    let mut c: usize = 0;
    proof {
        assert(r@.map_values(|pr: (usize, usize)| (pr.0 as int, pr.1 as int)) =~= Seq::<(
            int,
            int,
        )>::empty());
    }
    while c < s.len()
        invariant
            0 <= c <= s@.len(),
            scan_spec(s@, 0) =~= r@.map_values(|pr: (usize, usize)| (pr.0 as int, pr.1 as int))
                + scan_spec(s@, c as int),
        decreases s@.len() - c,
    {
        let start = next_match_exec(s, c);
        proof {
            lemma_next_match_spec(s@, c as int);
        }
        if start >= s.len() {
            proof {
                assert(scan_spec(s@, c as int) =~= Seq::<(int, int)>::empty());
            }
            return r;
        }
        proof {
            lemma_match_end_bounds(s@, start as int);
        }
        let end_opt = match_end_at(s, start);
        let end: usize = match end_opt {
            Some(e) => e,
            None => start,  // cannot happen: a match was just seen here
        };
        proof {
            assert(end == match_end_spec(s@, start as int));
        }
        r.push((start, end));
        proof {
            assert(r@.map_values(|pr: (usize, usize)| (pr.0 as int, pr.1 as int))
                =~= r@.map_values(
                |pr: (usize, usize)| (pr.0 as int, pr.1 as int),
            ).drop_last().push((start as int, end as int)));
            assert(scan_spec(s@, c as int) =~= seq![(start as int, end as int)] + scan_spec(
                s@,
                end as int,
            ));
        }
        c = end;
    }
    proof {
        assert(scan_spec(s@, c as int) =~= Seq::<(int, int)>::empty());
    }
    r
}

proof fn lemma_next_match_at(s: Seq<u8>, c: int, p: int)
    requires
        0 <= c <= p <= s.len(),
        forall|j: int| c <= j < p ==> match_end_spec(s, j) < 0,
        p < s.len() ==> match_end_spec(s, p) >= 0,
    ensures
        next_match_spec(s, c) == p,
    decreases p - c,
{
    if c < p {
        lemma_next_match_at(s, c + 1, p);
    }
}

/// Every range of a scan lies inside the text, in order, without overlap.
pub proof fn lemma_scan_spec_wf(s: Seq<u8>, c: int)
    requires
        0 <= c <= s.len(),
    ensures
        forall|i: int|
            0 <= i < scan_spec(s, c).len() ==> c <= #[trigger] scan_spec(s, c)[i].0 < scan_spec(
                s,
                c,
            )[i].1 <= s.len(),
        forall|i: int, j: int|
            0 <= i < j < scan_spec(s, c).len() ==> #[trigger] scan_spec(s, c)[i].1
                <= #[trigger] scan_spec(s, c)[j].0,
    decreases s.len() - c,
{
    lemma_next_match_spec(s, c);
    let p = next_match_spec(s, c);
    if p < s.len() {
        lemma_match_end_bounds(s, p);
        let e = match_end_spec(s, p);
        lemma_scan_spec_wf(s, e);
        let rest = scan_spec(s, e);
        assert(scan_spec(s, c) =~= seq![(p, e)] + rest);
        assert forall|i: int| 0 <= i < scan_spec(s, c).len() implies c <= #[trigger] scan_spec(
            s,
            c,
        )[i].0 < scan_spec(s, c)[i].1 <= s.len() by {
            if i > 0 {
                assert(scan_spec(s, c)[i] == rest[i - 1]);
            }
        }
        assert forall|i: int, j: int| 0 <= i < j < scan_spec(s, c).len() implies #[trigger] scan_spec(
            s,
            c,
        )[i].1 <= #[trigger] scan_spec(s, c)[j].0 by {
            if i > 0 {
                assert(scan_spec(s, c)[i] == rest[i - 1]);
                assert(scan_spec(s, c)[j] == rest[j - 1]);
            } else {
                assert(scan_spec(s, c)[j] == rest[j - 1]);
                assert(e <= rest[j - 1].0);
            }
        }
    }
}

/// The inner link text of a wikilink: every `!`, `[` and `]` anywhere in
/// the matched text is dropped.
pub open spec fn link_text_spec(s: Seq<u8>) -> Seq<u8> {
    s.filter(|b: u8| b != 33 && b != 91 && b != 93)
}

/// Drops every `!`, `[` and `]` from the matched text.
pub fn extract_link_text(s: &[u8]) -> (r: Vec<u8>)
    ensures
        r@ =~= link_text_spec(s@),
{
    let mut r: Vec<u8> = Vec::new();
    let mut i: usize = 0;
    proof {
        assert(s@.take(0) =~= Seq::<u8>::empty());
        assert(Seq::<u8>::empty().filter(|b: u8| b != 33 && b != 91 && b != 93)
            =~= Seq::<u8>::empty());
    }
    while i < s.len()
        invariant
            0 <= i <= s@.len(),
            r@ =~= s@.take(i as int).filter(|b: u8| b != 33 && b != 91 && b != 93),
        decreases s@.len() - i,
    {
        let b: u8 = s[i];
        proof {
            assert(s@.take(i + 1).drop_last() =~= s@.take(i as int));
            assert(s@.take(i + 1).last() == s@[i as int]);
        }
        if b != 33 && b != 91 && b != 93 {
            r.push(b);
        }
        proof {
            assert(s@.take(i + 1) =~= s@.take(i as int).push(s@[i as int]));
            lemma_filter_push(s@.take(i as int), s@[i as int]);
        }
        i = i + 1;
    }
    proof {
        assert(s@.take(s@.len() as int) =~= s@);
    }
    r
}

proof fn lemma_filter_push(s: Seq<u8>, x: u8)
    ensures
        s.push(x).filter(|b: u8| b != 33 && b != 91 && b != 93) =~= if x != 33 && x != 91 && x
            != 93 {
            s.filter(|b: u8| b != 33 && b != 91 && b != 93).push(x)
        } else {
            s.filter(|b: u8| b != 33 && b != 91 && b != 93)
        },
{
    let pred = |b: u8| b != 33 && b != 91 && b != 93;
    assert(s.push(x) =~= s + seq![x]);
    Seq::<u8>::filter_distributes_over_add(s, seq![x], pred);
    reveal_with_fuel(Seq::filter, 2);
    assert(seq![x].filter(pred) =~= if pred(x) {
        seq![x]
    } else {
        Seq::<u8>::empty()
    }) by {
        assert(seq![x].drop_last() =~= Seq::<u8>::empty());
    }
}

/// The views of a file list, which resolution is specified over: which
/// file a link names depends only on the files' recorded names.
pub open spec fn views_of_files(files: Seq<File>) -> Seq<FileView> {
    files.map_values(|f: File| f@)
}

/// Which resolution key `k` compares: the four candidate names, from most
/// to least specific.
pub open spec fn key_matches(k: int, link_text: Seq<u8>, f: FileView) -> bool {
    if k == 0 {
        f.path_from_vault_root == link_text
    } else if k == 1 {
        f.path_from_vault_root_without_extension == link_text
    } else if k == 2 {
        f.file_name == link_text
    } else {
        f.file_name_without_extension == link_text
    }
}

/// Index of the first file matching key `k`, or `files.len()`.
pub open spec fn first_match_spec(k: int, link_text: Seq<u8>, files: Seq<FileView>) -> int
    decreases files.len(),
{
    if files.len() == 0 {
        0
    } else if key_matches(k, link_text, files[0]) {
        0
    } else {
        1 + first_match_spec(k, link_text, files.skip(1))
    }
}

pub proof fn lemma_first_match_spec(k: int, link_text: Seq<u8>, files: Seq<FileView>)
    ensures
        0 <= first_match_spec(k, link_text, files) <= files.len(),
        first_match_spec(k, link_text, files) < files.len() ==> key_matches(
            k,
            link_text,
            files[first_match_spec(k, link_text, files)],
        ),
        forall|j: int|
            0 <= j < first_match_spec(k, link_text, files) ==> !key_matches(
                k,
                link_text,
                files[j],
            ),
    decreases files.len(),
{
    if files.len() > 0 && !key_matches(k, link_text, files[0]) {
        lemma_first_match_spec(k, link_text, files.skip(1));
        assert forall|j: int| 0 <= j < first_match_spec(k, link_text, files) implies !key_matches(
            k,
            link_text,
            files[j],
        ) by {
            if j > 0 {
                assert(!key_matches(k, link_text, files.skip(1)[j - 1]));
            }
        }
    }
}

proof fn lemma_first_match_at(k: int, link_text: Seq<u8>, files: Seq<FileView>, i: int)
    requires
        0 <= i <= files.len(),
        forall|j: int| 0 <= j < i ==> !key_matches(k, link_text, files[j]),
        i < files.len() ==> key_matches(k, link_text, files[i]),
    ensures
        first_match_spec(k, link_text, files) == i,
    decreases i,
{
    if files.len() == 0 {
    } else if i == 0 {
    } else {
        lemma_first_match_at(k, link_text, files.skip(1), i - 1);
    }
}

/// The file a link text resolves to: the first file (in the given order,
/// oldest first) matching the first key function, in the fixed
/// specificity order, that matches any file at all. `files.len()` when
/// nothing matches.
pub open spec fn resolve_spec(link_text: Seq<u8>, files: Seq<FileView>) -> int {
    if first_match_spec(0, link_text, files) < files.len() {
        first_match_spec(0, link_text, files)
    } else if first_match_spec(1, link_text, files) < files.len() {
        first_match_spec(1, link_text, files)
    } else if first_match_spec(2, link_text, files) < files.len() {
        first_match_spec(2, link_text, files)
    } else {
        first_match_spec(3, link_text, files)
    }
}

/// The resolved identity of a link text against an (oldest-first) file
/// list: the chosen file's vault-relative path, or nothing.
pub open spec fn resolve_id_spec(link_text: Seq<u8>, files: Seq<FileView>) -> Option<Seq<u8>> {
    if resolve_spec(link_text, files) < files.len() {
        Some(files[resolve_spec(link_text, files)].path_from_vault_root)
    } else {
        None
    }
}

/// Tests key `k` of one file against the link text; executable.
fn key_matches_exec(k: usize, link_text: &[u8], f: &File) -> (r: bool)
    requires
        k <= 3,
    ensures
        r == key_matches(k as int, link_text@, f@),
{
    if k == 0 {
        text::bytes_eq(f.path_from_vault_root.as_slice(), link_text)
    } else if k == 1 {
        text::bytes_eq(f.path_from_vault_root_without_extension.as_slice(), link_text)
    } else if k == 2 {
        text::bytes_eq(f.file_name.as_slice(), link_text)
    } else {
        text::bytes_eq(f.file_name_without_extension.as_slice(), link_text)
    }
}

/// First file matching key `k`, or `files.len()`; executable.
fn first_match_exec(k: usize, link_text: &[u8], files: &Vec<File>) -> (r: usize)
    requires
        k <= 3,
    ensures
        r == first_match_spec(k as int, link_text@, views_of_files(files@)),
{
    let ghost fv = views_of_files(files@);
    let mut i: usize = 0;
    while i < files.len()
        invariant
            0 <= i <= files@.len(),
            k <= 3,
            fv == views_of_files(files@),
            forall|j: int| 0 <= j < i ==> !key_matches(k as int, link_text@, fv[j]),
        decreases files@.len() - i,
    {
        proof {
            assert(fv[i as int] == files@[i as int]@);
        }
        if key_matches_exec(k, link_text, &files[i]) {
            proof {
                lemma_first_match_at(k as int, link_text@, fv, i as int);
            }
            return i;
        }
        i = i + 1;
    }
    proof {
        lemma_first_match_at(k as int, link_text@, fv, files@.len() as int);
    }
    i
}

/// Resolves a link text against `files`, assumed sorted oldest first:
/// four key functions are tried from most to least specific, and the
/// first file satisfying the first key function with any match wins.
pub fn find_closest_matching_file<'f>(link_text: &[u8], files: &'f Vec<File>) -> (r: Option<
    &'f File,
>)
    ensures
        match r {
            Some(f) => resolve_spec(link_text@, views_of_files(files@)) < files@.len() && *f
                == files@[resolve_spec(link_text@, views_of_files(files@))],
            None => resolve_spec(link_text@, views_of_files(files@)) == files@.len(),
        },
{
    let ghost fv = views_of_files(files@);
    let mut k: usize = 0;
    while k < 4
        invariant
            0 <= k <= 4,
            fv == views_of_files(files@),
            forall|kk: int| 0 <= kk < k ==> first_match_spec(kk, link_text@, fv) == files@.len(),
        decreases 4 - k,
    {
        let i = first_match_exec(k, link_text, files);
        if i < files.len() {
            return Some(&files[i]);
        }
        proof {
            lemma_first_match_spec(k as int, link_text@, fv);
        }
        k = k + 1;
    }
    None
}

/// A wikilink occurrence in a page: the embed flag, the raw matched text,
/// the inner link text, the byte range into the page, and the resolved
/// target identity when one exists.
#[derive(Debug, Clone)]
pub struct Reference {
    pub is_embed: bool,
    pub range_start: usize,
    pub range_end: usize,
    pub text_between_double_brackets: Vec<u8>,
    pub text: Vec<u8>,
    pub vault_item_id: Option<VaultItemId>,
}

/// Spec-level shape of a reference.
pub struct ReferenceView {
    pub is_embed: bool,
    pub range_start: int,
    pub range_end: int,
    pub link_text: Seq<u8>,
    pub text: Seq<u8>,
    pub vault_item_id: Option<Seq<u8>>,
}

impl View for Reference {
    type V = ReferenceView;

    open spec fn view(&self) -> ReferenceView {
        ReferenceView {
            is_embed: self.is_embed,
            range_start: self.range_start as int,
            range_end: self.range_end as int,
            link_text: self.text_between_double_brackets@,
            text: self.text@,
            vault_item_id: match self.vault_item_id {
                Some(id) => Some(id@),
                None => None,
            },
        }
    }
}

/// The reference a matched stretch of text turns into.
pub open spec fn spec_reference(matched: Seq<u8>, start: int, end: int, files: Seq<FileView>)
    -> ReferenceView {
    ReferenceView {
        is_embed: text::starts_with_spec(matched, seq![33u8, 91u8, 91u8]),
        range_start: start,
        range_end: end,
        link_text: link_text_spec(matched),
        text: matched,
        vault_item_id: resolve_id_spec(link_text_spec(matched), files),
    }
}

impl Reference {
    /// Builds one reference from a matched stretch of page text and its
    /// byte range, resolving the link text against `files` (sorted oldest
    /// first).
    pub fn new(matched_text: &[u8], range_start: usize, range_end: usize, files: &Vec<File>) -> (
        r: Reference)
        ensures
            r@ == spec_reference(
                matched_text@,
                range_start as int,
                range_end as int,
                views_of_files(files@),
            ),
    {
        let is_embed = matched_text.len() >= 3 && matched_text[0] == 33 && matched_text[1] == 91
            && matched_text[2] == 91;
        proof {
            if is_embed {
                assert(matched_text@.take(3) =~= seq![33u8, 91u8, 91u8]);
            } else {
                if text::starts_with_spec(matched_text@, seq![33u8, 91u8, 91u8]) {
                    assert(matched_text@.take(3)[0] == 33 && matched_text@.take(3)[1] == 91
                        && matched_text@.take(3)[2] == 91);
                }
            }
        }
        let text_between_double_brackets = extract_link_text(matched_text);
        let vault_item_id = match find_closest_matching_file(
            text_between_double_brackets.as_slice(),
            files,
        ) {
            Some(f) => Some(VaultItemId::from_file(f)),
            None => None,
        };
        let r = Reference {
            is_embed,
            range_start,
            range_end,
            text_between_double_brackets,
            text: text::subrange_vec(matched_text, 0, matched_text.len()),
            vault_item_id,
        };
        proof {
            assert(r@.link_text =~= link_text_spec(matched_text@));
            assert(r@.text =~= matched_text@);
            let fv = views_of_files(files@);
            let lt = link_text_spec(matched_text@);
            lemma_first_match_spec(0, lt, fv);
            lemma_first_match_spec(1, lt, fv);
            lemma_first_match_spec(2, lt, fv);
            lemma_first_match_spec(3, lt, fv);
            if resolve_spec(lt, fv) < fv.len() {
                let idx = resolve_spec(lt, fv);
                assert(0 <= idx < files@.len());
                assert(fv[idx] == files@[idx]@);
            }
        }
        r
    }

    /// Scans `string` (a page's contents) for wikilinks and resolves each
    /// against `files`, assumed sorted oldest first.
    pub fn parse_references(string: &[u8], files: &Vec<File>) -> (r: Vec<Reference>)
        ensures
            r@.map_values(|rf: Reference| rf@) =~= spec_references(string@, views_of_files(files@)),
    {
        let ranges = scan_wikilinks(string);
        let mut r: Vec<Reference> = Vec::new();
        let mut i: usize = 0;
        proof {
            lemma_scan_spec_wf(string@, 0);
            assert forall|j: int| 0 <= j < ranges@.len() implies 0 <= #[trigger] ranges@[j].0
                <= ranges@[j].1 <= string@.len() by {
                assert(scan_spec(string@, 0)[j] == (ranges@[j].0 as int, ranges@[j].1 as int));
            }
            assert(r@.map_values(|rf: Reference| rf@) =~= Seq::<ReferenceView>::empty());
        }
        while i < ranges.len()
            invariant
                0 <= i <= ranges@.len(),
                ranges@.map_values(|pr: (usize, usize)| (pr.0 as int, pr.1 as int)) =~= scan_spec(
                    string@,
                    0,
                ),
                forall|j: int|
                    0 <= j < ranges@.len() ==> 0 <= #[trigger] ranges@[j].0 <= ranges@[j].1
                        <= string@.len(),
                r@.map_values(|rf: Reference| rf@) =~= Seq::new(
                    i as nat,
                    |j: int|
                        spec_reference(
                            string@.subrange(ranges@[j].0 as int, ranges@[j].1 as int),
                            ranges@[j].0 as int,
                            ranges@[j].1 as int,
                            views_of_files(files@),
                        ),
                ),
            decreases ranges@.len() - i,
        {
            let (start, end) = (ranges[i].0, ranges[i].1);
            let matched = &string[start..end];
            proof {
                assert(matched@ =~= string@.subrange(start as int, end as int));
            }
            let one = Reference::new(matched, start, end, files);
            let ghost rprev = r@;
            let ghost onev = one@;
            r.push(one);
            proof {
                let f = |j: int|
                    spec_reference(
                        string@.subrange(ranges@[j].0 as int, ranges@[j].1 as int),
                        ranges@[j].0 as int,
                        ranges@[j].1 as int,
                        views_of_files(files@),
                    );
                let view_of = |rf: Reference| rf@;
                rprev.lemma_push_map_commute(view_of, one);
                assert(r@.map_values(view_of) =~= rprev.map_values(view_of).push(onev));
                let m = r@.map_values(view_of);
                assert forall|j: int| 0 <= j < i + 1 implies m[j] == Seq::new((i + 1) as nat, f)[j]
                    by {
                    if j < i {
                        assert(m[j] == rprev.map_values(view_of)[j]);
                        assert(rprev.map_values(view_of)[j] == Seq::new(i as nat, f)[j]);
                    } else {
                        assert(m[j] == onev);
                    }
                }
                assert(m =~= Seq::new((i + 1) as nat, f));
            }
            i = i + 1;
        }
        proof {
            let f = |j: int|
                spec_reference(
                    string@.subrange(ranges@[j].0 as int, ranges@[j].1 as int),
                    ranges@[j].0 as int,
                    ranges@[j].1 as int,
                    views_of_files(files@),
                );
            let scan = scan_spec(string@, 0);
            assert forall|j: int| 0 <= j < scan.len() implies Seq::new(
                ranges@.len() as nat,
                f,
            )[j] == spec_references(string@, views_of_files(files@))[j] by {
                assert(scan[j] == (ranges@[j].0 as int, ranges@[j].1 as int));
                assert(spec_references(string@, views_of_files(files@))[j] == spec_reference(
                    string@.subrange(scan[j].0, scan[j].1),
                    scan[j].0,
                    scan[j].1,
                    views_of_files(files@),
                ));
            }
            assert(r@.map_values(|rf: Reference| rf@) =~= spec_references(
                string@,
                views_of_files(files@),
            ));
        }
        r
    }

    /// Moves the recorded range by the running shift of earlier edits.
    pub fn shift_range(&mut self, cumulative_range_shift: i64)
        requires
            old(self).range_start <= old(self).range_end,
            0 <= old(self).range_start + cumulative_range_shift,
            old(self).range_end + cumulative_range_shift <= i64::MAX,
            old(self).range_end + cumulative_range_shift <= usize::MAX,
            old(self).range_end <= i64::MAX,
        ensures
            final(self).range_start == old(self).range_start + cumulative_range_shift,
            final(self).range_end == old(self).range_end + cumulative_range_shift,
            final(self).text == old(self).text,
            final(self).text_between_double_brackets == old(self).text_between_double_brackets,
            final(self).is_embed == old(self).is_embed,
            final(self).vault_item_id == old(self).vault_item_id,
    {
        let start: i64 = self.range_start as i64;
        let end: i64 = self.range_end as i64;
        self.range_start = (start + cumulative_range_shift) as usize;
        self.range_end = (end + cumulative_range_shift) as usize;
    }

    /// Splices `new_text` over this reference's range in `page_contents`,
    /// re-records text and range, and returns the length delta for the
    /// running shift.
    pub fn update_text(&mut self, new_text: &[u8], page_contents: &mut Vec<u8>) -> (delta: i64)
        requires
            old(self).range_start <= old(self).range_end <= old(page_contents)@.len(),
            old(page_contents)@.len() < 0x4000_0000_0000_0000,
            new_text@.len() < 0x4000_0000_0000_0000,
            old(self).text@.len() < 0x4000_0000_0000_0000,
        ensures
            final(page_contents)@ =~= old(page_contents)@.subrange(
                0,
                old(self).range_start as int,
            ) + new_text@ + old(page_contents)@.skip(old(self).range_end as int),
            final(self).range_start == old(self).range_start,
            final(self).range_end == old(self).range_start + new_text@.len(),
            final(self).text@ == new_text@,
            final(self).text_between_double_brackets == old(self).text_between_double_brackets,
            final(self).is_embed == old(self).is_embed,
            final(self).vault_item_id == old(self).vault_item_id,
            delta == new_text@.len() - old(self).text@.len(),
            final(page_contents)@.len() == old(page_contents)@.len() + new_text@.len() - (old(
                self,
            ).range_end - old(self).range_start),
    {
        let old_text_len: usize = self.text.len();
        let new_text_len: usize = new_text.len();
        text::splice(page_contents, self.range_start, self.range_end, new_text);
        let spliced_len: usize = page_contents.len();
        assert(self.range_start + new_text_len <= spliced_len);
        self.range_end = self.range_start + new_text_len;
        self.text = text::subrange_vec(new_text, 0, new_text.len());
        (new_text_len as i64) - (old_text_len as i64)
    }

    /// Whether this reference resolved to `target_id`.
    pub fn refers_to(&self, target_id: &VaultItemId) -> (r: bool)
        ensures
            r == (self@.vault_item_id == Some(target_id@)),
    {
        match &self.vault_item_id {
            Some(id) => text::bytes_eq(id.path.as_slice(), target_id.path.as_slice()),
            None => false,
        }
    }

    /// Reads the link text as a `yyyy.mm.dd` date: exactly three
    /// dot-separated components, each a decimal number, naming a real
    /// calendar date.
    pub fn try_as_date(&self) -> (r: Option<Date>)
        ensures
            r == spec_try_as_date(self@.link_text),
    {
        try_parse_dotted_date(self.text_between_double_brackets.as_slice())
    }
}

/// All references of a page's text, in spec terms.
pub open spec fn spec_references(s: Seq<u8>, files: Seq<FileView>) -> Seq<ReferenceView> {
    scan_spec(s, 0).map_values(
        |pr: (int, int)| spec_reference(s.subrange(pr.0, pr.1), pr.0, pr.1, files),
    )
}

/// The date named by `yyyy.mm.dd`-shaped link text, when the components
/// parse as numbers (year `i32`, month and day `u8`, with the month in
/// 1..=12 and the day in 1..=31) and name a real calendar date.
pub open spec fn spec_try_as_date(s: Seq<u8>) -> Option<Date> {
    let parts = text::split_on_byte_spec(s, 46);
    if parts.len() != 3 {
        None
    } else if !date::is_i32_literal(parts[0]) {
        None
    } else if !text::is_u64_literal(parts[1]) || text::dec_value(text::digits_part(parts[1]))
        > 255 {
        None
    } else if !text::is_u64_literal(parts[2]) || text::dec_value(text::digits_part(parts[2]))
        > 255 {
        None
    } else {
        let year = date::i32_literal_value(parts[0]);
        let month = text::dec_value(text::digits_part(parts[1]));
        let day = text::dec_value(text::digits_part(parts[2]));
        if 1 <= month <= 12 && 1 <= day <= 31 && date::date_valid(year, month, day) {
            Some(Date { year: year as i32, month: month as u8, day: day as u8 })
        } else {
            None
        }
    }
}

/// Parses `yyyy.mm.dd` text into a date; anything malformed is nothing.
pub fn try_parse_dotted_date(s: &[u8]) -> (r: Option<Date>)
    ensures
        r == spec_try_as_date(s@),
{
    let parts = text::split_on_byte(s, 46);
    if parts.len() != 3 {
        return None;
    }
    let year: i32 = match date::parse_i32(parts[0].as_slice()) {
        Some(y) => y,
        None => {
            return None;
        },
    };
    let month: u8 = match text::parse_u64(parts[1].as_slice()) {
        Some(m) => {
            if m > 255 {
                return None;
            } else {
                m as u8
            }
        },
        None => {
            return None;
        },
    };
    let day: u8 = match text::parse_u64(parts[2].as_slice()) {
        Some(d) => {
            if d > 255 {
                return None;
            } else {
                d as u8
            }
        },
        None => {
            return None;
        },
    };
    if !date::is_valid_month(month) {
        return None;
    }
    if !date::is_valid_day_of_month(day) {
        return None;
    }
    Date::from_ymd(year, month, day)
}

} // verus!
