//! The tag extractor: `#` followed by a run of non-whitespace characters,
//! anywhere in a page. Stateless and independent of reference parsing.

use vstd::prelude::*;

use crate::text;

verus! {

/// Index of the first whitespace byte at or after position 0 of `s`, or
/// `s.len()`.
pub open spec fn find_space_spec(s: Seq<u8>) -> int
    decreases s.len(),
{
    if s.len() == 0 {
        0
    } else if text::is_space(s[0]) {
        0
    } else {
        1 + find_space_spec(s.skip(1))
    }
}

pub proof fn lemma_find_space_spec(s: Seq<u8>)
    ensures
        0 <= find_space_spec(s) <= s.len(),
        find_space_spec(s) < s.len() ==> text::is_space(s[find_space_spec(s)]),
        forall|j: int| 0 <= j < find_space_spec(s) ==> !text::is_space(s[j]),
    decreases s.len(),
{
    if s.len() > 0 && !text::is_space(s[0]) {
        lemma_find_space_spec(s.skip(1));
        assert forall|j: int| 0 <= j < find_space_spec(s) implies !text::is_space(s[j]) by {
            if j > 0 {
                assert(!text::is_space(s.skip(1)[j - 1]));
            }
        }
    }
}

proof fn lemma_find_space_at(s: Seq<u8>, i: int)
    requires
        0 <= i <= s.len(),
        forall|j: int| 0 <= j < i ==> !text::is_space(s[j]),
        i < s.len() ==> text::is_space(s[i]),
    ensures
        find_space_spec(s) == i,
    decreases i,
{
    if s.len() == 0 {
    } else if i == 0 {
    } else {
        lemma_find_space_at(s.skip(1), i - 1);
    }
}

/// Whether a tag starts at `p`: a `#` followed by at least one
/// non-whitespace byte.
pub open spec fn tag_starts_at(s: Seq<u8>, p: int) -> bool {
    0 <= p && p + 1 < s.len() && s[p] == 35 && !text::is_space(s[p + 1])
}

/// One past the end of the tag starting at `p`: the non-whitespace run
/// after the `#` is taken whole.
pub open spec fn tag_end_spec(s: Seq<u8>, p: int) -> int {
    p + 1 + find_space_spec(s.skip(p + 1))
}

/// First tag start at or after `c`, or `s.len()`.
pub open spec fn next_tag_spec(s: Seq<u8>, c: int) -> int
    decreases s.len() - c when 0 <= c <= s.len()
{
    if c >= s.len() {
        s.len() as int
    } else if tag_starts_at(s, c) {
        c
    } else {
        next_tag_spec(s, c + 1)
    }
}

pub proof fn lemma_next_tag_spec(s: Seq<u8>, c: int)
    requires
        0 <= c <= s.len(),
    ensures
        c <= next_tag_spec(s, c) <= s.len(),
        next_tag_spec(s, c) < s.len() ==> tag_starts_at(s, next_tag_spec(s, c)),
        forall|j: int| c <= j < next_tag_spec(s, c) ==> !tag_starts_at(s, j),
    decreases s.len() - c,
{
    if c < s.len() && !tag_starts_at(s, c) {
        lemma_next_tag_spec(s, c + 1);
    }
}

proof fn lemma_next_tag_at(s: Seq<u8>, c: int, p: int)
    requires
        0 <= c <= p <= s.len(),
        forall|j: int| c <= j < p ==> !tag_starts_at(s, j),
        p < s.len() ==> tag_starts_at(s, p),
    ensures
        next_tag_spec(s, c) == p,
    decreases p - c,
{
    if c < p {
        lemma_next_tag_at(s, c + 1, p);
    }
}

/// The tag strings of `s` from position `c` on, in order: each is the
/// text after its `#`, up to the next whitespace.
pub open spec fn tags_from_spec(s: Seq<u8>, c: int) -> Seq<Seq<u8>>
    decreases s.len() - c when 0 <= c <= s.len()
    via tags_from_spec_decreases
{
    let p = next_tag_spec(s, c);
    if p >= s.len() {
        Seq::empty()
    } else {
        seq![s.subrange(p + 1, tag_end_spec(s, p))] + tags_from_spec(s, tag_end_spec(s, p))
    }
}

#[via_fn]
proof fn tags_from_spec_decreases(s: Seq<u8>, c: int) {
    lemma_next_tag_spec(s, c);
    let p = next_tag_spec(s, c);
    if p < s.len() {
        lemma_find_space_spec(s.skip(p + 1));
    }
}

/// All tag strings of `s`, in order of appearance.
pub open spec fn spec_tags(s: Seq<u8>) -> Seq<Seq<u8>> {
    tags_from_spec(s, 0)
}

pub struct Tag {}

impl Tag {
    /// Extracts every `#tag` token: the `#` is dropped, the tag runs to
    /// the next whitespace.
    pub fn parse_tags(string: &[u8]) -> (r: Vec<Vec<u8>>)
        ensures
            r@.map_values(|t: Vec<u8>| t@) =~= spec_tags(string@),
    {
        let s = string;
        let mut r: Vec<Vec<u8>> = Vec::new();
        let mut c: usize = 0;
        proof {
            assert(r@.map_values(|t: Vec<u8>| t@) =~= Seq::<Seq<u8>>::empty());
        }
        while c < s.len()
            invariant
                0 <= c <= s@.len(),
                s@ == string@,
                spec_tags(s@) =~= r@.map_values(|t: Vec<u8>| t@) + tags_from_spec(s@, c as int),
            decreases s@.len() - c,
        {
            let mut p: usize = c;
            let mut found = false;
            while p < s.len() && !found
                invariant
                    c <= p <= s@.len(),
                    found ==> p < s@.len() && tag_starts_at(s@, p as int),
                    forall|j: int| c <= j < p ==> !tag_starts_at(s@, j),
                decreases s@.len() - p + (if found {
                    0int
                } else {
                    1int
                }),
            {
                if p + 1 < s.len() && s[p] == 35 && !text::byte_is_space(s[p + 1]) {
                    found = true;
                } else {
                    p = p + 1;
                }
            }
            if !found {
                proof {
                    lemma_next_tag_at(s@, c as int, s@.len() as int);
                    assert(tags_from_spec(s@, c as int) =~= Seq::<Seq<u8>>::empty());
                    assert(r@.map_values(|t: Vec<u8>| t@) + Seq::<Seq<u8>>::empty()
                        =~= r@.map_values(|t: Vec<u8>| t@));
                }
                return r;
            }
            proof {
                lemma_next_tag_at(s@, c as int, p as int);
            }
            let mut e: usize = p + 1;
            while e < s.len() && !text::byte_is_space(s[e])
                invariant
                    p + 1 <= e <= s@.len(),
                    forall|j: int| p + 1 <= j < e ==> !text::is_space(s@[j]),
                decreases s@.len() - e,
            {
                e = e + 1;
            }
            proof {
                let rest = s@.skip(p + 1);
                assert(forall|j: int| 0 <= j < e - p - 1 ==> !text::is_space(rest[j]));
                lemma_find_space_at(rest, e - p - 1);
                assert(tag_end_spec(s@, p as int) == e);
                assert(rest.take(e - p - 1) =~= s@.subrange(p + 1, e as int));
            }
            let tag_text = text::subrange_vec(s, p + 1, e);
            r.push(tag_text);
            proof {
                assert(r@.map_values(|t: Vec<u8>| t@) =~= r@.map_values(
                    |t: Vec<u8>| t@,
                ).drop_last().push(s@.subrange(p + 1, e as int)));
                assert(tags_from_spec(s@, c as int) =~= seq![s@.subrange(p + 1, e as int)]
                    + tags_from_spec(s@, e as int));
            }
            c = e;
        }
        proof {
            assert(tags_from_spec(s@, c as int) =~= Seq::<Seq<u8>>::empty());
            assert(r@.map_values(|t: Vec<u8>| t@) + Seq::<Seq<u8>>::empty() =~= r@.map_values(
                |t: Vec<u8>| t@,
            ));
        }
        r
    }
}

} // verus!
