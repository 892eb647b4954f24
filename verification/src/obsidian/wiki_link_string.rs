//! A string known to be shaped like a wikilink: `[[...]]`, with its inner
//! link text extracted.

use vstd::prelude::*;

use crate::obsidian::reference::extract_link_text;
use crate::obsidian::reference::link_text_spec;
use crate::text;

verus! {

/// A wikilink-shaped string.
#[derive(Debug)]
pub struct WikiLinkString {
    /// Includes the double brackets.
    pub text: Vec<u8>,
    /// Excludes the double brackets (and any stray `!`, `[`, `]`).
    pub link_text: Vec<u8>,
}

/// Whether `s` is shaped like a wikilink: it opens with `[[` and closes
/// with `]]`.
pub open spec fn wiki_link_shaped(s: Seq<u8>) -> bool {
    text::starts_with_spec(s, seq![91u8, 91u8]) && text::ends_with_spec(s, seq![93u8, 93u8])
}

impl Clone for WikiLinkString {
    fn clone(&self) -> (res: Self)
        ensures
            res.text@ == self.text@,
            res.link_text@ == self.link_text@,
    {
        WikiLinkString { text: self.text.clone(), link_text: self.link_text.clone() }
    }
}

impl WikiLinkString {
    pub fn new(text: Vec<u8>) -> (r: WikiLinkString)
        ensures
            r.text@ == text@,
            r.link_text@ == link_text_spec(text@),
    {
        let link_text = extract_link_text(text.as_slice());
        WikiLinkString { text, link_text }
    }

    /// Accepts exactly the strings that open with `[[` and close with
    /// `]]`.
    pub fn from_str(s: &[u8]) -> (r: Result<WikiLinkString, ()>)
        ensures
            r.is_ok() == wiki_link_shaped(s@),
            r.is_ok() ==> r->Ok_0.text@ == s@ && r->Ok_0.link_text@ == link_text_spec(s@),
    {
        let mut open_pat: Vec<u8> = Vec::new();
        open_pat.push(91);
        open_pat.push(91);
        let mut close_pat: Vec<u8> = Vec::new();
        close_pat.push(93);
        close_pat.push(93);
        proof {
            assert(open_pat@ =~= seq![91u8, 91u8]);
            assert(close_pat@ =~= seq![93u8, 93u8]);
        }
        if text::starts_with(s, open_pat.as_slice()) && text::ends_with(s, close_pat.as_slice()) {
            Ok(WikiLinkString::new(text::subrange_vec(s, 0, s.len())))
        } else {
            Err(())
        }
    }
}

} // verus!
