//! Field names compared after trimming and lowercasing, so that schema
//! names and metadata keys match however they were written.

use vstd::prelude::*;

use crate::text;

verus! {

/// What normalization does to a name.
pub open spec fn normalize_spec(s: Seq<u8>) -> Seq<u8> {
    text::lower_spec(text::trim_spec(s))
}

/// A name held in normalized (trimmed, lowercased) form.
#[derive(Debug)]
pub struct NormalizedString {
    pub bytes: Vec<u8>,
}

impl View for NormalizedString {
    type V = Seq<u8>;

    open spec fn view(&self) -> Seq<u8> {
        self.bytes@
    }
}

impl Clone for NormalizedString {
    fn clone(&self) -> (res: Self)
        ensures
            res@ == self@,
    {
        NormalizedString { bytes: self.bytes.clone() }
    }
}

impl NormalizedString {
    pub fn new(s: &[u8]) -> (r: NormalizedString)
        ensures
            r@ == normalize_spec(s@),
    {
        let trimmed = text::trim(s);
        let bytes = text::to_lowercase(trimmed.as_slice());
        NormalizedString { bytes }
    }
}

} // verus!
