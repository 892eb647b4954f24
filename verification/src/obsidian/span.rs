//! A (byte-range, text) pair inside a shared buffer, with the two
//! operations every in-place rewrite is built on: shift the range by a
//! running offset, and splice new text in while recomputing the range.

use vstd::prelude::*;

use crate::text;

verus! {

/// A span of text in a document.
#[derive(Debug, Clone)]
pub struct Span {
    pub range_start: usize,
    pub range_end: usize,
    pub text: Vec<u8>,
}

impl Span {
    /// The recorded text always spans exactly the recorded range.
    pub open spec fn len_ok(self) -> bool {
        self.range_start <= self.range_end && self.text@.len() == self.range_end
            - self.range_start
    }

    /// Whether this span agrees with the buffer it points into.
    pub open spec fn on_buffer(self, buffer: Seq<u8>) -> bool {
        &&& self.len_ok()
        &&& self.range_end <= buffer.len()
        &&& self.text@ == buffer.subrange(self.range_start as int, self.range_end as int)
    }

    pub fn new(text: &[u8], range_start: usize, range_end: usize) -> (r: Span)
        ensures
            r.range_start == range_start,
            r.range_end == range_end,
            r.text@ == text@,
    {
        Span { range_start, range_end, text: text::subrange_vec(text, 0, text.len()) }
    }

    /// Moves the recorded range by `cumulative_range_shift`. The shift may
    /// not push the range below zero or past the address space; inside the
    /// rewrite protocol it never does.
    pub fn shift_range(&mut self, cumulative_range_shift: i64)
        requires
            old(self).range_start <= old(self).range_end,
            0 <= old(self).range_start + cumulative_range_shift,
            old(self).range_end + cumulative_range_shift <= i64::MAX,
            old(self).range_end + cumulative_range_shift <= usize::MAX,
            old(self).range_end <= i64::MAX,
        ensures
            final(self).range_start == old(self).range_start + cumulative_range_shift,
            final(self).range_end == old(self).range_end + cumulative_range_shift,
            final(self).text == old(self).text,
    {
        let start: i64 = self.range_start as i64;
        let end: i64 = self.range_end as i64;
        self.range_start = (start + cumulative_range_shift) as usize;
        self.range_end = (end + cumulative_range_shift) as usize;
    }

    /// Splices `new_text` over this span's range in `page_contents`,
    /// records the new text and range, and returns the length delta that
    /// later spans in the same buffer must be shifted by.
    pub fn update_text(&mut self, new_text: &[u8], page_contents: &mut Vec<u8>) -> (delta: i64)
        requires
            old(self).range_start <= old(self).range_end <= old(page_contents)@.len(),
            old(page_contents)@.len() < 0x4000_0000_0000_0000,
            new_text@.len() < 0x4000_0000_0000_0000,
            old(self).text@.len() < 0x4000_0000_0000_0000,
        ensures
            final(page_contents)@ =~= old(page_contents)@.subrange(
                0,
                old(self).range_start as int,
            ) + new_text@ + old(page_contents)@.skip(old(self).range_end as int),
            final(self).range_start == old(self).range_start,
            final(self).range_end == old(self).range_start + new_text@.len(),
            final(self).text@ == new_text@,
            delta == new_text@.len() - old(self).text@.len(),
            final(page_contents)@.len() == old(page_contents)@.len() + new_text@.len() - (old(
                self,
            ).range_end - old(self).range_start),
    {
        let old_text_len: usize = self.text.len();
        let new_text_len: usize = new_text.len();
        text::splice(page_contents, self.range_start, self.range_end, new_text);
        let spliced_len: usize = page_contents.len();
        assert(self.range_start + new_text_len <= spliced_len);
        self.range_end = self.range_start + new_text_len;
        self.text = text::subrange_vec(new_text, 0, new_text.len());
        (new_text_len as i64) - (old_text_len as i64)
    }
}

} // verus!
