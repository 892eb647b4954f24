//! Browser controller naming: the class names the server renders and the
//! selectors the browser mounts controllers with.

pub mod show_hide;

use vstd::prelude::*;

use crate::text;

verus! {

/// The selector matching any element whose class list starts with, or
/// contains a word starting with, the controller name. Controllers with
/// props carry the encoded props after the name in the same class.
pub open spec fn selector_spec(name: Seq<u8>) -> Seq<u8> {
    text::str_bytes("[class^='") + name + text::str_bytes("'], [class*=' ") + name + text::str_bytes(
        "']",
    )
}

/// Builds the CSS selector for a controller name.
pub fn controller_name_to_selector(controller_name: &[u8]) -> (r: Vec<u8>)
    ensures
        r@ =~= selector_spec(controller_name@),
{
    proof {
        reveal_strlit("[class^='");
        reveal_strlit("'], [class*=' ");
        reveal_strlit("']");
    }
    let mut r: Vec<u8> = Vec::new();
    append_bytes(&mut r, text::lit_bytes("[class^='"));
    append_bytes(&mut r, controller_name);
    append_bytes(&mut r, text::lit_bytes("'], [class*=' "));
    append_bytes(&mut r, controller_name);
    append_bytes(&mut r, text::lit_bytes("']"));
    r
}

/// Appends all of `more` to `out`.
pub fn append_bytes(out: &mut Vec<u8>, more: &[u8])
    ensures
        final(out)@ =~= old(out)@ + more@,
{
    let mut i: usize = 0;
    while i < more.len()
        invariant
            0 <= i <= more@.len(),
            out@ =~= old(out)@ + more@.take(i as int),
        decreases more@.len() - i,
    {
        out.push(more[i]);
        i = i + 1;
    }
    proof {
        assert(more@.take(more@.len() as int) =~= more@);
    }
}

} // verus!
