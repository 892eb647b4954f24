//! Image asset metadata: what the build pipeline records about one
//! processed image. Plain data; the pipeline itself runs elsewhere.

use vstd::prelude::*;

verus! {

/// What stands in for an image while it loads: a tiny inlined preview,
/// or a flat color.
#[derive(Debug, Clone)]
pub enum Placeholder {
    Lqip { data_uri: Vec<u8> },
    Color { css_string: Vec<u8> },
}

/// One processed image: its alt text, placeholder, dimensions, and the
/// URLs the server hands out.
#[derive(Debug, Clone)]
pub struct ImageAsset {
    pub alt: Vec<u8>,
    pub placeholder: Placeholder,
    pub width: u32,
    pub height: u32,
    pub srcset: Vec<u8>,
    pub src: Vec<u8>,
    pub mime_type: Vec<u8>,
}

} // verus!
