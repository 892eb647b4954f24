//! A pair of image assets, one for light mode and one for dark, with the
//! builder the page templates configure a rendering with.

use vstd::prelude::*;

use crate::image_asset::ImageAsset;

verus! {

/// The shared placeholder of a light/dark pair.
#[derive(Debug, Clone)]
pub enum LightDarkPlaceholder {
    Lqip { light_mode_data_uri: Vec<u8>, dark_mode_data_uri: Vec<u8> },
    Color { light_mode_css_string: Vec<u8>, dark_mode_css_string: Vec<u8> },
}

/// A light-mode and a dark-mode rendition of one image.
#[derive(Debug, Clone)]
pub struct LightDarkImageAsset {
    pub light_mode: ImageAsset,
    pub dark_mode: ImageAsset,
    pub placeholder: LightDarkPlaceholder,
}

/// Configuration for rendering a light/dark image: built up by chained
/// calls, consumed by the rendering layer.
#[derive(Debug)]
pub struct LightDarkImage<'a> {
    pub asset: &'a LightDarkImageAsset,
    pub class: &'a str,
    pub above_the_fold: bool,
    pub is_largest_contentful_paint: bool,
}

impl<'a> LightDarkImage<'a> {
    pub fn new(asset: &'a LightDarkImageAsset) -> (r: LightDarkImage<'a>)
        ensures
            r.asset == asset,
            r.class@ == ""@,
            !r.above_the_fold,
            !r.is_largest_contentful_paint,
    {
        LightDarkImage { asset, class: "", above_the_fold: false, is_largest_contentful_paint: false }
    }

    pub fn class(self, class: &'a str) -> (r: LightDarkImage<'a>)
        ensures
            r.asset == self.asset,
            r.class == class,
            r.above_the_fold == self.above_the_fold,
            r.is_largest_contentful_paint == self.is_largest_contentful_paint,
    {
        LightDarkImage { class, ..self }
    }

    pub fn above_the_fold(self, above_the_fold: bool) -> (r: LightDarkImage<'a>)
        ensures
            r.asset == self.asset,
            r.class == self.class,
            r.above_the_fold == above_the_fold,
            r.is_largest_contentful_paint == self.is_largest_contentful_paint,
    {
        LightDarkImage { above_the_fold, ..self }
    }

    pub fn is_largest_contentful_paint(self, is_largest_contentful_paint: bool) -> (r:
        LightDarkImage<'a>)
        ensures
            r.asset == self.asset,
            r.class == self.class,
            r.above_the_fold == self.above_the_fold,
            r.is_largest_contentful_paint == is_largest_contentful_paint,
    {
        LightDarkImage { is_largest_contentful_paint, ..self }
    }
}

} // verus!
