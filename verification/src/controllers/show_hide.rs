//! The show/hide controller's class names: the server marks elements
//! with these, the browser toggles them.

use vstd::prelude::*;

use crate::text::str_bytes;

verus! {

/// Marker names for the show/hide controller's elements.
#[derive(Debug, Clone, PartialEq, Eq, Structural)]
pub struct ShowHide {}

impl ShowHide {
    pub fn new() -> (r: ShowHide)
        ensures
            r == (ShowHide {  }),
    {
        ShowHide {  }
    }

    /// The class of the element holding the whole controller.
    pub fn container(&self) -> (r: &'static str)
        ensures
            str_bytes(r) == str_bytes("controller:show-hide"),
    {
        "controller:show-hide"
    }

    /// The class of the elements that flip the state when clicked.
    pub fn toggle(&self) -> (r: &'static str)
        ensures
            str_bytes(r) == str_bytes("controller:show-hide:toggle"),
    {
        "controller:show-hide:toggle"
    }

    /// The class of elements visible in the default state.
    pub fn show_by_default(&self) -> (r: &'static str)
        ensures
            str_bytes(r) == str_bytes("controller:show-hide:show-by-default"),
    {
        "controller:show-hide:show-by-default"
    }

    /// The classes of elements hidden in the default state: the marker
    /// plus the class that actually hides them.
    pub fn hide_by_default(&self) -> (r: &'static str)
        ensures
            str_bytes(r) == str_bytes("controller:show-hide:hide-by-default hidden"),
    {
        "controller:show-hide:hide-by-default hidden"
    }
}

impl Default for ShowHide {
    fn default() -> (r: ShowHide)
        ensures
            r == (ShowHide {  }),
    {
        ShowHide::new()
    }
}

} // verus!
