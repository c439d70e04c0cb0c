//! What has changed in a buffer since its lines were last brought up to date.

use vstd::prelude::*;

verus! {

/// A set of kinds of change.
#[derive(Clone, Copy, PartialEq, Eq, Structural, Debug)]
pub struct DirtyFlags {
    /// A setting that the layout depends on.
    pub relayout: bool,
    /// The tab width, on which the shape of lines with tabs depends.
    pub tab_shape: bool,
    /// The whole text; its lines are new.
    pub text_set: bool,
    /// The scroll position.
    pub scroll: bool,
    /// The base direction, on which every shape depends.
    pub direction: bool,
}

impl DirtyFlags {
    /// No change at all.
    pub open spec fn none() -> DirtyFlags {
        DirtyFlags {
            relayout: false,
            tab_shape: false,
            text_set: false,
            scroll: false,
            direction: false,
        }
    }

    /// No change.
    pub fn empty() -> (r: DirtyFlags)
        ensures
            r == DirtyFlags::none(),
    {
        DirtyFlags {
            relayout: false,
            tab_shape: false,
            text_set: false,
            scroll: false,
            direction: false,
        }
    }

    /// Tells whether nothing has changed.
    pub fn is_empty(self) -> (r: bool)
        ensures
            r == (self == DirtyFlags::none()),
    {
        !self.relayout && !self.tab_shape && !self.text_set && !self.scroll && !self.direction
    }
}

} // verus!
