//! Anchor points used to align laid-out content, horizontally and
//! vertically.

use vstd::prelude::*;

verus! {

/// The horizontal anchor of laid-out content.
#[derive(Clone, Copy, Debug, PartialEq, Eq, Structural)]
pub enum HorizontalAnchor {
    /// Anchored at the left edge.
    Left,
    /// Anchored at the horizontal center.
    Center,
    /// Anchored at the right edge.
    Right,
}

/// The vertical anchor of laid-out content.
#[derive(Clone, Copy, Debug, PartialEq, Eq, Structural)]
pub enum VerticalAnchor {
    /// Anchored at the top edge.
    Top,
    /// Anchored at the vertical center.
    Center,
    /// Anchored at the bottom edge.
    Bottom,
    /// Anchored at the text baseline of the first line.
    Baseline,
}

impl Default for HorizontalAnchor {
    /// The default horizontal anchor is the left edge.
    fn default() -> (r: Self)
        ensures
            r == HorizontalAnchor::Left,
    {
        HorizontalAnchor::Left
    }
}

impl Default for VerticalAnchor {
    /// The default vertical anchor is the top edge.
    fn default() -> (r: Self)
        ensures
            r == VerticalAnchor::Top,
    {
        VerticalAnchor::Top
    }
}

} // verus!
