//! Layout vocabulary: axes, alignments and the structural widgets that carry
//! no geometry of their own.

use vstd::prelude::*;

verus! {

#[derive(Debug, Clone, Copy, PartialEq, Eq, Structural, Hash)]
pub enum Axis {
    Horizontal,
    Vertical,
}

impl Default for Axis {
    fn default() -> (r: Self)
        ensures
            r == Axis::Horizontal,
    {
        Axis::Horizontal
    }
}

#[derive(Debug, Clone, Copy, PartialEq, Eq, Structural, Hash)]
pub enum MainAxisAlignment {
    Start,
    Center,
    End,
    SpaceBetween,
}

impl Default for MainAxisAlignment {
    fn default() -> (r: Self)
        ensures
            r == MainAxisAlignment::Start,
    {
        MainAxisAlignment::Start
    }
}

#[derive(Debug, Clone, Copy, PartialEq, Eq, Structural, Hash)]
pub enum CrossAxisAlignment {
    Start,
    Center,
    End,
    Stretch,
}

impl Default for CrossAxisAlignment {
    fn default() -> (r: Self)
        ensures
            r == CrossAxisAlignment::Start,
    {
        CrossAxisAlignment::Start
    }
}

/// Alignment along one arranged axis.
#[derive(Debug, Clone, Copy, PartialEq, Eq, Structural, Hash)]
pub enum Alignment {
    Start,
    Center,
    End,
    Stretch,
}

impl Default for Alignment {
    fn default() -> (r: Self)
        ensures
            r == Alignment::Start,
    {
        Alignment::Start
    }
}

/// Positions one child within the rectangle assigned by its parent.
#[derive(Debug, Clone, Copy, PartialEq, Eq, Structural)]
pub struct Align {
    pub horizontal: Alignment,
    pub vertical: Alignment,
}

impl Default for Align {
    fn default() -> (r: Self)
        ensures
            r == (Align { horizontal: Alignment::Start, vertical: Alignment::Start }),
    {
        Align { horizontal: Alignment::Start, vertical: Alignment::Start }
    }
}

/// Paint-order stack. Every child receives the same arranged rectangle.
#[derive(Debug, Clone, Copy, PartialEq, Eq, Structural)]
pub struct Stack;

/// Structural clipping boundary with no decoration of its own.
#[derive(Debug, Clone, Copy, PartialEq, Eq, Structural)]
pub struct Clip;

impl Clip {
    /// A clip always clips its children.
    pub fn clips_children(&self) -> (r: bool)
        ensures
            r,
    {
        true
    }
}

} // verus!
