//! Plain layout values: lengths, paddings and alignments.
use vstd::prelude::*;

verus! {

/// How much space a widget asks for along one axis.
#[derive(Clone, Copy, Debug, PartialEq, Eq, Structural)]
pub enum Length {
    /// Take all the space that is available.
    Fill,
    /// Take only the space that the contents need.
    Shrink,
    /// A fixed number of units.
    Units(u16),
}

/// How the children of a container line up along its cross axis.
#[derive(Clone, Copy, Debug, PartialEq, Eq, Structural)]
pub enum Alignment {
    /// Line up at the start.
    Start,
    /// Center the children.
    Center,
    /// Line up at the end.
    End,
}

/// The space between the border of a widget and its contents, per edge.
#[derive(Clone, Copy, Debug, PartialEq, Eq, Structural)]
pub struct Padding {
    pub top: u16,
    pub right: u16,
    pub bottom: u16,
    pub left: u16,
}

impl Padding {
    /// No padding on any edge.
    pub fn zero() -> (r: Padding)
        ensures
            r == (Padding { top: 0, right: 0, bottom: 0, left: 0 }),
    {
        Padding { top: 0, right: 0, bottom: 0, left: 0 }
    }

    /// The same padding on all four edges.
    pub fn new(padding: u16) -> (r: Padding)
        ensures
            r == (Padding { top: padding, right: padding, bottom: padding, left: padding }),
    {
        Padding { top: padding, right: padding, bottom: padding, left: padding }
    }
}

impl From<u16> for Padding {
    fn from(p: u16) -> (r: Padding)
        ensures
            r == (Padding { top: p, right: p, bottom: p, left: p }),
    {
        Padding { top: p, right: p, bottom: p, left: p }
    }
}

impl vstd::std_specs::convert::FromSpecImpl<u16> for Padding {
    open spec fn obeys_from_spec() -> bool {
        true
    }

    open spec fn from_spec(p: u16) -> Padding {
        Padding { top: p, right: p, bottom: p, left: p }
    }
}

/// `[vertical, horizontal]`: the first value for top and bottom, the second
/// for right and left.
impl From<[u16; 2]> for Padding {
    fn from(p: [u16; 2]) -> (r: Padding)
        ensures
            r == (Padding { top: p[0], right: p[1], bottom: p[0], left: p[1] }),
    {
        Padding { top: p[0], right: p[1], bottom: p[0], left: p[1] }
    }
}

impl vstd::std_specs::convert::FromSpecImpl<[u16; 2]> for Padding {
    open spec fn obeys_from_spec() -> bool {
        true
    }

    open spec fn from_spec(p: [u16; 2]) -> Padding {
        Padding { top: p[0], right: p[1], bottom: p[0], left: p[1] }
    }
}

/// `[top, right, bottom, left]`.
impl From<[u16; 4]> for Padding {
    fn from(p: [u16; 4]) -> (r: Padding)
        ensures
            r == (Padding { top: p[0], right: p[1], bottom: p[2], left: p[3] }),
    {
        Padding { top: p[0], right: p[1], bottom: p[2], left: p[3] }
    }
}

impl vstd::std_specs::convert::FromSpecImpl<[u16; 4]> for Padding {
    open spec fn obeys_from_spec() -> bool {
        true
    }

    open spec fn from_spec(p: [u16; 4]) -> Padding {
        Padding { top: p[0], right: p[1], bottom: p[2], left: p[3] }
    }
}

} // verus!
