//! Bump sizes and the mappings that carry them across dependency edges.

use vstd::prelude::*;

verus! {

/// How far a change moves a version.
///
/// The variants are listed from weakest to strongest. `Empty` stands for "no
/// change at all"; `Failure` marks a commit whose size could not be worked
/// out and outranks everything else.
#[derive(Clone, Copy, Debug, PartialEq, Eq, Structural, PartialOrd, Ord, Hash)]
pub enum Size {
    Empty,
    NoBump,
    Patch,
    Minor,
    Major,
    Failure,
}

impl Size {
    /// Position of the size in the total order, `Empty` being 0.
    pub open spec fn rank(self) -> nat {
        match self {
            Size::Empty => 0,
            Size::NoBump => 1,
            Size::Patch => 2,
            Size::Minor => 3,
            Size::Major => 4,
            Size::Failure => 5,
        }
    }

    /// `self <= other` in the total order.
    pub open spec fn at_most(self, other: Size) -> bool {
        self.rank() <= other.rank()
    }

    /// The stronger of two sizes.
    pub open spec fn join(self, other: Size) -> Size {
        if self.rank() >= other.rank() {
            self
        } else {
            other
        }
    }

    /// Executable form of [`Size::rank`].
    pub fn level(self) -> (r: u8)
        ensures
            r == self.rank(),
    {
        match self {
            Size::Empty => 0,
            Size::NoBump => 1,
            Size::Patch => 2,
            Size::Minor => 3,
            Size::Major => 4,
            Size::Failure => 5,
        }
    }

    /// Whether `self` is strictly weaker than `other`.
    pub fn weaker_than(self, other: Size) -> (r: bool)
        ensures
            r == (self.rank() < other.rank()),
    {
        self.level() < other.level()
    }

    /// The stronger of two sizes; `Failure` wins over every other size.
    pub fn max(self, other: Size) -> (r: Size)
        ensures
            r == self.join(other),
    {
        if self.level() >= other.level() {
            self
        } else {
            other
        }
    }

    pub fn is_failure(self) -> (r: bool)
        ensures
            r == (self == Size::Failure),
    {
        self == Size::Failure
    }
}

} // verus!
