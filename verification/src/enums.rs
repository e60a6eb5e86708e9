//! The small closed vocabularies of the game.

use vstd::prelude::*;

verus! {

/// One of the four axis-aligned headings on the grid.
#[derive(Copy, Clone, Debug, PartialEq, Eq, Structural)]
pub enum Direction {
    Up,
    Left,
    Down,
    Right,
}

impl Direction {
    /// The heading that points the other way.
    pub open spec fn spec_opposite(&self) -> Direction {
        match self {
            Direction::Up => Direction::Down,
            Direction::Down => Direction::Up,
            Direction::Left => Direction::Right,
            Direction::Right => Direction::Left,
        }
    }

    /// Returns the heading that points the other way.
    #[verifier::when_used_as_spec(spec_opposite)]
    pub fn opposite(&self) -> (r: Direction)
        ensures
            r == self.spec_opposite(),
            r.spec_opposite() == *self,
    {
        match self {
            Direction::Up => Direction::Down,
            Direction::Down => Direction::Up,
            Direction::Left => Direction::Right,
            Direction::Right => Direction::Left,
        }
    }
}

/// Turning round twice gives the heading one started with.
pub proof fn lemma_opposite_is_involution(d: Direction)
    ensures
        d.opposite().opposite() == d,
        d.opposite() != d,
{
}

/// The bonus items, from the cheapest to the dearest.
#[derive(Copy, Clone, Debug, PartialEq, Eq, Structural)]
pub enum Fruit {
    Cherry,
    Strawberry,
    Orange,
    Apple,
    Melon,
    Galaxian,
    Bell,
    Key,
}

impl Fruit {
    /// What eating this item is worth.
    pub open spec fn points(self) -> i32 {
        match self {
            Fruit::Cherry => 100,
            Fruit::Strawberry => 300,
            Fruit::Orange => 500,
            Fruit::Apple => 700,
            Fruit::Melon => 1000,
            Fruit::Galaxian => 2000,
            Fruit::Bell => 3000,
            Fruit::Key => 5000,
        }
    }
}

/// How a ghost currently behaves.
#[derive(Copy, Clone, Debug, PartialEq, Eq, Structural)]
pub enum GhostState {
    Chase,
    Scatter,
    Frightened,
    Eaten,
}

impl GhostState {
    /// Whether this is one of the two modes that the schedule alternates
    /// between.
    pub open spec fn is_scheduled(self) -> bool {
        self == GhostState::Chase || self == GhostState::Scatter
    }

    /// The other scheduled mode; the two special modes are left alone.
    pub open spec fn toggled(self) -> GhostState {
        match self {
            GhostState::Chase => GhostState::Scatter,
            GhostState::Scatter => GhostState::Chase,
            other => other,
        }
    }
}

} // verus!
