//! Locations on the simulated landscape.

use vstd::prelude::*;

verus! {

/// A cell of the landscape grid.
#[derive(Clone, Copy, PartialEq, Eq, Structural, Hash, Debug)]
pub struct Location {
    pub x: u32,
    pub y: u32,
}

impl Location {
    /// The cell at `(x, y)`.
    pub fn new(x: u32, y: u32) -> (r: Self)
        ensures
            r.x == x && r.y == y,
    {
        Location { x, y }
    }

    /// The horizontal coordinate.
    pub fn x(&self) -> (r: u32)
        ensures
            r == self.x,
    {
        self.x
    }

    /// The vertical coordinate.
    pub fn y(&self) -> (r: u32)
        ensures
            r == self.y,
    {
        self.y
    }
}

/// One individual's slot inside a cell: the cell together with an index
/// below the cell's capacity.
#[derive(Clone, Copy, PartialEq, Eq, Structural, Hash, Debug)]
pub struct IndexedLocation {
    pub location: Location,
    pub index: u32,
}

impl IndexedLocation {
    /// The slot `index` of `location`.
    pub fn new(location: Location, index: u32) -> (r: Self)
        ensures
            r.location == location && r.index == index,
    {
        IndexedLocation { location, index }
    }

    /// The cell this slot belongs to.
    pub fn location(&self) -> (r: &Location)
        ensures
            *r == self.location,
    {
        &self.location
    }

    /// The slot index inside the cell.
    pub fn index(&self) -> (r: u32)
        ensures
            r == self.index,
    {
        self.index
    }
}

/// The axis-aligned rectangle of cells a landscape covers, anchored at
/// the origin cell `(x, y)`.
#[derive(Clone, Copy, PartialEq, Eq, Structural, Hash, Debug)]
pub struct LandscapeExtent {
    pub x: u32,
    pub y: u32,
    pub width: u32,
    pub height: u32,
}

impl LandscapeExtent {
    /// The extent anchored at `(x, y)` spanning `width` by `height` cells.
    pub fn new(x: u32, y: u32, width: u32, height: u32) -> (r: Self)
        ensures
            r == (LandscapeExtent { x, y, width, height }),
    {
        LandscapeExtent { x, y, width, height }
    }

    /// The width in cells.
    pub fn width(&self) -> (r: u32)
        ensures
            r == self.width,
    {
        self.width
    }

    /// The height in cells.
    pub fn height(&self) -> (r: u32)
        ensures
            r == self.height,
    {
        self.height
    }

    /// Whether `location` lies inside the extent.
    pub open spec fn spec_contains(&self, location: Location) -> bool {
        &&& self.x <= location.x
        &&& location.x - self.x < self.width
        &&& self.y <= location.y
        &&& location.y - self.y < self.height
    }

    /// Whether `location` lies inside the extent.
    pub fn contains(&self, location: &Location) -> (r: bool)
        ensures
            r == self.spec_contains(*location),
    {
        self.x <= location.x && location.x - self.x < self.width && self.y <= location.y
            && location.y - self.y < self.height
    }
}

} // verus!
