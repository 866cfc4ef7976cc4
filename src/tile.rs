//! Plain geometric values: rectangles, tints, quarter-turn rotations, tile
//! orientations and the canonical placed tile.
use vstd::prelude::*;

verus! {

/// An axis-aligned rectangle in whole pixels.
#[derive(Debug, Clone, Copy, PartialEq, Eq, Structural)]
pub struct Rect {
    pub x: i64,
    pub y: i64,
    pub width: i64,
    pub height: i64,
}

impl Rect {
    pub fn new(x: i64, y: i64, width: i64, height: i64) -> (r: Rect)
        ensures
            r == (Rect { x, y, width, height }),
    {
        Rect { x, y, width, height }
    }

    /// The rectangle with every field zero.
    pub open spec fn spec_is_zero(&self) -> bool {
        self.x == 0 && self.y == 0 && self.width == 0 && self.height == 0
    }

    pub fn is_zero(&self) -> (r: bool)
        ensures
            r == self.spec_is_zero(),
    {
        self.x == 0 && self.y == 0 && self.width == 0 && self.height == 0
    }
}

/// A tint as red, green, blue and alpha channels of one byte each.
#[derive(Debug, Clone, Copy, PartialEq, Eq, Structural)]
pub struct Color {
    pub r: u8,
    pub g: u8,
    pub b: u8,
    pub a: u8,
}

impl Color {
    pub fn rgba(r: u8, g: u8, b: u8, a: u8) -> (c: Color)
        ensures
            c == (Color { r, g, b, a }),
    {
        Color { r, g, b, a }
    }

    /// Opaque white, the tint that leaves a sprite as it is.
    pub open spec fn spec_white() -> Color {
        Color { r: 255, g: 255, b: 255, a: 255 }
    }

    pub fn white() -> (c: Color)
        ensures
            c == Color::spec_white(),
    {
        Color { r: 255, g: 255, b: 255, a: 255 }
    }
}

/// A rotation by a whole number of quarter turns, clockwise.
#[derive(Debug, Clone, Copy, PartialEq, Eq, Structural)]
pub enum Rotation {
    Zero,
    Quarter,
    Half,
    ThreeQuarters,
}

impl Rotation {
    /// The angle in hundredths of a radian, with the two-decimal values that
    /// map content is laid out with: 0, 1.57, 3.14 and 4.71 radians.
    pub open spec fn spec_centiradians(&self) -> u32 {
        match self {
            Rotation::Zero => 0,
            Rotation::Quarter => 157,
            Rotation::Half => 314,
            Rotation::ThreeQuarters => 471,
        }
    }

    pub fn centiradians(&self) -> (r: u32)
        ensures
            r == self.spec_centiradians(),
    {
        match self {
            Rotation::Zero => 0,
            Rotation::Quarter => 157,
            Rotation::Half => 314,
            Rotation::ThreeQuarters => 471,
        }
    }
}

/// How a tile's sprite is turned and mirrored, and whether its origin moves
/// by one cell width to the right and one cell height down to keep the
/// sprite inside its cell.
#[derive(Debug, Clone, Copy, PartialEq, Eq, Structural)]
pub struct Orientation {
    pub rotation: Rotation,
    pub scale_x: i8,
    pub scale_y: i8,
    pub shift_x: bool,
    pub shift_y: bool,
}

/// The shift along one axis, in pixels.
pub open spec fn shift_of(shifted: bool, cell_size: int) -> int {
    if shifted {
        cell_size
    } else {
        0
    }
}

/// The pixel anchor of a tile at grid coordinate `grid` with cells
/// `cell_size` pixels long.
pub open spec fn anchor_of(grid: int, cell_size: int, shifted: bool) -> int {
    grid * cell_size + shift_of(shifted, cell_size)
}

/// One placed cell of a map, in its canonical form.
#[derive(Debug, Clone, Copy, PartialEq, Eq, Structural)]
pub struct Tile {
    pub id: u32,
    pub x: i64,
    pub y: i64,
    pub position_x: i64,
    pub position_y: i64,
    pub rotation: Rotation,
    pub scale_x: i8,
    pub scale_y: i8,
}

impl Tile {
    /// A tile with atlas id `id` at grid cell `(x, y)` whose anchor is the
    /// cell's corner, neither turned nor mirrored.
    pub open spec fn spec_plain(id: u32, x: i64, y: i64, position_x: i64, position_y: i64) -> Tile {
        Tile { id, x, y, position_x, position_y, rotation: Rotation::Zero, scale_x: 1, scale_y: 1 }
    }

    pub fn plain(id: u32, x: i64, y: i64, position_x: i64, position_y: i64) -> (t: Tile)
        ensures
            t == Tile::spec_plain(id, x, y, position_x, position_y),
    {
        Tile { id, x, y, position_x, position_y, rotation: Rotation::Zero, scale_x: 1, scale_y: 1 }
    }

    /// The tile's orientation without its shift.
    pub open spec fn has_orientation(&self, o: Orientation) -> bool {
        self.rotation == o.rotation && self.scale_x == o.scale_x && self.scale_y == o.scale_y
    }
}

impl Default for Tile {
    fn default() -> (t: Tile)
        ensures
            t == Tile::spec_plain(0, 0, 0, 0, 0),
    {
        Tile::plain(0, 0, 0, 0, 0)
    }
}

} // verus!
