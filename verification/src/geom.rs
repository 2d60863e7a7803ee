//! Planar geometry: fixed-point vectors and axis-aligned rectangles.

use vstd::prelude::*;

use crate::num::sat_add;
use crate::num::sat_add_spec;

verus! {

/// A 2D vector (or point) in fixed-point world coordinates.
#[derive(Clone, Copy, PartialEq, Eq, Structural, Debug)]
pub struct Vec2 {
    pub x: i64,
    pub y: i64,
}

/// An axis-aligned rectangle given by its two corners.
#[derive(Clone, Copy, PartialEq, Eq, Structural, Debug)]
pub struct Rect {
    pub min: Vec2,
    pub max: Vec2,
}

impl Rect {
    /// Whether a point lies inside the rectangle, both edges included.
    pub open spec fn spec_contains(self, px: int, py: int) -> bool {
        self.min.x <= px <= self.max.x && self.min.y <= py <= self.max.y
    }

    /// Point-in-rectangle test.
    pub fn contains(&self, p: Vec2) -> (b: bool)
        ensures
            b == self.spec_contains(p.x as int, p.y as int),
    {
        self.min.x <= p.x && p.x <= self.max.x && self.min.y <= p.y && p.y <= self.max.y
    }

    /// The rectangle with the given minimum corner and size. The far
    /// corner saturates at the representable coordinate range.
    pub open spec fn spec_from_min_size(min: Vec2, size: Vec2) -> Rect {
        Rect {
            min,
            max: Vec2 {
                x: sat_add_spec(min.x as int, size.x as int) as i64,
                y: sat_add_spec(min.y as int, size.y as int) as i64,
            },
        }
    }

    /// Builds the rectangle of `spec_from_min_size`.
    pub fn from_min_size(min: Vec2, size: Vec2) -> (r: Rect)
        ensures
            r == Self::spec_from_min_size(min, size),
    {
        Rect { min, max: Vec2 { x: sat_add(min.x, size.x), y: sat_add(min.y, size.y) } }
    }

    /// The rectangle moved by `d`, each coordinate saturating.
    pub open spec fn spec_translate(self, d: Vec2) -> Rect {
        Rect {
            min: Vec2 {
                x: sat_add_spec(self.min.x as int, d.x as int) as i64,
                y: sat_add_spec(self.min.y as int, d.y as int) as i64,
            },
            max: Vec2 {
                x: sat_add_spec(self.max.x as int, d.x as int) as i64,
                y: sat_add_spec(self.max.y as int, d.y as int) as i64,
            },
        }
    }

    /// Moves the rectangle by `d`.
    pub fn translate(&self, d: Vec2) -> (r: Rect)
        ensures
            r == self.spec_translate(d),
    {
        Rect {
            min: Vec2 { x: sat_add(self.min.x, d.x), y: sat_add(self.min.y, d.y) },
            max: Vec2 { x: sat_add(self.max.x, d.x), y: sat_add(self.max.y, d.y) },
        }
    }
}

/// A display color with one byte per channel.
#[derive(Clone, Copy, PartialEq, Eq, Structural, Debug)]
pub struct Color {
    pub r: u8,
    pub g: u8,
    pub b: u8,
    pub a: u8,
}

impl Color {
    /// The color newly spawned entities get.
    pub open spec fn spec_green() -> Color {
        Color { r: 0, g: 255, b: 0, a: 255 }
    }

    /// Opaque green.
    pub fn green() -> (c: Color)
        ensures
            c == Self::spec_green(),
    {
        Color { r: 0, g: 255, b: 0, a: 255 }
    }

    /// The color the controlled entity is drawn with.
    pub open spec fn spec_red() -> Color {
        Color { r: 255, g: 0, b: 0, a: 255 }
    }

    /// Opaque red.
    pub fn red() -> (c: Color)
        ensures
            c == Self::spec_red(),
    {
        Color { r: 255, g: 0, b: 0, a: 255 }
    }
}

} // verus!
