use vstd::prelude::*;

use crate::point::Point;

verus! {

/// An RGB color.
#[derive(Clone, Copy, PartialEq, Eq, Structural, Debug)]
pub struct Color {
    pub r: u8,
    pub g: u8,
    pub b: u8,
}

/// Foreground and background colors of a glyph.
#[derive(Clone, Copy, PartialEq, Eq, Structural, Debug)]
pub struct ColorPair {
    pub fg: Color,
    pub bg: Color,
}

/// The color white.
pub fn white() -> (c: Color)
    ensures
        c.r == 255 && c.g == 255 && c.b == 255,
{
    Color { r: 255, g: 255, b: 255 }
}

/// The color black.
pub fn black() -> (c: Color)
    ensures
        c.r == 0 && c.g == 0 && c.b == 0,
{
    Color { r: 0, g: 0, b: 0 }
}

/// How an entity is drawn: a glyph code and its colors.
#[derive(Clone, Copy, PartialEq, Eq, Structural, Debug)]
pub struct Render {
    pub color: ColorPair,
    pub glyph: u16,
}

/// Hit points: `current` may drop below zero transiently during a combat
/// stage, before destruction is applied; it never exceeds `max`.
#[derive(Clone, Copy, PartialEq, Eq, Structural, Debug)]
pub struct Health {
    pub current: i32,
    pub max: i32,
}

/// A display name.
pub struct Name {
    pub value: String,
}

/// A viewer's cached field of view: the set of visible cells, the sight
/// radius, and a dirty flag that marks the cache stale. The cache is
/// recomputed exactly when the flag is set, and the flag is cleared right
/// after.
pub struct FieldOfView {
    pub visible_tiles: Vec<Point>,
    pub radius: i32,
    pub is_dirty: bool,
}

impl FieldOfView {
    /// A fresh, stale field of view with the given radius.
    pub fn new(radius: i32) -> (f: FieldOfView)
        ensures
            f.radius == radius,
            f.is_dirty,
            f.visible_tiles@.len() == 0,
    {
        FieldOfView { visible_tiles: Vec::new(), radius, is_dirty: true }
    }

    /// A stale copy: same radius, empty cache, marked dirty.
    pub fn clone_dirty(&self) -> (f: FieldOfView)
        ensures
            f.radius == self.radius,
            f.is_dirty,
            f.visible_tiles@.len() == 0,
    {
        FieldOfView { visible_tiles: Vec::new(), radius: self.radius, is_dirty: true }
    }
}

/// Intent: the entity asks to move to `destination`. Consumed, applied or
/// not, by movement resolution.
#[derive(Clone, Copy, PartialEq, Eq, Structural, Debug)]
pub struct WantsToMove {
    pub entity: usize,
    pub destination: Point,
}

/// Intent: `attacker` asks to strike `victim`. Consumed by combat
/// resolution.
#[derive(Clone, Copy, PartialEq, Eq, Structural, Debug)]
pub struct WantsToAttack {
    pub attacker: usize,
    pub victim: usize,
}

/// A directional key, or any other key press.
#[derive(Clone, Copy, PartialEq, Eq, Structural, Debug)]
pub enum InputKey {
    Left,
    Right,
    Up,
    Down,
    Other,
}

/// The unit move that a key asks for; a non-directional key asks for none.
pub open spec fn spec_key_delta(k: InputKey) -> (int, int) {
    match k {
        InputKey::Left => (-1, 0),
        InputKey::Right => (1, 0),
        InputKey::Up => (0, -1),
        InputKey::Down => (0, 1),
        InputKey::Other => (0, 0),
    }
}

/// The unit move that a key asks for.
pub fn key_delta(k: InputKey) -> (d: (i32, i32))
    ensures
        d.0 == spec_key_delta(k).0,
        d.1 == spec_key_delta(k).1,
{
    match k {
        InputKey::Left => (-1, 0),
        InputKey::Right => (1, 0),
        InputKey::Up => (0, -1),
        InputKey::Down => (0, 1),
        InputKey::Other => (0, 0),
    }
}

} // verus!
