use vstd::prelude::*;
use crate::fov::Point;

verus! {

/// Grid coordinates of an entity; kept within `[0, W) x [0, H)`.
#[derive(Clone, Copy, Debug, PartialEq, Eq, Structural)]
pub struct Position {
    pub x: i16,
    pub y: i16,
}

/// A color channel triple handed to the rendering collaborator; the core
/// never reads it.
#[derive(Clone, Copy, Debug, PartialEq, Eq, Structural)]
pub struct Color {
    pub r: u8,
    pub g: u8,
    pub b: u8,
}

/// What the rendering collaborator draws for an entity; the core only
/// copies it out.
#[derive(Clone, Copy, Debug, PartialEq, Eq, Structural)]
pub struct Renderable {
    pub glyph: u16,
    pub fg: Color,
    pub bg: Color,
}

/// Zero-size tag marking the one controllable entity.
#[derive(Clone, Copy, Debug, PartialEq, Eq, Structural)]
pub struct Player {}

/// Per-entity cached field-of-view: the visible tiles, the sight range, and
/// whether the cache is stale. A viewshed starts stale, is invalidated by
/// movement, and is cleaned only by a visibility pass.
#[derive(Clone, Debug)]
pub struct Viewshed {
    pub visible_tiles: Vec<Point>,
    pub range: u32,
    pub dirty: bool,
}

} // verus!
