use vstd::prelude::*;

use crate::components::ColorPair;
use crate::point::Point;

verus! {

/// One deferred rendering command for the host's presentation layer:
/// either a glyph cell or a line of text, on a console layer, ordered by a
/// z-sort key (lower keys are flushed first).
pub enum DrawCommand {
    SetGlyph { layer: u32, z: u32, pos: Point, color: ColorPair, glyph: u16 },
    PrintText { layer: u32, z: u32, pos: Point, text: String },
}

} // verus!
