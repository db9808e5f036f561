use vstd::prelude::*;

use crate::map::spec_in_bounds;
use crate::point::Point;
use crate::{DISPLAY_HEIGHT, DISPLAY_WIDTH};

verus! {

/// The viewport: a `DISPLAY_WIDTH` by `DISPLAY_HEIGHT` window into the map,
/// kept centered on the player.
pub struct Camera {
    pub left_x: i32,
    pub right_x: i32,
    pub top_y: i32,
    pub bottom_y: i32,
}

impl Camera {
    /// The viewport is the fixed-size window centered on `p`.
    pub open spec fn spec_centered_on(self, p: Point) -> bool {
        &&& self.left_x == p.x - DISPLAY_WIDTH / 2
        &&& self.right_x == p.x + DISPLAY_WIDTH / 2
        &&& self.top_y == p.y - DISPLAY_HEIGHT / 2
        &&& self.bottom_y == p.y + DISPLAY_HEIGHT / 2
    }

    /// The viewport has its fixed size and sits within one screen of the
    /// map: what holds of a camera centered on any on-map point.
    pub open spec fn wf(self) -> bool {
        &&& self.right_x - self.left_x == 2 * (DISPLAY_WIDTH / 2)
        &&& self.bottom_y - self.top_y == 2 * (DISPLAY_HEIGHT / 2)
        &&& -100 <= self.left_x <= 100
        &&& -100 <= self.top_y <= 100
    }

    /// A camera centered on the player's starting position.
    pub fn new(player_position: Point) -> (c: Camera)
        requires
            spec_in_bounds(player_position),
        ensures
            c.wf(),
            c.spec_centered_on(player_position),
    {
        Camera {
            left_x: player_position.x - DISPLAY_WIDTH / 2,
            right_x: player_position.x + DISPLAY_WIDTH / 2,
            top_y: player_position.y - DISPLAY_HEIGHT / 2,
            bottom_y: player_position.y + DISPLAY_HEIGHT / 2,
        }
    }

    /// Re-center the viewport on the player's new position.
    pub fn on_player_move(&mut self, player_position: Point)
        requires
            spec_in_bounds(player_position),
        ensures
            final(self).wf(),
            final(self).spec_centered_on(player_position),
    {
        self.left_x = player_position.x - DISPLAY_WIDTH / 2;
        self.right_x = player_position.x + DISPLAY_WIDTH / 2;
        self.top_y = player_position.y - DISPLAY_HEIGHT / 2;
        self.bottom_y = player_position.y + DISPLAY_HEIGHT / 2;
    }
}

} // verus!
