//! The border ring: a screen's edge pixels numbered clockwise from the
//! top-left corner (top left to right, right top to bottom, bottom right to
//! left, left bottom to top), and the mapping between ring positions and
//! screen coordinates.

use vstd::prelude::*;

verus! {

/// Pixel dimensions of the captured screen.
#[derive(Clone, Copy, Debug, PartialEq, Eq)]
pub struct ScreenGeometry {
    pub x_res: u32,
    pub y_res: u32,
}

impl ScreenGeometry {
    /// Number of positions on the ring: each border pixel once per side.
    pub open spec fn ring_len(self) -> int {
        2 * (self.x_res + self.y_res)
    }

    /// Both dimensions are positive and every ring position fits in a `u32`.
    pub open spec fn wf(self) -> bool {
        &&& self.x_res > 0
        &&& self.y_res > 0
        &&& self.ring_len() <= u32::MAX
    }
}

/// One of the four edges of the screen, in ring order.
#[derive(Clone, Copy, Debug, PartialEq, Eq)]
pub enum ScreenSide {
    Top,
    Right,
    Bottom,
    Left,
}

/// A pixel of the screen.
#[derive(Clone, Copy, Debug, PartialEq, Eq)]
pub struct ScreenCoord {
    pub x: u32,
    pub y: u32,
}

/// Ring position at which a side starts: the total length of the sides before it.
pub open spec fn side_offset(side: ScreenSide, g: ScreenGeometry) -> int {
    match side {
        ScreenSide::Top => 0,
        ScreenSide::Right => g.x_res as int,
        ScreenSide::Bottom => g.x_res + g.y_res,
        ScreenSide::Left => 2 * g.x_res + g.y_res,
    }
}

/// Number of pixels along a side.
pub open spec fn side_len(side: ScreenSide, g: ScreenGeometry) -> int {
    match side {
        ScreenSide::Top | ScreenSide::Bottom => g.x_res as int,
        ScreenSide::Right | ScreenSide::Left => g.y_res as int,
    }
}

/// Ring position of the pixel at `border_coord` along a side; the bottom and
/// left sides are walked against their coordinate.
pub open spec fn border_to_linear(side: ScreenSide, g: ScreenGeometry, border_coord: int) -> int {
    match side {
        ScreenSide::Top | ScreenSide::Right => side_offset(side, g) + border_coord,
        ScreenSide::Bottom | ScreenSide::Left => side_offset(side, g) + side_len(side, g)
            - border_coord - 1,
    }
}

/// The coordinate of a pixel that runs along a side.
pub open spec fn along_side(c: ScreenCoord, side: ScreenSide) -> int {
    match side {
        ScreenSide::Top | ScreenSide::Bottom => c.x as int,
        ScreenSide::Right | ScreenSide::Left => c.y as int,
    }
}

/// Ring position of a pixel read as lying on `side`.
pub open spec fn coord_to_linear(c: ScreenCoord, side: ScreenSide, g: ScreenGeometry) -> int {
    border_to_linear(side, g, along_side(c, side))
}

/// The side that holds a ring position.
pub open spec fn side_of_linear(linear: int, g: ScreenGeometry) -> ScreenSide {
    if linear < g.x_res {
        ScreenSide::Top
    } else if linear < g.x_res + g.y_res {
        ScreenSide::Right
    } else if linear < 2 * g.x_res + g.y_res {
        ScreenSide::Bottom
    } else {
        ScreenSide::Left
    }
}

/// A depth inward from `side` that stays on the screen.
pub open spec fn depth_fits(side: ScreenSide, g: ScreenGeometry, depth: int) -> bool {
    match side {
        ScreenSide::Right => depth < g.x_res,
        ScreenSide::Bottom => depth < g.y_res,
        ScreenSide::Top | ScreenSide::Left => true,
    }
}

/// The pixel `depth` pixels inward from the border at a ring position.
pub open spec fn linear_to_screen(linear: int, g: ScreenGeometry, depth: int) -> ScreenCoord {
    let side = side_of_linear(linear, g);
    let local = linear - side_offset(side, g);
    match side {
        ScreenSide::Top => ScreenCoord { x: linear as u32, y: depth as u32 },
        ScreenSide::Right => ScreenCoord { x: (g.x_res - 1 - depth) as u32, y: local as u32 },
        ScreenSide::Bottom => ScreenCoord {
            x: (g.x_res - local - 1) as u32,
            y: (g.y_res - 1 - depth) as u32,
        },
        ScreenSide::Left => ScreenCoord { x: depth as u32, y: (g.y_res - local - 1) as u32 },
    }
}

impl ScreenSide {
    /// Ring position at which the side starts.
    pub fn get_offset(&self, screen: &ScreenGeometry) -> (r: u32)
        requires
            screen.wf(),
        ensures
            r == side_offset(*self, *screen),
    {
        match self {
            ScreenSide::Top => 0,
            ScreenSide::Right => screen.x_res,
            ScreenSide::Bottom => screen.x_res + screen.y_res,
            ScreenSide::Left => 2 * screen.x_res + screen.y_res,
        }
    }

    /// Number of pixels along the side.
    pub fn get_side_res(&self, screen: &ScreenGeometry) -> (r: u32)
        ensures
            r == side_len(*self, *screen),
    {
        match self {
            ScreenSide::Top | ScreenSide::Bottom => screen.x_res,
            ScreenSide::Right | ScreenSide::Left => screen.y_res,
        }
    }

    /// Ring position of the pixel at `border_coord` along the side.
    pub fn get_linear_from_border_coord(&self, screen: &ScreenGeometry, border_coord: u32) -> (r:
        u32)
        requires
            screen.wf(),
            border_coord < side_len(*self, *screen),
        ensures
            r == border_to_linear(*self, *screen, border_coord as int),
            side_offset(*self, *screen) <= r < side_offset(*self, *screen) + side_len(
                *self,
                *screen,
            ),
    {
        match self {
            ScreenSide::Top | ScreenSide::Right => self.get_offset(screen) + border_coord,
            ScreenSide::Bottom | ScreenSide::Left => self.get_offset(screen) + self.get_side_res(
                screen,
            ) - border_coord - 1,
        }
    }
}

impl ScreenCoord {
    /// Ring position of the pixel read as lying on `side`.
    pub fn convert_to_linear_coord(&self, side: &ScreenSide, screen: &ScreenGeometry) -> (r: u32)
        requires
            screen.wf(),
            along_side(*self, *side) < side_len(*side, *screen),
        ensures
            r == coord_to_linear(*self, *side, *screen),
    {
        match side {
            ScreenSide::Top | ScreenSide::Bottom => side.get_linear_from_border_coord(
                screen,
                self.x,
            ),
            ScreenSide::Right | ScreenSide::Left => side.get_linear_from_border_coord(
                screen,
                self.y,
            ),
        }
    }
}

/// The side that holds a ring position.
pub fn get_side_from_linear(linear: u32, screen: &ScreenGeometry) -> (r: ScreenSide)
    requires
        screen.wf(),
    ensures
        r == side_of_linear(linear as int, *screen),
{
    if linear < ScreenSide::Right.get_offset(screen) {
        ScreenSide::Top
    } else if linear < ScreenSide::Bottom.get_offset(screen) {
        ScreenSide::Right
    } else if linear < ScreenSide::Left.get_offset(screen) {
        ScreenSide::Bottom
    } else {
        ScreenSide::Left
    }
}

/// The pixel `depth` pixels inward from the border at a ring position.
pub fn convert_linear_coord_to_screen_coord(linear: u32, screen: &ScreenGeometry, depth: u32) -> (r:
    ScreenCoord)
    requires
        screen.wf(),
        linear < screen.ring_len(),
        depth_fits(side_of_linear(linear as int, *screen), *screen, depth as int),
    ensures
        r == linear_to_screen(linear as int, *screen, depth as int),
{
    let current_side = get_side_from_linear(linear, screen);
    let x = match current_side {
        ScreenSide::Top => linear,
        ScreenSide::Right => screen.x_res - 1 - depth,
        ScreenSide::Bottom => screen.x_res - (linear - current_side.get_offset(screen)) - 1,
        ScreenSide::Left => depth,
    };
    let y = match current_side {
        ScreenSide::Top => depth,
        ScreenSide::Right => linear - current_side.get_offset(screen),
        ScreenSide::Bottom => screen.y_res - 1 - depth,
        ScreenSide::Left => screen.y_res - (linear - current_side.get_offset(screen)) - 1,
    };
    ScreenCoord { x, y }
}

/// Orders two opposite corners of a rectangle as (least corner, greatest corner).
pub fn switch_corners(corner_1: ScreenCoord, corner_2: ScreenCoord) -> (r: (ScreenCoord, ScreenCoord))
    ensures
        r.0.x == min_u32(corner_1.x, corner_2.x),
        r.0.y == min_u32(corner_1.y, corner_2.y),
        r.1.x == max_u32(corner_1.x, corner_2.x),
        r.1.y == max_u32(corner_1.y, corner_2.y),
{
    (
        ScreenCoord {
            x: if corner_1.x < corner_2.x { corner_1.x } else { corner_2.x },
            y: if corner_1.y < corner_2.y { corner_1.y } else { corner_2.y },
        },
        ScreenCoord {
            x: if corner_1.x < corner_2.x { corner_2.x } else { corner_1.x },
            y: if corner_1.y < corner_2.y { corner_2.y } else { corner_1.y },
        },
    )
}

pub open spec fn min_u32(a: u32, b: u32) -> u32 {
    if a < b { a } else { b }
}

pub open spec fn max_u32(a: u32, b: u32) -> u32 {
    if a < b { b } else { a }
}

} // verus!
