//! Corners of cells that do not turn: the four configurations of a corner,
//! and the walls and quadrants that go with each.

use vstd::prelude::*;
use crate::graph::NodePointer;
use crate::intersection::beyond;
use crate::math::{Axes, Vector};
use crate::partition::distance;
use crate::zorder::Cell;

verus! {

/// Which corner of its cell a corner is.
#[derive(Clone, Copy, Debug, PartialEq, Eq, Structural)]
pub enum Configurations {
    TopLeft,
    TopRight,
    BottomLeft,
    BottomRight,
}

impl Configurations {
    pub open spec fn spec_from_index(index: int) -> Configurations {
        if index == 0 {
            Configurations::TopLeft
        } else if index == 1 {
            Configurations::TopRight
        } else if index == 2 {
            Configurations::BottomLeft
        } else {
            Configurations::BottomRight
        }
    }

    /// The configuration with the given number: bit 0 set is right, bit 1 set
    /// is bottom.
    pub fn from_index(index: usize) -> (r: Self)
        requires
            index < 4,
        ensures
            r == Self::spec_from_index(index as int),
    {
        if index == 0 {
            Self::TopLeft
        } else if index == 1 {
            Self::TopRight
        } else if index == 2 {
            Self::BottomLeft
        } else {
            Self::BottomRight
        }
    }

    /// Whether the corner is on the left of its cell.
    pub open spec fn is_left(self) -> bool {
        self is TopLeft || self is BottomLeft
    }

    /// Whether the corner is at the top of its cell.
    pub open spec fn is_top(self) -> bool {
        self is TopLeft || self is TopRight
    }
}

/// A node of a tree, the cell it fills, and the depth of the grid that the
/// cell is counted in.
#[derive(Clone, Copy, Debug, PartialEq, Eq, Structural)]
pub struct LimPositionData {
    pub node_pointer: NodePointer,
    pub cell: Cell,
    pub depth: u32,
}

impl LimPositionData {
    pub fn new(node_pointer: NodePointer, cell: Cell, depth: u32) -> (r: Self)
        ensures
            r == (LimPositionData { node_pointer, cell, depth }),
    {
        Self { node_pointer, cell, depth }
    }
}

/// The axes along which a corner in `configuration` can be stopped while it
/// moves at `velocity`: on each axis it must move the way it faces.
pub open spec fn spec_hittable_walls(velocity: Vector, configuration: Configurations) -> Axes {
    Axes {
        x: if configuration.is_left() {
            velocity.x < 0
        } else {
            velocity.x > 0
        },
        y: if configuration.is_top() {
            velocity.y < 0
        } else {
            velocity.y > 0
        },
    }
}

/// See [`spec_hittable_walls`].
pub fn hittable_walls(velocity: Vector, configuration: Configurations) -> (r: Axes)
    ensures
        r == spec_hittable_walls(velocity, configuration),
{
    let (x_check, y_check) = match configuration {
        Configurations::TopLeft => (velocity.x < 0, velocity.y < 0),
        Configurations::TopRight => (velocity.x > 0, velocity.y < 0),
        Configurations::BottomLeft => (velocity.x < 0, velocity.y > 0),
        Configurations::BottomRight => (velocity.x > 0, velocity.y > 0),
    };
    Axes::new(x_check, y_check)
}

/// The axis to stop a corner along that runs into a corner head on: the one
/// it moves along more slowly; both where it moves along both alike.
pub open spec fn spec_mag_slide_check(velocity: Vector) -> Axes {
    Axes {
        x: distance(velocity.x as int) <= distance(velocity.y as int),
        y: distance(velocity.y as int) <= distance(velocity.x as int),
    }
}

/// See [`spec_mag_slide_check`].
pub fn mag_slide_check(velocity: Vector) -> (r: Axes)
    ensures
        r == spec_mag_slide_check(velocity),
{
    let abs_x: i128 = if velocity.x < 0 {
        -(velocity.x as i128)
    } else {
        velocity.x as i128
    };
    let abs_y: i128 = if velocity.y < 0 {
        -(velocity.y as i128)
    } else {
        velocity.y as i128
    };
    if abs_y < abs_x {
        Axes::new(false, true)
    } else if abs_x < abs_y {
        Axes::new(true, false)
    } else {
        Axes::both()
    }
}

/// Morton addressing of the quadrants around a point.
pub struct Zorder;

impl Zorder {
    /// The quadrant ahead of a corner in `configuration` that moves along
    /// `direction`. Moving on both axes, it is the quadrant ahead on both;
    /// moving along one axis, the quadrant ahead on that axis and, on the
    /// other, across the corner from its cell.
    pub open spec fn spec_from_configured_direction(
        direction: Vector,
        configuration: Configurations,
    ) -> int {
        if direction.x == 0 {
            2 * beyond(direction.y as int) + if configuration.is_left() {
                1int
            } else {
                0int
            }
        } else if direction.y == 0 {
            beyond(direction.x as int) + if configuration.is_top() {
                2int
            } else {
                0int
            }
        } else {
            2 * beyond(direction.y as int) + beyond(direction.x as int)
        }
    }

    /// See [`Zorder::spec_from_configured_direction`].
    pub fn from_configured_direction(direction: Vector, configuration: Configurations) -> (r: usize)
        ensures
            r == Self::spec_from_configured_direction(direction, configuration),
            r < 4,
    {
        let ahead_x: usize = if direction.x >= 0 {
            1
        } else {
            0
        };
        let ahead_y: usize = if direction.y >= 0 {
            1
        } else {
            0
        };
        if direction.x == 0 {
            2 * ahead_y + match configuration {
                Configurations::TopLeft | Configurations::BottomLeft => 1,
                _ => 0,
            }
        } else if direction.y == 0 {
            ahead_x + match configuration {
                Configurations::TopLeft | Configurations::TopRight => 2,
                _ => 0,
            }
        } else {
            2 * ahead_y + ahead_x
        }
    }
}

} // verus!
