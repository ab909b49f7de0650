use vstd::prelude::*;

verus! {

/// Where a position lies on one axis, relative to the two bounds of that axis.
#[derive(Clone, Copy, Debug, PartialEq, Eq, Structural)]
pub enum Side {
    /// Between the bounds, or on one of them.
    Inside,
    /// Past the lower bound (left, or top).
    Low,
    /// Past the upper bound (right, or bottom).
    High,
}

/// What the wall step stages on one axis.
///
/// `side` picks the position and velocity of the axis: `Inside` carries both
/// forward; `Low` moves the position just inside the lower bound and makes
/// the velocity `|v| * restitution`; `High` moves it just inside the upper
/// bound and makes the velocity `-(|v| * restitution)`. `friction` holds
/// only on an axis that does not bounce itself while the body bounces on the
/// other axis: its carried velocity is then scaled by `1 - friction`.
#[derive(Clone, Copy, Debug, PartialEq, Eq, Structural)]
pub struct AxisRule {
    pub side: Side,
    pub friction: bool,
}

/// What the wall step stages on both axes.
#[derive(Clone, Copy, Debug, PartialEq, Eq, Structural)]
pub struct WallRule {
    pub x: AxisRule,
    pub y: AxisRule,
}

/// The side of the bounds that a position lies on, from whether it is below
/// the lower bound and whether it is above the upper one.
pub open spec fn side_of(below: bool, above: bool) -> Side {
    if below {
        Side::Low
    } else if above {
        Side::High
    } else {
        Side::Inside
    }
}

/// The rule of the wall step for a body whose committed position is below
/// the lower bound or above the upper bound of each axis, as the four flags
/// say. Each axis is handled on its own: an axis that bounces is set by its
/// own bounce alone, and an axis that does not bounce loses friction when the
/// other one bounces. A body in a corner thus bounces on both axes and loses
/// no friction.
pub fn wall_rule(x_below: bool, x_above: bool, y_below: bool, y_above: bool) -> (r: WallRule)
    requires
        !(x_below && x_above),
        !(y_below && y_above),
    ensures
        r.x.side == side_of(x_below, x_above),
        r.y.side == side_of(y_below, y_above),
        r.x.friction == ((y_below || y_above) && !(x_below || x_above)),
        r.y.friction == ((x_below || x_above) && !(y_below || y_above)),
{
    let x = if x_below {
        Side::Low
    } else if x_above {
        Side::High
    } else {
        Side::Inside
    };
    let y = if y_above {
        Side::High
    } else if y_below {
        Side::Low
    } else {
        Side::Inside
    };
    WallRule {
        x: AxisRule { side: x, friction: y != Side::Inside && x == Side::Inside },
        y: AxisRule { side: y, friction: x != Side::Inside && y == Side::Inside },
    }
}

/// The number of steps of a trajectory preview over `seconds`: ten per
/// second, and none for a duration that is not positive.
pub fn preview_steps(seconds: i64) -> (r: u64)
    requires
        seconds <= i64::MAX / 10,
    ensures
        seconds > 0 ==> r == 10 * seconds,
        seconds <= 0 ==> r == 0,
{
    if seconds > 0 {
        (seconds as u64) * 10
    } else {
        0
    }
}

} // verus!
