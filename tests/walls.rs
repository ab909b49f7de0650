use gravitati::walls::{preview_steps, wall_rule, AxisRule, Side, WallRule};

#[test]
fn inside_the_bounds_everything_carries() {
    let r = wall_rule(false, false, false, false);
    let carry = AxisRule { side: Side::Inside, friction: false };
    assert_eq!(r, WallRule { x: carry, y: carry });
}

#[test]
fn crossing_the_bottom_bounces_up_with_friction_on_x() {
    let r = wall_rule(false, false, false, true);
    assert_eq!(r.y, AxisRule { side: Side::High, friction: false });
    assert_eq!(r.x, AxisRule { side: Side::Inside, friction: true });
}

#[test]
fn crossing_the_top_bounces_down() {
    let r = wall_rule(false, false, true, false);
    assert_eq!(r.y.side, Side::Low);
    assert!(r.x.friction);
    assert!(!r.y.friction);
}

#[test]
fn crossing_left_and_right_walls() {
    let left = wall_rule(true, false, false, false);
    assert_eq!(left.x, AxisRule { side: Side::Low, friction: false });
    assert_eq!(left.y, AxisRule { side: Side::Inside, friction: true });
    let right = wall_rule(false, true, false, false);
    assert_eq!(right.x.side, Side::High);
    assert!(right.y.friction);
}

#[test]
fn a_corner_bounces_on_both_axes() {
    let r = wall_rule(false, true, false, true);
    assert_eq!(r.x, AxisRule { side: Side::High, friction: false });
    assert_eq!(r.y, AxisRule { side: Side::High, friction: false });
    let r = wall_rule(true, false, true, false);
    assert_eq!(r.x, AxisRule { side: Side::Low, friction: false });
    assert_eq!(r.y, AxisRule { side: Side::Low, friction: false });
}

#[test]
fn preview_takes_ten_steps_per_second() {
    assert_eq!(preview_steps(4), 40);
    assert_eq!(preview_steps(1), 10);
    assert_eq!(preview_steps(0), 0);
    assert_eq!(preview_steps(-3), 0);
    assert_eq!(preview_steps(i64::MAX / 10), (i64::MAX / 10) as u64 * 10);
}
