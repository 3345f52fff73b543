use line_layout::geometry::{point, px, Pixels, Point, Size, UNITS_PER_PIXEL};

#[test]
fn a_pixel_has_its_units() {
    assert_eq!(px(1).units, UNITS_PER_PIXEL);
    assert_eq!(px(-3).units, -3 * UNITS_PER_PIXEL);
    assert_eq!(Pixels::zero(), px(0));
    assert_eq!(Pixels::default(), px(0));
    assert_eq!(px(i32::MAX).units, i32::MAX as i64 * UNITS_PER_PIXEL);
}

#[test]
fn lengths_add_up() {
    assert_eq!(px(3).plus(px(4)), px(7));
    assert_eq!(px(3).minus(px(4)), px(-1));
    assert_eq!(px(7).times(3), px(21));
    assert_eq!(px(7).times(0), px(0));
    assert_eq!(px(2).smaller(px(3)), px(2));
    assert_eq!(px(3).smaller(px(-3)), px(-3));
}

#[test]
fn lengths_stop_at_their_ends() {
    let most = Pixels::max_value();
    let least = Pixels { units: i64::MIN };
    assert_eq!(most.plus(px(1)), most);
    assert_eq!(least.minus(px(1)), least);
    assert_eq!(most.times(2), most);
    assert_eq!(least.times(2), least);
    assert_eq!(Pixels::saturating(i128::MAX), most);
    assert_eq!(Pixels::saturating(i128::MIN), least);
    assert_eq!(Pixels::saturating(5), Pixels { units: 5 });
}

#[test]
fn optional_lengths_are_compared() {
    assert!(Pixels::same_option(None, None));
    assert!(Pixels::same_option(Some(px(1)), Some(px(1))));
    assert!(!Pixels::same_option(Some(px(1)), Some(px(2))));
    assert!(!Pixels::same_option(Some(px(1)), None));
    assert!(!Pixels::same_option(None, Some(px(1))));
}

#[test]
fn points_and_sizes_hold_what_they_are_given() {
    assert_eq!(point(px(1), px(2)), Point { x: px(1), y: px(2) });
    let size = Size { width: px(1), height: px(2) };
    assert_ne!(size.width, size.height);
}
