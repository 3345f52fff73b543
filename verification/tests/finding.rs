use line_layout::geometry::{point, Pixels, Point};
use line_layout::inline_lists::{WrapBoundaries, WrapBoundary};
use line_layout::layout::{FontId, GlyphId, LineLayout, ShapedGlyph, ShapedRun};
use line_layout::wrapped::WrappedLineLayout;
use std::sync::Arc;

fn px(length: f32) -> Pixels {
    Pixels {
        units: (length as f64 * 4294967296.0) as i64,
    }
}

fn at(x: f32, y: f32) -> Point<Pixels> {
    point(px(x), px(y))
}

fn run(font: usize, glyphs: &[(usize, f32)]) -> ShapedRun {
    let mut shaped = Vec::new();
    for (index, x) in glyphs {
        shaped.push(ShapedGlyph {
            id: GlyphId(1),
            position: at(*x, 0.),
            index: *index,
            is_emoji: false,
        });
    }
    ShapedRun {
        font_id: FontId(font),
        glyphs: shaped,
    }
}

fn line(runs: Vec<ShapedRun>, width: f32, len: usize) -> LineLayout {
    LineLayout {
        font_size: px(12.),
        width: px(width),
        ascent: px(9.),
        descent: px(3.),
        runs,
        len,
    }
}

/// Three letters in two runs, each ten pixels wide.
fn abc() -> LineLayout {
    line(
        vec![run(4, &[(0, 0.), (1, 10.)]), run(5, &[]), run(6, &[(2, 20.)])],
        30.,
        3,
    )
}

/// Six letters, wrapped before the third and before the fifth.
fn wrapped() -> WrappedLineLayout {
    let layout = line(
        vec![
            run(0, &[(0, 0.), (1, 10.), (2, 20.)]),
            run(1, &[(3, 30.), (4, 40.), (5, 50.)]),
        ],
        60.,
        6,
    );
    WrappedLineLayout {
        unwrapped_layout: Arc::new(layout),
        wrap_boundaries: WrapBoundaries::from_slice(&[
            WrapBoundary { run_ix: 0, glyph_ix: 2 },
            WrapBoundary { run_ix: 1, glyph_ix: 1 },
        ]),
        wrap_width: Some(px(25.)),
    }
}

#[test]
fn index_for_x_is_the_glyph_under_x() {
    let layout = abc();
    assert_eq!(layout.index_for_x(px(0.)), Some(0));
    assert_eq!(layout.index_for_x(px(9.5)), Some(0));
    assert_eq!(layout.index_for_x(px(10.)), Some(1));
    assert_eq!(layout.index_for_x(px(29.5)), Some(2));
    assert_eq!(layout.index_for_x(px(30.)), None);
    assert_eq!(layout.index_for_x(px(31.)), None);
    assert_eq!(layout.index_for_x(px(-5.)), Some(0));
}

#[test]
fn index_for_x_left_of_all_glyphs_is_zero() {
    let layout = line(vec![run(0, &[(3, 8.), (4, 12.)])], 20., 5);
    assert_eq!(layout.index_for_x(px(7.5)), Some(0));
    assert_eq!(layout.index_for_x(px(8.)), Some(3));
    assert_eq!(line(vec![], 20., 5).index_for_x(px(1.)), Some(0));
}

#[test]
fn index_for_x_takes_the_last_of_glyphs_in_one_place() {
    let layout = line(vec![run(0, &[(0, 0.), (4, 0.), (8, 0.)])], 14., 12);
    assert_eq!(layout.index_for_x(px(0.)), Some(8));
    assert_eq!(layout.x_for_index(8), px(0.));
}

#[test]
fn closest_index_for_x_goes_to_the_nearer_edge() {
    let layout = abc();
    assert_eq!(layout.closest_index_for_x(px(0.)), 0);
    assert_eq!(layout.closest_index_for_x(px(4.)), 0);
    assert_eq!(layout.closest_index_for_x(px(5.)), 0);
    assert_eq!(layout.closest_index_for_x(px(5.5)), 1);
    assert_eq!(layout.closest_index_for_x(px(14.)), 1);
    assert_eq!(layout.closest_index_for_x(px(16.)), 2);
    assert_eq!(layout.closest_index_for_x(px(20.)), 2);
    assert_eq!(layout.closest_index_for_x(px(-3.)), 0);
}

#[test]
fn the_end_of_the_text_is_a_boundary_too() {
    let layout = abc();
    assert_eq!(layout.closest_index_for_x(px(20.5)), 2);
    assert_eq!(layout.closest_index_for_x(px(25.)), 2);
    assert_eq!(layout.closest_index_for_x(px(25.5)), 3);
    assert_eq!(layout.closest_index_for_x(px(30.)), 3);
    assert_eq!(layout.closest_index_for_x(px(100.)), 3);
    let ab = line(vec![run(0, &[(0, 0.), (1, 10.)])], 20., 2);
    assert_eq!(ab.closest_index_for_x(px(11.)), 1);
    assert_eq!(ab.closest_index_for_x(px(16.)), 2);
    assert_eq!(line(vec![], 0., 0).closest_index_for_x(px(1.)), 0);
    assert_eq!(line(vec![], 10., 4).closest_index_for_x(px(5.)), 0);
    assert_eq!(line(vec![], 10., 4).closest_index_for_x(px(6.)), 4);
}

#[test]
fn no_boundary_is_closer_than_the_closest() {
    let layout = line(vec![run(0, &[(0, 0.), (1, 7.), (4, 9.)]), run(1, &[(5, 20.)])], 26., 8);
    let boundaries = [(0, 0.), (1, 7.), (4, 9.), (5, 20.), (8, 26.)];
    for tenth in -50..350 {
        let x = tenth as f32 / 10.;
        let found = layout.closest_index_for_x(px(x));
        let mut distance = f32::MAX;
        let mut closest = f32::MAX;
        for (index, at) in boundaries {
            let off: f32 = at - x;
            if index == found {
                distance = off.abs();
            }
            closest = closest.min(off.abs());
        }
        assert!(distance - closest < 0.001, "at {}", x);
    }
}

#[test]
fn a_single_byte_is_halved() {
    let layout = line(vec![run(0, &[(0, 0.)])], 9., 1);
    assert_eq!(layout.closest_index_for_x(px(0.)), 0);
    assert_eq!(layout.closest_index_for_x(px(4.5)), 0);
    assert_eq!(layout.closest_index_for_x(px(4.75)), 1);
    assert_eq!(layout.closest_index_for_x(px(20.)), 1);
}

#[test]
fn the_furthest_coordinates_are_weighed_exactly() {
    let mut layout = abc();
    layout.runs[0].glyphs[0].position.x = Pixels { units: i64::MIN };
    layout.runs[0].glyphs[1].position.x = Pixels { units: i64::MAX };
    assert_eq!(layout.closest_index_for_x(Pixels { units: -1 }), 0);
    assert_eq!(layout.closest_index_for_x(Pixels { units: 0 }), 1);
}

#[test]
fn x_for_index_is_where_the_glyph_starts() {
    let layout = abc();
    assert_eq!(layout.x_for_index(0), px(0.));
    assert_eq!(layout.x_for_index(1), px(10.));
    assert_eq!(layout.x_for_index(2), px(20.));
    assert_eq!(layout.x_for_index(3), px(30.));
    assert_eq!(layout.x_for_index(100), px(30.));
    // An index inside a ligature goes to the next glyph.
    let ligature = line(vec![run(0, &[(0, 0.), (2, 14.)])], 21., 3);
    assert_eq!(ligature.x_for_index(1), px(14.));
}

#[test]
fn font_id_for_index_is_the_font_of_the_run() {
    let layout = abc();
    assert_eq!(layout.font_id_for_index(0), Some(FontId(4)));
    assert_eq!(layout.font_id_for_index(1), Some(FontId(4)));
    assert_eq!(layout.font_id_for_index(2), Some(FontId(6)));
    assert_eq!(layout.font_id_for_index(3), None);
}

#[test]
fn indices_and_coordinates_lead_back_to_each_other() {
    let layout = abc();
    for index in 0..3 {
        assert_eq!(layout.index_for_x(layout.x_for_index(index)), Some(index));
        assert_eq!(layout.closest_index_for_x(layout.x_for_index(index)), index);
    }
    assert!(layout.x_for_index(1) <= layout.x_for_index(2));
    assert_eq!(layout.x_for_index(layout.len), layout.width);
    assert_eq!(layout.closest_index_for_x(layout.x_for_index(layout.len)), layout.len);
    assert!(layout.index_for_x(px(3.)) <= layout.index_for_x(px(23.)));
}

#[test]
fn the_default_layout_is_empty() {
    let layout = LineLayout::default();
    assert_eq!(layout.width, px(0.));
    assert_eq!(layout.font_size, px(0.));
    assert_eq!(layout.len, 0);
    assert!(layout.runs.is_empty());
    let wrapped = WrappedLineLayout::default();
    assert_eq!(wrapped.len(), 0);
    assert_eq!(wrapped.wrap_width, None);
    assert!(wrapped.wrap_boundaries().is_empty());
    assert_eq!(wrapped.position_for_index(0, px(20.)), Some(at(0., 0.)));
    assert_eq!(wrapped.index_for_position(at(0., 0.), px(20.)), Err(0));
}

#[test]
fn a_wrapped_line_tells_its_measures() {
    let wrapped = wrapped();
    assert_eq!(wrapped.len(), 6);
    assert_eq!(wrapped.width(), px(25.));
    assert_eq!(wrapped.ascent(), px(9.));
    assert_eq!(wrapped.descent(), px(3.));
    assert_eq!(wrapped.font_size(), px(12.));
    assert_eq!(wrapped.runs().len(), 2);
    assert_eq!(wrapped.runs()[1].font_id, FontId(1));
    let size = wrapped.size(px(20.));
    assert_eq!(size.width, px(25.));
    assert_eq!(size.height, px(60.));
    assert_eq!(
        wrapped.wrap_boundaries(),
        &[
            WrapBoundary { run_ix: 0, glyph_ix: 2 },
            WrapBoundary { run_ix: 1, glyph_ix: 1 },
        ]
    );
}

#[test]
fn a_line_is_no_wider_than_its_layout() {
    let mut wrapped = wrapped();
    wrapped.wrap_width = Some(px(100.));
    assert_eq!(wrapped.width(), px(60.));
    wrapped.wrap_width = None;
    assert_eq!(wrapped.width(), px(60.));
}

#[test]
fn index_for_position_is_the_glyph_at_the_place() {
    let wrapped = wrapped();
    let height = px(20.);
    assert_eq!(wrapped.index_for_position(at(5., 5.), height), Ok(0));
    assert_eq!(wrapped.index_for_position(at(15., 25.), height), Ok(3));
    assert_eq!(wrapped.index_for_position(at(0., 40.), height), Ok(4));
    assert_eq!(wrapped.index_for_position(at(19.5, 59.5), height), Ok(5));
    // Above the first line counts as the first line.
    assert_eq!(wrapped.index_for_position(at(15., -5.), height), Ok(1));
}

#[test]
fn index_for_position_outside_the_lines_is_an_error() {
    let wrapped = wrapped();
    let height = px(20.);
    // Left of a line, right of a line, right of the last line, below the last line.
    assert_eq!(wrapped.index_for_position(at(-1., 5.), height), Err(0));
    assert_eq!(wrapped.index_for_position(at(-1., 25.), height), Err(2));
    assert_eq!(wrapped.index_for_position(at(20., 5.), height), Err(2));
    assert_eq!(wrapped.index_for_position(at(25., 25.), height), Err(4));
    assert_eq!(wrapped.index_for_position(at(20., 45.), height), Err(6));
    assert_eq!(wrapped.index_for_position(at(5., 60.), height), Err(0));
    assert_eq!(wrapped.closest_index_for_position(at(5., 60.), height), Err(0));
    assert_eq!(wrapped.closest_index_for_position(at(-1., 45.), height), Err(4));
}

#[test]
fn closest_index_for_position_goes_to_the_nearer_edge() {
    let wrapped = wrapped();
    let height = px(20.);
    assert_eq!(wrapped.closest_index_for_position(at(4., 25.), height), Ok(2));
    assert_eq!(wrapped.closest_index_for_position(at(6., 25.), height), Ok(3));
    assert_eq!(wrapped.closest_index_for_position(at(16., 25.), height), Ok(4));
    assert_eq!(wrapped.closest_index_for_position(at(14., 45.), height), Ok(5));
    assert_eq!(wrapped.closest_index_for_position(at(16., 45.), height), Ok(6));
    let ab = WrappedLineLayout {
        unwrapped_layout: Arc::new(line(vec![run(0, &[(0, 0.), (1, 10.)])], 20., 2)),
        ..Default::default()
    };
    assert_eq!(ab.closest_index_for_position(at(11., 0.), height), Ok(1));
}

#[test]
fn lines_without_height_are_passed_at_once() {
    let wrapped = wrapped();
    assert_eq!(wrapped.index_for_position(at(5., 1.), px(0.)), Err(0));
    assert_eq!(wrapped.index_for_position(at(15., 0.), px(0.)), Ok(1));
    assert_eq!(wrapped.index_for_position(at(15., -1.), px(0.)), Ok(1));
    // A negative height counts lines upwards.
    assert_eq!(wrapped.index_for_position(at(5., -25.), px(-20.)), Ok(2));
    assert_eq!(wrapped.index_for_position(at(5., 25.), px(-20.)), Ok(0));
}

#[test]
fn position_for_index_is_in_the_line_of_the_index() {
    let wrapped = wrapped();
    let height = px(20.);
    assert_eq!(wrapped.position_for_index(0, height), Some(at(0., 0.)));
    assert_eq!(wrapped.position_for_index(1, height), Some(at(10., 0.)));
    // Where one line ends and the next starts, it is the end of the first.
    assert_eq!(wrapped.position_for_index(2, height), Some(at(20., 0.)));
    assert_eq!(wrapped.position_for_index(3, height), Some(at(10., 20.)));
    assert_eq!(wrapped.position_for_index(4, height), Some(at(20., 20.)));
    assert_eq!(wrapped.position_for_index(5, height), Some(at(10., 40.)));
    assert_eq!(wrapped.position_for_index(6, height), Some(at(20., 40.)));
    assert_eq!(wrapped.position_for_index(7, height), None);
}

#[test]
fn lines_that_go_back_are_passed_in_order() {
    let mut wrapped = wrapped();
    wrapped.wrap_boundaries = WrapBoundaries::from_slice(&[
        WrapBoundary { run_ix: 1, glyph_ix: 1 },
        WrapBoundary { run_ix: 0, glyph_ix: 1 },
    ]);
    assert_eq!(wrapped.position_for_index(4, px(20.)), Some(at(40., 0.)));
    // Past the second line, which ends with 1, the third starts with 1.
    assert_eq!(wrapped.position_for_index(5, px(20.)), Some(at(40., 40.)));
    assert_eq!(wrapped.position_for_index(9, px(20.)), None);
}

#[test]
fn positions_lead_back_to_their_indices() {
    let wrapped = wrapped();
    let height = px(20.);
    for index in 0..7 {
        let position = wrapped.position_for_index(index, height).unwrap();
        let found = wrapped.index_for_position(position, height);
        if index == 2 || index == 4 || index == 6 {
            assert_eq!(found, Err(index));
        } else {
            assert_eq!(found, Ok(index));
        }
    }
}
