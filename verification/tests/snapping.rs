use line_layout::geometry::{point, Pixels};
use line_layout::layout::{FontId, GlyphId, LineLayout, ShapedGlyph, ShapedRun};
use line_layout::snap::{
    fits_columns, snap_glyph_positions, ShapeLineOptions, SnapMode, SnapModeRef,
};
use std::collections::hash_map::DefaultHasher;
use std::hash::{Hash, Hasher};
use std::sync::Arc;

fn px(length: f32) -> Pixels {
    Pixels {
        units: (length as f64 * 4294967296.0) as i64,
    }
}

fn make_glyph(id: u32, index: usize, x: f32) -> ShapedGlyph {
    ShapedGlyph {
        id: GlyphId(id),
        position: point(px(x), px(0.)),
        index,
        is_emoji: false,
    }
}

fn single_run(glyphs: Vec<ShapedGlyph>) -> LineLayout {
    LineLayout {
        font_size: px(12.),
        width: px(0.),
        ascent: px(0.),
        descent: px(0.),
        runs: vec![ShapedRun {
            font_id: FontId(0),
            glyphs,
        }],
        len: 0,
    }
}

fn columns(table: Vec<u32>) -> SnapMode {
    SnapMode::ByteToColumn {
        byte_to_column: Arc::from(table),
    }
}

fn xs(layout: &LineLayout) -> Vec<Pixels> {
    let mut xs = Vec::new();
    for run in &layout.runs {
        for glyph in &run.glyphs {
            xs.push(glyph.position.x);
        }
    }
    xs
}

fn hash_of<T: Hash>(value: &T) -> u64 {
    let mut hasher = DefaultHasher::new();
    value.hash(&mut hasher);
    hasher.finish()
}

#[test]
fn snap_glyph_index_legacy_tolerance() {
    // Three glyphs at natural positions slightly off the grid, tolerance = 1px: small drifts
    // are not snapped.
    let cell = px(7.);
    let mut layout = single_run(vec![
        make_glyph(1, 0, 0.0),
        make_glyph(2, 1, 7.2),
        make_glyph(3, 2, 14.4),
    ]);
    layout.len = 3;
    snap_glyph_positions(&mut layout, cell, px(1.), &SnapMode::GlyphIndex, 3);
    let run = &layout.runs[0];
    assert_eq!(run.glyphs[0].position.x, px(0.0));
    assert_eq!(run.glyphs[1].position.x, px(7.2));
    assert_eq!(run.glyphs[2].position.x, px(14.4));
    assert_eq!(layout.width, px(21.));
}

#[test]
fn snap_glyph_index_strict_tolerance() {
    // With tolerance = 0, every glyph snaps to its GlyphIndex target.
    let cell = px(7.);
    let mut layout = single_run(vec![
        make_glyph(1, 0, 0.0),
        make_glyph(2, 1, 7.2246),
        make_glyph(3, 2, 14.4492),
    ]);
    layout.len = 3;
    snap_glyph_positions(&mut layout, cell, px(0.), &SnapMode::GlyphIndex, 3);
    let run = &layout.runs[0];
    assert_eq!(run.glyphs[0].position.x, px(0.));
    assert_eq!(run.glyphs[1].position.x, px(7.));
    assert_eq!(run.glyphs[2].position.x, px(14.));
    assert_eq!(layout.width, px(21.));
}

#[test]
fn snap_byte_to_column_ligature() {
    // An `==` ligature: 1 glyph spanning 2 bytes (2 columns), followed by one glyph at byte
    // index 2.
    let column_width = px(7.);
    let mut layout = single_run(vec![
        make_glyph(1, 0, 0.0),
        make_glyph(2, 2, 14.45),
    ]);
    layout.len = 3;
    let byte_to_column: Arc<[u32]> = Arc::from(vec![0, 1, 2, 3]);
    snap_glyph_positions(
        &mut layout,
        column_width,
        px(0.),
        &SnapMode::ByteToColumn { byte_to_column },
        3,
    );
    let run = &layout.runs[0];
    assert_eq!(run.glyphs[0].position.x, px(0.));
    // The next glyph snaps to byte_to_column[2] * column_width = 2 * 7 = 14, not 1 * 7 = 7.
    assert_eq!(run.glyphs[1].position.x, px(14.));
    // layout.width = byte_to_column[text_len] * column_width = 3 * 7 = 21.
    assert_eq!(layout.width, px(21.));
}

#[test]
fn snap_byte_to_column_multi_byte_non_ascii() {
    // Text "éa": `é` = 2 bytes (width-1 column), `a` = 1 byte (width-1 column).
    let column_width = px(7.);
    let mut layout = single_run(vec![
        make_glyph(1, 0, 0.0),
        make_glyph(2, 2, 7.22),
    ]);
    layout.len = 3;
    let byte_to_column: Arc<[u32]> = Arc::from(vec![0, 0, 1, 2]);
    snap_glyph_positions(
        &mut layout,
        column_width,
        px(0.),
        &SnapMode::ByteToColumn { byte_to_column },
        3,
    );
    let run = &layout.runs[0];
    assert_eq!(run.glyphs[0].position.x, px(0.));
    assert_eq!(run.glyphs[1].position.x, px(7.));
    assert_eq!(layout.width, px(14.));
}

#[test]
fn snap_byte_to_column_wide_multi_glyph_cluster() {
    // 3 glyphs for a 12-byte cluster that spans 2 unit-width columns. All 3 glyphs land at
    // x = 0.
    let column_width = px(7.);
    let mut layout = single_run(vec![
        make_glyph(1, 0, 0.0),
        make_glyph(2, 4, 20.0),
        make_glyph(3, 8, 40.0),
    ]);
    layout.len = 12;
    let mut table = vec![0u32; 12];
    table.push(2);
    let byte_to_column: Arc<[u32]> = Arc::from(table);
    snap_glyph_positions(
        &mut layout,
        column_width,
        px(0.),
        &SnapMode::ByteToColumn { byte_to_column },
        12,
    );
    let run = &layout.runs[0];
    assert_eq!(run.glyphs[0].position.x, px(0.));
    assert_eq!(run.glyphs[1].position.x, px(0.));
    assert_eq!(run.glyphs[2].position.x, px(0.));
    assert_eq!(layout.width, px(14.));
}

#[test]
fn shape_line_options_normalized_collapses_when_force_width_none() {
    // Non-default snap fields with force_width=None must collapse to defaults so cache hits
    // aren't fragmented on irrelevant fields.
    let byte_to_column: Arc<[u32]> = Arc::from(vec![0, 1, 2]);
    let opts = ShapeLineOptions {
        force_width: None,
        snap_tolerance: px(0.),
        snap_mode: SnapMode::ByteToColumn { byte_to_column },
    };
    let normalized = opts.normalized();
    assert_eq!(normalized.force_width, None);
    assert_eq!(normalized.snap_tolerance, px(1.));
    assert!(matches!(normalized.snap_mode, SnapMode::GlyphIndex));

    // Force-width set: snap fields are preserved.
    let byte_to_column: Arc<[u32]> = Arc::from(vec![0, 1, 2]);
    let opts = ShapeLineOptions {
        force_width: Some(px(7.)),
        snap_tolerance: px(0.),
        snap_mode: SnapMode::ByteToColumn {
            byte_to_column: byte_to_column.clone(),
        },
    };
    let normalized = opts.normalized();
    assert_eq!(normalized.force_width, Some(px(7.)));
    assert_eq!(normalized.snap_tolerance, px(0.));
    match normalized.snap_mode {
        SnapMode::ByteToColumn {
            byte_to_column: got,
        } => {
            assert_eq!(&got[..], &byte_to_column[..]);
        }
        _ => panic!("snap_mode was not preserved"),
    }
}

#[test]
fn default_options_do_not_snap() {
    let opts = ShapeLineOptions::default();
    assert_eq!(opts.force_width, None);
    assert_eq!(opts.snap_tolerance, px(1.));
    assert_eq!(opts.snap_mode, SnapMode::GlyphIndex);
    let layout = single_run(vec![make_glyph(1, 0, 3.5)]);
    let applied = opts.apply(layout, 1).unwrap();
    assert_eq!(xs(&applied), vec![px(3.5)]);
    assert_eq!(applied.width, px(0.));
}

#[test]
fn a_glyph_exactly_as_far_as_the_tolerance_stays() {
    let mut layout = single_run(vec![
        make_glyph(1, 0, 1.0),
        make_glyph(2, 1, 6.0),
        make_glyph(3, 2, 15.5),
        make_glyph(4, 3, 19.5),
    ]);
    snap_glyph_positions(&mut layout, px(7.), px(1.), &SnapMode::GlyphIndex, 4);
    assert_eq!(xs(&layout), vec![px(1.), px(6.), px(14.), px(21.)]);
    assert_eq!(layout.width, px(28.));
}

#[test]
fn with_a_negative_tolerance_every_glyph_snaps() {
    let mut layout = single_run(vec![make_glyph(1, 0, 0.25), make_glyph(2, 1, 7.0)]);
    snap_glyph_positions(&mut layout, px(7.), px(-1.), &SnapMode::GlyphIndex, 2);
    assert_eq!(xs(&layout), vec![px(0.), px(7.)]);
}

#[test]
fn glyphs_are_counted_across_runs() {
    let mut layout = single_run(vec![make_glyph(1, 0, 0.0), make_glyph(2, 1, 3.0)]);
    layout.runs.push(ShapedRun {
        font_id: FontId(1),
        glyphs: Vec::new(),
    });
    layout.runs.push(ShapedRun {
        font_id: FontId(2),
        glyphs: vec![make_glyph(3, 2, 4.0)],
    });
    snap_glyph_positions(&mut layout, px(10.), px(0.), &SnapMode::GlyphIndex, 3);
    assert_eq!(xs(&layout), vec![px(0.), px(10.), px(20.)]);
    assert_eq!(layout.width, px(30.));
    assert_eq!(layout.runs[2].font_id, FontId(2));
}

#[test]
fn snapping_only_moves_glyphs_sideways() {
    let mut layout = single_run(vec![ShapedGlyph {
        id: GlyphId(9),
        position: point(px(3.), px(5.)),
        index: 0,
        is_emoji: true,
    }]);
    layout.ascent = px(2.);
    layout.len = 1;
    snap_glyph_positions(&mut layout, px(7.), px(0.), &columns(vec![1, 2]), 1);
    let glyph = layout.runs[0].glyphs[0];
    assert_eq!(glyph.position, point(px(7.), px(5.)));
    assert_eq!(glyph.id, GlyphId(9));
    assert_eq!(glyph.index, 0);
    assert!(glyph.is_emoji);
    assert_eq!(layout.font_size, px(12.));
    assert_eq!(layout.ascent, px(2.));
    assert_eq!(layout.len, 1);
    assert_eq!(layout.width, px(14.));
}

#[test]
fn snapping_again_changes_no_glyph() {
    let mut layout = single_run(vec![make_glyph(1, 0, 0.5), make_glyph(2, 1, 9.0)]);
    snap_glyph_positions(&mut layout, px(7.), px(1.), &SnapMode::GlyphIndex, 2);
    let once = xs(&layout);
    snap_glyph_positions(&mut layout, px(7.), px(1.), &SnapMode::GlyphIndex, 2);
    assert_eq!(xs(&layout), once);
    assert_eq!(once, vec![px(0.5), px(7.)]);
}

#[test]
fn a_table_that_counts_bytes_is_the_same_as_counting_glyphs() {
    let glyphs = vec![make_glyph(1, 0, 0.5), make_glyph(2, 1, 9.0), make_glyph(3, 2, 11.0)];
    let mut by_glyph = single_run(glyphs.clone());
    let mut by_byte = single_run(glyphs);
    snap_glyph_positions(&mut by_glyph, px(7.), px(0.), &SnapMode::GlyphIndex, 3);
    snap_glyph_positions(&mut by_byte, px(7.), px(0.), &columns(vec![0, 1, 2, 3]), 3);
    assert_eq!(xs(&by_glyph), xs(&by_byte));
    assert_eq!(by_glyph.width, by_byte.width);
}

#[test]
fn wide_cells_take_two_columns() {
    // "a你b" with `你` in the columns 1 and 2.
    let mut layout = single_run(vec![
        make_glyph(1, 0, 0.0),
        make_glyph(2, 1, 7.5),
        make_glyph(3, 4, 21.5),
    ]);
    snap_glyph_positions(&mut layout, px(7.), px(0.), &columns(vec![0, 1, 1, 1, 3, 4]), 5);
    assert_eq!(xs(&layout), vec![px(0.), px(7.), px(21.)]);
    assert_eq!(layout.width, px(28.));
}

#[test]
fn the_grid_stops_at_the_greatest_length() {
    let mut layout = single_run(vec![make_glyph(1, 0, 0.0)]);
    let huge = Pixels { units: i64::MAX };
    snap_glyph_positions(&mut layout, huge, px(0.), &columns(vec![3, 4]), 1);
    assert_eq!(layout.runs[0].glyphs[0].position.x, huge);
    assert_eq!(layout.width, huge);
}

#[test]
fn tables_that_do_not_fit_are_found() {
    let layout = single_run(vec![make_glyph(1, 0, 0.0), make_glyph(2, 2, 7.0)]);
    assert!(fits_columns(&layout, &SnapMode::GlyphIndex, 0));
    assert!(fits_columns(&layout, &columns(vec![0, 1, 2]), 2));
    // Too few entries, too many, a column that goes back, and a glyph past the text.
    assert!(!fits_columns(&layout, &columns(vec![]), 2));
    assert!(!fits_columns(&layout, &columns(vec![0, 1]), 2));
    assert!(!fits_columns(&layout, &columns(vec![0, 1, 2, 3]), 2));
    assert!(!fits_columns(&layout, &columns(vec![0, 2, 1]), 2));
    assert!(!fits_columns(&layout, &columns(vec![0, 1]), 1));
}

#[test]
fn options_are_not_applied_where_the_table_does_not_fit() {
    let opts = ShapeLineOptions {
        force_width: Some(px(7.)),
        snap_tolerance: px(0.),
        snap_mode: columns(vec![0, 1]),
    };
    assert!(opts.apply(single_run(vec![make_glyph(1, 0, 3.0)]), 2).is_none());
    let applied = opts.apply(single_run(vec![make_glyph(1, 0, 3.0)]), 1).unwrap();
    assert_eq!(xs(&applied), vec![px(0.)]);
    assert_eq!(applied.width, px(7.));
}

#[test]
fn snap_modes_are_the_same_by_their_columns() {
    assert_eq!(columns(vec![0, 1, 2]), columns(vec![0, 1, 2]));
    assert_ne!(columns(vec![0, 1, 2]), columns(vec![0, 1, 3]));
    assert_ne!(columns(vec![0, 1, 2]), columns(vec![0, 1]));
    assert_ne!(columns(vec![]), SnapMode::GlyphIndex);
    assert_eq!(SnapMode::GlyphIndex, SnapMode::GlyphIndex);
    let owned = columns(vec![4, 5]);
    assert_eq!(owned.as_ref(), columns(vec![4, 5]).as_ref());
    assert_eq!(SnapMode::GlyphIndex.as_ref(), SnapModeRef::GlyphIndex);
    assert_eq!(hash_of(&columns(vec![4, 5])), hash_of(&owned));
    assert_eq!(hash_of(&owned.as_ref()), hash_of(&owned));
}
