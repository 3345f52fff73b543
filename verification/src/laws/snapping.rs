//! What holds of snapping glyphs onto a grid.

use crate::geometry::Pixels;
use crate::layout::{LayoutView, LineLayout};
use crate::snap::{OptionsView, ShapeLineOptions, SnapMode, SnapModeView};
use vstd::prelude::*;

verus! {

/// Where the column of a glyph starts.
pub open spec fn column_x(
    layout: LayoutView,
    force_width: Pixels,
    snap_mode: SnapModeView,
    run_ix: int,
    glyph_ix: int,
) -> Pixels {
    let ordinal = crate::layout::glyphs_before(layout.runs, run_ix) + glyph_ix;
    let glyph = layout.runs[run_ix].glyphs[glyph_ix];
    Pixels::nearest(crate::snap::column_of(snap_mode, glyph, ordinal) * force_width@)
}

/// After snapping no glyph is further from where its column starts than the tolerance. Without
/// a tolerance each glyph is exactly there.
pub proof fn glyphs_are_on_the_grid(
    layout: LayoutView,
    force_width: Pixels,
    snap_tolerance: Pixels,
    snap_mode: SnapModeView,
    text_len: int,
)
    ensures
        ({
            let after = crate::snap::snapped(
                layout,
                force_width,
                snap_tolerance,
                snap_mode,
                text_len,
            );
            forall|run_ix: int, glyph_ix: int|
                #![trigger after.runs[run_ix].glyphs[glyph_ix]]
                0 <= run_ix < layout.runs.len() && 0 <= glyph_ix < layout.runs[run_ix].glyphs.len()
                    ==> {
                    let x = after.runs[run_ix].glyphs[glyph_ix].position.x;
                    let target = column_x(layout, force_width, snap_mode, run_ix, glyph_ix);
                    &&& snap_tolerance@ >= 0 ==> -snap_tolerance@ <= x@ - target@ <= snap_tolerance@
                    &&& snap_tolerance@ <= 0 ==> x == target
                }
        }),
{
}

/// A glyph that is close enough to its column stays where it is.
pub proof fn glyphs_near_the_grid_stay(
    layout: LayoutView,
    force_width: Pixels,
    snap_tolerance: Pixels,
    snap_mode: SnapModeView,
    text_len: int,
    run_ix: int,
    glyph_ix: int,
)
    requires
        0 <= run_ix < layout.runs.len(),
        0 <= glyph_ix < layout.runs[run_ix].glyphs.len(),
        ({
            let x = layout.runs[run_ix].glyphs[glyph_ix].position.x;
            let target = column_x(layout, force_width, snap_mode, run_ix, glyph_ix);
            -snap_tolerance@ <= x@ - target@ <= snap_tolerance@
        }),
    ensures
        crate::snap::snapped(
            layout,
            force_width,
            snap_tolerance,
            snap_mode,
            text_len,
        ).runs[run_ix].glyphs[glyph_ix] == layout.runs[run_ix].glyphs[glyph_ix],
{
}

/// Snapping moves glyphs sideways and sets the width of the line. Everything else stays: the
/// runs and their fonts, the glyphs, their order, their text indices and their heights.
pub proof fn snapping_only_moves_sideways(
    layout: LayoutView,
    force_width: Pixels,
    snap_tolerance: Pixels,
    snap_mode: SnapModeView,
    text_len: int,
)
    ensures
        ({
            let after = crate::snap::snapped(
                layout,
                force_width,
                snap_tolerance,
                snap_mode,
                text_len,
            );
            &&& after == (LayoutView { width: after.width, runs: after.runs, ..layout })
            &&& after.runs.len() == layout.runs.len()
            &&& forall|run_ix: int|
                0 <= run_ix < layout.runs.len() ==> {
                    &&& (#[trigger] after.runs[run_ix]).font_id == layout.runs[run_ix].font_id
                    &&& after.runs[run_ix].glyphs.len() == layout.runs[run_ix].glyphs.len()
                }
            &&& forall|run_ix: int, glyph_ix: int|
                #![trigger after.runs[run_ix].glyphs[glyph_ix]]
                0 <= run_ix < layout.runs.len() && 0 <= glyph_ix < layout.runs[run_ix].glyphs.len()
                    ==> {
                    let before = layout.runs[run_ix].glyphs[glyph_ix];
                    let glyph = after.runs[run_ix].glyphs[glyph_ix];
                    &&& glyph.id == before.id
                    &&& glyph.index == before.index
                    &&& glyph.is_emoji == before.is_emoji
                    &&& glyph.position.y == before.position.y
                }
        }),
{
}

/// Runs with as many glyphs each have as many glyphs before.
proof fn lemma_same_glyphs_before(a: LayoutView, b: LayoutView, run_ix: int)
    requires
        0 <= run_ix <= a.runs.len(),
        a.runs.len() == b.runs.len(),
        forall|n: int|
            0 <= n < a.runs.len() ==> (#[trigger] a.runs[n]).glyphs.len() == b.runs[n].glyphs.len(),
    ensures
        crate::layout::glyphs_before(a.runs, run_ix) == crate::layout::glyphs_before(
            b.runs,
            run_ix,
        ),
    decreases run_ix,
{
    if run_ix > 0 {
        lemma_same_glyphs_before(a, b, run_ix - 1);
        assert(a.runs[run_ix - 1].glyphs.len() == b.runs[run_ix - 1].glyphs.len());
    }
}

/// Snapping a line that has been snapped changes nothing.
pub proof fn snapping_again_changes_nothing(
    layout: LayoutView,
    force_width: Pixels,
    snap_tolerance: Pixels,
    snap_mode: SnapModeView,
    text_len: int,
)
    ensures
        ({
            let once = crate::snap::snapped(
                layout,
                force_width,
                snap_tolerance,
                snap_mode,
                text_len,
            );
            crate::snap::snapped(once, force_width, snap_tolerance, snap_mode, text_len) == once
        }),
{
    let once = crate::snap::snapped(layout, force_width, snap_tolerance, snap_mode, text_len);
    let twice = crate::snap::snapped(once, force_width, snap_tolerance, snap_mode, text_len);
    lemma_same_glyphs_before(once, layout, layout.runs.len() as int);
    assert forall|run_ix: int| 0 <= run_ix < layout.runs.len() implies twice.runs[run_ix]
        == once.runs[run_ix] by {
        lemma_same_glyphs_before(once, layout, run_ix);
        assert forall|glyph_ix: int|
            0 <= glyph_ix
                < layout.runs[run_ix].glyphs.len() implies twice.runs[run_ix].glyphs[glyph_ix]
            == once.runs[run_ix].glyphs[glyph_ix] by {
            let before = layout.runs[run_ix].glyphs[glyph_ix];
            let after = once.runs[run_ix].glyphs[glyph_ix];
            assert(after.index == before.index);
        }
        assert(twice.runs[run_ix].glyphs =~= once.runs[run_ix].glyphs);
    }
    assert(twice.runs =~= once.runs);
}

/// On a grid whose columns go to the right and without a tolerance, no glyph starts past the
/// end of the line.
pub proof fn snapped_glyphs_are_inside(
    layout: LayoutView,
    force_width: Pixels,
    snap_tolerance: Pixels,
    snap_mode: SnapModeView,
    text_len: int,
    run_ix: int,
    glyph_ix: int,
)
    requires
        crate::snap::can_snap(layout, snap_mode, text_len),
        force_width@ >= 0,
        snap_tolerance@ <= 0,
        0 <= run_ix < layout.runs.len(),
        0 <= glyph_ix < layout.runs[run_ix].glyphs.len(),
    ensures
        ({
            let after = crate::snap::snapped(
                layout,
                force_width,
                snap_tolerance,
                snap_mode,
                text_len,
            );
            0 <= after.runs[run_ix].glyphs[glyph_ix].position.x@ <= after.width@
        }),
{
    let after = crate::snap::snapped(layout, force_width, snap_tolerance, snap_mode, text_len);
    let glyph = layout.runs[run_ix].glyphs[glyph_ix];
    let count = crate::layout::glyphs_before(layout.runs, layout.runs.len() as int);
    let ordinal = crate::layout::glyphs_before(layout.runs, run_ix) + glyph_ix;
    crate::layout::lemma_glyphs_before_grows(layout.runs, 0, run_ix);
    crate::layout::lemma_glyphs_before_grows(layout.runs, run_ix + 1, layout.runs.len() as int);
    let column = crate::snap::column_of(snap_mode, glyph, ordinal);
    let columns = crate::snap::columns_of(snap_mode, count, text_len);
    assert(0 <= column <= columns) by {
        if let SnapModeView::ByteToColumn { byte_to_column } = snap_mode {
            assert(glyph.index <= text_len);
            assert(byte_to_column[glyph.index as int] <= byte_to_column[text_len]);
        }
    }
    assert(0 <= column * force_width@ <= columns * force_width@) by (nonlinear_arith)
        requires
            0 <= column <= columns,
            force_width@ >= 0,
    ;
    glyphs_are_on_the_grid(layout, force_width, snap_tolerance, snap_mode, text_len);
    assert(after.runs[run_ix].glyphs[glyph_ix].position.x == column_x(
        layout,
        force_width,
        snap_mode,
        run_ix,
        glyph_ix,
    ));
}

/// Where each byte of the text is a glyph of its own, in order, counting glyphs and counting
/// bytes come to the same.
pub proof fn one_glyph_per_byte(
    layout: LayoutView,
    force_width: Pixels,
    snap_tolerance: Pixels,
    byte_to_column: Seq<u32>,
    text_len: int,
)
    requires
        byte_to_column.len() == text_len + 1,
        forall|i: int| 0 <= i <= text_len ==> byte_to_column[i] == i,
        crate::layout::glyphs_before(layout.runs, layout.runs.len() as int) == text_len,
        forall|run_ix: int, glyph_ix: int|
            #![trigger layout.runs[run_ix].glyphs[glyph_ix]]
            0 <= run_ix < layout.runs.len() && 0 <= glyph_ix < layout.runs[run_ix].glyphs.len()
                ==> layout.runs[run_ix].glyphs[glyph_ix].index == crate::layout::glyphs_before(
                layout.runs,
                run_ix,
            ) + glyph_ix,
    ensures
        crate::snap::snapped(
            layout,
            force_width,
            snap_tolerance,
            SnapModeView::GlyphIndex,
            text_len,
        ) == crate::snap::snapped(
            layout,
            force_width,
            snap_tolerance,
            SnapModeView::ByteToColumn { byte_to_column },
            text_len,
        ),
{
    let by_glyph = crate::snap::snapped(
        layout,
        force_width,
        snap_tolerance,
        SnapModeView::GlyphIndex,
        text_len,
    );
    let by_byte = crate::snap::snapped(
        layout,
        force_width,
        snap_tolerance,
        SnapModeView::ByteToColumn { byte_to_column },
        text_len,
    );
    crate::layout::lemma_glyphs_before_grows(layout.runs, 0, layout.runs.len() as int);
    assert forall|run_ix: int| 0 <= run_ix < layout.runs.len() implies by_glyph.runs[run_ix]
        == by_byte.runs[run_ix] by {
        crate::layout::lemma_glyphs_before_grows(layout.runs, 0, run_ix);
        crate::layout::lemma_glyphs_before_grows(layout.runs, run_ix + 1, layout.runs.len() as int);
        assert forall|glyph_ix: int|
            0 <= glyph_ix
                < layout.runs[run_ix].glyphs.len() implies by_glyph.runs[run_ix].glyphs[glyph_ix]
            == by_byte.runs[run_ix].glyphs[glyph_ix] by {
            let glyph = layout.runs[run_ix].glyphs[glyph_ix];
            assert(byte_to_column[glyph.index as int] == glyph.index);
        }
        assert(by_glyph.runs[run_ix].glyphs =~= by_byte.runs[run_ix].glyphs);
    }
    assert(by_glyph.runs =~= by_byte.runs);
}

/// Normalized options do the same to every layout, and normalizing again changes nothing.
pub proof fn normalizing_has_no_effect(options: OptionsView, layout: LayoutView, text_len: int)
    ensures
        options.normalized().apply(layout, text_len) == options.apply(layout, text_len),
        options.normalized().normalized() == options.normalized(),
{
}

/// Without a forced width all options are the same once normalized, so that lines are cached
/// under the same key whatever the other fields hold.
pub proof fn options_without_a_grid_are_the_same(a: OptionsView, b: OptionsView)
    requires
        a.force_width is None,
        b.force_width is None,
    ensures
        a.normalized() == b.normalized(),
{
}

/// What a number of units is as a length: itself, or the nearest that a length can have.
pub open spec fn clipped(units: int) -> int {
    if units > i64::MAX {
        i64::MAX as int
    } else if units < i64::MIN {
        i64::MIN as int
    } else {
        units
    }
}

/// The column of glyph `n` of a line: the number of glyphs before it, or what the table says of
/// the byte that it starts at.
pub open spec fn column_of_glyph(layout: LineLayout, snap_mode: SnapMode, n: int) -> int {
    match snap_mode {
        SnapMode::GlyphIndex => n,
        SnapMode::ByteToColumn { byte_to_column } => byte_to_column@[layout@.glyphs()[n].glyph.index as int] as int,
    }
}

/// How many glyphs the first `count` runs of a line have.
pub open spec fn glyphs_of_runs(layout: LineLayout, count: int) -> int
    decreases count,
{
    if count <= 0 {
        0
    } else {
        glyphs_of_runs(layout, count - 1) + layout.runs@[count - 1].glyphs@.len()
    }
}

/// A line has as many glyphs as its runs have.
pub proof fn runs_add_up(layout: LineLayout)
    ensures
        layout@.glyphs().len() == glyphs_of_runs(layout, layout.runs@.len() as int),
{
    crate::layout::lemma_placed_glyphs(layout@.runs);
    lemma_runs_add_up(layout, layout.runs@.len() as int);
}

proof fn lemma_runs_add_up(layout: LineLayout, count: int)
    requires
        0 <= count <= layout.runs@.len(),
    ensures
        crate::layout::glyphs_before(layout@.runs, count) == glyphs_of_runs(layout, count),
    decreases count,
{
    if count > 0 {
        lemma_runs_add_up(layout, count - 1);
    }
}

/// The glyph numbered `g` of run `r` has as many glyphs of its line before it as the runs before
/// have, and `g` more.
pub proof fn lemma_glyph_of_run(layout: LineLayout, r: int, g: int)
    requires
        crate::laws::lines::is_glyph(layout, r, g),
    ensures
        ({
            let n = glyphs_of_runs(layout, r) + g;
            &&& 0 <= n < layout@.glyphs().len()
            &&& layout@.glyphs()[n].run_ix == r
            &&& layout@.glyphs()[n].glyph_ix == g
            &&& layout@.glyphs()[n].glyph == layout.runs@[r].glyphs@[g]
        }),
{
    crate::layout::lemma_placed_glyphs(layout@.runs);
    lemma_runs_add_up(layout, r);
    assert(layout@.runs[r].glyphs[g] == layout.runs@[r].glyphs@[g]);
    let n = crate::layout::glyphs_before(layout@.runs, r) + g;
    assert(layout@.glyphs()[n].run_ix == r);
}

/// A glyph that is further from where its column starts than the tolerance is moved there, to
/// the units; any other stays where it is. Nothing else of it changes.
pub proof fn glyphs_go_to_their_columns(
    layout: LineLayout,
    force_width: Pixels,
    snap_tolerance: Pixels,
    snap_mode: SnapMode,
    text_len: int,
    n: int,
)
    requires
        0 <= n < layout@.glyphs().len(),
    ensures
        ({
            let after = crate::snap::snapped(
                layout@,
                force_width,
                snap_tolerance,
                snap_mode@,
                text_len,
            );
            let before = layout@.glyphs()[n];
            let glyph = after.runs[before.run_ix].glyphs[before.glyph_ix];
            let target = clipped(
                column_of_glyph(layout, snap_mode, n) * force_width.units as int,
            );
            let off = before.glyph.position.x.units - target;
            &&& off > snap_tolerance.units || -off > snap_tolerance.units
                ==> glyph.position.x.units == target
            &&& -snap_tolerance.units <= off <= snap_tolerance.units ==> glyph.position.x
                == before.glyph.position.x
            &&& glyph.position.y == before.glyph.position.y
            &&& glyph.id == before.glyph.id
            &&& glyph.index == before.glyph.index
            &&& glyph.is_emoji == before.glyph.is_emoji
        }),
{
    crate::layout::lemma_placed_at(layout@.runs, n);
}

/// A line that was snapped by its glyphs is as wide as it has glyphs, whatever the length of its
/// text. One that was snapped by a table is as wide as the last entry of the table says. Its
/// runs, their fonts and what else it holds stay.
pub proof fn lines_are_as_wide_as_their_columns(
    layout: LineLayout,
    force_width: Pixels,
    snap_tolerance: Pixels,
    snap_mode: SnapMode,
    text_len: int,
)
    ensures
        ({
            let after = crate::snap::snapped(
                layout@,
                force_width,
                snap_tolerance,
                snap_mode@,
                text_len,
            );
            &&& match snap_mode {
                SnapMode::GlyphIndex => after.width.units == clipped(
                    layout@.glyphs().len() * force_width.units,
                ),
                SnapMode::ByteToColumn { byte_to_column } => byte_to_column@.len() == text_len + 1
                    ==> after.width.units == clipped(
                    byte_to_column@.last() * force_width.units,
                ),
            }
            &&& after.font_size == layout.font_size
            &&& after.ascent == layout.ascent
            &&& after.descent == layout.descent
            &&& after.len == layout.len
            &&& after.runs.len() == layout.runs@.len()
            &&& forall|r: int|
                0 <= r < layout.runs@.len() ==> {
                    &&& (#[trigger] after.runs[r]).font_id == layout.runs@[r].font_id
                    &&& after.runs[r].glyphs.len() == layout.runs@[r].glyphs@.len()
                }
        }),
{
    crate::layout::lemma_placed_glyphs(layout@.runs);
}

/// Snapping by glyphs does not go by the length of the text.
pub proof fn counting_glyphs_needs_no_text(
    layout: LayoutView,
    force_width: Pixels,
    snap_tolerance: Pixels,
    a: int,
    b: int,
)
    ensures
        crate::snap::snapped(layout, force_width, snap_tolerance, SnapModeView::GlyphIndex, a)
            == crate::snap::snapped(
            layout,
            force_width,
            snap_tolerance,
            SnapModeView::GlyphIndex,
            b,
        ),
{
}

/// A line can be snapped if its glyphs can be counted, and, where there is a table, this has an
/// entry for each byte of the text and one more, none smaller than the one before it, and each
/// glyph starts within the text or at its end.
pub proof fn lines_can_be_snapped(layout: LineLayout, snap_mode: SnapMode, text_len: int)
    ensures
        crate::snap::can_snap(layout@, snap_mode@, text_len) <==> {
            &&& layout@.glyphs().len() <= u32::MAX
            &&& match snap_mode {
                SnapMode::GlyphIndex => true,
                SnapMode::ByteToColumn { byte_to_column } => {
                    &&& byte_to_column@.len() == text_len + 1
                    &&& forall|i: int|
                        0 < i < byte_to_column@.len() ==> #[trigger] does_not_go_back(
                            byte_to_column@,
                            i,
                        )
                    &&& forall|n: int|
                        0 <= n < layout@.glyphs().len() ==> (
                        #[trigger] layout@.glyphs()[n]).glyph.index <= text_len
                },
            }
        },
{
    crate::layout::lemma_placed_glyphs(layout@.runs);
    if let SnapMode::ByteToColumn { byte_to_column } = snap_mode {
        let table = byte_to_column@;
        if forall|i: int| 0 < i < table.len() ==> #[trigger] does_not_go_back(table, i) {
            assert forall|i: int, j: int| 0 <= i <= j < table.len() implies table[i]
                <= table[j] by {
                lemma_does_not_go_back(table, i, j);
            }
        }
        assert forall|r: int, g: int|
            (forall|n: int|
                0 <= n < layout@.glyphs().len() ==> (#[trigger] layout@.glyphs()[n]).glyph.index
                    <= text_len) && 0 <= r < layout@.runs.len() && 0 <= g
                < layout@.runs[r].glyphs.len() implies (
        #[trigger] layout@.runs[r].glyphs[g]).index <= text_len by {
            let n = crate::layout::glyphs_before(layout@.runs, r) + g;
            let shaped = layout@.runs[r].glyphs[g];
            assert(layout@.glyphs()[n].glyph == shaped);
        }
        assert forall|n: int|
            crate::snap::can_snap(layout@, snap_mode@, text_len) && 0 <= n
                < layout@.glyphs().len() implies (#[trigger] layout@.glyphs()[n]).glyph.index
            <= text_len by {
            crate::layout::lemma_placed_at(layout@.runs, n);
            let placed = layout@.glyphs()[n];
            assert(layout@.runs[placed.run_ix].glyphs[placed.glyph_ix].index <= text_len);
        }
    }
}

/// Whether an entry of a table is not smaller than the one before it.
pub open spec fn does_not_go_back(table: Seq<u32>, i: int) -> bool {
    table[i - 1] <= table[i]
}

proof fn lemma_does_not_go_back(table: Seq<u32>, i: int, j: int)
    requires
        0 <= i <= j < table.len(),
        forall|k: int| 0 < k < table.len() ==> #[trigger] does_not_go_back(table, k),
    ensures
        table[i] <= table[j],
    decreases j - i,
{
    if i < j {
        lemma_does_not_go_back(table, i, j - 1);
        assert(does_not_go_back(table, j));
    }
}

/// Options with a forced width snap a line with that width, their tolerance and their mode;
/// without one they leave it as it is, whatever it is.
pub proof fn options_are_applied(opts: ShapeLineOptions, layout: LayoutView, text_len: int)
    ensures
        opts.force_width is None ==> opts@.apply(layout, text_len) == layout && opts@.can_apply(
            layout,
            text_len,
        ),
        opts.force_width matches Some(force_width) ==> {
            &&& opts@.apply(layout, text_len) == crate::snap::snapped(
                layout,
                force_width,
                opts.snap_tolerance,
                opts.snap_mode@,
                text_len,
            )
            &&& opts@.can_apply(layout, text_len) == crate::snap::can_snap(
                layout,
                opts.snap_mode@,
                text_len,
            )
        },
{
}

/// Normalizing keeps all of the options that force a width, and makes all others the same: no
/// width, a tolerance of one pixel, and columns by glyphs.
pub proof fn options_with_a_grid_are_kept(opts: ShapeLineOptions)
    ensures
        opts.force_width is Some ==> {
            &&& opts@.normalized().force_width == opts.force_width
            &&& opts@.normalized().snap_tolerance == opts.snap_tolerance
            &&& opts@.normalized().snap_mode == opts.snap_mode@
        },
        opts.force_width is None ==> {
            &&& opts@.normalized().force_width is None
            &&& opts@.normalized().snap_tolerance.units == 0x1_0000_0000
            &&& opts@.normalized().snap_mode is GlyphIndex
        },
{
}

/// Options and modes are the same in what is said of them only if they are the same.
pub proof fn options_are_told_apart(a: ShapeLineOptions, b: ShapeLineOptions)
    ensures
        a@ == b@ <==> {
            &&& a.force_width == b.force_width
            &&& a.snap_tolerance == b.snap_tolerance
            &&& match (a.snap_mode, b.snap_mode) {
                (SnapMode::GlyphIndex, SnapMode::GlyphIndex) => true,
                (
                    SnapMode::ByteToColumn { byte_to_column: one },
                    SnapMode::ByteToColumn { byte_to_column: other },
                ) => one@ == other@,
                _ => false,
            }
        },
{
}

} // verus!
