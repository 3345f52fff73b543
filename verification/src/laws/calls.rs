//! What holds of calls on lengths, options, lines and wrapped lines, told by what they are given
//! and what they give.

use crate::geometry::{Pixels, Point, Size};
use crate::inline_lists::{WrapBoundaries, WrapBoundary};
use crate::laws::wrapping::LineBreak;
use crate::layout::{FontId, LineLayout, ShapedRun};
use crate::snap::{ShapeLineOptions, SnapMode};
use crate::wrap::WrapGlyph;
use crate::wrapped::WrappedLineLayout;
use std::sync::Arc;
use vstd::prelude::*;

verus! {

/// Lengths are added, taken away and multiplied in units, and stop at the ends of what a length
/// can be. The shorter of two lengths is one of them and not longer than the other.
pub proof fn lengths_are_computed(a: Pixels, b: Pixels, count: i128, units: i128)
    ensures
        forall|sum: Pixels| #[trigger]
            call_ensures(Pixels::plus, (a, b), sum) ==> sum.units
                == crate::laws::snapping::clipped(a.units + b.units),
        forall|rest: Pixels| #[trigger]
            call_ensures(Pixels::minus, (a, b), rest) ==> rest.units
                == crate::laws::snapping::clipped(a.units - b.units),
        forall|product: Pixels| #[trigger]
            call_ensures(Pixels::times, (a, count), product) ==> product.units
                == crate::laws::snapping::clipped(count * a.units),
        forall|length: Pixels| #[trigger]
            call_ensures(Pixels::saturating, (units,), length) ==> length.units
                == crate::laws::snapping::clipped(units as int),
        forall|shorter: Pixels| #[trigger]
            call_ensures(Pixels::smaller, (a, b), shorter) ==> {
                &&& shorter == a || shorter == b
                &&& shorter.units <= a.units && shorter.units <= b.units
            },
{
}

/// A whole number of pixels has that many times 2^32 units. No length has no units, and the
/// greatest length has as many as there can be.
pub proof fn lengths_are_made(whole: i32)
    ensures
        forall|length: Pixels| #[trigger]
            call_ensures(crate::geometry::px, (whole,), length) ==> length.units == whole
                * 0x1_0000_0000,
        forall|length: Pixels| #[trigger]
            call_ensures(Pixels::zero, (), length) ==> length.units == 0,
        forall|length: Pixels| #[trigger]
            call_ensures(Pixels::max_value, (), length) ==> length.units == i64::MAX,
{
}

/// What is found in a line is what is there: the index under a place, the closest index to it,
/// and the place and the font of an index.
pub proof fn lines_are_searched(layout: &LineLayout, x: Pixels, index: usize)
    ensures
        forall|found: Option<usize>| #[trigger]
            call_ensures(LineLayout::index_for_x, (layout, x), found)
                ==> crate::laws::lines::is_under(*layout, x, found),
        forall|found: usize| #[trigger]
            call_ensures(LineLayout::closest_index_for_x, (layout, x), found)
                ==> crate::laws::lines::is_closest_to(*layout, x, found),
        forall|place: Pixels, font: Option<FontId>| #[trigger]
            call_ensures(LineLayout::x_for_index, (layout, index), place)
                && #[trigger] call_ensures(LineLayout::font_id_for_index, (layout, index), font)
                ==> crate::laws::lines::is_placed_at(*layout, index, place, font),
{
    crate::laws::lines::index_for_x_is_that_of_a_glyph(layout, x);
    crate::laws::lines::closest_index_is_that_of_a_neighbour(layout, x);
    crate::laws::lines::indices_are_placed_by_the_first_glyph(layout, index);
}

/// A wrapped line tells what its unwrapped line holds and where it breaks. It is as wide as its
/// unwrapped line, but not wider than its wrap width, and one line higher than it has boundaries.
pub proof fn wrapped_lines_tell_what_they_hold(wrapped: &WrappedLineLayout, line_height: Pixels)
    ensures
        forall|len: usize| #[trigger]
            call_ensures(WrappedLineLayout::len, (wrapped,), len) ==> len
                == wrapped.unwrapped_layout.len,
        forall|ascent: Pixels| #[trigger]
            call_ensures(WrappedLineLayout::ascent, (wrapped,), ascent) ==> ascent
                == wrapped.unwrapped_layout.ascent,
        forall|descent: Pixels| #[trigger]
            call_ensures(WrappedLineLayout::descent, (wrapped,), descent) ==> descent
                == wrapped.unwrapped_layout.descent,
        forall|font_size: Pixels| #[trigger]
            call_ensures(WrappedLineLayout::font_size, (wrapped,), font_size) ==> font_size
                == wrapped.unwrapped_layout.font_size,
        forall|runs: &[ShapedRun]| #[trigger]
            call_ensures(WrappedLineLayout::runs, (wrapped,), runs) ==> runs@
                == wrapped.unwrapped_layout.runs@,
        forall|boundaries: &[WrapBoundary]| #[trigger]
            call_ensures(WrappedLineLayout::wrap_boundaries, (wrapped,), boundaries)
                ==> boundaries@ == wrapped.wrap_boundaries@,
        forall|width: Pixels| #[trigger]
            call_ensures(WrappedLineLayout::width, (wrapped,), width) ==> is_width_of(
                *wrapped,
                width,
            ),
        forall|size: Size<Pixels>| #[trigger]
            call_ensures(WrappedLineLayout::size, (wrapped, line_height), size) ==> {
                &&& is_width_of(*wrapped, size.width)
                &&& size.height.units == crate::laws::snapping::clipped(
                    (wrapped.wrap_boundaries@.len() + 1) * line_height.units,
                )
            },
{
}

/// Whether a width is that of a wrapped line: the smaller of the width of its unwrapped line and
/// its wrap width, if it has one.
pub open spec fn is_width_of(wrapped: WrappedLineLayout, width: Pixels) -> bool {
    &&& width.units <= wrapped.unwrapped_layout.width.units
    &&& wrapped.wrap_width is Some ==> width.units <= wrapped.wrap_width->0.units
    &&& width.units == wrapped.unwrapped_layout.width.units || wrapped.wrap_width == Some(width)
}

/// Places are answered from the line that has them, whether the index under them or the closest
/// one is asked for, however far down in the line they are.
pub proof fn wrapped_lines_are_searched(
    wrapped: WrappedLineLayout,
    position: Point<Pixels>,
    line_height: Pixels,
    line: int,
)
    requires
        crate::laws::places::has_its_glyphs(wrapped),
        0 <= line <= wrapped.wrap_boundaries@.len() < usize::MAX,
        crate::laws::places::has_height(
            line,
            position.y.units as int,
            line_height.units as int,
        ),
    ensures
        forall|found: Result<usize, usize>| #[trigger]
            call_ensures(
                WrappedLineLayout::index_for_position,
                (&wrapped, position, line_height),
                found,
            ) ==> crate::laws::places::is_found_in(wrapped, position.x, line, false, found),
        forall|found: Result<usize, usize>| #[trigger]
            call_ensures(
                WrappedLineLayout::closest_index_for_position,
                (&wrapped, position, line_height),
                found,
            ) ==> crate::laws::places::is_found_in(wrapped, position.x, line, true, found),
{
    crate::laws::places::places_are_found_in_their_line(
        wrapped,
        position,
        line_height,
        line,
        false,
    );
    crate::laws::places::places_are_found_in_their_line(
        wrapped,
        position,
        line_height,
        line,
        true,
    );
}

/// Below all lines nothing is found.
pub proof fn nothing_is_found_below(
    wrapped: WrappedLineLayout,
    position: Point<Pixels>,
    line_height: Pixels,
)
    requires
        wrapped.wrap_boundaries@.len() < usize::MAX,
        crate::laws::places::is_past(
            wrapped.wrap_boundaries@.len() + 1int,
            position.y.units as int,
            line_height.units as int,
        ),
    ensures
        forall|found: Result<usize, usize>| #[trigger]
            call_ensures(
                WrappedLineLayout::index_for_position,
                (&wrapped, position, line_height),
                found,
            ) ==> found == Err::<usize, usize>(0),
        forall|found: Result<usize, usize>| #[trigger]
            call_ensures(
                WrappedLineLayout::closest_index_for_position,
                (&wrapped, position, line_height),
                found,
            ) ==> found == Err::<usize, usize>(0),
{
    crate::laws::places::places_below_are_not_found(wrapped, position, line_height, false);
    crate::laws::places::places_below_are_not_found(wrapped, position, line_height, true);
}

/// An index is placed in the first line that does not end before it, and nowhere if all lines do.
pub proof fn indices_are_placed(wrapped: WrappedLineLayout, index: usize, line_height: Pixels)
    requires
        crate::laws::places::has_its_glyphs(wrapped),
    ensures
        forall|place: Option<Point<Pixels>>, line: int| #[trigger]
            call_ensures(
                WrappedLineLayout::position_for_index,
                (&wrapped, index, line_height),
                place,
            ) && #[trigger] crate::laws::places::has_index(wrapped, index, line) ==> {
                &&& place is Some
                &&& crate::laws::places::is_place_in(wrapped, index, line_height, line, place->0)
            },
        (forall|m: int|
            0 <= m <= wrapped.wrap_boundaries@.len()
                ==> #[trigger] crate::laws::places::ends_with(wrapped, m) < index)
            ==> forall|place: Option<Point<Pixels>>| #[trigger]
            call_ensures(
                WrappedLineLayout::position_for_index,
                (&wrapped, index, line_height),
                place,
            ) ==> place is None,
{
    assert forall|place: Option<Point<Pixels>>, line: int| #[trigger]
        call_ensures(
            WrappedLineLayout::position_for_index,
            (&wrapped, index, line_height),
            place,
        ) && #[trigger] crate::laws::places::has_index(wrapped, index, line) implies {
        &&& place is Some
        &&& crate::laws::places::is_place_in(wrapped, index, line_height, line, place->0)
    } by {
        crate::laws::places::indices_are_in_their_line(wrapped, index, line_height, line);
    }
    if forall|m: int|
        0 <= m <= wrapped.wrap_boundaries@.len() ==> #[trigger] crate::laws::places::ends_with(
            wrapped,
            m,
        ) < index {
        crate::laws::places::indices_past_all_lines_have_no_place(wrapped, index, line_height);
    }
}

/// Whether boundaries are those at which a layout of a text breaks.
pub open spec fn are_boundaries_of<F: Fn(char) -> bool>(
    is_word_char: F,
    layout: LineLayout,
    text: Seq<char>,
    wrap_width: Option<Pixels>,
    max_lines: Option<usize>,
    found: Seq<WrapBoundary>,
) -> bool {
    match wrap_width {
        None => found.len() == 0,
        Some(wrap_width) => exists|seen: Seq<WrapGlyph>, breaks: Seq<LineBreak>| #[trigger]
            crate::laws::breaking::are_found(
                is_word_char,
                layout,
                text,
                wrap_width,
                max_lines,
                found,
                seen,
                breaks,
            ),
    }
}

/// Whether a layout of a text cannot be broken.
pub open spec fn cannot_be_broken<F: Fn(char) -> bool>(
    is_word_char: F,
    layout: LineLayout,
    text: Seq<char>,
    wrap_width: Option<Pixels>,
    max_lines: Option<usize>,
) -> bool {
    &&& wrap_width is Some
    &&& exists|seen: Seq<WrapGlyph>, breaks: Seq<LineBreak>, n: int|
        {
            &&& crate::laws::breaking::stand_for(layout, seen)
            &&& 0 <= n <= seen.len()
            &&& forall|m: int|
                0 <= m < n ==> #[trigger] crate::laws::breaking::is_read(layout, text, seen, m)
                    && crate::laws::breaking::is_told(is_word_char, seen, m)
            &&& #[trigger] crate::laws::breaking::fails_after(
                layout,
                text,
                wrap_width->0,
                max_lines,
                seen,
                breaks,
                n,
            )
        }
}

/// The boundaries that are computed are those at which the line breaks, by the places of its own
/// glyphs and by its own width. There are none only if the line cannot be broken.
pub proof fn boundaries_are_computed<F: Fn(char) -> bool>(
    layout: LineLayout,
    text: &str,
    wrap_width: Pixels,
    max_lines: Option<usize>,
    is_word_char: &F,
)
    ensures
        forall|found: Option<WrapBoundaries>| #[trigger]
            call_ensures(
                LineLayout::checked_compute_wrap_boundaries::<F>,
                (&layout, text, wrap_width, max_lines, is_word_char),
                found,
            ) ==> match found {
                Some(found) => are_boundaries_of(
                    *is_word_char,
                    layout,
                    text@,
                    Some(wrap_width),
                    max_lines,
                    found@,
                ),
                None => cannot_be_broken(
                    *is_word_char,
                    layout,
                    text@,
                    Some(wrap_width),
                    max_lines,
                ),
            },
        forall|found: WrapBoundaries| #[trigger]
            call_ensures(
                LineLayout::compute_wrap_boundaries::<F>,
                (&layout, text, wrap_width, max_lines, is_word_char),
                found,
            ) ==> are_boundaries_of(
                *is_word_char,
                layout,
                text@,
                Some(wrap_width),
                max_lines,
                found@,
            ),
{
    assert forall|found: Option<WrapBoundaries>| #[trigger]
        call_ensures(
            LineLayout::checked_compute_wrap_boundaries::<F>,
            (&layout, text, wrap_width, max_lines, is_word_char),
            found,
        ) implies match found {
        Some(found) => are_boundaries_of(
            *is_word_char,
            layout,
            text@,
            Some(wrap_width),
            max_lines,
            found@,
        ),
        None => cannot_be_broken(*is_word_char, layout, text@, Some(wrap_width), max_lines),
    } by {
        match found {
            Some(found) => {
                crate::laws::breaking::layouts_break_by_their_places(
                    *is_word_char,
                    layout,
                    text@,
                    wrap_width,
                    max_lines,
                    found@,
                );
            },
            None => {
                crate::laws::breaking::layouts_break_unless_they_cannot(
                    *is_word_char,
                    layout,
                    text@,
                    Some(wrap_width),
                    max_lines,
                );
            },
        }
    }
    assert forall|found: WrapBoundaries| #[trigger]
        call_ensures(
            LineLayout::compute_wrap_boundaries::<F>,
            (&layout, text, wrap_width, max_lines, is_word_char),
            found,
        ) implies are_boundaries_of(
        *is_word_char,
        layout,
        text@,
        Some(wrap_width),
        max_lines,
        found@,
    ) by {
        crate::laws::breaking::layouts_break_by_their_places(
            *is_word_char,
            layout,
            text@,
            wrap_width,
            max_lines,
            found@,
        );
    }
}

/// A wrapped line is made of the very line and wrap width passed, and breaks at the boundaries
/// of that line. There is none only if the line cannot be broken.
pub proof fn lines_are_wrapped<F: Fn(char) -> bool>(
    unwrapped_layout: Arc<LineLayout>,
    text: &str,
    wrap_width: Option<Pixels>,
    max_lines: Option<usize>,
    is_word_char: &F,
)
    ensures
        forall|wrapped: Option<WrappedLineLayout>| #[trigger]
            call_ensures(
                WrappedLineLayout::wrap::<F>,
                (unwrapped_layout, text, wrap_width, max_lines, is_word_char),
                wrapped,
            ) ==> match wrapped {
                Some(wrapped) => {
                    &&& wrapped.unwrapped_layout == unwrapped_layout
                    &&& wrapped.wrap_width == wrap_width
                    &&& crate::laws::places::has_its_glyphs(wrapped)
                    &&& are_boundaries_of(
                        *is_word_char,
                        *unwrapped_layout,
                        text@,
                        wrap_width,
                        max_lines,
                        wrapped.wrap_boundaries@,
                    )
                },
                None => cannot_be_broken(
                    *is_word_char,
                    *unwrapped_layout,
                    text@,
                    wrap_width,
                    max_lines,
                ),
            },
{
    let layout = &*unwrapped_layout;
    assert forall|wrapped: Option<WrappedLineLayout>| #[trigger]
        call_ensures(
            WrappedLineLayout::wrap::<F>,
            (unwrapped_layout, text, wrap_width, max_lines, is_word_char),
            wrapped,
        ) implies match wrapped {
        Some(wrapped) => {
            &&& wrapped.unwrapped_layout == unwrapped_layout
            &&& wrapped.wrap_width == wrap_width
            &&& crate::laws::places::has_its_glyphs(wrapped)
            &&& are_boundaries_of(
                *is_word_char,
                *unwrapped_layout,
                text@,
                wrap_width,
                max_lines,
                wrapped.wrap_boundaries@,
            )
        },
        None => cannot_be_broken(
            *is_word_char,
            *unwrapped_layout,
            text@,
            wrap_width,
            max_lines,
        ),
    } by {
        match wrapped {
            Some(wrapped) => {
                crate::laws::places::wrapped_lines_have_their_glyphs(wrapped);
                if let Some(wrap_width) = wrap_width {
                    crate::laws::breaking::layouts_break_by_their_places(
                        *is_word_char,
                        *layout,
                        text@,
                        wrap_width,
                        max_lines,
                        wrapped.wrap_boundaries@,
                    );
                }
            },
            None => {
                crate::laws::breaking::layouts_break_unless_they_cannot(
                    *is_word_char,
                    *layout,
                    text@,
                    wrap_width,
                    max_lines,
                );
            },
        }
    }
}

/// Whether a line has its glyphs on a grid as another has them anywhere: each glyph that was
/// further from where its column starts than the tolerance is there, any other where it was, and
/// the line is as wide as its columns, which are as many as it has glyphs, or as the last entry
/// of the table says. All else is the same.
pub open spec fn is_snapped(
    before: LineLayout,
    force_width: Pixels,
    snap_tolerance: Pixels,
    snap_mode: SnapMode,
    after: LineLayout,
) -> bool {
    &&& match snap_mode {
        SnapMode::GlyphIndex => after.width.units == crate::laws::snapping::clipped(
            crate::laws::snapping::glyphs_of_runs(before, before.runs@.len() as int)
                * force_width.units,
        ),
        SnapMode::ByteToColumn { byte_to_column } => after.width.units
            == crate::laws::snapping::clipped(byte_to_column@.last() * force_width.units),
    }
    &&& after.font_size == before.font_size
    &&& after.ascent == before.ascent
    &&& after.descent == before.descent
    &&& after.len == before.len
    &&& after.runs@.len() == before.runs@.len()
    &&& forall|r: int|
        0 <= r < before.runs@.len() ==> {
            &&& (#[trigger] after.runs@[r]).font_id == before.runs@[r].font_id
            &&& after.runs@[r].glyphs@.len() == before.runs@[r].glyphs@.len()
        }
    &&& forall|r: int, g: int| #[trigger]
        crate::laws::lines::is_glyph(before, r, g) ==> {
            let glyph = before.runs@[r].glyphs@[g];
            let snapped = after.runs@[r].glyphs@[g];
            let column = match snap_mode {
                SnapMode::GlyphIndex => crate::laws::snapping::glyphs_of_runs(before, r) + g,
                SnapMode::ByteToColumn {
                    byte_to_column,
                } => byte_to_column@[glyph.index as int] as int,
            };
            let target = crate::laws::snapping::clipped(column * force_width.units);
            let off = glyph.position.x.units - target;
            &&& off > snap_tolerance.units || -off > snap_tolerance.units
                ==> snapped.position.x.units == target
            &&& -snap_tolerance.units <= off <= snap_tolerance.units ==> snapped.position.x
                == glyph.position.x
            &&& snapped.position.y == glyph.position.y
            &&& snapped.id == glyph.id
            &&& snapped.index == glyph.index
            &&& snapped.is_emoji == glyph.is_emoji
        }
}

/// What is said to be a line on a grid is one.
proof fn lemma_is_snapped(
    before: LineLayout,
    force_width: Pixels,
    snap_tolerance: Pixels,
    snap_mode: SnapMode,
    text_len: int,
    after: LineLayout,
)
    requires
        crate::snap::can_snap(before@, snap_mode@, text_len),
        after@ == crate::snap::snapped(
            before@,
            force_width,
            snap_tolerance,
            snap_mode@,
            text_len,
        ),
    ensures
        is_snapped(before, force_width, snap_tolerance, snap_mode, after),
{
    crate::laws::snapping::lines_can_be_snapped(before, snap_mode, text_len);
    crate::laws::snapping::lines_are_as_wide_as_their_columns(
        before,
        force_width,
        snap_tolerance,
        snap_mode,
        text_len,
    );
    crate::laws::snapping::runs_add_up(before);
    crate::laws::lines::lines_are_what_they_hold(before);
    crate::laws::lines::lines_are_what_they_hold(after);
    assert forall|r: int| 0 <= r < before.runs@.len() implies {
        &&& (#[trigger] after.runs@[r]).font_id == before.runs@[r].font_id
        &&& after.runs@[r].glyphs@.len() == before.runs@[r].glyphs@.len()
    } by {
        assert(after@.runs[r].font_id == before.runs@[r].font_id);
    }
    assert forall|r: int, g: int| #[trigger] crate::laws::lines::is_glyph(before, r, g) implies {
        let glyph = before.runs@[r].glyphs@[g];
        let snapped = after.runs@[r].glyphs@[g];
        let column = match snap_mode {
            SnapMode::GlyphIndex => crate::laws::snapping::glyphs_of_runs(before, r) + g,
            SnapMode::ByteToColumn { byte_to_column } => byte_to_column@[glyph.index as int] as int,
        };
        let target = crate::laws::snapping::clipped(column * force_width.units);
        let off = glyph.position.x.units - target;
        &&& off > snap_tolerance.units || -off > snap_tolerance.units
            ==> snapped.position.x.units == target
        &&& -snap_tolerance.units <= off <= snap_tolerance.units ==> snapped.position.x
            == glyph.position.x
        &&& snapped.position.y == glyph.position.y
        &&& snapped.id == glyph.id
        &&& snapped.index == glyph.index
        &&& snapped.is_emoji == glyph.is_emoji
    } by {
        let n = crate::laws::snapping::glyphs_of_runs(before, r) + g;
        crate::laws::snapping::lemma_glyph_of_run(before, r, g);
        crate::laws::snapping::glyphs_go_to_their_columns(
            before,
            force_width,
            snap_tolerance,
            snap_mode,
            text_len,
            n,
        );
        assert(after@.runs[r].glyphs == after.runs@[r].glyphs@);
    }
}

/// A line on a grid, which snapping leaves behind, is what it has to be, whatever the length of
/// its text.
pub proof fn glyphs_are_snapped(
    force_width: Pixels,
    snap_tolerance: Pixels,
    snap_mode: &SnapMode,
    text_len: usize,
)
    ensures
        forall|layout: &mut LineLayout|
            crate::snap::can_snap(layout@, snap_mode@, text_len as int)
                && #[trigger] call_ensures(
                crate::snap::snap_glyph_positions,
                (layout, force_width, snap_tolerance, snap_mode, text_len),
                (),
            ) ==> is_snapped(*layout, force_width, snap_tolerance, *snap_mode, *final(layout)),
{
    assert forall|layout: &mut LineLayout|
        crate::snap::can_snap(layout@, snap_mode@, text_len as int) && #[trigger] call_ensures(
            crate::snap::snap_glyph_positions,
            (layout, force_width, snap_tolerance, snap_mode, text_len),
            (),
        ) implies is_snapped(
        *layout,
        force_width,
        snap_tolerance,
        *snap_mode,
        *final(layout),
    ) by {
        lemma_is_snapped(
            *layout,
            force_width,
            snap_tolerance,
            *snap_mode,
            text_len as int,
            *final(layout),
        );
    }
}

/// Whether a line can be snapped: its glyphs can be counted, and, where there is a table, this
/// has an entry for each byte of the text and one more, none smaller than the one before it, and
/// each glyph starts within the text or at its end.
pub open spec fn fits(layout: LineLayout, snap_mode: SnapMode, text_len: int) -> bool {
    &&& crate::laws::snapping::glyphs_of_runs(layout, layout.runs@.len() as int) <= u32::MAX
    &&& match snap_mode {
        SnapMode::GlyphIndex => true,
        SnapMode::ByteToColumn { byte_to_column } => {
            &&& byte_to_column@.len() == text_len + 1
            &&& forall|i: int|
                0 < i < byte_to_column@.len()
                    ==> #[trigger] crate::laws::snapping::does_not_go_back(byte_to_column@, i)
            &&& forall|r: int, g: int| #[trigger]
                crate::laws::lines::is_glyph(layout, r, g) ==> layout.runs@[r].glyphs@[g].index
                    <= text_len
        },
    }
}

/// What is said of a line that can be snapped holds of its runs.
pub proof fn lemma_fits(layout: LineLayout, snap_mode: SnapMode, text_len: int)
    ensures
        crate::snap::can_snap(layout@, snap_mode@, text_len) <==> fits(
            layout,
            snap_mode,
            text_len,
        ),
{
    crate::laws::snapping::lines_can_be_snapped(layout, snap_mode, text_len);
    crate::laws::snapping::runs_add_up(layout);
    crate::laws::lines::glyphs_are_those_of_the_runs(&layout);
    if let SnapMode::ByteToColumn { byte_to_column } = snap_mode {
        if crate::snap::can_snap(layout@, snap_mode@, text_len) {
            assert forall|r: int, g: int| #[trigger]
                crate::laws::lines::is_glyph(layout, r, g) implies layout.runs@[r].glyphs@[g].index
                <= text_len by {
                let n = choose|n: int|
                    0 <= n < layout@.glyphs().len() && (#[trigger] layout@.glyphs()[n]).run_ix == r
                        && layout@.glyphs()[n].glyph_ix == g;
                assert(layout@.glyphs()[n].glyph.index <= text_len);
            }
        }
        if fits(layout, snap_mode, text_len) {
            assert forall|n: int| 0 <= n < layout@.glyphs().len() implies (
            #[trigger] layout@.glyphs()[n]).glyph.index <= text_len by {
                let placed = layout@.glyphs()[n];
                assert(crate::laws::lines::is_glyph(layout, placed.run_ix, placed.glyph_ix));
            }
        }
    }
}

/// A line is said to fit exactly if it can be snapped.
pub proof fn lines_are_checked(layout: LineLayout, snap_mode: &SnapMode, text_len: usize)
    ensures
        forall|answer: bool| #[trigger]
            call_ensures(crate::snap::fits_columns, (&layout, snap_mode, text_len), answer)
                ==> answer == fits(layout, *snap_mode, text_len as int),
{
    lemma_fits(layout, *snap_mode, text_len as int);
}

/// Whether a line is what options make of another: without a forced width the same, with one the
/// other on a grid of that width with the tolerance and the mode of the options.
pub open spec fn is_made(
    opts: ShapeLineOptions,
    before: LineLayout,
    text_len: int,
    after: LineLayout,
) -> bool {
    match opts.force_width {
        None => after@ == before@,
        Some(force_width) => {
            &&& fits(before, opts.snap_mode, text_len)
            &&& is_snapped(before, force_width, opts.snap_tolerance, opts.snap_mode, after)
        },
    }
}

/// What options are said to make of a line they do.
pub proof fn lemma_is_made(
    opts: ShapeLineOptions,
    before: LineLayout,
    text_len: int,
    after: LineLayout,
)
    requires
        opts@.can_apply(before@, text_len),
        after@ == opts@.apply(before@, text_len),
    ensures
        is_made(opts, before, text_len, after),
{
    crate::laws::snapping::options_are_applied(opts, before@, text_len);
    if let Some(force_width) = opts.force_width {
        lemma_fits(before, opts.snap_mode, text_len);
        lemma_is_snapped(
            before,
            force_width,
            opts.snap_tolerance,
            opts.snap_mode,
            text_len,
            after,
        );
    }
}

/// Options make of a line what they ask for. They make nothing of it only if they ask for a grid
/// that it does not fit.
pub proof fn options_make_lines(opts: ShapeLineOptions, layout: LineLayout, text_len: usize)
    ensures
        forall|applied: Option<LineLayout>| #[trigger]
            call_ensures(ShapeLineOptions::apply, (&opts, layout, text_len), applied)
                ==> match applied {
                Some(applied) => is_made(opts, layout, text_len as int, applied),
                None => opts.force_width is Some && !fits(layout, opts.snap_mode, text_len as int),
            },
{
    crate::laws::snapping::options_are_applied(opts, layout@, text_len as int);
    lemma_fits(layout, opts.snap_mode, text_len as int);
    assert forall|applied: Option<LineLayout>| #[trigger]
        call_ensures(ShapeLineOptions::apply, (&opts, layout, text_len), applied) implies match applied {
        Some(applied) => is_made(opts, layout, text_len as int, applied),
        None => opts.force_width is Some && !fits(layout, opts.snap_mode, text_len as int),
    } by {
        if let Some(applied) = applied {
            lemma_is_made(opts, layout, text_len as int, applied);
        }
    }
}

/// Normalized options are the same if they force a width. Otherwise they are the default ones:
/// no width, a tolerance of one pixel, and columns by glyphs.
pub proof fn options_are_normalized(opts: ShapeLineOptions)
    ensures
        forall|normalized: ShapeLineOptions| #[trigger]
            call_ensures(ShapeLineOptions::normalized, (opts,), normalized) ==> {
                &&& opts.force_width is Some ==> normalized == opts
                &&& opts.force_width is None ==> is_default(normalized)
            },
        forall|options: ShapeLineOptions| #[trigger]
            call_ensures(ShapeLineOptions::default, (), options) ==> is_default(options),
{
    crate::laws::snapping::options_with_a_grid_are_kept(opts);
}

/// Whether options have no forced width, a tolerance of one pixel, and columns by glyphs.
pub open spec fn is_default(opts: ShapeLineOptions) -> bool {
    &&& opts.force_width is None
    &&& opts.snap_tolerance.units == 0x1_0000_0000
    &&& opts.snap_mode is GlyphIndex
}

} // verus!
