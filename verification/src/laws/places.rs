//! What is found at the places of a wrapped line, told by what the line holds.

use crate::geometry::{Pixels, Point};
use crate::inline_lists::WrapBoundary;
use crate::layout::ShapedGlyph;
use crate::wrapped::WrappedLineLayout;
use vstd::prelude::*;

verus! {

/// The glyph at the `n`-th boundary of a wrapped line.
pub open spec fn glyph_at(wrapped: WrappedLineLayout, n: int) -> ShapedGlyph {
    let boundary: WrapBoundary = wrapped.wrap_boundaries@[n];
    wrapped.unwrapped_layout.runs@[boundary.run_ix as int].glyphs@[boundary.glyph_ix as int]
}

/// Whether a wrapped line has a glyph at each of its boundaries.
pub open spec fn has_its_glyphs(wrapped: WrappedLineLayout) -> bool {
    forall|n: int|
        0 <= n < wrapped.wrap_boundaries@.len() ==> {
            let boundary: WrapBoundary = #[trigger] wrapped.wrap_boundaries@[n];
            crate::laws::lines::is_glyph(
                *wrapped.unwrapped_layout,
                boundary.run_ix as int,
                boundary.glyph_ix as int,
            )
        }
}

/// Wrapped lines are well formed if they have a glyph at each of their boundaries.
pub proof fn wrapped_lines_have_their_glyphs(wrapped: WrappedLineLayout)
    ensures
        wrapped@.wf() <==> has_its_glyphs(wrapped),
        wrapped@.boundaries == wrapped.wrap_boundaries@,
        wrapped@.layout == wrapped.unwrapped_layout@,
        wrapped@.wrap_width == wrapped.wrap_width,
{
    if wrapped@.wf() {
        assert forall|n: int| 0 <= n < wrapped.wrap_boundaries@.len() implies {
            let boundary: WrapBoundary = #[trigger] wrapped.wrap_boundaries@[n];
            crate::laws::lines::is_glyph(
                *wrapped.unwrapped_layout,
                boundary.run_ix as int,
                boundary.glyph_ix as int,
            )
        } by {
            assert(wrapped@.has_glyph(wrapped@.boundaries[n]));
        }
    }
}

/// The glyph that a boundary is said to be at.
proof fn lemma_glyph_at(wrapped: WrappedLineLayout, n: int)
    requires
        has_its_glyphs(wrapped),
        0 <= n < wrapped.wrap_boundaries@.len(),
    ensures
        wrapped@.boundary_glyph(n) == glyph_at(wrapped, n),
{
    let boundary: WrapBoundary = wrapped.wrap_boundaries@[n];
    assert(crate::laws::lines::is_glyph(
        *wrapped.unwrapped_layout,
        boundary.run_ix as int,
        boundary.glyph_ix as int,
    ));
}

/// The text index that a line starts with: that of the glyph at the boundary before it.
pub open spec fn starts_with(wrapped: WrappedLineLayout, line: int) -> usize {
    if line == 0 {
        0
    } else {
        glyph_at(wrapped, line - 1).index
    }
}

/// Where a line starts in the unwrapped line.
pub open spec fn starts_at(wrapped: WrappedLineLayout, line: int) -> int {
    if line == 0 {
        0
    } else {
        glyph_at(wrapped, line - 1).position.x.units as int
    }
}

/// The text index that a line ends with: that of the glyph at the boundary after it, or the
/// length of the text.
pub open spec fn ends_with(wrapped: WrappedLineLayout, line: int) -> usize {
    if line < wrapped.wrap_boundaries@.len() {
        glyph_at(wrapped, line).index
    } else {
        wrapped.unwrapped_layout.len
    }
}

/// Where a line ends in the unwrapped line.
pub open spec fn ends_at(wrapped: WrappedLineLayout, line: int) -> int {
    if line < wrapped.wrap_boundaries@.len() {
        glyph_at(wrapped, line).position.x.units as int
    } else {
        wrapped.unwrapped_layout.width.units as int
    }
}

/// Whether a line of height `h` has a place `y` down in it. The first line has all places above
/// it, too. Lines of a negative height go up, and without a height there is only the first.
pub open spec fn has_height(line: int, y: int, h: int) -> bool {
    if h > 0 {
        (line == 0 || line * h <= y) && y < (line + 1) * h
    } else if h < 0 {
        (line == 0 || line * (-h) <= -y) && -y < (line + 1) * (-h)
    } else {
        line == 0 && y <= 0
    }
}

/// Whether a place `y` down is past the last of `count` lines of height `h`.
pub open spec fn is_past(count: int, y: int, h: int) -> bool {
    if h > 0 {
        y >= count * h
    } else if h < 0 {
        -y >= count * (-h)
    } else {
        y > 0
    }
}

proof fn lemma_line_from(line: int, y: int, h: int)
    requires
        line >= 0,
        h > 0,
        line * h <= y < (line + 1) * h,
    ensures
        y / h == line,
{
    assert((line + 1) * h == line * h + h) by (nonlinear_arith);
    vstd::arithmetic::div_mod::lemma_fundamental_div_mod_converse(y, h, line, y - line * h);
}

proof fn lemma_line_of_height(line: int, y: int, h: int)
    requires
        0 <= line <= usize::MAX,
        has_height(line, y, h),
    ensures
        crate::wrapped::line_at(y, h) == line,
{
    if h > 0 && y > 0 {
        if line == 0 {
            assert(0 * h == 0);
        }
        lemma_line_from(line, y, h);
    } else if h < 0 && y < 0 {
        if line == 0 {
            assert(0 * (-h) == 0);
        }
        lemma_line_from(line, -y, -h);
    } else if h > 0 && line > 0 {
        assert(line * h > 0) by (nonlinear_arith)
            requires
                line > 0,
                h > 0,
        ;
    } else if h < 0 && line > 0 {
        assert(line * (-h) > 0) by (nonlinear_arith)
            requires
                line > 0,
                h < 0,
        ;
    }
}

proof fn lemma_past(count: int, y: int, h: int)
    requires
        0 < count <= usize::MAX,
        is_past(count, y, h),
    ensures
        crate::wrapped::line_at(y, h) >= count,
{
    if h != 0 {
        let (a, b) = if h > 0 {
            (y, h)
        } else {
            (-y, -h)
        };
        assert(count * b > 0) by (nonlinear_arith)
            requires
                count > 0,
                b > 0,
        ;
        vstd::arithmetic::div_mod::lemma_div_is_ordered(count * b, a, b);
        vstd::arithmetic::div_mod::lemma_div_by_multiple(count, b);
    }
}

/// Whether a place is answered from a line: left of that line with the index that it starts with,
/// right of it with the one that it ends with, and inside with the index under the place, or the
/// closest one, in the unwrapped line.
pub open spec fn is_found_in(
    wrapped: WrappedLineLayout,
    x: Pixels,
    line: int,
    closest: bool,
    found: Result<usize, usize>,
) -> bool {
    let layout = wrapped.unwrapped_layout;
    let start = starts_at(wrapped, line);
    let place = crate::laws::snapping::clipped(x.units + start);
    &&& place < start ==> found == Err::<usize, usize>(starts_with(wrapped, line))
    &&& start <= place && ends_at(wrapped, line) <= place ==> found == Err::<usize, usize>(
        ends_with(wrapped, line),
    )
    &&& start <= place < ends_at(wrapped, line) && closest ==> {
        &&& found is Ok
        &&& crate::laws::lines::is_closest_to(*layout, Pixels { units: place as i64 }, found->Ok_0)
    }
    &&& start <= place < ends_at(wrapped, line) && !closest && place < layout.width.units ==> {
        &&& found is Ok
        &&& crate::laws::lines::is_under(
            *layout,
            Pixels { units: place as i64 },
            Some(found->Ok_0),
        )
    }
}

/// A place is answered from the line that has it.
pub proof fn places_are_found_in_their_line(
    wrapped: WrappedLineLayout,
    position: Point<Pixels>,
    line_height: Pixels,
    line: int,
    closest: bool,
)
    requires
        has_its_glyphs(wrapped),
        0 <= line <= wrapped.wrap_boundaries@.len() < usize::MAX,
        has_height(line, position.y.units as int, line_height.units as int),
    ensures
        is_found_in(
            wrapped,
            position.x,
            line,
            closest,
            wrapped@.index_for_position(position, line_height, closest),
        ),
{
    let place = crate::laws::snapping::clipped(position.x.units + starts_at(wrapped, line));
    let x = Pixels { units: place as i64 };
    crate::laws::lines::index_for_x_is_that_of_a_glyph(&*wrapped.unwrapped_layout, x);
    crate::laws::lines::closest_index_is_that_of_a_neighbour(&*wrapped.unwrapped_layout, x);
    lemma_line_of_height(line, position.y.units as int, line_height.units as int);
    if line > 0 {
        lemma_glyph_at(wrapped, line - 1);
    }
    if line < wrapped.wrap_boundaries@.len() {
        lemma_glyph_at(wrapped, line);
    }
}

/// A place below all lines is answered with an error and the start of the text.
pub proof fn places_below_are_not_found(
    wrapped: WrappedLineLayout,
    position: Point<Pixels>,
    line_height: Pixels,
    closest: bool,
)
    requires
        wrapped.wrap_boundaries@.len() < usize::MAX,
        is_past(
            wrapped.wrap_boundaries@.len() + 1int,
            position.y.units as int,
            line_height.units as int,
        ),
    ensures
        wrapped@.index_for_position(position, line_height, closest) == Err::<usize, usize>(0),
{
    lemma_past(
        wrapped.wrap_boundaries@.len() + 1int,
        position.y.units as int,
        line_height.units as int,
    );
}

/// Each place is in one of the lines or below them all.
pub proof fn places_are_in_a_line_or_below(count: int, y: int, h: int)
    requires
        count > 0,
    ensures
        is_past(count, y, h) || exists|line: int| 0 <= line < count && has_height(line, y, h),
{
    if !is_past(count, y, h) {
        if h == 0 {
            assert(has_height(0, y, h));
        } else {
            let (a, b) = if h > 0 {
                (y, h)
            } else {
                (-y, -h)
            };
            if a < b {
                assert((0 + 1) * b == b) by (nonlinear_arith);
                assert(has_height(0, y, h));
            } else {
                let line = a / b;
                vstd::arithmetic::div_mod::lemma_fundamental_div_mod(a, b);
                assert(line * b == b * line) by (nonlinear_arith);
                assert((line + 1) * b == line * b + b) by (nonlinear_arith);
                assert(0 <= a % b < b);
                assert(line >= 0) by (nonlinear_arith)
                    requires
                        line * b <= a,
                        a < line * b + b,
                        a >= b,
                        b > 0,
                ;
                assert(line < count) by (nonlinear_arith)
                    requires
                        line * b <= a,
                        a < count * b,
                        b > 0,
                ;
                assert(has_height(line, y, h));
            }
        }
    }
}

/// What is found does not change with how far down in its line a place is.
pub proof fn a_line_is_the_same_all_the_way_down(
    wrapped: WrappedLineLayout,
    x: Pixels,
    y: Pixels,
    other_y: Pixels,
    line_height: Pixels,
    line: int,
    closest: bool,
)
    requires
        0 <= line <= usize::MAX,
        has_height(line, y.units as int, line_height.units as int),
        has_height(line, other_y.units as int, line_height.units as int),
    ensures
        wrapped@.index_for_position(Point { x, y }, line_height, closest)
            == wrapped@.index_for_position(Point { x, y: other_y }, line_height, closest),
{
    lemma_line_of_height(line, y.units as int, line_height.units as int);
    lemma_line_of_height(line, other_y.units as int, line_height.units as int);
}

/// Whether a line is the first that does not end before a text index.
pub open spec fn has_index(wrapped: WrappedLineLayout, index: usize, line: int) -> bool {
    &&& 0 <= line <= wrapped.wrap_boundaries@.len()
    &&& index <= ends_with(wrapped, line)
    &&& forall|m: int| 0 <= m < line ==> #[trigger] ends_with(wrapped, m) < index
}

/// Whether a place is that of a text index in a line: as far to the right as the index is from the
/// one that the line before ends with in the unwrapped line, and as many lines down.
pub open spec fn is_place_in(
    wrapped: WrappedLineLayout,
    index: usize,
    line_height: Pixels,
    line: int,
    place: Point<Pixels>,
) -> bool {
    let layout = wrapped.unwrapped_layout;
    let start = if line == 0 {
        0
    } else {
        ends_with(wrapped, line - 1)
    };
    &&& place.x.units == crate::laws::snapping::clipped(
        layout@.x_for_index(index as int).units - layout@.x_for_index(start as int).units,
    )
    &&& place.y.units == crate::laws::snapping::clipped(line * line_height.units)
}

/// A text index is in the first line that does not end before it.
pub proof fn indices_are_in_their_line(
    wrapped: WrappedLineLayout,
    index: usize,
    line_height: Pixels,
    line: int,
)
    requires
        has_its_glyphs(wrapped),
        has_index(wrapped, index, line),
    ensures
        ({
            let found = wrapped@.position_for_index(index as int, line_height);
            found is Some && is_place_in(wrapped, index, line_height, line, found->0)
        }),
{
    let ends = wrapped@.line_ends();
    assert forall|m: int| 0 <= m < ends.len() implies #[trigger] ends[m] == ends_with(
        wrapped,
        m,
    ) by {
        if m < wrapped.wrap_boundaries@.len() {
            lemma_glyph_at(wrapped, m);
        }
    }
    lemma_first_line(ends, index as int, 0, 0, line);
    if line > 0 {
        assert(ends[line - 1] == ends_with(wrapped, line - 1));
    }
}

/// A text index that all lines end before has no place.
pub proof fn indices_past_all_lines_have_no_place(
    wrapped: WrappedLineLayout,
    index: usize,
    line_height: Pixels,
)
    requires
        has_its_glyphs(wrapped),
        forall|m: int|
            0 <= m <= wrapped.wrap_boundaries@.len() ==> #[trigger] ends_with(wrapped, m) < index,
    ensures
        wrapped@.position_for_index(index as int, line_height) is None,
{
    let ends = wrapped@.line_ends();
    assert forall|m: int| 0 <= m < ends.len() implies #[trigger] ends[m] < index by {
        if m < wrapped.wrap_boundaries@.len() {
            lemma_glyph_at(wrapped, m);
        }
        assert(ends[m] == ends_with(wrapped, m));
    }
    crate::laws::finding::each_index_has_a_place(wrapped@, index as int, line_height);
}

proof fn lemma_first_line(ends: Seq<usize>, index: int, start: int, from: int, line: int)
    requires
        0 <= from <= line < ends.len(),
        start <= index,
        index <= ends[line],
        forall|m: int| from <= m < line ==> #[trigger] ends[m] < index,
    ensures
        crate::wrapped::line_of_index(ends, index, start, from) == Some(
            (
                line,
                if line == from {
                    start
                } else {
                    ends[line - 1] as int
                },
            ),
        ),
    decreases line - from,
{
    if from < line {
        assert(ends[from] < index);
        lemma_first_line(ends, index, ends[from] as int, from + 1, line);
    }
}

} // verus!
