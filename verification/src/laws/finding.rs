//! What holds of finding text indices for places and places for text indices.

use crate::geometry::{Pixels, Point};
use crate::layout::{LayoutView, PlacedGlyph, ShapedGlyph};
use crate::wrapped::WrappedView;
use vstd::prelude::*;

verus! {

/// Whether the glyphs of a line go to the right as the text goes on: neither their indices nor
/// their places go back, and glyphs of different indices are in different places, all of them
/// inside the line and the text.
pub open spec fn reads_left_to_right(layout: LayoutView) -> bool {
    let glyphs = layout.glyphs();
    &&& forall|m: int, n: int|
        0 <= m < n < glyphs.len() ==> {
            &&& (#[trigger] glyphs[m]).glyph.index <= (#[trigger] glyphs[n]).glyph.index
            &&& glyphs[m].glyph.position.x@ <= glyphs[n].glyph.position.x@
            &&& glyphs[m].glyph.index < glyphs[n].glyph.index ==> glyphs[m].glyph.position.x@
                < glyphs[n].glyph.position.x@
        }
    &&& forall|n: int|
        0 <= n < glyphs.len() ==> {
            &&& (#[trigger] glyphs[n]).glyph.position.x@ < layout.width@
            &&& glyphs[n].glyph.index < layout.len
        }
}

/// How far apart two places are.
pub open spec fn distance(a: int, b: int) -> int {
    if a <= b {
        b - a
    } else {
        a - b
    }
}

/// The glyph that `last_index_at_or_left_of` takes its index from.
proof fn lemma_last_at_or_left_of(glyphs: Seq<PlacedGlyph>, x: int) -> (n: int)
    ensures
        -1 <= n < glyphs.len(),
        n >= 0 ==> glyphs[n].glyph.position.x@ <= x,
        forall|m: int| n < m < glyphs.len() ==> (#[trigger] glyphs[m]).glyph.position.x@ > x,
        crate::layout::last_index_at_or_left_of(glyphs, x) == (if n >= 0 {
            glyphs[n].glyph.index
        } else {
            0
        }),
    decreases glyphs.len(),
{
    if glyphs.len() == 0 {
        -1
    } else if glyphs.last().glyph.position.x@ <= x {
        glyphs.len() - 1
    } else {
        let n = lemma_last_at_or_left_of(glyphs.drop_last(), x);
        assert forall|m: int| n < m < glyphs.len() implies (
        #[trigger] glyphs[m]).glyph.position.x@ > x by {
            if m < glyphs.len() - 1 {
                assert(glyphs.drop_last()[m] == glyphs[m]);
            }
        }
        n
    }
}

/// The index found for a place inside the line is that of the last glyph that starts at or left
/// of it, or 0 if there is none; right of the line there is none.
pub proof fn index_for_x_is_under_x(layout: LayoutView, x: int)
    ensures
        layout.index_for_x(x) is None <==> x >= layout.width@,
        x < layout.width@ ==> {
            let glyphs = layout.glyphs();
            ||| layout.index_for_x(x) == Some(0usize) && forall|n: int|
                0 <= n < glyphs.len() ==> (#[trigger] glyphs[n]).glyph.position.x@ > x
            ||| exists|n: int|
                {
                    &&& 0 <= n < glyphs.len()
                    &&& layout.index_for_x(x) == Some((#[trigger] glyphs[n]).glyph.index)
                    &&& glyphs[n].glyph.position.x@ <= x
                    &&& forall|m: int|
                        n < m < glyphs.len() ==> (#[trigger] glyphs[m]).glyph.position.x@ > x
                }
        },
{
    let n = lemma_last_at_or_left_of(layout.glyphs(), x);
    if n >= 0 {
        assert(layout.glyphs()[n].glyph.position.x@ <= x);
    }
}

/// The first glyph at or after a text index, where there is one with that index.
proof fn lemma_first_from_index(layout: LayoutView, n: int)
    requires
        reads_left_to_right(layout),
        0 <= n < layout.glyphs().len(),
    ensures
        ({
            let glyphs = layout.glyphs();
            let first = layout.first_from_index(glyphs[n].glyph.index as int);
            &&& 0 <= first <= n
            &&& glyphs[first].glyph.index == glyphs[n].glyph.index
        }),
{
    let glyphs = layout.glyphs();
    let index = glyphs[n].glyph.index as int;
    let wanted = |glyph: ShapedGlyph| glyph.index >= index;
    crate::layout::lemma_first_glyph(glyphs, wanted);
    let first = layout.first_from_index(index);
    if first > n {
        assert(!wanted(glyphs[n].glyph));
    }
    assert(wanted(glyphs[first].glyph));
    if first < n {
        assert(glyphs[first].glyph.index <= glyphs[n].glyph.index);
    }
}

/// In a line that reads from left to right, the index found where the glyph of an index starts
/// is that index.
pub proof fn index_for_x_of_index(layout: LayoutView, n: int)
    requires
        reads_left_to_right(layout),
        0 <= n < layout.glyphs().len(),
    ensures
        ({
            let index = layout.glyphs()[n].glyph.index;
            layout.index_for_x(layout.x_for_index(index as int)@) == Some(index)
        }),
{
    let glyphs = layout.glyphs();
    let index = glyphs[n].glyph.index;
    lemma_first_from_index(layout, n);
    let first = layout.first_from_index(index as int);
    let x = glyphs[first].glyph.position.x@;
    assert(layout.x_for_index(index as int)@ == x);
    let last = lemma_last_at_or_left_of(glyphs, x);
    if last < first {
        assert(glyphs[first].glyph.position.x@ > x);
    } else if last > first {
        assert(glyphs[first].glyph.index <= glyphs[last].glyph.index);
    }
}

/// Whether the places of the glyphs of a line do not go back as the glyphs go on, nor pass the
/// end of the line.
pub open spec fn goes_right(layout: LayoutView) -> bool {
    let glyphs = layout.glyphs();
    &&& forall|m: int, n: int|
        0 <= m < n < glyphs.len() ==> (#[trigger] glyphs[m]).glyph.position.x@ <= (
        #[trigger] glyphs[n]).glyph.position.x@
    &&& forall|n: int|
        0 <= n < glyphs.len() ==> (#[trigger] glyphs[n]).glyph.position.x@ <= layout.width@
}

/// The text index of a character boundary: that of a glyph, or the length of the text after
/// the last glyph.
pub open spec fn boundary_index(layout: LayoutView, n: int) -> usize {
    if n < layout.glyphs().len() {
        layout.glyphs()[n].glyph.index
    } else {
        layout.len
    }
}

/// Where a character boundary is: where a glyph starts, or the end of the line after the last
/// glyph.
pub open spec fn boundary_x(layout: LayoutView, n: int) -> int {
    if n < layout.glyphs().len() {
        layout.glyphs()[n].glyph.position.x@
    } else {
        layout.width@
    }
}

/// In a line that reads from left to right and whose first glyph is for the start of the text,
/// the closest index to where the glyph of an index starts is that index, and the closest index
/// to where the text ends is its end.
pub proof fn closest_index_for_x_of_index(layout: LayoutView, n: int)
    requires
        reads_left_to_right(layout),
        0 <= n <= layout.glyphs().len(),
        layout.glyphs().len() > 0,
        layout.glyphs()[0].glyph.index == 0,
    ensures
        ({
            let index = boundary_index(layout, n);
            layout.closest_index_for_x(layout.x_for_index(index as int)@) == index
        }),
{
    let glyphs = layout.glyphs();
    let index = boundary_index(layout, n);
    let x = layout.x_for_index(index as int)@;
    let wanted = |glyph: ShapedGlyph| glyph.position.x@ >= x;
    crate::layout::lemma_first_glyph(glyphs, wanted);
    let next = layout.first_from_x(x);
    if n < glyphs.len() {
        lemma_first_from_index(layout, n);
        let first = layout.first_from_index(index as int);
        assert(x == glyphs[first].glyph.position.x@);
        if next > first {
            assert(!wanted(glyphs[first].glyph));
        }
        assert(wanted(glyphs[next].glyph));
        if next < first {
            assert(glyphs[next].glyph.index <= glyphs[first].glyph.index);
            assert(glyphs[next].glyph.position.x@ <= glyphs[first].glyph.position.x@);
        }
    } else {
        the_text_ends_where_the_line_ends(layout);
        if next < glyphs.len() {
            assert(wanted(glyphs[next].glyph));
        }
    }
    if next > 0 {
        assert(!wanted(glyphs[next - 1].glyph));
    }
}

/// In a line whose glyphs go to the right and begin with the start of the text, the closest
/// index to a place is that of a character boundary that no other is closer than.
pub proof fn closest_index_is_closest(layout: LayoutView, x: int)
    requires
        goes_right(layout),
        layout.glyphs().len() > 0,
        layout.glyphs()[0].glyph.index == 0,
    ensures
        exists|n: int|
            {
                &&& 0 <= n <= layout.glyphs().len()
                &&& layout.closest_index_for_x(x) == #[trigger] boundary_index(layout, n)
                &&& forall|m: int|
                    0 <= m <= layout.glyphs().len() ==> distance(boundary_x(layout, n), x)
                        <= distance(#[trigger] boundary_x(layout, m), x)
            },
{
    let glyphs = layout.glyphs();
    let wanted = |glyph: ShapedGlyph| glyph.position.x@ >= x;
    crate::layout::lemma_first_glyph(glyphs, wanted);
    let next = layout.first_from_x(x);
    let n = if next == 0 {
        0
    } else if boundary_x(layout, next) - x < x - boundary_x(layout, next - 1) {
        next
    } else {
        next - 1
    };
    if next < glyphs.len() {
        assert(wanted(glyphs[next].glyph));
    }
    if next > 0 {
        assert(!wanted(glyphs[next - 1].glyph));
    }
    assert(layout.closest_index_for_x(x) == boundary_index(layout, n));
    assert forall|m: int| 0 <= m <= glyphs.len() implies distance(boundary_x(layout, n), x)
        <= distance(#[trigger] boundary_x(layout, m), x) by {
        if m < next - 1 {
            assert(glyphs[m].glyph.position.x@ <= glyphs[next - 1].glyph.position.x@);
        } else if next < m < glyphs.len() {
            assert(glyphs[next].glyph.position.x@ <= glyphs[m].glyph.position.x@);
        }
    }
}

/// In a line whose glyphs go to the right, a later index is not further left, and none is past
/// the end of the line.
pub proof fn later_indices_are_not_further_left(layout: LayoutView, from: int, to: int)
    requires
        goes_right(layout),
        from <= to,
    ensures
        layout.x_for_index(from)@ <= layout.x_for_index(to)@ <= layout.width@,
{
    let glyphs = layout.glyphs();
    let wanted_from = |glyph: ShapedGlyph| glyph.index >= from;
    let wanted_to = |glyph: ShapedGlyph| glyph.index >= to;
    crate::layout::lemma_first_glyph(glyphs, wanted_from);
    crate::layout::lemma_first_glyph(glyphs, wanted_to);
    let a = layout.first_from_index(from);
    let b = layout.first_from_index(to);
    if b < a {
        assert(!wanted_from(glyphs[b].glyph));
        assert(wanted_to(glyphs[b].glyph));
    }
    if a < glyphs.len() {
        assert(glyphs[a].glyph.position.x@ <= layout.width@);
    }
    if b < glyphs.len() {
        assert(glyphs[b].glyph.position.x@ <= layout.width@);
    }
}

/// The end of the text is at the end of the line, where all glyphs are for what comes before.
pub proof fn the_text_ends_where_the_line_ends(layout: LayoutView)
    requires
        forall|n: int|
            0 <= n < layout.glyphs().len() ==> (#[trigger] layout.glyphs()[n]).glyph.index
                < layout.len,
    ensures
        layout.x_for_index(layout.len as int) == layout.width,
{
    let glyphs = layout.glyphs();
    let wanted = |glyph: ShapedGlyph| glyph.index >= layout.len as int;
    crate::layout::lemma_first_glyph(glyphs, wanted);
    let end = layout.first_from_index(layout.len as int);
    if end < glyphs.len() {
        assert(wanted(glyphs[end].glyph));
    }
}

/// In a line whose glyphs go neither back in place nor in index, the index found further to the
/// right is not an earlier one.
pub proof fn further_right_is_not_earlier(layout: LayoutView, x: int, y: int)
    requires
        forall|m: int, n: int|
            0 <= m < n < layout.glyphs().len() ==> {
                &&& (#[trigger] layout.glyphs()[m]).glyph.position.x@ <= (
                #[trigger] layout.glyphs()[n]).glyph.position.x@
                &&& layout.glyphs()[m].glyph.index <= layout.glyphs()[n].glyph.index
            },
        x <= y,
    ensures
        layout.index_for_x(y) is Some ==> {
            &&& layout.index_for_x(x) is Some
            &&& layout.index_for_x(x)->0 <= layout.index_for_x(y)->0
        },
{
    let glyphs = layout.glyphs();
    let a = lemma_last_at_or_left_of(glyphs, x);
    let b = lemma_last_at_or_left_of(glyphs, y);
    if b < a {
        assert(glyphs[a].glyph.position.x@ > y);
    } else if 0 <= a < b {
        assert(glyphs[a].glyph.index <= glyphs[b].glyph.index);
    }
}

/// There is a font for a text index exactly as long as there is a glyph at or after it, and it
/// is the font of the run that the first such glyph belongs to.
pub proof fn font_is_that_of_the_run(layout: LayoutView, index: int)
    ensures
        ({
            let glyphs = layout.glyphs();
            let first = layout.first_from_index(index);
            &&& layout.font_id_for_index(index) is Some <==> exists|n: int|
                0 <= n < glyphs.len() && (#[trigger] glyphs[n]).glyph.index >= index
            &&& layout.font_id_for_index(index) matches Some(font_id) ==> {
                &&& 0 <= glyphs[first].run_ix < layout.runs.len()
                &&& font_id == layout.runs[glyphs[first].run_ix].font_id
            }
        }),
{
    let glyphs = layout.glyphs();
    let wanted = |glyph: ShapedGlyph| glyph.index >= index;
    crate::layout::lemma_first_glyph(glyphs, wanted);
    let first = layout.first_from_index(index);
    if first < glyphs.len() {
        assert(wanted(glyphs[first].glyph));
        crate::layout::lemma_placed_at(layout.runs, first);
    } else {
        assert forall|n: int| 0 <= n < glyphs.len() implies (#[trigger] glyphs[n]).glyph.index
            < index by {
            assert(!wanted(glyphs[n].glyph));
        }
    }
}

/// Which line is found for a text index: the first that ends at or after it.
proof fn lemma_line_of_index(ends: Seq<usize>, index: int, start: int, line: int)
    requires
        0 <= line <= ends.len(),
        start <= index,
    ensures
        match crate::wrapped::line_of_index(ends, index, start, line) {
            Some((found, found_start)) => {
                &&& line <= found < ends.len()
                &&& index <= ends[found]
                &&& forall|n: int| line <= n < found ==> index > #[trigger] ends[n]
                &&& found_start == (if found == line {
                    start
                } else {
                    ends[found - 1] as int
                })
            },
            None => forall|n: int| line <= n < ends.len() ==> index > #[trigger] ends[n],
        },
    decreases ends.len() - line,
{
    if line < ends.len() && index > ends[line] {
        lemma_line_of_index(ends, index, ends[line] as int, line + 1);
    }
}

/// A text index has a place unless all lines end before it. In particular each index up to the
/// length of the text has one.
pub proof fn each_index_has_a_place(wrapped: WrappedView, index: int, line_height: Pixels)
    requires
        0 <= index,
    ensures
        wrapped.position_for_index(index, line_height) is None <==> forall|line: int|
            0 <= line < wrapped.line_ends().len() ==> index > #[trigger] wrapped.line_ends()[line],
        index <= wrapped.layout.len ==> wrapped.position_for_index(index, line_height) is Some,
{
    let ends = wrapped.line_ends();
    lemma_line_of_index(ends, index, 0, 0);
    assert(ends[wrapped.boundaries.len() as int] == wrapped.layout.len);
}

/// Whether a wrapped line reads from left to right and from top to bottom: its glyphs do, they
/// begin at the left edge with the start of the text, the lines come one after the other, and
/// each of them starts with the first glyph of its index.
pub open spec fn reads_line_by_line(wrapped: WrappedView) -> bool {
    let glyphs = wrapped.layout.glyphs();
    &&& wrapped.wf()
    &&& wrapped.boundaries.len() <= usize::MAX
    &&& reads_left_to_right(wrapped.layout)
    &&& glyphs.len() > 0
    &&& glyphs[0].glyph.index == 0
    &&& glyphs[0].glyph.position.x@ == 0
    &&& crate::laws::wrapping::are_in_order(wrapped.boundaries)
    &&& forall|line: int|
        0 <= line < wrapped.boundaries.len() ==> {
            let glyph = #[trigger] wrapped.boundary_glyph(line);
            wrapped.layout.x_for_index(glyph.index as int) == glyph.position.x
        }
}

/// The number of the glyph at a boundary.
proof fn lemma_boundary_glyph(wrapped: WrappedView, line: int) -> (n: int)
    requires
        wrapped.wf(),
        0 <= line < wrapped.boundaries.len(),
    ensures
        0 <= n < wrapped.layout.glyphs().len(),
        wrapped.layout.glyphs()[n].glyph == wrapped.boundary_glyph(line),
        n == crate::layout::glyphs_before(
            wrapped.layout.runs,
            wrapped.boundaries[line].run_ix as int,
        ) + wrapped.boundaries[line].glyph_ix,
{
    let runs = wrapped.layout.runs;
    let boundary = wrapped.boundaries[line];
    assert(wrapped.has_glyph(boundary));
    crate::layout::lemma_placed_glyphs(runs);
    assert(runs[boundary.run_ix as int].glyphs[boundary.glyph_ix as int] == wrapped.boundary_glyph(
        line,
    ));
    crate::layout::glyphs_before(runs, boundary.run_ix as int) + boundary.glyph_ix
}

/// Later lines do not end earlier.
proof fn lemma_ends_do_not_go_back(wrapped: WrappedView, from: int, to: int)
    requires
        reads_line_by_line(wrapped),
        0 <= from < to <= wrapped.boundaries.len(),
    ensures
        wrapped.line_end_index(from) <= wrapped.line_end_index(to),
{
    let runs = wrapped.layout.runs;
    let glyphs = wrapped.layout.glyphs();
    let a = lemma_boundary_glyph(wrapped, from);
    if to < wrapped.boundaries.len() {
        let b = lemma_boundary_glyph(wrapped, to);
        let first = wrapped.boundaries[from];
        let second = wrapped.boundaries[to];
        assert(second.is_after(first));
        assert(wrapped.has_glyph(first));
        if first.run_ix < second.run_ix {
            crate::layout::lemma_glyphs_before_grows(
                runs,
                first.run_ix + 1,
                second.run_ix as int,
            );
        }
        assert(a < b);
        assert(glyphs[a].glyph.index <= glyphs[b].glyph.index);
    } else {
        assert(glyphs[a].glyph.index < wrapped.layout.len);
    }
}

/// The line that starts `line` lines down is the one found there.
proof fn lemma_line_at_start(line: int, line_height: int)
    requires
        0 <= line <= usize::MAX,
        line_height > 0,
    ensures
        crate::wrapped::line_at(line * line_height, line_height) == line,
        line * line_height >= 0,
{
    if line > 0 {
        assert(line * line_height > 0) by (nonlinear_arith)
            requires
                line > 0,
                line_height > 0,
        ;
        vstd::arithmetic::div_mod::lemma_div_by_multiple(line, line_height);
    }
}

/// In a wrapped line that reads line by line, the index found at the place of an index is that
/// index, whether the one under the place or the closest is asked for, as long as its line is
/// not further down than lengths go. It is found inside the line, or as the end of the line
/// where the index is the end of one.
pub proof fn index_for_position_of_index(
    wrapped: WrappedView,
    n: int,
    line_height: Pixels,
    closest: bool,
)
    requires
        reads_line_by_line(wrapped),
        0 <= n <= wrapped.layout.glyphs().len(),
        line_height@ > 0,
        ({
            let index = boundary_index(wrapped.layout, n);
            let found = crate::wrapped::line_of_index(wrapped.line_ends(), index as int, 0, 0);
            found is Some ==> (found->0).0 * line_height@ <= i64::MAX
        }),
    ensures
        ({
            let index = boundary_index(wrapped.layout, n);
            match wrapped.position_for_index(index as int, line_height) {
                Some(position) => wrapped.index_for_position(position, line_height, closest) == (
                if exists|line: int|
                    0 <= line <= wrapped.boundaries.len() && index == #[trigger] wrapped.line_end_index(
                        line,
                    ) {
                    Err(index)
                } else {
                    Ok(index)
                }),
                None => false,
            }
        }),
{
    let layout = wrapped.layout;
    let glyphs = layout.glyphs();
    let ends = wrapped.line_ends();
    let index = boundary_index(layout, n);
    if n < glyphs.len() {
        assert(glyphs[n].glyph.index < layout.len);
    }
    assert(ends[wrapped.boundaries.len() as int] == layout.len);
    lemma_line_of_index(ends, index as int, 0, 0);
    let (line, start) = crate::wrapped::line_of_index(ends, index as int, 0, 0)->0;
    let x = layout.x_for_index(index as int)@;
    let start_x = layout.x_for_index(start)@;
    later_indices_are_not_further_left(layout, start, index as int);
    assert(start_x == wrapped.line_start_x(line)) by {
        if line > 0 {
            assert(ends[line - 1] == wrapped.line_end_index(line - 1));
            assert(wrapped.boundary_glyph(line - 1).index == start);
        } else {
            let wanted = |glyph: ShapedGlyph| glyph.index >= 0;
            crate::layout::lemma_first_glyph(glyphs, wanted);
            assert(wanted(glyphs[0].glyph));
            assert(layout.first_from_index(0) == 0);
        }
    }
    assert(start_x >= 0) by {
        if line > 0 {
            later_indices_are_not_further_left(layout, 0, start);
            let wanted = |glyph: ShapedGlyph| glyph.index >= 0;
            crate::layout::lemma_first_glyph(glyphs, wanted);
            assert(wanted(glyphs[0].glyph));
            assert(layout.first_from_index(0) == 0);
        }
    }
    assert(0 <= x - start_x <= i64::MAX);
    lemma_line_at_start(line, line_height@);
    let position = Point {
        x: Pixels::nearest(x - start_x),
        y: Pixels::nearest(line * line_height@),
    };
    assert(wrapped.position_for_index(index as int, line_height) == Some(position));
    assert(crate::wrapped::line_at(position.y@, line_height@) == line);
    assert(wrapped.unwrapped_x(position.x@, line) == x);
    assert(ends[line] == wrapped.line_end_index(line));
    if index == ends[line] {
        assert(x == wrapped.line_end_x(line)) by {
            if line < wrapped.boundaries.len() {
                assert(wrapped.boundary_glyph(line).index == index);
            } else {
                the_text_ends_where_the_line_ends(layout);
            }
        }
        assert(index == wrapped.line_end_index(line));
    } else {
        assert(n < glyphs.len()) by {
            if line < wrapped.boundaries.len() {
                let m = lemma_boundary_glyph(wrapped, line);
                assert(glyphs[m].glyph.index < layout.len);
            }
        }
        lemma_first_from_index(layout, n);
        let first = layout.first_from_index(index as int);
        assert(x == glyphs[first].glyph.position.x@);
        assert(x < wrapped.line_end_x(line)) by {
            if line < wrapped.boundaries.len() {
                let m = lemma_boundary_glyph(wrapped, line);
                if m < first {
                    assert(glyphs[m].glyph.index <= glyphs[first].glyph.index);
                }
                assert(first != m);
                assert(glyphs[first].glyph.index < glyphs[m].glyph.index);
            }
        }
        index_for_x_of_index(layout, n);
        closest_index_for_x_of_index(layout, n);
        assert forall|other: int| 0 <= other <= wrapped.boundaries.len() implies index
            != #[trigger] wrapped.line_end_index(other) by {
            if other < line {
                assert(index > ends[other]);
            } else if other > line {
                lemma_ends_do_not_go_back(wrapped, line, other);
            }
        }
    }
}

} // verus!
