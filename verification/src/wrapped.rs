//! Lines that have been wrapped, and the way between text indices and places in them.

use crate::geometry::{point, Pixels, Point, Size};
use crate::inline_lists::{WrapBoundaries, WrapBoundary};
use crate::layout::{LayoutView, LineLayout, ShapedGlyph, ShapedRun};
use std::sync::Arc;
use vstd::prelude::*;

verus! {

/// A line of text that has been wrapped to fit a given width.
#[derive(Debug)]
pub struct WrappedLineLayout {
    /// The line layout, pre-wrapping.
    pub unwrapped_layout: Arc<LineLayout>,
    /// The boundaries at which the line was wrapped.
    pub wrap_boundaries: WrapBoundaries,
    /// The width of the line, if it was wrapped.
    pub wrap_width: Option<Pixels>,
}

/// What a wrapped line is.
#[verifier::ext_equal]
pub struct WrappedView {
    pub layout: LayoutView,
    pub boundaries: Seq<WrapBoundary>,
    pub wrap_width: Option<Pixels>,
}

impl View for WrappedLineLayout {
    type V = WrappedView;

    open spec fn view(&self) -> WrappedView {
        WrappedView {
            layout: self.unwrapped_layout@,
            boundaries: self.wrap_boundaries@,
            wrap_width: self.wrap_width,
        }
    }
}

/// Which line of height `line_height` a place `y` down is in, counted from 0. Above the first
/// line counts as the first line, and lines without height are passed at once.
pub open spec fn line_at(y: int, line_height: int) -> int {
    let line = if line_height == 0 {
        if y > 0 {
            usize::MAX as int
        } else {
            0
        }
    } else if line_height > 0 && y > 0 {
        y / line_height
    } else if line_height < 0 && y < 0 {
        (-y) / (-line_height)
    } else {
        0
    };
    if line > usize::MAX {
        usize::MAX as int
    } else {
        line
    }
}

/// The line that the text index `index` is in, and the text index that it starts with, among
/// the lines from `line` on, which starts with `start`. The lines end with `ends`; an index
/// where one line ends and the next starts is in the first of them.
pub open spec fn line_of_index(ends: Seq<usize>, index: int, start: int, line: int) -> Option<
    (int, int),
>
    decreases ends.len() - line,
{
    if line >= ends.len() || index < start {
        None
    } else if index > ends[line] {
        line_of_index(ends, index, ends[line] as int, line + 1)
    } else {
        Some((line, start))
    }
}

impl WrappedView {
    /// Whether each boundary is at a glyph of the line.
    pub open spec fn wf(self) -> bool {
        forall|n: int|
            0 <= n < self.boundaries.len() ==> self.has_glyph(#[trigger] self.boundaries[n])
    }

    /// Whether a boundary is at a glyph of the line.
    pub open spec fn has_glyph(self, boundary: WrapBoundary) -> bool {
        &&& boundary.run_ix < self.layout.runs.len()
        &&& boundary.glyph_ix < self.layout.runs[boundary.run_ix as int].glyphs.len()
    }

    /// The glyph at the `n`-th boundary.
    pub open spec fn boundary_glyph(self, n: int) -> ShapedGlyph {
        let boundary = self.boundaries[n];
        self.layout.runs[boundary.run_ix as int].glyphs[boundary.glyph_ix as int]
    }

    /// The text index that a line starts with.
    pub open spec fn line_start_index(self, line: int) -> usize {
        if line > 0 {
            self.boundary_glyph(line - 1).index
        } else {
            0
        }
    }

    /// Where a line starts in the unwrapped line.
    pub open spec fn line_start_x(self, line: int) -> int {
        if line > 0 {
            self.boundary_glyph(line - 1).position.x@
        } else {
            0
        }
    }

    /// The text index that a line ends with.
    pub open spec fn line_end_index(self, line: int) -> usize {
        if line < self.boundaries.len() {
            self.boundary_glyph(line).index
        } else {
            self.layout.len
        }
    }

    /// Where a line ends in the unwrapped line.
    pub open spec fn line_end_x(self, line: int) -> int {
        if line < self.boundaries.len() {
            self.boundary_glyph(line).position.x@
        } else {
            self.layout.width@
        }
    }

    /// The text indices that the lines end with.
    pub open spec fn line_ends(self) -> Seq<usize> {
        Seq::new(self.boundaries.len() + 1, |line: int| self.line_end_index(line))
    }

    /// Where `x` in a line is in the unwrapped line.
    pub open spec fn unwrapped_x(self, x: int, line: int) -> int {
        Pixels::nearest(x + self.line_start_x(line))@
    }

    /// Whether a place is in one of the lines, neither left of it nor right of it.
    pub open spec fn is_inside(self, position: Point<Pixels>, line_height: Pixels) -> bool {
        let line = line_at(position.y@, line_height@);
        &&& line <= self.boundaries.len()
        &&& self.line_start_x(line) <= self.unwrapped_x(position.x@, line) < self.line_end_x(line)
    }

    /// The text index at a place: of the glyph under it, or of the closest glyph edge. Outside
    /// the lines it is an error, with the start of the line to the left of a line, with its end
    /// to the right, and with the start of the text below the last line.
    pub open spec fn index_for_position(
        self,
        position: Point<Pixels>,
        line_height: Pixels,
        closest: bool,
    ) -> Result<usize, usize> {
        let line = line_at(position.y@, line_height@);
        let x = self.unwrapped_x(position.x@, line);
        if line > self.boundaries.len() {
            Err(0)
        } else if x < self.line_start_x(line) {
            Err(self.line_start_index(line))
        } else if x >= self.line_end_x(line) {
            Err(self.line_end_index(line))
        } else if closest {
            Ok(self.layout.closest_index_for_x(x))
        } else {
            Ok(crate::layout::last_index_at_or_left_of(self.layout.glyphs(), x))
        }
    }

    /// The place of a text index, if one of the lines has it.
    pub open spec fn position_for_index(self, index: int, line_height: Pixels) -> Option<
        Point<Pixels>,
    > {
        match line_of_index(self.line_ends(), index, 0, 0) {
            Some((line, start)) => Some(
                Point {
                    x: Pixels::nearest(
                        self.layout.x_for_index(index)@ - self.layout.x_for_index(start)@,
                    ),
                    y: Pixels::nearest(line * line_height@),
                },
            ),
            None => None,
        }
    }
}

/// How many units a length has, whichever its direction.
fn magnitude(length: Pixels) -> (units: u64)
    ensures
        units == (if length@ < 0 {
            -length@
        } else {
            length@
        }),
{
    if length.units < 0 {
        (-(length.units as i128)) as u64
    } else {
        length.units as u64
    }
}

/// Which line of height `line_height` a place `y` down is in.
fn find_line(y: Pixels, line_height: Pixels) -> (line: usize)
    ensures
        line == line_at(y@, line_height@),
{
    if line_height.units == 0 {
        if y.units > 0 {
            usize::MAX
        } else {
            0
        }
    } else if (line_height.units > 0 && y.units > 0) || (line_height.units < 0 && y.units < 0) {
        let line: u64 = magnitude(y) / magnitude(line_height);
        if line > usize::MAX as u64 {
            usize::MAX
        } else {
            line as usize
        }
    } else {
        0
    }
}

impl Default for WrappedLineLayout {
    fn default() -> (wrapped: Self)
        ensures
            wrapped@ == (WrappedView {
                layout: LayoutView::empty(),
                boundaries: Seq::empty(),
                wrap_width: None,
            }),
    {
        let layout = LineLayout::default();
        WrappedLineLayout {
            unwrapped_layout: Arc::new(layout),
            wrap_boundaries: WrapBoundaries::new(),
            wrap_width: None,
        }
    }
}

/// The boundaries of a layout are at glyphs of it.
proof fn lemma_boundaries_have_glyphs(
    layout: &LineLayout,
    text: Seq<char>,
    words: Seq<bool>,
    wrap_width: Option<Pixels>,
    max_lines: Option<usize>,
)
    ensures
        (WrappedView {
            layout: layout@,
            boundaries: crate::wrap::boundaries_of(layout@, text, words, wrap_width, max_lines),
            wrap_width,
        }).wf(),
{
    if let Some(width) = wrap_width {
        let glyphs = crate::wrap::wrap_glyphs(layout@, text, words);
        let all = crate::wrap::all_boundaries(glyphs, layout@.width, width);
        let wrapped = WrappedView {
            layout: layout@,
            boundaries: crate::wrap::boundaries_of(layout@, text, words, wrap_width, max_lines),
            wrap_width,
        };
        crate::wrap::lemma_boundaries_are_glyphs(glyphs, layout@.width, width, glyphs.len() as int);
        assert forall|n: int| 0 <= n < wrapped.boundaries.len() implies wrapped.has_glyph(
            #[trigger] wrapped.boundaries[n],
        ) by {
            assert(wrapped.boundaries[n] == all[n]);
            let m = choose|m: int|
                0 <= m < glyphs.len() && (#[trigger] glyphs[m]).boundary == all[n];
            crate::layout::lemma_placed_at(layout@.runs, m);
            let placed = layout@.glyphs()[m];
            assert(layout.runs.len() == layout.runs@.len());
            let run = layout.runs@[placed.run_ix];
            assert(run.glyphs.len() == run.glyphs@.len());
        }
    }
}

impl WrappedLineLayout {
    /// Wrap a layout of `text` to fit `wrap_width` in at most `max_lines` lines.
    /// `is_word_char` tells which characters stay together in a word.
    ///
    /// The result is `None` if the line is to be wrapped and a glyph, up to where the lines are
    /// full, is not for a character of the text, or there may be no line at all but the text
    /// needs more than one.
    pub fn wrap<F: Fn(char) -> bool>(
        unwrapped_layout: Arc<LineLayout>,
        text: &str,
        wrap_width: Option<Pixels>,
        max_lines: Option<usize>,
        is_word_char: &F,
    ) -> (wrapped: Option<WrappedLineLayout>)
        requires
            wrap_width is Some ==> forall|ch: char| call_requires(*is_word_char, (ch,)),
        ensures
            match wrapped {
                Some(wrapped) => {
                    &&& wrapped.unwrapped_layout == unwrapped_layout
                    &&& wrapped.wrap_width == wrap_width
                    &&& wrapped@.wf()
                    &&& crate::wrap::may_break(
                        *is_word_char,
                        unwrapped_layout@,
                        text@,
                        wrap_width,
                        max_lines,
                        Some(wrapped@.boundaries),
                    )
                },
                None => crate::wrap::may_break(
                    *is_word_char,
                    unwrapped_layout@,
                    text@,
                    wrap_width,
                    max_lines,
                    None,
                ),
            },
    {
        let wrap_boundaries = match wrap_width {
            Some(wrap_width) => match unwrapped_layout.checked_compute_wrap_boundaries(
                text,
                wrap_width,
                max_lines,
                is_word_char,
            ) {
                Some(found) => found,
                None => {
                    return None;
                },
            },
            None => WrapBoundaries::new(),
        };
        proof {
            if let Some(width) = wrap_width {
                let words = choose|words: Seq<bool>|
                    {
                        &&& #[trigger] crate::wrap::may_classify(
                            *is_word_char,
                            unwrapped_layout@,
                            text@,
                            words,
                            width,
                            max_lines,
                        )
                        &&& Some(wrap_boundaries@) == crate::wrap::checked_boundaries_of(
                            unwrapped_layout@,
                            text@,
                            words,
                            width,
                            max_lines,
                        )
                    };
                lemma_boundaries_have_glyphs(
                    &*unwrapped_layout,
                    text@,
                    words,
                    wrap_width,
                    max_lines,
                );
            }
        }
        Some(WrappedLineLayout { unwrapped_layout, wrap_boundaries, wrap_width })
    }

    /// The length of the underlying text, in utf8 bytes.
    pub fn len(&self) -> (len: usize)
        ensures
            len == self@.layout.len,
    {
        self.unwrapped_layout.len
    }

    /// The width of this line, in pixels, whether or not it was wrapped.
    pub fn width(&self) -> (width: Pixels)
        ensures
            width == (match self@.wrap_width {
                Some(wrap_width) if wrap_width@ <= self@.layout.width@ => wrap_width,
                _ => self@.layout.width,
            }),
    {
        self.wrap_width.unwrap_or(Pixels::max_value()).smaller(self.unwrapped_layout.width)
    }

    /// The size of the whole wrapped text, for the given line_height.
    /// Can span multiple lines if there are multiple wrap boundaries.
    pub fn size(&self, line_height: Pixels) -> (size: Size<Pixels>)
        ensures
            size.width == (match self@.wrap_width {
                Some(wrap_width) if wrap_width@ <= self@.layout.width@ => wrap_width,
                _ => self@.layout.width,
            }),
            size.height == Pixels::nearest((self@.boundaries.len() + 1) * line_height@),
    {
        let boundaries: usize = self.wrap_boundaries.as_slice().len();
        Size { width: self.width(), height: line_height.times(boundaries as i128 + 1) }
    }

    /// The ascent of a line in this layout.
    pub fn ascent(&self) -> (ascent: Pixels)
        ensures
            ascent == self@.layout.ascent,
    {
        self.unwrapped_layout.ascent
    }

    /// The descent of a line in this layout.
    pub fn descent(&self) -> (descent: Pixels)
        ensures
            descent == self@.layout.descent,
    {
        self.unwrapped_layout.descent
    }

    /// The wrap boundaries in this layout.
    pub fn wrap_boundaries(&self) -> (boundaries: &[WrapBoundary])
        ensures
            boundaries@ == self@.boundaries,
    {
        self.wrap_boundaries.as_slice()
    }

    /// The font size of this layout.
    pub fn font_size(&self) -> (font_size: Pixels)
        ensures
            font_size == self@.layout.font_size,
    {
        self.unwrapped_layout.font_size
    }

    /// The runs in this layout, sans wrapping.
    pub fn runs(&self) -> (runs: &[ShapedRun])
        ensures
            runs@ == self.unwrapped_layout.runs@,
    {
        self.unwrapped_layout.runs.as_slice()
    }

    /// The index corresponding to a given position in this layout for the given line height.
    ///
    /// See also [`Self::closest_index_for_position`].
    pub fn index_for_position(&self, position: Point<Pixels>, line_height: Pixels) -> (index:
        Result<usize, usize>)
        requires
            self@.wf(),
            self@.is_inside(position, line_height) ==> self@.unwrapped_x(
                position.x@,
                line_at(position.y@, line_height@),
            ) < self@.layout.width@,
        ensures
            index == self@.index_for_position(position, line_height, false),
    {
        self._index_for_position(position, line_height, false)
    }

    /// The closest index to a given position in this layout for the given line height.
    ///
    /// Closest means the character boundary closest to the given position.
    ///
    /// See also [`LineLayout::closest_index_for_x`].
    pub fn closest_index_for_position(&self, position: Point<Pixels>, line_height: Pixels) -> (index:
        Result<usize, usize>)
        requires
            self@.wf(),
        ensures
            index == self@.index_for_position(position, line_height, true),
    {
        self._index_for_position(position, line_height, true)
    }

    fn _index_for_position(
        &self,
        position: Point<Pixels>,
        line_height: Pixels,
        closest: bool,
    ) -> (index: Result<usize, usize>)
        requires
            self@.wf(),
            !closest && self@.is_inside(position, line_height) ==> self@.unwrapped_x(
                position.x@,
                line_at(position.y@, line_height@),
            ) < self@.layout.width@,
        ensures
            index == self@.index_for_position(position, line_height, closest),
    {
        let line: usize = find_line(position.y, line_height);
        let boundaries = self.wrap_boundaries.as_slice();
        let layout = &self.unwrapped_layout;
        let mut line_start_index: usize = 0;
        let mut line_start_x = Pixels::zero();
        if line > 0 {
            if line > boundaries.len() {
                return Err(0);
            }
            let boundary = boundaries[line - 1];
            assert(self@.has_glyph(self@.boundaries[line - 1]));
            let glyph = &layout.runs[boundary.run_ix].glyphs[boundary.glyph_ix];
            line_start_index = glyph.index;
            line_start_x = glyph.position.x;
        }
        let mut line_end_index: usize = layout.len;
        let mut line_end_x = layout.width;
        if line < boundaries.len() {
            let boundary = boundaries[line];
            assert(self@.has_glyph(self@.boundaries[line as int]));
            let glyph = &layout.runs[boundary.run_ix].glyphs[boundary.glyph_ix];
            line_end_index = glyph.index;
            line_end_x = glyph.position.x;
        }
        let x = position.x.plus(line_start_x);
        if x.units < line_start_x.units {
            Err(line_start_index)
        } else if x.units >= line_end_x.units {
            Err(line_end_index)
        } else if closest {
            Ok(layout.closest_index_for_x(x))
        } else {
            Ok(layout.index_for_x(x).unwrap())
        }
    }

    /// Returns the pixel position for the given byte index.
    pub fn position_for_index(&self, index: usize, line_height: Pixels) -> (position: Option<
        Point<Pixels>,
    >)
        requires
            self@.wf(),
        ensures
            position == self@.position_for_index(index as int, line_height),
    {
        let boundaries = self.wrap_boundaries.as_slice();
        let layout = &self.unwrapped_layout;
        let ghost ends = self@.line_ends();
        let mut line_start: usize = 0;
        let mut line: usize = 0;
        while line < boundaries.len()
            invariant
                line <= boundaries@.len(),
                boundaries@ == self@.boundaries,
                layout@ == self@.layout,
                ends == self@.line_ends(),
                self@.wf(),
                line_of_index(ends, index as int, 0, 0) == line_of_index(
                    ends,
                    index as int,
                    line_start as int,
                    line as int,
                ),
            decreases boundaries@.len() - line,
        {
            let boundary = boundaries[line];
            assert(self@.has_glyph(self@.boundaries[line as int]));
            let line_end: usize = layout.runs[boundary.run_ix].glyphs[boundary.glyph_ix].index;
            if index < line_start {
                return None;
            } else if index > line_end {
                line_start = line_end;
            } else {
                return Some(
                    point(
                        layout.x_for_index(index).minus(layout.x_for_index(line_start)),
                        line_height.times(line as i128),
                    ),
                );
            }
            line += 1;
        }
        proof {
            reveal_with_fuel(line_of_index, 2);
        }
        if index < line_start || index > layout.len {
            None
        } else {
            Some(
                point(
                    layout.x_for_index(index).minus(layout.x_for_index(line_start)),
                    line_height.times(line as i128),
                ),
            )
        }
    }
}

} // verus!
