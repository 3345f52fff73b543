//! Shaped lines of text, and the way between text indices and pixel coordinates.

use crate::geometry::{Pixels, Point};
use vstd::prelude::*;

verus! {

/// The number of a font in the text system.
#[derive(Clone, Copy, Debug, PartialEq, Eq, Hash, Default, Structural)]
pub struct FontId(pub usize);

/// The number of a glyph in its font.
#[derive(Clone, Copy, Debug, PartialEq, Eq, Hash, Default, Structural)]
pub struct GlyphId(pub u32);

/// A single glyph, ready to paint.
#[derive(Clone, Copy, Debug, PartialEq, Eq, Structural)]
pub struct ShapedGlyph {
    /// The ID for this glyph, as determined by the text system.
    pub id: GlyphId,
    /// The position of this glyph in its containing line.
    pub position: Point<Pixels>,
    /// The index of this glyph in the original text.
    pub index: usize,
    /// Whether this glyph is an emoji.
    pub is_emoji: bool,
}

/// A run of text that has been shaped.
#[derive(Clone, Debug)]
pub struct ShapedRun {
    /// The font id for this run.
    pub font_id: FontId,
    /// The glyphs that make up this run.
    pub glyphs: Vec<ShapedGlyph>,
}

/// A laid out and styled line of text.
#[derive(Debug)]
pub struct LineLayout {
    /// The font size for this line.
    pub font_size: Pixels,
    /// The width of the line.
    pub width: Pixels,
    /// The ascent of the line.
    pub ascent: Pixels,
    /// The descent of the line.
    pub descent: Pixels,
    /// The shaped runs that make up this line.
    pub runs: Vec<ShapedRun>,
    /// The length of the line in utf-8 bytes.
    pub len: usize,
}

/// What a shaped run is.
#[verifier::ext_equal]
pub struct RunView {
    pub font_id: FontId,
    pub glyphs: Seq<ShapedGlyph>,
}

/// What a line layout is.
#[verifier::ext_equal]
pub struct LayoutView {
    pub font_size: Pixels,
    pub width: Pixels,
    pub ascent: Pixels,
    pub descent: Pixels,
    pub runs: Seq<RunView>,
    pub len: usize,
}

/// A glyph together with its place among the runs of its line.
pub struct PlacedGlyph {
    /// Which run the glyph belongs to.
    pub run_ix: int,
    /// Which glyph of that run it is.
    pub glyph_ix: int,
    /// The font of that run.
    pub font_id: FontId,
    /// The glyph itself.
    pub glyph: ShapedGlyph,
}

impl View for ShapedRun {
    type V = RunView;

    open spec fn view(&self) -> RunView {
        RunView { font_id: self.font_id, glyphs: self.glyphs@ }
    }
}

impl View for LineLayout {
    type V = LayoutView;

    open spec fn view(&self) -> LayoutView {
        LayoutView {
            font_size: self.font_size,
            width: self.width,
            ascent: self.ascent,
            descent: self.descent,
            runs: Seq::new(self.runs@.len(), |run_ix: int| self.runs@[run_ix]@),
            len: self.len,
        }
    }
}

/// How many glyphs the first `run_ix` runs have together.
pub open spec fn glyphs_before(runs: Seq<RunView>, run_ix: int) -> int
    decreases run_ix,
{
    if run_ix <= 0 {
        0
    } else {
        glyphs_before(runs, run_ix - 1) + runs[run_ix - 1].glyphs.len()
    }
}

/// All glyphs of a line in the order of its runs.
pub open spec fn placed_glyphs(runs: Seq<RunView>) -> Seq<PlacedGlyph>
    decreases runs.len(),
{
    if runs.len() == 0 {
        Seq::empty()
    } else {
        let run = runs.last();
        placed_glyphs(runs.drop_last()) + Seq::new(
            run.glyphs.len(),
            |glyph_ix: int|
                PlacedGlyph {
                    run_ix: runs.len() - 1,
                    glyph_ix,
                    font_id: run.font_id,
                    glyph: run.glyphs[glyph_ix],
                },
        )
    }
}

/// The number of the first glyph that `wanted` accepts; the number of glyphs if there is none.
pub open spec fn first_glyph(glyphs: Seq<PlacedGlyph>, wanted: spec_fn(ShapedGlyph) -> bool) -> int
    decreases glyphs.len(),
{
    if glyphs.len() == 0 || wanted(glyphs[0].glyph) {
        0
    } else {
        1 + first_glyph(glyphs.drop_first(), wanted)
    }
}

/// The text index of the last glyph that starts at or left of `x`; 0 if there is none.
pub open spec fn last_index_at_or_left_of(glyphs: Seq<PlacedGlyph>, x: int) -> usize
    decreases glyphs.len(),
{
    if glyphs.len() == 0 {
        0
    } else if glyphs.last().glyph.position.x@ <= x {
        glyphs.last().glyph.index
    } else {
        last_index_at_or_left_of(glyphs.drop_last(), x)
    }
}

impl LayoutView {
    /// The layout of nothing.
    pub open spec fn empty() -> LayoutView {
        LayoutView {
            font_size: Pixels { units: 0 },
            width: Pixels { units: 0 },
            ascent: Pixels { units: 0 },
            descent: Pixels { units: 0 },
            runs: Seq::empty(),
            len: 0,
        }
    }

    /// All glyphs of the line in the order of its runs.
    pub open spec fn glyphs(self) -> Seq<PlacedGlyph> {
        placed_glyphs(self.runs)
    }

    /// The number of the first glyph of the text at or after byte `index`.
    pub open spec fn first_from_index(self, index: int) -> int {
        first_glyph(self.glyphs(), |glyph: ShapedGlyph| glyph.index >= index)
    }

    /// The number of the first glyph that starts at or right of `x`.
    pub open spec fn first_from_x(self, x: int) -> int {
        first_glyph(self.glyphs(), |glyph: ShapedGlyph| glyph.position.x@ >= x)
    }

    /// The text index of the glyph under `x`, where the line reaches that far.
    pub open spec fn index_for_x(self, x: int) -> Option<usize> {
        if x >= self.width@ {
            None
        } else {
            Some(last_index_at_or_left_of(self.glyphs(), x))
        }
    }

    /// The text index of the character boundary closest to `x`: where a glyph starts, or the
    /// end of the text at the end of the line. A place in the middle between two boundaries
    /// goes to the earlier one. Before the first glyph the text starts at the left edge.
    pub open spec fn closest_index_for_x(self, x: int) -> usize {
        let glyphs = self.glyphs();
        let next = self.first_from_x(x);
        let (prev_index, prev_x) = if next == 0 {
            (0usize, 0int)
        } else {
            (glyphs[next - 1].glyph.index, glyphs[next - 1].glyph.position.x@)
        };
        let (next_index, next_x) = if next < glyphs.len() {
            (glyphs[next].glyph.index, glyphs[next].glyph.position.x@)
        } else {
            (self.len, self.width@)
        };
        if next_x - x < x - prev_x {
            next_index
        } else {
            prev_index
        }
    }

    /// Where the glyph for byte `index` starts; the width of the line past the last glyph.
    pub open spec fn x_for_index(self, index: int) -> Pixels {
        let glyphs = self.glyphs();
        let first = self.first_from_index(index);
        if first < glyphs.len() {
            glyphs[first].glyph.position.x
        } else {
            self.width
        }
    }

    /// The font of the glyph for byte `index`.
    pub open spec fn font_id_for_index(self, index: int) -> Option<FontId> {
        let glyphs = self.glyphs();
        let first = self.first_from_index(index);
        if first < glyphs.len() {
            Some(glyphs[first].font_id)
        } else {
            None
        }
    }
}

/// The glyphs of a line stand in the sequence of all its glyphs run after run.
pub proof fn lemma_placed_glyphs(runs: Seq<RunView>)
    ensures
        placed_glyphs(runs).len() == glyphs_before(runs, runs.len() as int),
        forall|run_ix: int, glyph_ix: int|
            #![trigger runs[run_ix].glyphs[glyph_ix]]
            0 <= run_ix < runs.len() && 0 <= glyph_ix < runs[run_ix].glyphs.len() ==> {
                let n = glyphs_before(runs, run_ix) + glyph_ix;
                &&& 0 <= n < placed_glyphs(runs).len()
                &&& placed_glyphs(runs)[n] == (PlacedGlyph {
                    run_ix,
                    glyph_ix,
                    font_id: runs[run_ix].font_id,
                    glyph: runs[run_ix].glyphs[glyph_ix],
                })
            },
    decreases runs.len(),
{
    if runs.len() > 0 {
        let init = runs.drop_last();
        lemma_placed_glyphs(init);
        assert forall|run_ix: int| 0 <= run_ix <= init.len() implies #[trigger] glyphs_before(
            init,
            run_ix,
        ) == glyphs_before(runs, run_ix) by {
            lemma_glyphs_before_prefix(runs, init, run_ix);
        }
        assert forall|run_ix: int, glyph_ix: int|
            #![trigger runs[run_ix].glyphs[glyph_ix]]
            0 <= run_ix < runs.len() && 0 <= glyph_ix < runs[run_ix].glyphs.len() implies ({
            let n = glyphs_before(runs, run_ix) + glyph_ix;
            &&& 0 <= n < placed_glyphs(runs).len()
            &&& placed_glyphs(runs)[n] == (PlacedGlyph {
                run_ix,
                glyph_ix,
                font_id: runs[run_ix].font_id,
                glyph: runs[run_ix].glyphs[glyph_ix],
            })
        }) by {
            lemma_glyphs_before_grows(runs, 0, run_ix);
            if run_ix < init.len() {
                assert(init[run_ix].glyphs[glyph_ix] == runs[run_ix].glyphs[glyph_ix]);
                assert(glyphs_before(init, run_ix) == glyphs_before(runs, run_ix));
            } else {
                assert(glyphs_before(init, run_ix) == glyphs_before(runs, run_ix));
            }
        }
    }
}

/// The glyph numbered `n` of a line is a glyph of one of its runs.
pub proof fn lemma_placed_at(runs: Seq<RunView>, n: int)
    requires
        0 <= n < placed_glyphs(runs).len(),
    ensures
        ({
            let placed = placed_glyphs(runs)[n];
            &&& 0 <= placed.run_ix < runs.len()
            &&& 0 <= placed.glyph_ix < runs[placed.run_ix].glyphs.len()
            &&& placed.glyph == runs[placed.run_ix].glyphs[placed.glyph_ix]
            &&& placed.font_id == runs[placed.run_ix].font_id
            &&& n == glyphs_before(runs, placed.run_ix) + placed.glyph_ix
        }),
    decreases runs.len(),
{
    if runs.len() > 0 {
        let init = runs.drop_last();
        lemma_placed_glyphs(init);
        lemma_glyphs_before_prefix(runs, init, init.len() as int);
        if n < placed_glyphs(init).len() {
            lemma_placed_at(init, n);
            lemma_glyphs_before_prefix(runs, init, placed_glyphs(init)[n].run_ix);
        }
    }
}

/// Runs further on do not change how many glyphs come before.
proof fn lemma_glyphs_before_prefix(runs: Seq<RunView>, init: Seq<RunView>, run_ix: int)
    requires
        0 <= run_ix <= init.len() <= runs.len(),
        init == runs.take(init.len() as int),
    ensures
        glyphs_before(init, run_ix) == glyphs_before(runs, run_ix),
    decreases run_ix,
{
    if run_ix > 0 {
        lemma_glyphs_before_prefix(runs, init, run_ix - 1);
    }
}

/// The further the run, the more glyphs come before it.
pub proof fn lemma_glyphs_before_grows(runs: Seq<RunView>, from: int, to: int)
    requires
        0 <= from <= to,
    ensures
        glyphs_before(runs, from) <= glyphs_before(runs, to),
    decreases to - from,
{
    if from < to {
        lemma_glyphs_before_grows(runs, from, to - 1);
    }
}

/// `first_glyph` is what it says.
pub proof fn lemma_first_glyph(glyphs: Seq<PlacedGlyph>, wanted: spec_fn(ShapedGlyph) -> bool)
    ensures
        0 <= first_glyph(glyphs, wanted) <= glyphs.len(),
        forall|n: int| 0 <= n < first_glyph(glyphs, wanted) ==> !wanted(#[trigger] glyphs[n].glyph),
        first_glyph(glyphs, wanted) < glyphs.len() ==> wanted(
            glyphs[first_glyph(glyphs, wanted)].glyph,
        ),
    decreases glyphs.len(),
{
    if glyphs.len() > 0 && !wanted(glyphs[0].glyph) {
        let rest = glyphs.drop_first();
        lemma_first_glyph(rest, wanted);
        assert forall|n: int| 0 <= n < first_glyph(glyphs, wanted) implies !wanted(
            #[trigger] glyphs[n].glyph,
        ) by {
            if n > 0 {
                assert(rest[n - 1] == glyphs[n]);
            }
        }
    }
}

/// Nothing else is the first glyph that is wanted.
pub proof fn lemma_first_glyph_is(
    glyphs: Seq<PlacedGlyph>,
    wanted: spec_fn(ShapedGlyph) -> bool,
    n: int,
)
    requires
        0 <= n <= glyphs.len(),
        forall|m: int| 0 <= m < n ==> !wanted(#[trigger] glyphs[m].glyph),
        n < glyphs.len() ==> wanted(glyphs[n].glyph),
    ensures
        first_glyph(glyphs, wanted) == n,
{
    lemma_first_glyph(glyphs, wanted);
    let first = first_glyph(glyphs, wanted);
    if first < n {
        assert(!wanted(glyphs[first].glyph));
    } else if n < first {
        assert(!wanted(glyphs[n].glyph));
    }
}

/// The glyph that `last_index_at_or_left_of` takes its index from.
proof fn lemma_last_index_at_or_left_of(glyphs: Seq<PlacedGlyph>, x: int, n: int)
    requires
        -1 <= n < glyphs.len(),
        forall|m: int| n < m < glyphs.len() ==> (#[trigger] glyphs[m]).glyph.position.x@ > x,
        n >= 0 ==> glyphs[n].glyph.position.x@ <= x,
    ensures
        last_index_at_or_left_of(glyphs, x) == (if n >= 0 {
            glyphs[n].glyph.index
        } else {
            0
        }),
    decreases glyphs.len(),
{
    if glyphs.len() > 0 && n < glyphs.len() - 1 {
        lemma_last_index_at_or_left_of(glyphs.drop_last(), x, n);
    }
}

impl Default for LineLayout {
    fn default() -> (layout: Self)
        ensures
            layout@ == LayoutView::empty(),
    {
        LineLayout {
            font_size: Pixels::zero(),
            width: Pixels::zero(),
            ascent: Pixels::zero(),
            descent: Pixels::zero(),
            runs: Vec::new(),
            len: 0,
        }
    }
}

impl LineLayout {
    /// The index for the character at the given x coordinate.
    pub fn index_for_x(&self, x: Pixels) -> (index: Option<usize>)
        ensures
            index == self@.index_for_x(x@),
    {
        if x.units >= self.width.units {
            return None;
        }
        let ghost runs = self@.runs;
        let ghost glyphs = self@.glyphs();
        proof {
            lemma_placed_glyphs(runs);
        }
        let mut run_ix: usize = self.runs.len();
        while run_ix > 0
            invariant
                run_ix <= runs.len(),
                runs == self@.runs,
                glyphs == self@.glyphs(),
                glyphs.len() == glyphs_before(runs, runs.len() as int),
                x@ < self@.width@,
                forall|m: int|
                    glyphs_before(runs, run_ix as int) <= m < glyphs.len() ==> (
                    #[trigger] glyphs[m]).glyph.position.x@ > x@,
            decreases run_ix,
        {
            run_ix -= 1;
            let run = &self.runs[run_ix];
            let mut glyph_ix: usize = run.glyphs.len();
            while glyph_ix > 0
                invariant
                    run_ix < runs.len(),
                    *run == self.runs@[run_ix as int],
                    glyph_ix <= run.glyphs@.len(),
                    runs == self@.runs,
                    glyphs == self@.glyphs(),
                    x@ < self@.width@,
                    forall|m: int|
                        glyphs_before(runs, run_ix as int) + glyph_ix <= m < glyphs.len() ==> (
                        #[trigger] glyphs[m]).glyph.position.x@ > x@,
                decreases glyph_ix,
            {
                glyph_ix -= 1;
                let glyph = &run.glyphs[glyph_ix];
                let ghost n = glyphs_before(runs, run_ix as int) + glyph_ix;
                proof {
                    lemma_placed_glyphs(runs);
                    lemma_glyphs_before_grows(runs, 0, run_ix as int);
                    assert(runs[run_ix as int].glyphs[glyph_ix as int] == *glyph);
                }
                if glyph.position.x.units <= x.units {
                    proof {
                        lemma_last_index_at_or_left_of(glyphs, x@, n);
                    }
                    return Some(glyph.index);
                }
            }
        }
        proof {
            lemma_last_index_at_or_left_of(glyphs, x@, -1);
        }
        Some(0)
    }

    /// The character boundary closest to the given x coordinate
    /// (e.g. to handle aligning up/down arrow keys).
    pub fn closest_index_for_x(&self, x: Pixels) -> (index: usize)
        ensures
            index == self@.closest_index_for_x(x@),
    {
        let mut prev_index: usize = 0;
        let mut prev_x = Pixels::zero();
        let ghost runs = self@.runs;
        let ghost glyphs = self@.glyphs();
        let ghost wanted = |glyph: ShapedGlyph| glyph.position.x@ >= x@;
        proof {
            lemma_placed_glyphs(runs);
        }
        let mut run_ix: usize = 0;
        while run_ix < self.runs.len()
            invariant
                run_ix <= runs.len(),
                runs == self@.runs,
                glyphs == self@.glyphs(),
                glyphs.len() == glyphs_before(runs, runs.len() as int),
                wanted == (|glyph: ShapedGlyph| glyph.position.x@ >= x@),
                glyphs_before(runs, run_ix as int) >= 0,
                forall|m: int|
                    0 <= m < glyphs_before(runs, run_ix as int) ==> !wanted(
                        #[trigger] glyphs[m].glyph,
                    ),
                prev_index == (if glyphs_before(runs, run_ix as int) == 0 {
                    0
                } else {
                    glyphs[glyphs_before(runs, run_ix as int) - 1].glyph.index
                }),
                prev_x@ == (if glyphs_before(runs, run_ix as int) == 0 {
                    0
                } else {
                    glyphs[glyphs_before(runs, run_ix as int) - 1].glyph.position.x@
                }),
            decreases runs.len() - run_ix,
        {
            let run = &self.runs[run_ix];
            let mut glyph_ix: usize = 0;
            while glyph_ix < run.glyphs.len()
                invariant
                    run_ix < runs.len(),
                    *run == self.runs@[run_ix as int],
                    glyph_ix <= run.glyphs@.len(),
                    runs == self@.runs,
                    glyphs == self@.glyphs(),
                    wanted == (|glyph: ShapedGlyph| glyph.position.x@ >= x@),
                    glyphs_before(runs, run_ix as int) >= 0,
                    forall|m: int|
                        0 <= m < glyphs_before(runs, run_ix as int) + glyph_ix ==> !wanted(
                            #[trigger] glyphs[m].glyph,
                        ),
                    prev_index == (if glyphs_before(runs, run_ix as int) + glyph_ix == 0 {
                        0
                    } else {
                        glyphs[glyphs_before(runs, run_ix as int) + glyph_ix - 1].glyph.index
                    }),
                    prev_x@ == (if glyphs_before(runs, run_ix as int) + glyph_ix == 0 {
                        0
                    } else {
                        glyphs[glyphs_before(runs, run_ix as int) + glyph_ix - 1].glyph.position.x@
                    }),
                decreases run.glyphs@.len() - glyph_ix,
            {
                let glyph = &run.glyphs[glyph_ix];
                let ghost n = glyphs_before(runs, run_ix as int) + glyph_ix;
                proof {
                    lemma_placed_glyphs(runs);
                    assert(runs[run_ix as int].glyphs[glyph_ix as int] == *glyph);
                }
                if glyph.position.x.units >= x.units {
                    proof {
                        lemma_first_glyph_is(glyphs, wanted, n);
                    }
                    let to_next: i128 = glyph.position.x.units as i128 - x.units as i128;
                    let to_prev: i128 = x.units as i128 - prev_x.units as i128;
                    if to_next < to_prev {
                        return glyph.index;
                    } else {
                        return prev_index;
                    }
                }
                prev_index = glyph.index;
                prev_x = glyph.position.x;
                glyph_ix += 1;
            }
            run_ix += 1;
        }
        proof {
            lemma_first_glyph_is(glyphs, wanted, glyphs.len() as int);
        }
        let to_end: i128 = self.width.units as i128 - x.units as i128;
        let to_prev: i128 = x.units as i128 - prev_x.units as i128;
        if to_end < to_prev {
            self.len
        } else {
            prev_index
        }
    }

    /// The place of the first glyph of the text at or after byte `index`.
    fn find_index(&self, index: usize) -> (found: Option<(usize, usize)>)
        ensures
            ({
                let glyphs = self@.glyphs();
                let first = self@.first_from_index(index as int);
                match found {
                    Some((run_ix, glyph_ix)) => {
                        &&& 0 <= first < glyphs.len()
                        &&& run_ix < self.runs@.len()
                        &&& glyph_ix < self.runs@[run_ix as int].glyphs@.len()
                        &&& glyphs[first].glyph == self.runs@[run_ix as int].glyphs@[glyph_ix as int]
                        &&& glyphs[first].font_id == self.runs@[run_ix as int].font_id
                    },
                    None => first == glyphs.len(),
                }
            }),
    {
        let ghost runs = self@.runs;
        let ghost glyphs = self@.glyphs();
        let ghost wanted = |glyph: ShapedGlyph| glyph.index >= index as int;
        proof {
            lemma_placed_glyphs(runs);
        }
        let mut run_ix: usize = 0;
        while run_ix < self.runs.len()
            invariant
                run_ix <= runs.len(),
                runs == self@.runs,
                glyphs == self@.glyphs(),
                glyphs.len() == glyphs_before(runs, runs.len() as int),
                wanted == (|glyph: ShapedGlyph| glyph.index >= index as int),
                forall|m: int|
                    0 <= m < glyphs_before(runs, run_ix as int) ==> !wanted(
                        #[trigger] glyphs[m].glyph,
                    ),
            decreases runs.len() - run_ix,
        {
            let run = &self.runs[run_ix];
            let mut glyph_ix: usize = 0;
            while glyph_ix < run.glyphs.len()
                invariant
                    run_ix < runs.len(),
                    *run == self.runs@[run_ix as int],
                    glyph_ix <= run.glyphs@.len(),
                    runs == self@.runs,
                    glyphs == self@.glyphs(),
                    wanted == (|glyph: ShapedGlyph| glyph.index >= index as int),
                    forall|m: int|
                        0 <= m < glyphs_before(runs, run_ix as int) + glyph_ix ==> !wanted(
                            #[trigger] glyphs[m].glyph,
                        ),
                decreases run.glyphs@.len() - glyph_ix,
            {
                proof {
                    lemma_placed_glyphs(runs);
                    assert(runs[run_ix as int].glyphs[glyph_ix as int]
                        == run.glyphs@[glyph_ix as int]);
                }
                if run.glyphs[glyph_ix].index >= index {
                    proof {
                        lemma_first_glyph_is(
                            glyphs,
                            wanted,
                            glyphs_before(runs, run_ix as int) + glyph_ix,
                        );
                    }
                    return Some((run_ix, glyph_ix));
                }
                glyph_ix += 1;
            }
            run_ix += 1;
        }
        proof {
            lemma_first_glyph_is(glyphs, wanted, glyphs.len() as int);
        }
        None
    }

    /// The x position of the character at the given index.
    pub fn x_for_index(&self, index: usize) -> (x: Pixels)
        ensures
            x == self@.x_for_index(index as int),
    {
        match self.find_index(index) {
            Some((run_ix, glyph_ix)) => self.runs[run_ix].glyphs[glyph_ix].position.x,
            None => self.width,
        }
    }

    /// The corresponding font at the given index.
    pub fn font_id_for_index(&self, index: usize) -> (font_id: Option<FontId>)
        ensures
            font_id == self@.font_id_for_index(index as int),
    {
        match self.find_index(index) {
            Some((run_ix, _)) => Some(self.runs[run_ix].font_id),
            None => None,
        }
    }
}

} // verus!
