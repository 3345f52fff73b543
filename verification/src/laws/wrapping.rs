//! What holds of breaking lines.

use crate::geometry::Pixels;
use crate::inline_lists::{WrapBoundary, MAX_ITEMS};
use crate::layout::{LayoutView, LineLayout};
use crate::wrap::{WrapGlyph, WrapState};
use vstd::prelude::*;

verus! {

/// Whether each boundary comes after the ones before it.
pub open spec fn are_in_order(boundaries: Seq<WrapBoundary>) -> bool {
    forall|m: int, n: int|
        0 <= m < n < boundaries.len() ==> (#[trigger] boundaries[n]).is_after(
            #[trigger] boundaries[m],
        )
}

/// Whether glyphs stand in the order of their places among the runs.
pub open spec fn glyphs_in_order(glyphs: Seq<WrapGlyph>) -> bool {
    forall|m: int, n: int|
        0 <= m < n < glyphs.len() ==> (#[trigger] glyphs[n]).boundary.is_after(
            (#[trigger] glyphs[m]).boundary,
        )
}

/// Whether glyphs go to the right from the left edge to the end of the line, with no newline
/// among them.
pub open spec fn is_plain_line(glyphs: Seq<WrapGlyph>, width: Pixels) -> bool {
    &&& glyphs_in_order(glyphs)
    &&& forall|m: int, n: int|
        0 <= m < n < glyphs.len() ==> (#[trigger] glyphs[m]).x@ <= (#[trigger] glyphs[n]).x@
    &&& forall|n: int|
        0 <= n < glyphs.len() ==> {
            &&& 0 <= (#[trigger] glyphs[n]).x@ <= width@
            &&& glyphs[n].ch != '\n'
        }
}

/// Where the unwrapped line begins.
pub open spec fn origin() -> WrapBoundary {
    WrapBoundary { run_ix: 0, glyph_ix: 0 }
}

/// The boundary that a line starts with.
pub open spec fn line_start(boundaries: Seq<WrapBoundary>, line: int) -> WrapBoundary {
    if line > 0 {
        boundaries[line - 1]
    } else {
        origin()
    }
}

/// Whether a line starts at `x` in the unwrapped line.
pub open spec fn line_starts_at(
    glyphs: Seq<WrapGlyph>,
    boundaries: Seq<WrapBoundary>,
    line: int,
    x: int,
) -> bool {
    if line > 0 {
        is_at(glyphs, boundaries[line - 1], x)
    } else {
        x == 0
    }
}

/// Whether the glyph at a boundary starts at `x`.
pub open spec fn is_at(glyphs: Seq<WrapGlyph>, boundary: WrapBoundary, x: int) -> bool {
    exists|n: int|
        0 <= n < glyphs.len() && (#[trigger] glyphs[n]).boundary == boundary && glyphs[n].x@ == x
}

/// Whether a glyph is in a line, but does not start it.
pub open spec fn continues_line(
    glyph: WrapGlyph,
    boundaries: Seq<WrapBoundary>,
    line: int,
) -> bool {
    &&& glyph.boundary.is_after(line_start(boundaries, line))
    &&& line < boundaries.len() ==> boundaries[line].is_after(glyph.boundary)
}

/// What holds of the boundaries and the candidate after the first `n` glyphs.
spec fn is_ordered(glyphs: Seq<WrapGlyph>, state: WrapState, n: int) -> bool {
    let found = state.boundaries;
    &&& are_in_order(found)
    &&& forall|i: int| 0 <= i < found.len() ==> (#[trigger] found[i]).is_after(origin())
    &&& state.start == line_start(found, found.len() as int)
    &&& state.seen_text ==> n > 0
    &&& state.candidate matches Some(place) ==> {
        &&& place.0.is_after(state.start)
        &&& forall|m: int|
            n <= m < glyphs.len() ==> (#[trigger] glyphs[m]).boundary.is_after(place.0)
    }
    &&& n > 0 ==> forall|m: int|
        n <= m < glyphs.len() ==> (#[trigger] glyphs[m]).boundary.is_after(state.start)
}

proof fn lemma_ordered(glyphs: Seq<WrapGlyph>, width: Pixels, wrap_width: Pixels, n: int)
    requires
        glyphs_in_order(glyphs),
        0 <= n <= glyphs.len(),
    ensures
        is_ordered(glyphs, crate::wrap::wrap_state(glyphs, width, wrap_width, n), n),
    decreases n,
{
    if n > 0 {
        lemma_ordered(glyphs, width, wrap_width, n - 1);
        let before = crate::wrap::wrap_state(glyphs, width, wrap_width, n - 1);
        let state = crate::wrap::wrap_state(glyphs, width, wrap_width, n);
        let glyph = glyphs[n - 1];
        assert forall|m: int| n <= m < glyphs.len() implies (#[trigger] glyphs[m]).boundary.is_after(
            glyph.boundary,
        ) by {}
        assert forall|m: int| n <= m < glyphs.len() implies (#[trigger] glyphs[m]).boundary.is_after(
            state.start,
        ) by {
            assert(glyphs[m].boundary.is_after(glyph.boundary));
        }
        let found = state.boundaries;
        if found.len() > before.boundaries.len() {
            assert(found == before.boundaries.push(state.start));
            assert(state.start.is_after(before.start));
            assert forall|i: int, j: int| 0 <= i < j < found.len() implies (
            #[trigger] found[j]).is_after(#[trigger] found[i]) by {
                if j == found.len() - 1 {
                    if i < j - 1 {
                        assert(before.boundaries[j - 1].is_after(before.boundaries[i]));
                    }
                }
            }
        }
    }
}

/// The boundaries come one after the other, none before the first glyph, so that no line is
/// without a glyph but perhaps the first.
pub proof fn boundaries_come_in_order(
    glyphs: Seq<WrapGlyph>,
    width: Pixels,
    wrap_width: Pixels,
)
    requires
        glyphs_in_order(glyphs),
    ensures
        ({
            let found = crate::wrap::all_boundaries(glyphs, width, wrap_width);
            &&& are_in_order(found)
            &&& forall|n: int| 0 <= n < found.len() ==> (#[trigger] found[n]).is_after(origin())
        }),
{
    lemma_ordered(glyphs, width, wrap_width, glyphs.len() as int);
}

/// The glyphs of a layout stand in order, so that its boundaries come one after the other.
pub proof fn layout_boundaries_come_in_order(
    layout: &LineLayout,
    text: Seq<char>,
    words: Seq<bool>,
    wrap_width: Option<Pixels>,
    max_lines: Option<usize>,
)
    ensures
        glyphs_in_order(crate::wrap::wrap_glyphs(layout@, text, words)),
        are_in_order(
            crate::wrap::boundaries_of(layout@, text, words, wrap_width, max_lines),
        ),
{
    let placed = layout@.glyphs();
    let runs = layout@.runs;
    let glyphs = crate::wrap::wrap_glyphs(layout@, text, words);
    assert forall|m: int, n: int| 0 <= m < n < glyphs.len() implies (
    #[trigger] glyphs[n]).boundary.is_after((#[trigger] glyphs[m]).boundary) by {
        crate::layout::lemma_placed_at(runs, m);
        crate::layout::lemma_placed_at(runs, n);
        if placed[n].run_ix < placed[m].run_ix {
            crate::layout::lemma_glyphs_before_grows(
                runs,
                placed[n].run_ix + 1,
                placed[m].run_ix,
            );
        }
        assert(layout.runs.len() == layout.runs@.len());
        let run_m = layout.runs@[placed[m].run_ix];
        let run_n = layout.runs@[placed[n].run_ix];
        assert(run_m.glyphs.len() == run_m.glyphs@.len());
        assert(run_n.glyphs.len() == run_n.glyphs@.len());
    }
    if let Some(wrap_width) = wrap_width {
        boundaries_come_in_order(glyphs, layout@.width, wrap_width);
    }
}

/// Clamping to a number of lines leaves at most that many, the first of all that there would
/// be, and nothing is left out that still fits.
pub proof fn clamping_keeps_the_first_lines(boundaries: Seq<WrapBoundary>, max_lines: usize)
    requires
        max_lines > 0,
    ensures
        ({
            let kept = crate::wrap::clamped(boundaries, Some(max_lines));
            &&& kept.len() + 1 <= max_lines
            &&& kept.is_prefix_of(boundaries)
            &&& boundaries.len() + 1 <= max_lines ==> kept == boundaries
            &&& boundaries.len() + 1 > max_lines ==> kept.len() + 1 == max_lines
        }),
{
}

/// A line that is not wider than the wrap width, with all its glyphs inside, is not broken.
pub proof fn lines_that_fit_are_not_broken(
    glyphs: Seq<WrapGlyph>,
    width: Pixels,
    wrap_width: Pixels,
)
    requires
        width@ <= wrap_width@,
        forall|n: int| 0 <= n < glyphs.len() ==> (#[trigger] glyphs[n]).x@ <= width@,
    ensures
        crate::wrap::all_boundaries(glyphs, width, wrap_width) == Seq::<WrapBoundary>::empty(),
{
    lemma_not_broken(glyphs, width, wrap_width, glyphs.len() as int);
}

proof fn lemma_not_broken(glyphs: Seq<WrapGlyph>, width: Pixels, wrap_width: Pixels, n: int)
    requires
        width@ <= wrap_width@,
        forall|m: int| 0 <= m < glyphs.len() ==> (#[trigger] glyphs[m]).x@ <= width@,
        0 <= n <= glyphs.len(),
    ensures
        ({
            let state = crate::wrap::wrap_state(glyphs, width, wrap_width, n);
            state.boundaries == Seq::<WrapBoundary>::empty() && state.start_x == 0
        }),
    decreases n,
{
    if n > 0 {
        lemma_not_broken(glyphs, width, wrap_width, n - 1);
        if n < glyphs.len() {
            assert(glyphs[n].x@ <= width@);
        }
    }
}

/// What holds of the lines found after the first `n` glyphs.
spec fn fits_so_far(
    glyphs: Seq<WrapGlyph>,
    state: WrapState,
    width: Pixels,
    wrap_width: Pixels,
    n: int,
) -> bool {
    let found = state.boundaries;
    // Where the current line and the candidate are.
    &&& line_starts_at(glyphs, found, found.len() as int, state.start_x)
    &&& state.candidate matches Some(place) ==> is_at(glyphs, place.0, place.1) && place.1
        >= state.start_x
    // The current line reaches this far.
    &&& forall|m: int|
        0 <= m < n && (#[trigger] glyphs[m]).boundary.is_after(state.start) ==> glyphs[m].x@
            - state.start_x <= wrap_width@
    &&& n < glyphs.len() && glyphs[n].x@ - state.start_x > wrap_width@ ==> state.candidate is None
    &&& forall|m: int| n <= m < glyphs.len() ==> (#[trigger] glyphs[m]).x@ >= state.start_x
    // The lines before reach this far, and no further could have been gone.
    &&& forall|line: int, x: int, m: int|
        #![trigger line_starts_at(glyphs, found, line, x), glyphs[m]]
        0 <= line < found.len() && line_starts_at(glyphs, found, line, x) && 0 <= m < glyphs.len()
            && continues_line(glyphs[m], found, line) ==> glyphs[m].x@ - x <= wrap_width@
    &&& forall|line: int, x: int|
        #![trigger line_starts_at(glyphs, found, line, x)]
        0 <= line < found.len() && line_starts_at(glyphs, found, line, x) ==> is_full(
            glyphs,
            found,
            width,
            wrap_width,
            line,
            x,
        )
}

/// Whether a line that starts at `x` would be too wide with a glyph at or after its end.
pub open spec fn is_full(
    glyphs: Seq<WrapGlyph>,
    boundaries: Seq<WrapBoundary>,
    width: Pixels,
    wrap_width: Pixels,
    line: int,
    x: int,
) -> bool {
    exists|m: int|
        {
            &&& 0 <= m < glyphs.len()
            &&& !boundaries[line].is_after((#[trigger] glyphs[m]).boundary)
            &&& crate::wrap::next_x(glyphs, width, m) - x > wrap_width@
        }
}

/// Two glyphs at the same boundary are in the same place.
proof fn lemma_is_at_once(glyphs: Seq<WrapGlyph>, boundary: WrapBoundary, x: int, y: int)
    requires
        glyphs_in_order(glyphs),
        is_at(glyphs, boundary, x),
        is_at(glyphs, boundary, y),
    ensures
        x == y,
{
    let m = choose|m: int|
        0 <= m < glyphs.len() && (#[trigger] glyphs[m]).boundary == boundary && glyphs[m].x@ == x;
    let n = choose|n: int|
        0 <= n < glyphs.len() && (#[trigger] glyphs[n]).boundary == boundary && glyphs[n].x@ == y;
    if m < n {
        assert(glyphs[n].boundary.is_after(glyphs[m].boundary));
    } else if n < m {
        assert(glyphs[m].boundary.is_after(glyphs[n].boundary));
    }
}

#[verifier::rlimit(40)]
proof fn lemma_fits(glyphs: Seq<WrapGlyph>, width: Pixels, wrap_width: Pixels, n: int)
    requires
        is_plain_line(glyphs, width),
        0 <= n <= glyphs.len(),
    ensures
        fits_so_far(
            glyphs,
            crate::wrap::wrap_state(glyphs, width, wrap_width, n),
            width,
            wrap_width,
            n,
        ),
    decreases n,
{
    if n > 0 {
        let k = n - 1;
        lemma_fits(glyphs, width, wrap_width, k);
        lemma_ordered(glyphs, width, wrap_width, k);
        lemma_ordered(glyphs, width, wrap_width, n);
        let before = crate::wrap::wrap_state(glyphs, width, wrap_width, k);
        let state = crate::wrap::wrap_state(glyphs, width, wrap_width, n);
        let glyph = glyphs[k];
        let next_x = crate::wrap::next_x(glyphs, width, k);
        assert(glyph.ch != '\n');
        assert(glyph.x@ <= next_x) by {
            if n < glyphs.len() {
                assert(glyphs[n].x@ >= glyph.x@);
            }
        }
        assert(is_at(glyphs, glyph.boundary, glyph.x@));
        let found = state.boundaries;
        if next_x - before.start_x > wrap_width@ && glyph.boundary.is_after(before.start) {
            lemma_fits_break(glyphs, width, wrap_width, k);
        } else {
            assert(found == before.boundaries);
            assert forall|m: int|
                0 <= m < n && (#[trigger] glyphs[m]).boundary.is_after(
                    state.start,
                ) implies glyphs[m].x@ - state.start_x <= wrap_width@ by {}
        }
    }
}

/// The step at which a line breaks.
#[verifier::rlimit(40)]
proof fn lemma_fits_break(glyphs: Seq<WrapGlyph>, width: Pixels, wrap_width: Pixels, k: int)
    requires
        is_plain_line(glyphs, width),
        0 <= k < glyphs.len(),
        ({
            let before = crate::wrap::wrap_state(glyphs, width, wrap_width, k);
            &&& fits_so_far(glyphs, before, width, wrap_width, k)
            &&& is_ordered(glyphs, before, k)
            &&& crate::wrap::next_x(glyphs, width, k) - before.start_x > wrap_width@
            &&& glyphs[k].boundary.is_after(before.start)
        }),
        is_ordered(glyphs, crate::wrap::wrap_state(glyphs, width, wrap_width, k + 1), k + 1),
    ensures
        fits_so_far(
            glyphs,
            crate::wrap::wrap_state(glyphs, width, wrap_width, k + 1),
            width,
            wrap_width,
            k + 1,
        ),
{
    let n = k + 1;
    let before = crate::wrap::wrap_state(glyphs, width, wrap_width, k);
    let state = crate::wrap::wrap_state(glyphs, width, wrap_width, n);
    let glyph = glyphs[k];
    let found = state.boundaries;
    let old_found = before.boundaries;
    let last = old_found.len() as int;
    assert(glyph.ch != '\n');
    assert(is_at(glyphs, glyph.boundary, glyph.x@));
    assert(found == old_found.push(state.start));
    assert(is_at(glyphs, state.start, state.start_x));
    assert(line_starts_at(glyphs, found, found.len() as int, state.start_x));
    assert(!state.start.is_after(glyph.boundary));
    assert(state.start_x >= before.start_x);
    assert forall|m: int|
        0 <= m < n && (#[trigger] glyphs[m]).boundary.is_after(
            state.start,
        ) implies glyphs[m].x@ - state.start_x <= wrap_width@ by {
        assert(glyphs[m].boundary.is_after(before.start));
    }
    assert forall|m: int| n <= m < glyphs.len() implies (#[trigger] glyphs[m]).x@
        >= state.start_x by {
        assert(glyphs[k].x@ <= glyphs[m].x@);
        let s = choose|s: int|
            0 <= s < glyphs.len() && (#[trigger] glyphs[s]).boundary == state.start && glyphs[s].x@
                == state.start_x;
        if s > k {
            assert(glyphs[s].boundary.is_after(glyphs[k].boundary));
        }
    }
    assert forall|line: int, x: int|
        0 <= line < found.len() && #[trigger] line_starts_at(
            glyphs,
            found,
            line,
            x,
        ) implies line_starts_at(glyphs, old_found, line, x) && (line == last ==> x
        == before.start_x) by {
        if line == last && line > 0 {
            lemma_is_at_once(glyphs, old_found[line - 1], x, before.start_x);
        }
    }
    assert forall|line: int, x: int, m: int|
        #![trigger line_starts_at(glyphs, found, line, x), glyphs[m]]
        0 <= line < found.len() && line_starts_at(glyphs, found, line, x) && 0 <= m < glyphs.len()
            && continues_line(glyphs[m], found, line) implies glyphs[m].x@ - x <= wrap_width@ by {
        assert(line_starts_at(glyphs, old_found, line, x));
        if line < last {
            assert(found[line] == old_found[line]);
            assert(continues_line(glyphs[m], old_found, line));
        } else {
            assert(x == before.start_x);
            assert(state.start.is_after(glyphs[m].boundary));
            if m >= k {
                assert(m == k || glyphs[m].boundary.is_after(glyphs[k].boundary));
            }
            assert(m < k);
        }
    }
    assert forall|line: int, x: int|
        #![trigger line_starts_at(glyphs, found, line, x)]
        0 <= line < found.len() && line_starts_at(glyphs, found, line, x) implies is_full(
        glyphs,
        found,
        width,
        wrap_width,
        line,
        x,
    ) by {
        assert(line_starts_at(glyphs, old_found, line, x));
        if line < last {
            assert(is_full(glyphs, old_found, width, wrap_width, line, x));
            let m = choose|m: int|
                {
                    &&& 0 <= m < glyphs.len()
                    &&& !old_found[line].is_after((#[trigger] glyphs[m]).boundary)
                    &&& crate::wrap::next_x(glyphs, width, m) - x > wrap_width@
                };
            assert(!found[line].is_after(glyphs[m].boundary));
        } else {
            assert(!found[line].is_after(glyphs[k].boundary));
        }
    }
}

/// A line of text wraps to fit the given width: each glyph of a line but the one that it starts
/// with begins no further from the start of the line than the wrap width.
pub proof fn lines_fit_the_wrap_width(
    glyphs: Seq<WrapGlyph>,
    width: Pixels,
    wrap_width: Pixels,
    line: int,
    x: int,
    n: int,
)
    requires
        is_plain_line(glyphs, width),
        ({
            let found = crate::wrap::all_boundaries(glyphs, width, wrap_width);
            &&& 0 <= line <= found.len()
            &&& line_starts_at(glyphs, found, line, x)
            &&& 0 <= n < glyphs.len()
            &&& continues_line(glyphs[n], found, line)
        }),
    ensures
        glyphs[n].x@ - x <= wrap_width@,
{
    let found = crate::wrap::all_boundaries(glyphs, width, wrap_width);
    let state = crate::wrap::wrap_state(glyphs, width, wrap_width, glyphs.len() as int);
    lemma_fits(glyphs, width, wrap_width, glyphs.len() as int);
    lemma_ordered(glyphs, width, wrap_width, glyphs.len() as int);
    if line == found.len() {
        if line > 0 {
            lemma_is_at_once(glyphs, found[line - 1], x, state.start_x);
        }
        assert(glyphs[n].boundary.is_after(state.start));
    }
}

/// A line only breaks where it has to: together with some glyph at or after the break it would
/// reach past the wrap width.
pub proof fn lines_break_only_when_full(
    glyphs: Seq<WrapGlyph>,
    width: Pixels,
    wrap_width: Pixels,
    line: int,
    x: int,
)
    requires
        is_plain_line(glyphs, width),
        ({
            let found = crate::wrap::all_boundaries(glyphs, width, wrap_width);
            &&& 0 <= line < found.len()
            &&& line_starts_at(glyphs, found, line, x)
        }),
    ensures
        is_full(
            glyphs,
            crate::wrap::all_boundaries(glyphs, width, wrap_width),
            width,
            wrap_width,
            line,
            x,
        ),
{
    lemma_fits(glyphs, width, wrap_width, glyphs.len() as int);
}

/// The character before glyph `n`, where newlines do not count.
pub open spec fn char_before(glyphs: Seq<WrapGlyph>, n: int) -> char
    decreases n,
{
    if n <= 0 {
        '\0'
    } else if glyphs[n - 1].ch != '\n' {
        glyphs[n - 1].ch
    } else {
        char_before(glyphs, n - 1)
    }
}

/// Whether a glyph is for something to be seen.
pub open spec fn is_text(glyph: WrapGlyph) -> bool {
    glyph.ch != ' ' && glyph.ch != '\n'
}

/// Whether a line can break before a glyph: it is for text, and not the first such, and it
/// follows a space or is no part of a word.
pub open spec fn can_break_before(glyphs: Seq<WrapGlyph>, n: int) -> bool {
    &&& 0 <= n < glyphs.len()
    &&& is_text(glyphs[n])
    &&& char_before(glyphs, n) == ' ' || !glyphs[n].is_word
    &&& exists|m: int| 0 <= m < n && is_text(#[trigger] glyphs[m])
}

/// Whether a line can break before the glyph at a boundary.
pub open spec fn can_break_at(glyphs: Seq<WrapGlyph>, boundary: WrapBoundary) -> bool {
    exists|n: int| #[trigger] can_break_before(glyphs, n) && glyphs[n].boundary == boundary
}

/// What holds of the places at which the lines found after the first `n` glyphs break.
spec fn breaks_at_words_so_far(glyphs: Seq<WrapGlyph>, state: WrapState, n: int) -> bool {
    let found = state.boundaries;
    &&& state.seen_text <==> exists|m: int| 0 <= m < n && is_text(#[trigger] glyphs[m])
    &&& state.prev_ch == char_before(glyphs, n)
    &&& match state.candidate {
        Some(place) => can_break_at(glyphs, place.0) && forall|m: int|
            0 <= m < n && #[trigger] glyphs[m].boundary.is_after(place.0) ==> !can_break_before(
                glyphs,
                m,
            ),
        None => forall|m: int|
            0 <= m < n && #[trigger] glyphs[m].boundary.is_after(state.start)
                ==> !can_break_before(glyphs, m),
    }
    &&& forall|line: int|
        0 <= line < found.len() && !can_break_at(glyphs, #[trigger] found[line])
            ==> has_no_other_break(glyphs, found, line)
}

/// Whether a line can break neither where it does nor anywhere before.
pub open spec fn has_no_other_break(
    glyphs: Seq<WrapGlyph>,
    boundaries: Seq<WrapBoundary>,
    line: int,
) -> bool {
    forall|n: int|
        {
            &&& 0 <= n < glyphs.len()
            &&& (#[trigger] glyphs[n]).boundary.is_after(line_start(boundaries, line))
            &&& !glyphs[n].boundary.is_after(boundaries[line])
        } ==> !can_break_before(glyphs, n)
}

proof fn lemma_breaks_at_words(glyphs: Seq<WrapGlyph>, width: Pixels, wrap_width: Pixels, n: int)
    requires
        glyphs_in_order(glyphs),
        forall|m: int| 0 <= m < glyphs.len() ==> (#[trigger] glyphs[m]).ch != '\n',
        0 <= n <= glyphs.len(),
    ensures
        breaks_at_words_so_far(
            glyphs,
            crate::wrap::wrap_state(glyphs, width, wrap_width, n),
            n,
        ),
    decreases n,
{
    if n > 0 {
        let k = n - 1;
        lemma_breaks_at_words(glyphs, width, wrap_width, k);
        lemma_ordered(glyphs, width, wrap_width, k);
        let before = crate::wrap::wrap_state(glyphs, width, wrap_width, k);
        let state = crate::wrap::wrap_state(glyphs, width, wrap_width, n);
        let glyph = glyphs[k];
        let found = state.boundaries;
        let old_found = before.boundaries;
        assert(glyph.ch != '\n');
        let breakable = before.seen_text && glyph.ch != ' ' && (before.prev_ch == ' '
            || !glyph.is_word);
        assert(breakable == can_break_before(glyphs, k));
        if breakable {
            assert(can_break_at(glyphs, glyph.boundary));
        }
        assert forall|m: int| 0 <= m < n && m != k implies !(
        #[trigger] glyphs[m]).boundary.is_after(glyph.boundary) by {
            assert(glyph.boundary.is_after(glyphs[m].boundary));
        }
        if found.len() > old_found.len() {
            let line = old_found.len() as int;
            assert(found == old_found.push(state.start));
            assert forall|other: int|
                0 <= other < found.len() && !can_break_at(
                    glyphs,
                    #[trigger] found[other],
                ) implies has_no_other_break(glyphs, found, other) by {
                if other < line {
                    assert(found[other] == old_found[other]);
                    assert(has_no_other_break(glyphs, old_found, other));
                    assert(line_start(found, other) == line_start(old_found, other));
                } else {
                    assert(state.start == glyph.boundary);
                    assert forall|m: int|
                        {
                            &&& 0 <= m < glyphs.len()
                            &&& (#[trigger] glyphs[m]).boundary.is_after(line_start(found, line))
                            &&& !glyphs[m].boundary.is_after(found[line])
                        } implies !can_break_before(glyphs, m) by {
                        if m > k {
                            assert(glyphs[m].boundary.is_after(glyphs[k].boundary));
                        }
                        assert(glyphs[m].boundary.is_after(before.start));
                    }
                }
            }
        } else {
            assert(found == old_found);
        }
    }
}

/// A line breaks between words where it can: at a place before which a line can break, unless
/// it has no such place up to where it breaks.
pub proof fn lines_break_between_words(
    glyphs: Seq<WrapGlyph>,
    width: Pixels,
    wrap_width: Pixels,
    line: int,
)
    requires
        glyphs_in_order(glyphs),
        forall|m: int| 0 <= m < glyphs.len() ==> (#[trigger] glyphs[m]).ch != '\n',
        0 <= line < crate::wrap::all_boundaries(glyphs, width, wrap_width).len(),
    ensures
        ({
            let found = crate::wrap::all_boundaries(glyphs, width, wrap_width);
            can_break_at(glyphs, found[line]) || has_no_other_break(glyphs, found, line)
        }),
{
    lemma_breaks_at_words(glyphs, width, wrap_width, glyphs.len() as int);
}

/// Whether a line that starts with the glyph at `start`, `start_x` into the unwrapped line, is
/// too wide with glyph `n`.
pub open spec fn overflows(
    glyphs: Seq<WrapGlyph>,
    width: Pixels,
    wrap_width: Pixels,
    start: WrapBoundary,
    start_x: int,
    n: int,
) -> bool {
    let end = if n + 1 < glyphs.len() {
        glyphs[n + 1].x.units
    } else {
        width.units
    };
    &&& glyphs[n].ch != '\n'
    &&& end - start_x > wrap_width.units
    &&& crate::laws::lines::comes_before(
        start.run_ix as int,
        start.glyph_ix as int,
        glyphs[n].boundary.run_ix as int,
        glyphs[n].boundary.glyph_ix as int,
    )
}

/// Whether `place` is the last of the glyphs from `from` up to `n` that a line can break before,
/// or `n` itself if there is none.
pub open spec fn is_last_place(glyphs: Seq<WrapGlyph>, from: int, n: int, place: int) -> bool {
    &&& from <= place <= n
    &&& forall|m: int| place < m <= n ==> !#[trigger] can_break_before(glyphs, m)
    &&& can_break_before(glyphs, place) || place == n && forall|m: int|
        from <= m <= n ==> !#[trigger] can_break_before(glyphs, m)
}

/// A break of a line.
pub struct LineBreak {
    /// The glyph that the next line starts with.
    pub place: int,
    /// The glyph that made the line too wide.
    pub full_at: int,
}

/// The glyph that a line starts with.
pub open spec fn start_of(
    glyphs: Seq<WrapGlyph>,
    breaks: Seq<LineBreak>,
    line: int,
) -> WrapBoundary {
    if line > 0 {
        glyphs[breaks[line - 1].place].boundary
    } else {
        origin()
    }
}

/// Where a line starts in the unwrapped line.
pub open spec fn start_x_of(glyphs: Seq<WrapGlyph>, breaks: Seq<LineBreak>, line: int) -> int {
    if line > 0 {
        glyphs[breaks[line - 1].place].x.units as int
    } else {
        0
    }
}

/// The first glyph after the one that made the line before too wide.
pub open spec fn looked_at_from(breaks: Seq<LineBreak>, line: int) -> int {
    if line > 0 {
        breaks[line - 1].full_at + 1
    } else {
        0
    }
}

/// Whether no glyph from where a line is looked at up to glyph `n` makes it too wide.
pub open spec fn fits_up_to(
    glyphs: Seq<WrapGlyph>,
    width: Pixels,
    wrap_width: Pixels,
    breaks: Seq<LineBreak>,
    line: int,
    n: int,
) -> bool {
    forall|m: int|
        looked_at_from(breaks, line) <= m < n ==> !#[trigger] overflows(
            glyphs,
            width,
            wrap_width,
            start_of(glyphs, breaks, line),
            start_x_of(glyphs, breaks, line),
            m,
        )
}

/// Whether a line breaks as it should: at the first glyph that makes it too wide, and there at
/// the last place before which it can break.
pub open spec fn is_break(
    glyphs: Seq<WrapGlyph>,
    width: Pixels,
    wrap_width: Pixels,
    breaks: Seq<LineBreak>,
    line: int,
) -> bool {
    let full_at = breaks[line].full_at;
    &&& looked_at_from(breaks, line) <= full_at < glyphs.len()
    &&& fits_up_to(glyphs, width, wrap_width, breaks, line, full_at)
    &&& overflows(
        glyphs,
        width,
        wrap_width,
        start_of(glyphs, breaks, line),
        start_x_of(glyphs, breaks, line),
        full_at,
    )
    &&& is_last_place(glyphs, looked_at_from(breaks, line), full_at, breaks[line].place)
}

/// Whether these are the breaks of the first `n` glyphs: each is as it should be, and the last
/// line fits.
pub open spec fn are_breaks(
    glyphs: Seq<WrapGlyph>,
    width: Pixels,
    wrap_width: Pixels,
    breaks: Seq<LineBreak>,
    n: int,
) -> bool {
    &&& looked_at_from(breaks, breaks.len() as int) <= n
    &&& forall|line: int|
        0 <= line < breaks.len() ==> #[trigger] is_break(glyphs, width, wrap_width, breaks, line)
    &&& fits_up_to(glyphs, width, wrap_width, breaks, breaks.len() as int, n)
}

/// The boundaries of breaks.
pub open spec fn boundaries_at(glyphs: Seq<WrapGlyph>, breaks: Seq<LineBreak>) -> Seq<
    WrapBoundary,
> {
    Seq::new(breaks.len(), |line: int| glyphs[breaks[line].place].boundary)
}

/// What a state of breaking stands for, after the first `n` glyphs with these breaks.
pub open spec fn stands_for(
    glyphs: Seq<WrapGlyph>,
    breaks: Seq<LineBreak>,
    state: WrapState,
    n: int,
) -> bool {
    let from = looked_at_from(breaks, breaks.len() as int);
    &&& state.boundaries == boundaries_at(glyphs, breaks)
    &&& state.start == start_of(glyphs, breaks, breaks.len() as int)
    &&& state.start_x == start_x_of(glyphs, breaks, breaks.len() as int)
    &&& state.seen_text <==> exists|m: int| 0 <= m < n && is_text(#[trigger] glyphs[m])
    &&& state.prev_ch == char_before(glyphs, n)
    &&& match state.candidate {
        Some(candidate) => exists|place: int|
            {
                &&& from <= place < n
                &&& #[trigger] can_break_before(glyphs, place)
                &&& candidate == (glyphs[place].boundary, glyphs[place].x@)
                &&& forall|m: int| place < m < n ==> !#[trigger] can_break_before(glyphs, m)
            },
        None => forall|m: int| from <= m < n ==> !#[trigger] can_break_before(glyphs, m),
    }
}

/// The breaks of the first `n` glyphs.
pub proof fn lemma_breaks(glyphs: Seq<WrapGlyph>, width: Pixels, wrap_width: Pixels, n: int) -> (breaks:
    Seq<LineBreak>)
    requires
        0 <= n <= glyphs.len(),
    ensures
        are_breaks(glyphs, width, wrap_width, breaks, n),
        stands_for(
            glyphs,
            breaks,
            crate::wrap::wrap_state(glyphs, width, wrap_width, n),
            n,
        ),
    decreases n,
{
    if n == 0 {
        let breaks = Seq::<LineBreak>::empty();
        assert(boundaries_at(glyphs, breaks) =~= Seq::empty());
        breaks
    } else {
        let k = n - 1;
        let breaks = lemma_breaks(glyphs, width, wrap_width, k);
        let before = crate::wrap::wrap_state(glyphs, width, wrap_width, k);
        let state = crate::wrap::wrap_state(glyphs, width, wrap_width, n);
        let line = breaks.len() as int;
        let from = looked_at_from(breaks, line);
        let glyph = glyphs[k];
        assert(can_break_before(glyphs, k) == (glyph.ch != '\n' && before.seen_text && glyph.ch
            != ' ' && (before.prev_ch == ' ' || !glyph.is_word)));
        let full = overflows(
            glyphs,
            width,
            wrap_width,
            start_of(glyphs, breaks, line),
            start_x_of(glyphs, breaks, line),
            k,
        );
        if full {
            let place = if can_break_before(glyphs, k) {
                k
            } else if before.candidate is Some {
                choose|place: int|
                    {
                        &&& from <= place < k
                        &&& #[trigger] can_break_before(glyphs, place)
                        &&& before.candidate == Some((glyphs[place].boundary, glyphs[place].x@))
                        &&& forall|m: int|
                            place < m < k ==> !#[trigger] can_break_before(glyphs, m)
                    }
            } else {
                k
            };
            let added = LineBreak { place, full_at: k };
            let after = breaks.push(added);
            assert(is_last_place(glyphs, from, k, place));
            assert forall|other: int| 0 <= other < after.len() implies #[trigger] is_break(
                glyphs,
                width,
                wrap_width,
                after,
                other,
            ) by {
                if other < line {
                    assert(is_break(glyphs, width, wrap_width, breaks, other));
                    assert(start_of(glyphs, after, other) == start_of(glyphs, breaks, other));
                    assert(start_x_of(glyphs, after, other) == start_x_of(glyphs, breaks, other));
                    assert(looked_at_from(after, other) == looked_at_from(breaks, other));
                    assert(fits_up_to(
                        glyphs,
                        width,
                        wrap_width,
                        after,
                        other,
                        after[other].full_at,
                    ));
                } else {
                    assert(start_of(glyphs, after, other) == start_of(glyphs, breaks, line));
                    assert(start_x_of(glyphs, after, other) == start_x_of(glyphs, breaks, line));
                    assert(looked_at_from(after, other) == from);
                    assert(fits_up_to(glyphs, width, wrap_width, after, other, k));
                }
            }
            assert(state.boundaries =~= boundaries_at(glyphs, after));
            after
        } else {
            if can_break_before(glyphs, k) {
                assert(state.candidate == Some((glyph.boundary, glyph.x@)));
            } else if before.candidate is Some {
                let place = choose|place: int|
                    {
                        &&& from <= place < k
                        &&& #[trigger] can_break_before(glyphs, place)
                        &&& before.candidate == Some((glyphs[place].boundary, glyphs[place].x@))
                        &&& forall|m: int|
                            place < m < k ==> !#[trigger] can_break_before(glyphs, m)
                    };
                assert(can_break_before(glyphs, place));
            }
            breaks
        }
    }
}

/// A line breaks when the first glyph makes it too wide that comes after the one that made the
/// line before too wide. It breaks at the last place before which it can break up to there, or
/// at that glyph if there is none. No glyph after makes the last line too wide.
pub proof fn lines_break_at_the_last_place(
    glyphs: Seq<WrapGlyph>,
    width: Pixels,
    wrap_width: Pixels,
)
    ensures
        exists|breaks: Seq<LineBreak>|
            {
                &&& #[trigger] are_breaks(
                    glyphs,
                    width,
                    wrap_width,
                    breaks,
                    glyphs.len() as int,
                )
                &&& crate::wrap::all_boundaries(glyphs, width, wrap_width) == boundaries_at(
                    glyphs,
                    breaks,
                )
            },
{
    let breaks = lemma_breaks(glyphs, width, wrap_width, glyphs.len() as int);
    assert(are_breaks(glyphs, width, wrap_width, breaks, glyphs.len() as int));
}

/// The first breaks of a line are the same, whichever breaks it has and however many of its
/// glyphs they are for.
pub proof fn lemma_same_breaks(
    glyphs: Seq<WrapGlyph>,
    width: Pixels,
    wrap_width: Pixels,
    a: Seq<LineBreak>,
    b: Seq<LineBreak>,
    m: int,
    n: int,
    line: int,
)
    requires
        are_breaks(glyphs, width, wrap_width, a, m),
        are_breaks(glyphs, width, wrap_width, b, n),
        0 <= line <= a.len(),
        line <= b.len(),
    ensures
        a.take(line) == b.take(line),
    decreases line,
{
    if line > 0 {
        let k = line - 1;
        lemma_same_breaks(glyphs, width, wrap_width, a, b, m, n, k);
        assert forall|i: int| 0 <= i < k implies a[i] == b[i] by {
            assert(a.take(k)[i] == b.take(k)[i]);
        }
        assert(is_break(glyphs, width, wrap_width, a, k));
        assert(is_break(glyphs, width, wrap_width, b, k));
        if k > 0 {
            assert(a[k - 1] == b[k - 1]);
        }
        let (start, start_x) = (start_of(glyphs, a, k), start_x_of(glyphs, a, k));
        if a[k].full_at < b[k].full_at {
            assert(!overflows(glyphs, width, wrap_width, start, start_x, a[k].full_at));
        } else if b[k].full_at < a[k].full_at {
            assert(!overflows(glyphs, width, wrap_width, start, start_x, b[k].full_at));
        }
        if a[k].place < b[k].place {
            assert(!can_break_before(glyphs, b[k].place));
        } else if b[k].place < a[k].place {
            assert(!can_break_before(glyphs, a[k].place));
        }
        assert(a.take(line) =~= b.take(line));
    } else {
        assert(a.take(0) =~= b.take(0));
    }
}

/// There is one way only in which a line breaks.
pub proof fn lines_break_in_one_way(
    glyphs: Seq<WrapGlyph>,
    width: Pixels,
    wrap_width: Pixels,
    a: Seq<LineBreak>,
    b: Seq<LineBreak>,
)
    requires
        are_breaks(glyphs, width, wrap_width, a, glyphs.len() as int),
        are_breaks(glyphs, width, wrap_width, b, glyphs.len() as int),
    ensures
        a == b,
{
    lemma_no_longer(glyphs, width, wrap_width, a, b);
    lemma_no_longer(glyphs, width, wrap_width, b, a);
    let count = glyphs.len() as int;
    lemma_same_breaks(glyphs, width, wrap_width, a, b, count, count, a.len() as int);
    assert(a.take(a.len() as int) =~= a);
    assert(b.take(b.len() as int) =~= b);
}

/// No breaks of a line are more than others.
proof fn lemma_no_longer(
    glyphs: Seq<WrapGlyph>,
    width: Pixels,
    wrap_width: Pixels,
    a: Seq<LineBreak>,
    b: Seq<LineBreak>,
)
    requires
        are_breaks(glyphs, width, wrap_width, a, glyphs.len() as int),
        are_breaks(glyphs, width, wrap_width, b, glyphs.len() as int),
    ensures
        a.len() <= b.len(),
{
    if a.len() > b.len() {
        let line = b.len() as int;
        let count = glyphs.len() as int;
        lemma_same_breaks(glyphs, width, wrap_width, a, b, count, count, line);
        assert(is_break(glyphs, width, wrap_width, a, line));
        if line > 0 {
            assert(a.take(line)[line - 1] == b.take(line)[line - 1]);
        }
        assert(!overflows(
            glyphs,
            width,
            wrap_width,
            start_of(glyphs, b, line),
            start_x_of(glyphs, b, line),
            a[line].full_at,
        ));
    }
}

/// Whether a predicate of characters always says the same of a character.
pub open spec fn is_function<F: Fn(char) -> bool>(is_word_char: F) -> bool {
    forall|ch: char, a: bool, b: bool| #[trigger]
        call_ensures(is_word_char, (ch,), a) && #[trigger] call_ensures(is_word_char, (ch,), b)
            ==> a == b
}

/// Breaking that goes on to a glyph has gone on to all glyphs before.
pub proof fn lemma_reached(
    glyphs: Seq<WrapGlyph>,
    width: Pixels,
    wrap_width: Pixels,
    max_lines: Option<usize>,
    n: int,
)
    requires
        0 <= n,
        crate::wrap::is_reached(glyphs, width, wrap_width, max_lines, n),
    ensures
        forall|m: int|
            0 <= m <= n ==> #[trigger] crate::wrap::is_reached(
                glyphs,
                width,
                wrap_width,
                max_lines,
                m,
            ),
{
    assert forall|m: int| 0 <= m <= n implies #[trigger] crate::wrap::is_reached(
        glyphs,
        width,
        wrap_width,
        max_lines,
        m,
    ) by {
        crate::wrap::lemma_boundaries_grow(glyphs, width, wrap_width, m, n);
    }
}

/// The first glyph up to `n` that breaking does not go on to.
proof fn lemma_first_unreached(
    glyphs: Seq<WrapGlyph>,
    width: Pixels,
    wrap_width: Pixels,
    max_lines: Option<usize>,
    n: int,
) -> (first: int)
    requires
        0 <= n,
        !crate::wrap::is_reached(glyphs, width, wrap_width, max_lines, n),
    ensures
        0 < first <= n,
        !crate::wrap::is_reached(glyphs, width, wrap_width, max_lines, first),
        forall|m: int|
            0 <= m < first ==> #[trigger] crate::wrap::is_reached(
                glyphs,
                width,
                wrap_width,
                max_lines,
                m,
            ),
    decreases n,
{
    assert(n > 0);
    if crate::wrap::is_reached(glyphs, width, wrap_width, max_lines, n - 1) {
        lemma_reached(glyphs, width, wrap_width, max_lines, n - 1);
        n
    } else {
        lemma_first_unreached(glyphs, width, wrap_width, max_lines, n - 1)
    }
}

/// A layout that is wrapped into at most `max_lines` lines breaks where it does without a limit,
/// but for the lines past the last.
pub proof fn limits_keep_the_first_lines<F: Fn(char) -> bool>(
    is_word_char: F,
    layout: LayoutView,
    text: Seq<char>,
    wrap_width: Option<Pixels>,
    max_lines: usize,
    full: Seq<WrapBoundary>,
    some: Seq<WrapBoundary>,
)
    requires
        is_function(is_word_char),
        max_lines >= 1,
        crate::wrap::may_break(is_word_char, layout, text, wrap_width, None, Some(full)),
        crate::wrap::may_break(
            is_word_char,
            layout,
            text,
            wrap_width,
            Some(max_lines),
            Some(some),
        ),
    ensures
        some == full.take(
            if full.len() < max_lines {
                full.len() as int
            } else {
                max_lines - 1
            },
        ),
{
    if let Some(wrap_width) = wrap_width {
        let full_words = choose|words: Seq<bool>|
            {
                &&& #[trigger] crate::wrap::may_classify(
                    is_word_char,
                    layout,
                    text,
                    words,
                    wrap_width,
                    None,
                )
                &&& Some(full) == crate::wrap::checked_boundaries_of(
                    layout,
                    text,
                    words,
                    wrap_width,
                    None,
                )
            };
        let some_words = choose|words: Seq<bool>|
            {
                &&& #[trigger] crate::wrap::may_classify(
                    is_word_char,
                    layout,
                    text,
                    words,
                    wrap_width,
                    Some(max_lines),
                )
                &&& Some(some) == crate::wrap::checked_boundaries_of(
                    layout,
                    text,
                    words,
                    wrap_width,
                    Some(max_lines),
                )
            };
        let a = crate::wrap::wrap_glyphs(layout, text, full_words);
        let b = crate::wrap::wrap_glyphs(layout, text, some_words);
        let width = layout.width;
        let count = a.len() as int;
        let limit = Some(max_lines);
        assert(full == crate::wrap::all_boundaries(a, width, wrap_width));
        lemma_reached(a, width, wrap_width, None, count);
        assert forall|m: int| 0 <= m < count implies #[trigger] crate::wrap::is_for_char(
            layout,
            text,
            m,
        ) by {
            if m > 0 {
                assert(crate::wrap::is_reached(a, width, wrap_width, None, m - 1));
            } else {
                assert(crate::wrap::wrap_state(a, width, wrap_width, -1).boundaries.len() == 0);
                assert(crate::wrap::is_reached(a, width, wrap_width, None, m - 1));
            }
        }
        assert forall|m: int|
            0 <= m < count && crate::wrap::is_reached(b, width, wrap_width, limit, m) implies
            #[trigger] a[m] == b[m] || (a[m].ch == '\n' && b[m].ch == '\n') by {
            assert(crate::wrap::is_reached(a, width, wrap_width, None, m));
            if a[m].ch != '\n' {
                assert(call_ensures(is_word_char, (a[m].ch,), full_words[m]));
                assert(call_ensures(is_word_char, (a[m].ch,), some_words[m]));
            }
        }
        let all = crate::wrap::all_boundaries(b, width, wrap_width);
        if crate::wrap::is_reached(b, width, wrap_width, limit, count) {
            lemma_reached(b, width, wrap_width, limit, count);
            crate::wrap::lemma_state_of_prefix(a, b, width, wrap_width, count);
            assert(some == full);
            assert(full.take(full.len() as int) =~= full);
        } else {
            let first = lemma_first_unreached(b, width, wrap_width, limit, count);
            crate::wrap::lemma_state_of_prefix(a, b, width, wrap_width, first);
            let found = crate::wrap::wrap_state(a, width, wrap_width, first).boundaries;
            crate::wrap::lemma_boundaries_grow(a, width, wrap_width, first, count);
            crate::wrap::lemma_boundaries_grow(b, width, wrap_width, first, count);
            assert(found.len() >= max_lines);
            assert(full.take(max_lines - 1) =~= found.take(max_lines - 1));
            assert(all.take(max_lines - 1) =~= found.take(max_lines - 1));
        }
    } else {
        assert(full.take(0) =~= some);
    }
}

/// A layout whose glyphs are all for characters of the text can be wrapped into any number of
/// lines but none.
pub proof fn layouts_of_the_text_can_be_wrapped<F: Fn(char) -> bool>(
    is_word_char: F,
    layout: LayoutView,
    text: Seq<char>,
    wrap_width: Option<Pixels>,
    max_lines: Option<usize>,
)
    requires
        layout.glyphs().len() <= MAX_ITEMS,
        forall|n: int|
            0 <= n < layout.glyphs().len() ==> #[trigger] crate::wrap::is_for_char(
                layout,
                text,
                n,
            ),
        max_lines != Some(0usize),
    ensures
        crate::wrap::can_wrap(is_word_char, layout, text, wrap_width, max_lines),
{
    if let Some(width) = wrap_width {
        assert forall|words: Seq<bool>| #[trigger]
            crate::wrap::may_classify(
                is_word_char,
                layout,
                text,
                words,
                width,
                max_lines,
            ) implies crate::wrap::checked_boundaries_of(
            layout,
            text,
            words,
            width,
            max_lines,
        ) is Some by {
            let glyphs = crate::wrap::wrap_glyphs(layout, text, words);
            crate::wrap::lemma_boundaries_grow(
                glyphs,
                layout.width,
                width,
                0,
                glyphs.len() as int,
            );
        }
    }
}

} // verus!
