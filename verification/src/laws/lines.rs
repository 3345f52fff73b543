//! What lengths, lines, glyphs and texts are, and what is found in a line, told by what the line
//! holds.

use crate::geometry::Pixels;
use crate::inline_lists::{WrapBoundary, MAX_ITEMS};
use crate::layout::{FontId, LayoutView, LineLayout};
use vstd::prelude::*;

verus! {

/// A number of units that a length can have is kept as it is. A greater or a smaller number
/// becomes the greatest or the smallest.
pub proof fn lengths_are_kept(units: int, length: Pixels)
    ensures
        i64::MIN <= units <= i64::MAX ==> Pixels::nearest(units).units == units,
        units > i64::MAX ==> Pixels::nearest(units).units == i64::MAX,
        units < i64::MIN ==> Pixels::nearest(units).units == i64::MIN,
        length@ == length.units,
{
}

/// As many items as a list can hold, of two machine words each, fill a quarter of the address
/// space, so that twice as many would be more than an allocation may be.
pub proof fn lists_hold_what_fits()
    ensures
        MAX_ITEMS * usize::BITS == usize::MAX + 1,
{
    let max: int = usize::MAX as int;
    let bits: int = usize::BITS as int;
    assert((max / bits + 1) * bits == max + 1) by (nonlinear_arith)
        requires
            (bits == 32 && max == 0xffff_ffff) || (bits == 64 && max == 0xffff_ffff_ffff_ffff),
    ;
}

/// A boundary comes after another if it is in a later run, or further on in the same one.
pub proof fn boundaries_are_ordered(a: WrapBoundary, b: WrapBoundary)
    ensures
        a.run_ix > b.run_ix ==> a.is_after(b) && !b.is_after(a),
        a.run_ix == b.run_ix && a.glyph_ix > b.glyph_ix ==> a.is_after(b) && !b.is_after(a),
        !a.is_after(a),
{
}

/// Whether the glyph numbered `g` of run `r` comes before the glyph numbered `h` of run `q`.
pub open spec fn comes_before(r: int, g: int, q: int, h: int) -> bool {
    r < q || (r == q && g < h)
}

/// Whether a line has a glyph numbered `g` in run `r`.
pub open spec fn is_glyph(layout: LineLayout, r: int, g: int) -> bool {
    0 <= r < layout.runs@.len() && 0 <= g < layout.runs@[r].glyphs@.len()
}

/// The glyphs of a line are those of its runs, each once, run after run and glyph after glyph,
/// with the fonts of their runs.
pub proof fn glyphs_are_those_of_the_runs(layout: &LineLayout)
    ensures
        forall|n: int|
            0 <= n < layout@.glyphs().len() ==> {
                let placed = #[trigger] layout@.glyphs()[n];
                &&& 0 <= placed.run_ix < layout.runs@.len()
                &&& 0 <= placed.glyph_ix < layout.runs@[placed.run_ix].glyphs@.len()
                &&& placed.glyph == layout.runs@[placed.run_ix].glyphs@[placed.glyph_ix]
                &&& placed.font_id == layout.runs@[placed.run_ix].font_id
            },
        forall|m: int, n: int|
            0 <= m < n < layout@.glyphs().len() ==> comes_before(
                (#[trigger] layout@.glyphs()[m]).run_ix,
                layout@.glyphs()[m].glyph_ix,
                (#[trigger] layout@.glyphs()[n]).run_ix,
                layout@.glyphs()[n].glyph_ix,
            ),
        forall|r: int, g: int| #[trigger]
            is_glyph(*layout, r, g) ==> exists|n: int|
                0 <= n < layout@.glyphs().len() && (#[trigger] layout@.glyphs()[n]).run_ix == r
                    && layout@.glyphs()[n].glyph_ix == g,
{
    let glyphs = layout@.glyphs();
    let runs = layout@.runs;
    assert forall|n: int| 0 <= n < glyphs.len() implies {
        let placed = #[trigger] glyphs[n];
        &&& 0 <= placed.run_ix < layout.runs@.len()
        &&& 0 <= placed.glyph_ix < layout.runs@[placed.run_ix].glyphs@.len()
        &&& placed.glyph == layout.runs@[placed.run_ix].glyphs@[placed.glyph_ix]
        &&& placed.font_id == layout.runs@[placed.run_ix].font_id
    } by {
        crate::layout::lemma_placed_at(runs, n);
    }
    assert forall|m: int, n: int| 0 <= m < n < glyphs.len() implies comes_before(
        (#[trigger] glyphs[m]).run_ix,
        glyphs[m].glyph_ix,
        (#[trigger] glyphs[n]).run_ix,
        glyphs[n].glyph_ix,
    ) by {
        crate::layout::lemma_placed_at(runs, m);
        crate::layout::lemma_placed_at(runs, n);
        if glyphs[n].run_ix < glyphs[m].run_ix {
            crate::layout::lemma_glyphs_before_grows(
                runs,
                glyphs[n].run_ix + 1,
                glyphs[m].run_ix,
            );
        }
    }
    crate::layout::lemma_placed_glyphs(runs);
    assert forall|r: int, g: int| #[trigger] is_glyph(*layout, r, g) implies exists|n: int|
        0 <= n < glyphs.len() && (#[trigger] glyphs[n]).run_ix == r && glyphs[n].glyph_ix
            == g by {
        assert(runs[r].glyphs[g] == layout.runs@[r].glyphs@[g]);
        let n = crate::layout::glyphs_before(runs, r) + g;
        assert(glyphs[n].run_ix == r);
    }
}

/// What is said of a line is said of what it holds.
pub proof fn lines_are_what_they_hold(layout: LineLayout)
    ensures
        layout@.font_size == layout.font_size,
        layout@.width == layout.width,
        layout@.ascent == layout.ascent,
        layout@.descent == layout.descent,
        layout@.len == layout.len,
        layout@.runs.len() == layout.runs@.len(),
        forall|r: int|
            0 <= r < layout.runs@.len() ==> {
                &&& (#[trigger] layout@.runs[r]).font_id == layout.runs@[r].font_id
                &&& layout@.runs[r].glyphs == layout.runs@[r].glyphs@
            },
{
}

/// The layout of nothing has no run, no width, no height and no text.
pub proof fn the_empty_line_holds_nothing()
    ensures
        ({
            let layout = LayoutView::empty();
            &&& layout.font_size.units == 0
            &&& layout.width.units == 0
            &&& layout.ascent.units == 0
            &&& layout.descent.units == 0
            &&& layout.runs.len() == 0
            &&& layout.len == 0
        }),
{
}

/// Whether an index is the one under a place of a line. Right of the line there is none.
/// Elsewhere it is the index of a glyph that starts at or left of the place, while all glyphs
/// that come after it start right of it; or 0 where all glyphs start right of it.
pub open spec fn is_under(layout: LineLayout, x: Pixels, found: Option<usize>) -> bool {
    let glyphs = layout@.glyphs();
    match found {
        None => x.units >= layout.width.units,
        Some(index) => {
            &&& x.units < layout.width.units
            &&& {
                ||| exists|n: int|
                    {
                        &&& 0 <= n < glyphs.len()
                        &&& (#[trigger] glyphs[n]).glyph.index == index
                        &&& glyphs[n].glyph.position.x.units <= x.units
                        &&& forall|m: int|
                            n < m < glyphs.len() ==> (#[trigger] glyphs[m]).glyph.position.x.units
                                > x.units
                    }
                ||| index == 0 && forall|m: int|
                    0 <= m < glyphs.len() ==> (#[trigger] glyphs[m]).glyph.position.x.units
                        > x.units
            }
        },
    }
}

/// The index for a place is the one under it.
pub proof fn index_for_x_is_that_of_a_glyph(layout: &LineLayout, x: Pixels)
    ensures
        is_under(*layout, x, layout@.index_for_x(x@)),
{
    crate::laws::finding::index_for_x_is_under_x(layout@, x@);
    if x.units < layout.width.units {
        let glyphs = layout@.glyphs();
        if exists|n: int|
            {
                &&& 0 <= n < glyphs.len()
                &&& layout@.index_for_x(x@) == Some((#[trigger] glyphs[n]).glyph.index)
                &&& glyphs[n].glyph.position.x@ <= x@
                &&& forall|m: int|
                    n < m < glyphs.len() ==> (#[trigger] glyphs[m]).glyph.position.x@ > x@
            } {
            let n = choose|n: int|
                {
                    &&& 0 <= n < glyphs.len()
                    &&& layout@.index_for_x(x@) == Some((#[trigger] glyphs[n]).glyph.index)
                    &&& glyphs[n].glyph.position.x@ <= x@
                    &&& forall|m: int|
                        n < m < glyphs.len() ==> (#[trigger] glyphs[m]).glyph.position.x@ > x@
                };
            assert(glyphs[n].glyph.index == layout@.index_for_x(x@)->0);
        }
    }
}

/// Whether an index is the closest to a place of a line. It is that of one of two neighbours: of
/// the first glyph that starts at or right of the place, or the end of the text at the end of the
/// line if there is none; and of the glyph before that, or the start of the text at the left
/// edge. It is the first of these only if that is nearer.
pub open spec fn is_closest_to(layout: LineLayout, x: Pixels, index: usize) -> bool {
    exists|n: int|
        {
            let glyphs = layout@.glyphs();
            let left_index = if n > 0 {
                glyphs[n - 1].glyph.index
            } else {
                0
            };
            let left = if n > 0 {
                glyphs[n - 1].glyph.position.x.units as int
            } else {
                0
            };
            let right_index = if n < glyphs.len() {
                glyphs[n].glyph.index
            } else {
                layout.len
            };
            let right = if n < glyphs.len() {
                glyphs[n].glyph.position.x.units
            } else {
                layout.width.units
            };
            &&& #[trigger] is_first_from(layout, x, n)
            &&& right - x.units < x.units - left ==> index == right_index
            &&& right - x.units >= x.units - left ==> index == left_index
        }
}

/// The closest index to a place is that of the nearer neighbour.
pub proof fn closest_index_is_that_of_a_neighbour(layout: &LineLayout, x: Pixels)
    ensures
        is_closest_to(*layout, x, layout@.closest_index_for_x(x@)),
{
    let n = layout@.first_from_x(x@);
    crate::layout::lemma_first_glyph(
        layout@.glyphs(),
        |glyph: crate::layout::ShapedGlyph| glyph.position.x@ >= x@,
    );
    let wanted = |glyph: crate::layout::ShapedGlyph| glyph.position.x@ >= x@;
    assert forall|m: int| 0 <= m < n implies (
    #[trigger] layout@.glyphs()[m]).glyph.position.x.units < x.units by {
        assert(!wanted(layout@.glyphs()[m].glyph));
    }
    if n < layout@.glyphs().len() {
        assert(wanted(layout@.glyphs()[n].glyph));
    }
    assert(is_first_from(*layout, x, n));
}

/// Whether glyph `n` is the first that starts at or right of a place; the number of glyphs if
/// there is none.
pub open spec fn is_first_from(layout: LineLayout, x: Pixels, n: int) -> bool {
    let glyphs = layout@.glyphs();
    &&& 0 <= n <= glyphs.len()
    &&& forall|m: int|
        0 <= m < n ==> (#[trigger] glyphs[m]).glyph.position.x.units < x.units
    &&& n < glyphs.len() ==> glyphs[n].glyph.position.x.units >= x.units
}

/// Whether a text index is at a place and in a font: where the first glyph for it or for
/// something later starts, in the font of the run of this glyph. Where there is no such glyph,
/// the place is the end of the line, and there is no font.
pub open spec fn is_placed_at(
    layout: LineLayout,
    index: usize,
    x: Pixels,
    font: Option<FontId>,
) -> bool {
    let glyphs = layout@.glyphs();
    ||| {
        &&& forall|m: int| 0 <= m < glyphs.len() ==> (#[trigger] glyphs[m]).glyph.index < index
        &&& x == layout.width
        &&& font is None
    }
    ||| exists|n: int|
        {
            &&& 0 <= n < glyphs.len()
            &&& (#[trigger] glyphs[n]).glyph.index >= index
            &&& forall|m: int| 0 <= m < n ==> (#[trigger] glyphs[m]).glyph.index < index
            &&& x == glyphs[n].glyph.position.x
            &&& font == Some(layout.runs@[glyphs[n].run_ix].font_id)
        }
}

/// A text index is at its place and in its font.
pub proof fn indices_are_placed_by_the_first_glyph(layout: &LineLayout, index: usize)
    ensures
        is_placed_at(
            *layout,
            index,
            layout@.x_for_index(index as int),
            layout@.font_id_for_index(index as int),
        ),
{
    let glyphs = layout@.glyphs();
    let wanted = |glyph: crate::layout::ShapedGlyph| glyph.index >= index as int;
    crate::layout::lemma_first_glyph(glyphs, wanted);
    let n = layout@.first_from_index(index as int);
    assert forall|m: int| 0 <= m < n implies (#[trigger] glyphs[m]).glyph.index < index by {
        assert(!wanted(glyphs[m].glyph));
    }
    if n < glyphs.len() {
        assert(wanted(glyphs[n].glyph));
        glyphs_are_those_of_the_runs(layout);
        assert(glyphs[n].glyph.index >= index);
    }
}

/// Whether character `k` of a text starts at a byte.
pub open spec fn char_starts_at(text: Seq<char>, k: int, index: int) -> bool {
    0 <= k < text.len() && index == vstd::utf8::encode_utf8(text.take(k)).len()
}

/// What two texts are encoded as stands one after the other.
proof fn lemma_encode_concat(a: Seq<char>, b: Seq<char>)
    ensures
        vstd::utf8::encode_utf8(a + b) == vstd::utf8::encode_utf8(a) + vstd::utf8::encode_utf8(b),
    decreases a.len(),
{
    if a.len() == 0 {
        assert(a + b =~= b);
        assert(vstd::utf8::encode_utf8(a) =~= Seq::empty());
        assert(vstd::utf8::encode_utf8(a) + vstd::utf8::encode_utf8(b) =~= vstd::utf8::encode_utf8(
            b,
        ));
    } else {
        lemma_encode_concat(a.drop_first(), b);
        assert((a + b).drop_first() =~= a.drop_first() + b);
        assert(vstd::utf8::encode_utf8(a + b) =~= vstd::utf8::encode_utf8(a)
            + vstd::utf8::encode_utf8(b));
    }
}

/// Characters start where the encodings of the texts before them end, and at no other boundary
/// but the end of the text.
proof fn lemma_boundaries_of_text(text: Seq<char>, index: int)
    ensures
        vstd::utf8::is_char_boundary(vstd::utf8::encode_utf8(text), index) <==> exists|k: int|
            0 <= k <= text.len() && index == (#[trigger] vstd::utf8::encode_utf8(text.take(k))).len(),
    decreases text.len(),
{
    let bytes = vstd::utf8::encode_utf8(text);
    vstd::utf8::encode_utf8_valid_utf8(text);
    if text.len() == 0 {
        assert(text.take(0) =~= text);
        assert(vstd::utf8::encode_utf8(text.take(0)).len() == 0);
        assert forall|k: int|
            0 <= k <= text.len() implies (#[trigger] vstd::utf8::encode_utf8(text.take(k))).len()
            == 0 by {
            assert(text.take(k) =~= text);
        }
    } else {
        let rest = text.drop_first();
        vstd::utf8::encode_utf8_first_scalar(text);
        let first = vstd::utf8::encode_scalar(text[0] as u32);
        assert(bytes == first + vstd::utf8::encode_utf8(rest));
        assert(vstd::utf8::pop_first_scalar(bytes) =~= vstd::utf8::encode_utf8(rest));
        lemma_boundaries_of_text(rest, index - first.len());
        assert(text.take(0) =~= Seq::empty());
        assert(vstd::utf8::encode_utf8(text.take(0)).len() == 0);
        assert forall|k: int| 1 <= k <= text.len() implies (
        #[trigger] vstd::utf8::encode_utf8(text.take(k))).len() == first.len()
            + vstd::utf8::encode_utf8(rest.take(k - 1)).len() by {
            assert(text.take(k)[0] == text[0]);
            assert(text.take(k).drop_first() =~= rest.take(k - 1));
        }
        if vstd::utf8::is_char_boundary(bytes, index) && index != 0 {
            let k = choose|k: int|
                0 <= k <= rest.len() && index - first.len() == (
                #[trigger] vstd::utf8::encode_utf8(rest.take(k))).len();
            assert(index == vstd::utf8::encode_utf8(text.take(k + 1)).len());
        }
        if exists|k: int|
            0 <= k <= text.len() && index == (#[trigger] vstd::utf8::encode_utf8(text.take(k))).len() {
            let k = choose|k: int|
                0 <= k <= text.len() && index == (
                #[trigger] vstd::utf8::encode_utf8(text.take(k))).len();
            if k > 0 {
                assert(index - first.len() == vstd::utf8::encode_utf8(rest.take(k - 1)).len());
                lemma_encode_concat(text.take(k), text.skip(k));
                assert(text.take(k) + text.skip(k) =~= text);
            }
        }
    }
}

/// A character is read where the encoding of the text before it ends.
pub proof fn characters_are_read_where_they_start(text: Seq<char>, k: int, index: int)
    requires
        char_starts_at(text, k, index),
    ensures
        crate::wrap::is_char_start(text, index),
        crate::wrap::char_at(text, index) == text[k],
{
    let bytes = vstd::utf8::encode_utf8(text);
    let rest = text.skip(k);
    lemma_encode_concat(text.take(k), rest);
    assert(text.take(k) + rest =~= text);
    assert(vstd::utf8::encode_utf8(text.take(k)).len() == index);
    lemma_boundaries_of_text(text, index);
    assert(bytes.subrange(index, bytes.len() as int) =~= vstd::utf8::encode_utf8(rest));
    vstd::utf8::encode_utf8_decode_utf8(rest);
    assert(vstd::utf8::encode_utf8(rest).len() > 0) by {
        assert(vstd::utf8::decode_utf8(vstd::utf8::encode_utf8(rest)).len() > 0);
    }
    assert(rest[0] == text[k]);
}

/// Where a character is said to start, one of the text does.
pub proof fn characters_start_nowhere_else(text: Seq<char>, index: int) -> (k: int)
    requires
        crate::wrap::is_char_start(text, index),
    ensures
        char_starts_at(text, k, index),
{
    lemma_boundaries_of_text(text, index);
    let k = choose|k: int|
        0 <= k <= text.len() && index == (#[trigger] vstd::utf8::encode_utf8(text.take(k))).len();
    assert(text.take(text.len() as int) =~= text);
    k
}

} // verus!
