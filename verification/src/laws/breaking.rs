//! Where a layout breaks, told by the places of its glyphs and by its text.

use crate::geometry::Pixels;
use crate::inline_lists::{WrapBoundary, MAX_ITEMS};
use crate::laws::wrapping::LineBreak;
use crate::layout::{LayoutView, LineLayout};
use crate::wrap::WrapGlyph;
use vstd::prelude::*;

verus! {

/// Whether glyphs stand for those of a line: each is where that of the line is, among the runs
/// and in the line.
pub open spec fn stand_for(layout: LineLayout, seen: Seq<WrapGlyph>) -> bool {
    let glyphs = layout@.glyphs();
    &&& seen.len() == glyphs.len()
    &&& forall|n: int|
        0 <= n < seen.len() ==> {
            &&& (#[trigger] seen[n]).x.units == glyphs[n].glyph.position.x.units
            &&& seen[n].boundary.run_ix == glyphs[n].run_ix
            &&& seen[n].boundary.glyph_ix == glyphs[n].glyph_ix
        }
}

/// Whether a glyph of a line is for a character of the text.
pub open spec fn has_char(layout: LineLayout, text: Seq<char>, n: int) -> bool {
    exists|k: int| #[trigger]
        crate::laws::lines::char_starts_at(text, k, layout@.glyphs()[n].glyph.index as int)
}

/// Whether a glyph has the character of the text that starts where that of the line does.
pub open spec fn is_read(
    layout: LineLayout,
    text: Seq<char>,
    seen: Seq<WrapGlyph>,
    n: int,
) -> bool {
    exists|k: int|
        {
            &&& #[trigger] crate::laws::lines::char_starts_at(
                text,
                k,
                layout@.glyphs()[n].glyph.index as int,
            )
            &&& seen[n].ch == text[k]
        }
}

/// Whether a glyph is part of a word as `is_word_char` says of its character. Newlines are not
/// asked for.
pub open spec fn is_told<F: Fn(char) -> bool>(
    is_word_char: F,
    seen: Seq<WrapGlyph>,
    n: int,
) -> bool {
    seen[n].ch != '\n' ==> call_ensures(is_word_char, (seen[n].ch,), seen[n].is_word)
}

/// How many glyphs there are up to the one that makes the last line too wide that there may be;
/// all of them if no glyph does.
pub open spec fn gone_past(count: int, breaks: Seq<LineBreak>, max_lines: Option<usize>) -> int {
    if max_lines is Some && breaks.len() > 0 && breaks.len() >= max_lines->0 {
        if max_lines->0 == 0 {
            breaks[0].full_at + 1
        } else {
            breaks[max_lines->0 - 1].full_at + 1
        }
    } else {
        count
    }
}

/// How many of the breaks leave at most `max_lines` lines.
pub open spec fn kept(count: int, max_lines: Option<usize>) -> int {
    if max_lines is Some && count >= max_lines->0 {
        if max_lines->0 == 0 {
            0
        } else {
            max_lines->0 - 1
        }
    } else {
        count
    }
}

/// The glyph that made a line too wide comes after the one of the line before.
proof fn lemma_full_at_grows(
    glyphs: Seq<WrapGlyph>,
    width: Pixels,
    wrap_width: Pixels,
    breaks: Seq<LineBreak>,
    n: int,
    i: int,
    j: int,
)
    requires
        crate::laws::wrapping::are_breaks(glyphs, width, wrap_width, breaks, n),
        0 <= i < j < breaks.len(),
    ensures
        breaks[i].full_at < breaks[j].full_at,
    decreases j - i,
{
    assert(crate::laws::wrapping::is_break(glyphs, width, wrap_width, breaks, j));
    if i + 1 < j {
        lemma_full_at_grows(glyphs, width, wrap_width, breaks, n, i, j - 1);
    }
}

/// As many boundaries are found up to a glyph as glyphs before it made a line too wide.
proof fn lemma_found_up_to(
    glyphs: Seq<WrapGlyph>,
    width: Pixels,
    wrap_width: Pixels,
    breaks: Seq<LineBreak>,
    n: int,
)
    requires
        crate::laws::wrapping::are_breaks(
            glyphs,
            width,
            wrap_width,
            breaks,
            glyphs.len() as int,
        ),
        0 <= n <= glyphs.len(),
    ensures
        ({
            let found = crate::wrap::wrap_state(glyphs, width, wrap_width, n).boundaries.len();
            &&& found <= breaks.len()
            &&& forall|i: int| 0 <= i < found ==> (#[trigger] breaks[i]).full_at < n
            &&& found < breaks.len() ==> breaks[found as int].full_at >= n
        }),
{
    let count = glyphs.len() as int;
    let first = crate::laws::wrapping::lemma_breaks(glyphs, width, wrap_width, n);
    let found = first.len() as int;
    if found > breaks.len() {
        let line = breaks.len() as int;
        crate::laws::wrapping::lemma_same_breaks(
            glyphs,
            width,
            wrap_width,
            first,
            breaks,
            n,
            count,
            line,
        );
        assert(crate::laws::wrapping::is_break(glyphs, width, wrap_width, first, line));
        if line > 0 {
            assert(first.take(line)[line - 1] == breaks.take(line)[line - 1]);
        }
        assert(!crate::laws::wrapping::overflows(
            glyphs,
            width,
            wrap_width,
            crate::laws::wrapping::start_of(glyphs, breaks, line),
            crate::laws::wrapping::start_x_of(glyphs, breaks, line),
            first[line].full_at,
        ));
    }
    crate::laws::wrapping::lemma_same_breaks(
        glyphs,
        width,
        wrap_width,
        first,
        breaks,
        n,
        count,
        found,
    );
    assert forall|i: int| 0 <= i < found implies (#[trigger] breaks[i]).full_at < n by {
        assert(first.take(found)[i] == breaks.take(found)[i]);
        if i < found - 1 {
            lemma_full_at_grows(glyphs, width, wrap_width, first, n, i, found - 1);
        }
    }
    if found < breaks.len() && breaks[found].full_at < n {
        assert(crate::laws::wrapping::is_break(glyphs, width, wrap_width, breaks, found));
        if found > 0 {
            assert(first.take(found)[found - 1] == breaks.take(found)[found - 1]);
        }
        assert(!crate::laws::wrapping::overflows(
            glyphs,
            width,
            wrap_width,
            crate::laws::wrapping::start_of(glyphs, first, found),
            crate::laws::wrapping::start_x_of(glyphs, first, found),
            breaks[found].full_at,
        ));
    }
}

/// The glyphs that breaking sees stand for those of the line.
proof fn lemma_stand_for(layout: LineLayout, text: Seq<char>, words: Seq<bool>)
    ensures
        stand_for(layout, crate::wrap::wrap_glyphs(layout@, text, words)),
{
    let glyphs = layout@.glyphs();
    let seen = crate::wrap::wrap_glyphs(layout@, text, words);
    assert forall|n: int| 0 <= n < seen.len() implies {
        &&& (#[trigger] seen[n]).x.units == glyphs[n].glyph.position.x.units
        &&& seen[n].boundary.run_ix == glyphs[n].run_ix
        &&& seen[n].boundary.glyph_ix == glyphs[n].glyph_ix
    } by {
        crate::layout::lemma_placed_at(layout@.runs, n);
        assert(layout.runs.len() == layout.runs@.len());
        let run = layout.runs@[glyphs[n].run_ix];
        assert(run.glyphs.len() == run.glyphs@.len());
    }
}

/// Where a glyph is for a character, this is the one that breaking sees.
proof fn lemma_is_read(layout: LineLayout, text: Seq<char>, words: Seq<bool>, n: int)
    requires
        0 <= n < layout@.glyphs().len(),
        crate::wrap::is_for_char(layout@, text, n),
    ensures
        is_read(layout, text, crate::wrap::wrap_glyphs(layout@, text, words), n),
{
    let index = layout@.glyphs()[n].glyph.index as int;
    let k = crate::laws::lines::characters_start_nowhere_else(text, index);
    crate::laws::lines::characters_are_read_where_they_start(text, k, index);
}

/// A glyph is for a character exactly if one of the text starts there.
proof fn lemma_has_char(layout: LineLayout, text: Seq<char>, n: int)
    ensures
        crate::wrap::is_for_char(layout@, text, n) <==> has_char(layout, text, n),
{
    let index = layout@.glyphs()[n].glyph.index as int;
    if crate::wrap::is_for_char(layout@, text, n) {
        let k = crate::laws::lines::characters_start_nowhere_else(text, index);
        assert(crate::laws::lines::char_starts_at(text, k, index));
    }
    if has_char(layout, text, n) {
        let k = choose|k: int| #[trigger] crate::laws::lines::char_starts_at(text, k, index);
        crate::laws::lines::characters_are_read_where_they_start(text, k, index);
    }
}

/// What is read and asked for of the glyphs up to `n`, where breaking goes on to all of them.
proof fn lemma_seen<F: Fn(char) -> bool>(
    is_word_char: F,
    layout: LineLayout,
    text: Seq<char>,
    words: Seq<bool>,
    wrap_width: Pixels,
    max_lines: Option<usize>,
    n: int,
)
    requires
        crate::wrap::may_classify(is_word_char, layout@, text, words, wrap_width, max_lines),
        0 <= n <= layout@.glyphs().len(),
        forall|m: int|
            0 <= m < n ==> {
                &&& #[trigger] crate::wrap::is_for_char(layout@, text, m)
                &&& crate::wrap::is_reached(
                    crate::wrap::wrap_glyphs(layout@, text, words),
                    layout@.width,
                    wrap_width,
                    max_lines,
                    m,
                )
            },
    ensures
        forall|m: int|
            0 <= m < n ==> #[trigger] is_read(
                layout,
                text,
                crate::wrap::wrap_glyphs(layout@, text, words),
                m,
            ),
        forall|m: int|
            0 <= m < n ==> #[trigger] is_told(
                is_word_char,
                crate::wrap::wrap_glyphs(layout@, text, words),
                m,
            ),
{
    let seen = crate::wrap::wrap_glyphs(layout@, text, words);
    assert forall|m: int| 0 <= m < n implies #[trigger] is_read(layout, text, seen, m) by {
        assert(crate::wrap::is_for_char(layout@, text, m));
        lemma_is_read(layout, text, words, m);
    }
    assert forall|m: int| 0 <= m < n implies #[trigger] is_told(is_word_char, seen, m) by {
        assert(crate::wrap::is_for_char(layout@, text, m));
        lemma_is_read(layout, text, words, m);
        assert(seen[m].is_word == words[m]);
    }
}

/// Whether boundaries are those of the breaks of the glyphs that stand for those of a line, as
/// many as there may be. The glyphs have the characters of the text, and what `is_word_char` says
/// of them, up to the one that makes the last line too wide, and the character of the next one is
/// read.
pub open spec fn are_found<F: Fn(char) -> bool>(
    is_word_char: F,
    layout: LineLayout,
    text: Seq<char>,
    wrap_width: Pixels,
    max_lines: Option<usize>,
    found: Seq<WrapBoundary>,
    seen: Seq<WrapGlyph>,
    breaks: Seq<LineBreak>,
) -> bool {
    let count = seen.len() as int;
    let past = gone_past(count, breaks, max_lines);
    &&& stand_for(layout, seen)
    &&& crate::laws::wrapping::are_breaks(seen, layout.width, wrap_width, breaks, count)
    &&& forall|n: int|
        0 <= n < past ==> #[trigger] is_read(layout, text, seen, n) && is_told(
            is_word_char,
            seen,
            n,
        )
    &&& past < count ==> is_read(layout, text, seen, past)
    &&& max_lines == Some(0usize) ==> breaks.len() == 0
    &&& found.len() == kept(breaks.len() as int, max_lines)
    &&& forall|i: int|
        0 <= i < found.len() ==> #[trigger] found[i] == seen[breaks[i].place].boundary
}

/// A layout breaks by the places of its glyphs and the characters that they are for. There are
/// glyphs that stand for those of the line, with the characters of the text and with what
/// `is_word_char` says of them, up to where there are enough lines. The line breaks as these
/// do: each line at the first glyph that ends further from where the line starts than the wrap
/// width, there at the last place before which it can break. Of these breaks as many are found
/// as there may be.
pub proof fn layouts_break_by_their_places<F: Fn(char) -> bool>(
    is_word_char: F,
    layout: LineLayout,
    text: Seq<char>,
    wrap_width: Pixels,
    max_lines: Option<usize>,
    found: Seq<WrapBoundary>,
)
    requires
        crate::wrap::may_break(
            is_word_char,
            layout@,
            text,
            Some(wrap_width),
            max_lines,
            Some(found),
        ),
    ensures
        exists|seen: Seq<WrapGlyph>, breaks: Seq<LineBreak>|
            #[trigger] are_found(
                is_word_char,
                layout,
                text,
                wrap_width,
                max_lines,
                found,
                seen,
                breaks,
            ),
{
    let words = choose|words: Seq<bool>|
        {
            &&& #[trigger] crate::wrap::may_classify(
                is_word_char,
                layout@,
                text,
                words,
                wrap_width,
                max_lines,
            )
            &&& Some(found) == crate::wrap::checked_boundaries_of(
                layout@,
                text,
                words,
                wrap_width,
                max_lines,
            )
        };
    let seen = crate::wrap::wrap_glyphs(layout@, text, words);
    let width = layout.width;
    let count = seen.len() as int;
    let breaks = crate::laws::wrapping::lemma_breaks(seen, width, wrap_width, count);
    let all = crate::wrap::all_boundaries(seen, width, wrap_width);
    let past = gone_past(count, breaks, max_lines);
    lemma_stand_for(layout, text, words);
    assert(all.len() == breaks.len());
    if past < count || breaks.len() > 0 {
        if max_lines is Some && breaks.len() > 0 && breaks.len() >= max_lines->0 {
            let last = if max_lines->0 == 0 {
                0
            } else {
                max_lines->0 - 1
            };
            assert(crate::laws::wrapping::is_break(seen, width, wrap_width, breaks, last));
            assert(0 <= breaks[last].full_at) by {
                if last > 0 {
                    lemma_full_at_grows(seen, width, wrap_width, breaks, count, 0, last);
                }
                assert(crate::laws::wrapping::is_break(seen, width, wrap_width, breaks, 0));
            }
        }
    }
    assert forall|n: int| 0 <= n < past implies #[trigger] crate::wrap::is_reached(
        seen,
        width,
        wrap_width,
        max_lines,
        n,
    ) by {
        lemma_found_up_to(seen, width, wrap_width, breaks, n);
    }
    assert forall|n: int|
        0 <= n <= past && n < count implies #[trigger] crate::wrap::is_for_char(
        layout@,
        text,
        n,
    ) by {
        if n > 0 {
            assert(crate::wrap::is_reached(seen, width, wrap_width, max_lines, n - 1));
        } else {
            assert(crate::wrap::wrap_state(seen, width, wrap_width, -1).boundaries.len() == 0);
            assert(crate::wrap::is_reached(seen, width, wrap_width, max_lines, n - 1));
        }
    }
    lemma_seen(is_word_char, layout, text, words, wrap_width, max_lines, past);
    if past < count {
        lemma_is_read(layout, text, words, past);
    }
    assert forall|i: int| 0 <= i < found.len() implies #[trigger] found[i]
        == seen[breaks[i].place].boundary by {
        assert(found[i] == all[i]);
    }
    assert(are_found(
        is_word_char,
        layout,
        text,
        wrap_width,
        max_lines,
        found,
        seen,
        breaks,
    ));
}

/// Whether breaking the glyphs that stand for those of a line fails after the first `n` of them:
/// the next is not for a character of the text, or there are breaks but there may be no line, or
/// there are more breaks than a list can hold.
pub open spec fn fails_after(
    layout: LineLayout,
    text: Seq<char>,
    wrap_width: Pixels,
    max_lines: Option<usize>,
    seen: Seq<WrapGlyph>,
    breaks: Seq<LineBreak>,
    n: int,
) -> bool {
    let may_go_on = (breaks.len() == 0 || max_lines is None || breaks.len() < max_lines->0)
        && breaks.len() <= MAX_ITEMS;
    ||| {
        &&& n < seen.len()
        &&& !has_char(layout, text, n)
        &&& may_go_on
        &&& crate::laws::wrapping::are_breaks(
            seen,
            layout.width,
            wrap_width,
            breaks,
            if n > 0 {
                n - 1
            } else {
                0
            },
        )
    }
    ||| {
        &&& crate::laws::wrapping::are_breaks(seen, layout.width, wrap_width, breaks, n)
        &&& max_lines == Some(0usize)
        &&& breaks.len() > 0
    }
    ||| {
        &&& crate::laws::wrapping::are_breaks(seen, layout.width, wrap_width, breaks, n)
        &&& max_lines is None || breaks.len() < max_lines->0
        &&& breaks.len() > MAX_ITEMS
    }
}

/// The first glyph up to `n` that is not for a character.
proof fn lemma_first_without_char(layout: LayoutView, text: Seq<char>, n: int) -> (first: int)
    requires
        0 <= n,
        !crate::wrap::is_for_char(layout, text, n),
    ensures
        0 <= first <= n,
        !crate::wrap::is_for_char(layout, text, first),
        forall|m: int| 0 <= m < first ==> #[trigger] crate::wrap::is_for_char(layout, text, m),
    decreases n,
{
    if exists|m: int| 0 <= m < n && !(#[trigger] crate::wrap::is_for_char(layout, text, m)) {
        let m = choose|m: int|
            0 <= m < n && !(#[trigger] crate::wrap::is_for_char(layout, text, m));
        lemma_first_without_char(layout, text, m)
    } else {
        n
    }
}

/// There is no way to break a layout only for a reason: a glyph that is read is not for a
/// character of the text, there may be no line at all but the text needs more than one, or there
/// are more breaks than a list can hold.
pub proof fn layouts_break_unless_they_cannot<F: Fn(char) -> bool>(
    is_word_char: F,
    layout: LineLayout,
    text: Seq<char>,
    wrap_width: Option<Pixels>,
    max_lines: Option<usize>,
)
    requires
        crate::wrap::may_break(is_word_char, layout@, text, wrap_width, max_lines, None),
    ensures
        wrap_width is Some,
        exists|seen: Seq<WrapGlyph>, breaks: Seq<LineBreak>, n: int|
            {
                &&& stand_for(layout, seen)
                &&& 0 <= n <= seen.len()
                &&& forall|m: int|
                    0 <= m < n ==> #[trigger] is_read(layout, text, seen, m) && is_told(
                        is_word_char,
                        seen,
                        m,
                    )
                &&& #[trigger] fails_after(
                    layout,
                    text,
                    wrap_width->0,
                    max_lines,
                    seen,
                    breaks,
                    n,
                )
            },
{
    let wrap_width = wrap_width->0;
    let words = choose|words: Seq<bool>|
        {
            &&& #[trigger] crate::wrap::may_classify(
                is_word_char,
                layout@,
                text,
                words,
                wrap_width,
                max_lines,
            )
            &&& None::<Seq<WrapBoundary>> == crate::wrap::checked_boundaries_of(
                layout@,
                text,
                words,
                wrap_width,
                max_lines,
            )
        };
    let seen = crate::wrap::wrap_glyphs(layout@, text, words);
    let width = layout.width;
    let count = seen.len() as int;
    let all_breaks = crate::laws::wrapping::lemma_breaks(seen, width, wrap_width, count);
    let all = crate::wrap::all_boundaries(seen, width, wrap_width);
    assert(all.len() == all_breaks.len());
    lemma_stand_for(layout, text, words);
    if !crate::wrap::reads_text(layout@, text, words, wrap_width, max_lines) {
        let bad = choose|n: int|
            {
                &&& 0 <= n < count
                &&& crate::wrap::is_reached(seen, width, wrap_width, max_lines, n - 1)
                &&& !(#[trigger] crate::wrap::is_for_char(layout@, text, n))
            };
        let n = lemma_first_without_char(layout@, text, bad);
        let before = if n > 0 {
            n - 1
        } else {
            0
        };
        if bad > 0 {
            crate::laws::wrapping::lemma_reached(seen, width, wrap_width, max_lines, bad - 1);
        }
        assert(crate::wrap::is_reached(seen, width, wrap_width, max_lines, before)) by {
            if n == 0 {
                assert(crate::wrap::wrap_state(seen, width, wrap_width, 0).boundaries.len() == 0);
            }
        }
        let breaks = crate::laws::wrapping::lemma_breaks(seen, width, wrap_width, before);
        lemma_has_char(layout, text, n);
        lemma_seen(is_word_char, layout, text, words, wrap_width, max_lines, n);
        assert(fails_after(layout, text, wrap_width, max_lines, seen, breaks, n));
    } else {
        let last: int = if max_lines == Some(0usize) && all.len() > 0 {
            0
        } else {
            MAX_ITEMS as int
        };
        assert(last < all_breaks.len());
        assert(crate::laws::wrapping::is_break(seen, width, wrap_width, all_breaks, last));
        let n = all_breaks[last].full_at + 1;
        assert(0 < n <= count) by {
            if last > 0 {
                lemma_full_at_grows(seen, width, wrap_width, all_breaks, count, 0, last);
            }
            assert(crate::laws::wrapping::is_break(seen, width, wrap_width, all_breaks, 0));
        }
        let breaks = crate::laws::wrapping::lemma_breaks(seen, width, wrap_width, n);
        lemma_found_up_to(seen, width, wrap_width, all_breaks, n);
        let found = breaks.len() as int;
        assert(found == last + 1) by {
            if found <= last {
                if found < last {
                    lemma_full_at_grows(seen, width, wrap_width, all_breaks, count, found, last);
                }
            } else if found > last + 1 {
                assert(all_breaks[last + 1].full_at < n);
                lemma_full_at_grows(seen, width, wrap_width, all_breaks, count, last, last + 1);
            }
        }
        assert forall|m: int| 0 <= m < n implies {
            &&& #[trigger] crate::wrap::is_for_char(layout@, text, m)
            &&& crate::wrap::is_reached(seen, width, wrap_width, max_lines, m)
        } by {
            lemma_found_up_to(seen, width, wrap_width, all_breaks, m);
            assert(crate::wrap::is_reached(seen, width, wrap_width, max_lines, m));
            if m > 0 {
                lemma_found_up_to(seen, width, wrap_width, all_breaks, m - 1);
            } else {
                assert(crate::wrap::wrap_state(seen, width, wrap_width, -1).boundaries.len() == 0);
            }
            assert(crate::wrap::is_reached(seen, width, wrap_width, max_lines, m - 1));
        }
        lemma_seen(is_word_char, layout, text, words, wrap_width, max_lines, n);
        assert(fails_after(layout, text, wrap_width, max_lines, seen, breaks, n));
    }
}

/// Layouts with the same glyphs in the same places, of the same width, break in the same way,
/// whatever else they hold.
pub proof fn breaking_goes_by_glyphs_and_width<F: Fn(char) -> bool>(
    is_word_char: F,
    a: LayoutView,
    b: LayoutView,
    text: Seq<char>,
    wrap_width: Option<Pixels>,
    max_lines: Option<usize>,
    found: Option<Seq<WrapBoundary>>,
)
    requires
        a.runs == b.runs,
        a.width == b.width,
        crate::wrap::may_break(is_word_char, a, text, wrap_width, max_lines, found),
    ensures
        crate::wrap::may_break(is_word_char, b, text, wrap_width, max_lines, found),
{
    if let Some(wrap_width) = wrap_width {
        let words = choose|words: Seq<bool>|
            {
                &&& #[trigger] crate::wrap::may_classify(
                    is_word_char,
                    a,
                    text,
                    words,
                    wrap_width,
                    max_lines,
                )
                &&& found == crate::wrap::checked_boundaries_of(
                    a,
                    text,
                    words,
                    wrap_width,
                    max_lines,
                )
            };
        assert(crate::wrap::wrap_glyphs(a, text, words) =~= crate::wrap::wrap_glyphs(
            b,
            text,
            words,
        ));
        assert forall|n: int| #[trigger]
            crate::wrap::is_for_char(a, text, n) == crate::wrap::is_for_char(b, text, n) by {}
        assert(crate::wrap::may_classify(is_word_char, b, text, words, wrap_width, max_lines)) by {
            let glyphs = crate::wrap::wrap_glyphs(b, text, words);
            assert forall|n: int|
                0 <= n < words.len() && glyphs[n].ch != '\n' && crate::wrap::is_reached(
                    glyphs,
                    b.width,
                    wrap_width,
                    max_lines,
                    n,
                ) && (forall|m: int|
                    0 <= m <= n ==> #[trigger] crate::wrap::is_for_char(b, text, m)) implies
                call_ensures(is_word_char, (glyphs[n].ch,), #[trigger] words[n]) by {
                assert forall|m: int| 0 <= m <= n implies #[trigger] crate::wrap::is_for_char(
                    a,
                    text,
                    m,
                ) by {
                    assert(crate::wrap::is_for_char(b, text, m));
                }
            }
        }
        assert(crate::wrap::reads_text(a, text, words, wrap_width, max_lines)
            == crate::wrap::reads_text(b, text, words, wrap_width, max_lines)) by {
            if crate::wrap::reads_text(a, text, words, wrap_width, max_lines) {
                assert forall|n: int|
                    0 <= n < b.glyphs().len() && crate::wrap::is_reached(
                        crate::wrap::wrap_glyphs(b, text, words),
                        b.width,
                        wrap_width,
                        max_lines,
                        n - 1,
                    ) implies #[trigger] crate::wrap::is_for_char(b, text, n) by {
                    assert(crate::wrap::is_for_char(a, text, n));
                }
            }
            if crate::wrap::reads_text(b, text, words, wrap_width, max_lines) {
                assert forall|n: int|
                    0 <= n < a.glyphs().len() && crate::wrap::is_reached(
                        crate::wrap::wrap_glyphs(a, text, words),
                        a.width,
                        wrap_width,
                        max_lines,
                        n - 1,
                    ) implies #[trigger] crate::wrap::is_for_char(a, text, n) by {
                    assert(crate::wrap::is_for_char(b, text, n));
                }
            }
        }
    }
}

/// A line whose glyphs all end within the wrap width is not broken, and no line is without one.
pub proof fn layouts_that_fit_are_not_broken<F: Fn(char) -> bool>(
    is_word_char: F,
    layout: LineLayout,
    text: Seq<char>,
    wrap_width: Option<Pixels>,
    max_lines: Option<usize>,
    found: Seq<WrapBoundary>,
)
    requires
        crate::wrap::may_break(
            is_word_char,
            layout@,
            text,
            wrap_width,
            max_lines,
            Some(found),
        ),
        wrap_width is Some ==> {
            &&& layout.width.units <= (wrap_width->0).units
            &&& forall|n: int|
                0 < n < layout@.glyphs().len() ==> (
                #[trigger] layout@.glyphs()[n]).glyph.position.x.units <= (wrap_width->0).units
        },
    ensures
        found.len() == 0,
{
    if let Some(wrap_width) = wrap_width {
        layouts_break_by_their_places(is_word_char, layout, text, wrap_width, max_lines, found);
        let (seen, breaks) = choose|seen: Seq<WrapGlyph>, breaks: Seq<LineBreak>|
            #[trigger] are_found(
                is_word_char,
                layout,
                text,
                wrap_width,
                max_lines,
                found,
                seen,
                breaks,
            );
        if breaks.len() > 0 {
            assert(crate::laws::wrapping::is_break(seen, layout.width, wrap_width, breaks, 0));
            let n = breaks[0].full_at;
            if n + 1 < seen.len() {
                assert(seen[n + 1].x.units == layout@.glyphs()[n + 1].glyph.position.x.units);
            }
        }
    }
}

} // verus!
