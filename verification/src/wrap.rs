//! Finding the places at which a line breaks to fit a given width.

use crate::geometry::Pixels;
use crate::inline_lists::{WrapBoundaries, WrapBoundary, MAX_ITEMS};
use crate::layout::{LayoutView, LineLayout};
use vstd::prelude::*;

verus! {

/// A glyph as line breaking sees it.
#[derive(Clone, Copy, Debug)]
pub struct WrapGlyph {
    /// Which glyph it is.
    pub boundary: WrapBoundary,
    /// The character that it is drawn for.
    pub ch: char,
    /// Whether that character is part of a word.
    pub is_word: bool,
    /// Where it starts in the unwrapped line.
    pub x: Pixels,
}

/// How far line breaking has come.
pub struct WrapState {
    /// Whether something other than a space has been seen.
    pub seen_text: bool,
    /// The last place that a word could start a line with, and where it is, since the current
    /// line started.
    pub candidate: Option<(WrapBoundary, int)>,
    /// The glyph that the current line starts with.
    pub start: WrapBoundary,
    /// Where that glyph is.
    pub start_x: int,
    /// The character before.
    pub prev_ch: char,
    /// The boundaries found so far.
    pub boundaries: Seq<WrapBoundary>,
}

/// The character whose encoding starts at byte `index` of a text.
pub open spec fn char_at(text: Seq<char>, index: int) -> char {
    let bytes = vstd::utf8::encode_utf8(text);
    vstd::utf8::decode_utf8(bytes.subrange(index, bytes.len() as int))[0]
}

/// Whether a character of the text starts at byte `index`.
pub open spec fn is_char_start(text: Seq<char>, index: int) -> bool {
    let bytes = vstd::utf8::encode_utf8(text);
    0 <= index < bytes.len() && vstd::utf8::is_char_boundary(bytes, index)
}

/// The character that glyph `n` of a layout of a text is for.
pub open spec fn glyph_char(layout: LayoutView, text: Seq<char>, n: int) -> char {
    char_at(text, layout.glyphs()[n].glyph.index as int)
}

/// The glyphs of a layout as line breaking sees them, where `words` tells for each glyph
/// whether its character is part of a word.
pub open spec fn wrap_glyphs(layout: LayoutView, text: Seq<char>, words: Seq<bool>) -> Seq<
    WrapGlyph,
> {
    let glyphs = layout.glyphs();
    Seq::new(
        glyphs.len(),
        |n: int|
            WrapGlyph {
                boundary: WrapBoundary {
                    run_ix: glyphs[n].run_ix as usize,
                    glyph_ix: glyphs[n].glyph_ix as usize,
                },
                ch: glyph_char(layout, text, n),
                is_word: words[n],
                x: glyphs[n].glyph.position.x,
            },
    )
}

/// Where line breaking begins.
pub open spec fn wrap_start() -> WrapState {
    WrapState {
        seen_text: false,
        candidate: None,
        start: WrapBoundary { run_ix: 0, glyph_ix: 0 },
        start_x: 0,
        prev_ch: '\0',
        boundaries: Seq::empty(),
    }
}

/// One more glyph, which the next one follows at `next_x`. A line can break before a word that
/// follows a space and before any other character that is no space, but for the first of the
/// text. Where the glyph reaches past the wrap width, the line breaks at the last such place,
/// or before the glyph if there is none. Newlines are passed over.
pub open spec fn wrap_step(
    state: WrapState,
    glyph: WrapGlyph,
    next_x: int,
    wrap_width: int,
) -> WrapState {
    if glyph.ch == '\n' {
        state
    } else {
        let candidate = if state.seen_text && glyph.ch != ' ' && (state.prev_ch == ' '
            || !glyph.is_word) {
            Some((glyph.boundary, glyph.x@))
        } else {
            state.candidate
        };
        let seen_text = state.seen_text || glyph.ch != ' ';
        if next_x - state.start_x > wrap_width && glyph.boundary.is_after(state.start) {
            let (start, start_x) = match candidate {
                Some(place) => place,
                None => (glyph.boundary, glyph.x@),
            };
            WrapState {
                seen_text,
                candidate: None,
                start,
                start_x,
                prev_ch: glyph.ch,
                boundaries: state.boundaries.push(start),
            }
        } else {
            WrapState { seen_text, candidate, prev_ch: glyph.ch, ..state }
        }
    }
}

/// Where glyph `n + 1` starts; the width of the line after the last glyph.
pub open spec fn next_x(glyphs: Seq<WrapGlyph>, width: Pixels, n: int) -> int {
    if n + 1 < glyphs.len() {
        glyphs[n + 1].x@
    } else {
        width@
    }
}

/// How far line breaking is after the first `n` glyphs.
pub open spec fn wrap_state(
    glyphs: Seq<WrapGlyph>,
    width: Pixels,
    wrap_width: Pixels,
    n: int,
) -> WrapState
    decreases n,
{
    if n <= 0 {
        wrap_start()
    } else {
        wrap_step(
            wrap_state(glyphs, width, wrap_width, n - 1),
            glyphs[n - 1],
            next_x(glyphs, width, n - 1),
            wrap_width@,
        )
    }
}

/// All boundaries at which a line breaks to fit `wrap_width`.
pub open spec fn all_boundaries(
    glyphs: Seq<WrapGlyph>,
    width: Pixels,
    wrap_width: Pixels,
) -> Seq<WrapBoundary> {
    wrap_state(glyphs, width, wrap_width, glyphs.len() as int).boundaries
}

/// As many of the boundaries as leave at most `max_lines` lines.
pub open spec fn clamped(boundaries: Seq<WrapBoundary>, max_lines: Option<usize>) -> Seq<
    WrapBoundary,
> {
    match max_lines {
        Some(max_lines) if boundaries.len() >= max_lines => if max_lines == 0 {
            Seq::empty()
        } else {
            boundaries.take(max_lines - 1)
        },
        _ => boundaries,
    }
}

/// The boundaries of a layout of a text, where `words` tells for each glyph whether its
/// character is part of a word. Without a wrap width there are none.
pub open spec fn boundaries_of(
    layout: LayoutView,
    text: Seq<char>,
    words: Seq<bool>,
    wrap_width: Option<Pixels>,
    max_lines: Option<usize>,
) -> Seq<WrapBoundary> {
    match wrap_width {
        Some(wrap_width) => clamped(
            all_boundaries(wrap_glyphs(layout, text, words), layout.width, wrap_width),
            max_lines,
        ),
        None => Seq::empty(),
    }
}

/// Whether there are more boundaries than there may be: than leave at most `max_lines` lines,
/// where there may always be one, or than a list can hold.
pub open spec fn are_too_many(boundaries: Seq<WrapBoundary>, max_lines: Option<usize>) -> bool {
    ||| boundaries.len() > MAX_ITEMS
    ||| boundaries.len() > 0 && max_lines is Some && boundaries.len() >= max_lines->0
}

/// Whether line breaking goes on to glyph `n`: there are not too many boundaries up to there.
pub open spec fn is_reached(
    glyphs: Seq<WrapGlyph>,
    width: Pixels,
    wrap_width: Pixels,
    max_lines: Option<usize>,
    n: int,
) -> bool {
    !are_too_many(wrap_state(glyphs, width, wrap_width, n).boundaries, max_lines)
}

/// Whether the glyph numbered `n` of a layout is for a character of the text.
pub open spec fn is_for_char(layout: LayoutView, text: Seq<char>, n: int) -> bool {
    is_char_start(text, layout.glyphs()[n].glyph.index as int)
}

/// Whether `words` is what `is_word_char` may say of the characters of a layout's glyphs. It is
/// asked of the glyphs that line breaking goes on to, up to the first that is not for a
/// character of the text, but not of newlines.
pub open spec fn may_classify<F: Fn(char) -> bool>(
    is_word_char: F,
    layout: LayoutView,
    text: Seq<char>,
    words: Seq<bool>,
    wrap_width: Pixels,
    max_lines: Option<usize>,
) -> bool {
    let glyphs = wrap_glyphs(layout, text, words);
    &&& words.len() == glyphs.len()
    &&& forall|n: int|
        0 <= n < words.len() && glyphs[n].ch != '\n' && is_reached(
            glyphs,
            layout.width,
            wrap_width,
            max_lines,
            n,
        ) && (forall|m: int| 0 <= m <= n ==> #[trigger] is_for_char(layout, text, m))
            ==> call_ensures(is_word_char, (glyphs[n].ch,), #[trigger] words[n])
}

/// Whether each glyph whose character line breaking reads is for a character of the text. It
/// reads those of the glyphs that it goes on to, and of the one after.
pub open spec fn reads_text(
    layout: LayoutView,
    text: Seq<char>,
    words: Seq<bool>,
    wrap_width: Pixels,
    max_lines: Option<usize>,
) -> bool {
    let glyphs = wrap_glyphs(layout, text, words);
    forall|n: int|
        0 <= n < glyphs.len() && is_reached(glyphs, layout.width, wrap_width, max_lines, n - 1)
            ==> #[trigger] is_for_char(layout, text, n)
}

/// The boundaries of a layout of a text, where `words` tells for each glyph whether its
/// character is part of a word. There are none to be had if a glyph that is read is not for a
/// character of the text, if there may be no line at all but the text needs more than one, and
/// if there are more than a list can hold.
pub open spec fn checked_boundaries_of(
    layout: LayoutView,
    text: Seq<char>,
    words: Seq<bool>,
    wrap_width: Pixels,
    max_lines: Option<usize>,
) -> Option<Seq<WrapBoundary>> {
    if !reads_text(layout, text, words, wrap_width, max_lines) {
        None
    } else if max_lines == Some(0usize) && boundaries_of(
        layout,
        text,
        words,
        Some(wrap_width),
        None,
    ).len() > 0 {
        None
    } else if boundaries_of(layout, text, words, Some(wrap_width), max_lines).len() > MAX_ITEMS {
        None
    } else {
        Some(boundaries_of(layout, text, words, Some(wrap_width), max_lines))
    }
}

/// Whether wrapping a layout of a text may give these boundaries, or none to be had. Without a
/// wrap width they are no boundaries.
pub open spec fn may_break<F: Fn(char) -> bool>(
    is_word_char: F,
    layout: LayoutView,
    text: Seq<char>,
    wrap_width: Option<Pixels>,
    max_lines: Option<usize>,
    found: Option<Seq<WrapBoundary>>,
) -> bool {
    match wrap_width {
        None => found == Some(Seq::<WrapBoundary>::empty()),
        Some(wrap_width) => exists|words: Seq<bool>|
            {
                &&& #[trigger] may_classify(
                    is_word_char,
                    layout,
                    text,
                    words,
                    wrap_width,
                    max_lines,
                )
                &&& found == checked_boundaries_of(layout, text, words, wrap_width, max_lines)
            },
    }
}

/// Whether a layout of a text can be wrapped, whatever `is_word_char` may say.
pub open spec fn can_wrap<F: Fn(char) -> bool>(
    is_word_char: F,
    layout: LayoutView,
    text: Seq<char>,
    wrap_width: Option<Pixels>,
    max_lines: Option<usize>,
) -> bool {
    !may_break(is_word_char, layout, text, wrap_width, max_lines, None)
}

/// The boundaries found grow by one with each line.
pub proof fn lemma_boundaries_grow(
    glyphs: Seq<WrapGlyph>,
    width: Pixels,
    wrap_width: Pixels,
    n: int,
    m: int,
)
    requires
        0 <= n <= m,
    ensures
        ({
            let before = wrap_state(glyphs, width, wrap_width, n).boundaries;
            let after = wrap_state(glyphs, width, wrap_width, m).boundaries;
            &&& before.len() <= after.len() <= before.len() + (m - n)
            &&& after.take(before.len() as int) == before
        }),
    decreases m - n,
{
    let before = wrap_state(glyphs, width, wrap_width, n).boundaries;
    let after = wrap_state(glyphs, width, wrap_width, m).boundaries;
    if n < m {
        lemma_boundaries_grow(glyphs, width, wrap_width, n, m - 1);
        let mid = wrap_state(glyphs, width, wrap_width, m - 1).boundaries;
        assert(after.take(before.len() as int) =~= mid.take(before.len() as int));
    } else {
        assert(after.take(before.len() as int) =~= before);
    }
}

/// Each boundary found is one of the glyphs.
pub proof fn lemma_boundaries_are_glyphs(
    glyphs: Seq<WrapGlyph>,
    width: Pixels,
    wrap_width: Pixels,
    n: int,
)
    requires
        0 <= n <= glyphs.len(),
    ensures
        ({
            let state = wrap_state(glyphs, width, wrap_width, n);
            &&& forall|i: int|
                0 <= i < state.boundaries.len() ==> is_glyph_before(
                    glyphs,
                    n,
                    #[trigger] state.boundaries[i],
                )
            &&& state.candidate matches Some(place) ==> is_glyph_before(glyphs, n, place.0)
        }),
    decreases n,
{
    if n > 0 {
        lemma_boundaries_are_glyphs(glyphs, width, wrap_width, n - 1);
        let before = wrap_state(glyphs, width, wrap_width, n - 1);
        let state = wrap_state(glyphs, width, wrap_width, n);
        assert(is_glyph_before(glyphs, n, glyphs[n - 1].boundary));
        assert forall|boundary: WrapBoundary| is_glyph_before(glyphs, n - 1, boundary) implies
            #[trigger] is_glyph_before(glyphs, n, boundary) by {}
        assert forall|i: int| 0 <= i < state.boundaries.len() implies is_glyph_before(
            glyphs,
            n,
            #[trigger] state.boundaries[i],
        ) by {
            if i < before.boundaries.len() {
                assert(state.boundaries[i] == before.boundaries[i]);
                assert(is_glyph_before(glyphs, n - 1, before.boundaries[i]));
            }
        }
    }
}

/// Whether a boundary is at one of the first `n` glyphs.
pub open spec fn is_glyph_before(glyphs: Seq<WrapGlyph>, n: int, boundary: WrapBoundary) -> bool {
    exists|m: int| 0 <= m < n && (#[trigger] glyphs[m]).boundary == boundary
}

/// What is found up to a glyph goes by the glyphs before it and by where all glyphs are. Of
/// newlines it only matters that they are newlines.
pub proof fn lemma_state_of_prefix(
    a: Seq<WrapGlyph>,
    b: Seq<WrapGlyph>,
    width: Pixels,
    wrap_width: Pixels,
    n: int,
)
    requires
        a.len() == b.len(),
        n <= a.len(),
        forall|m: int|
            0 <= m < n ==> #[trigger] a[m] == b[m] || (a[m].ch == '\n' && b[m].ch == '\n'),
        forall|m: int| 0 <= m < a.len() ==> (#[trigger] a[m]).x == b[m].x,
    ensures
        wrap_state(a, width, wrap_width, n) == wrap_state(b, width, wrap_width, n),
    decreases n,
{
    if n > 0 {
        lemma_state_of_prefix(a, b, width, wrap_width, n - 1);
        assert(a[n - 1] == b[n - 1] || (a[n - 1].ch == '\n' && b[n - 1].ch == '\n'));
        if n < a.len() {
            assert(a[n].x == b[n].x);
        }
    }
}

/// How far line breaking has come, as it goes.
struct LineBreaker {
    seen_text: bool,
    candidate: Option<(WrapBoundary, Pixels)>,
    start: WrapBoundary,
    start_x: Pixels,
    prev_ch: char,
    boundaries: WrapBoundaries,
    found: usize,
}

impl View for LineBreaker {
    type V = WrapState;

    closed spec fn view(&self) -> WrapState {
        WrapState {
            seen_text: self.seen_text,
            candidate: match self.candidate {
                Some((boundary, x)) => Some((boundary, x@)),
                None => None,
            },
            start: self.start,
            start_x: self.start_x@,
            prev_ch: self.prev_ch,
            boundaries: self.boundaries@,
        }
    }
}

impl LineBreaker {
    spec fn wf(self) -> bool {
        self.found == self.boundaries@.len()
    }

    fn new() -> (breaker: LineBreaker)
        ensures
            breaker.wf(),
            breaker@ == wrap_start(),
    {
        LineBreaker {
            seen_text: false,
            candidate: None,
            start: WrapBoundary { run_ix: 0, glyph_ix: 0 },
            start_x: Pixels::zero(),
            prev_ch: '\0',
            boundaries: WrapBoundaries::new(),
            found: 0,
        }
    }

    /// Go past one more glyph, which the next one follows at `next_x`. Where that would make
    /// too many boundaries, stop.
    fn step(
        &mut self,
        glyph: WrapGlyph,
        next_x: Pixels,
        wrap_width: Pixels,
        max_lines: Option<usize>,
    ) -> (stopped: bool)
        requires
            old(self).wf(),
            !are_too_many(old(self)@.boundaries, max_lines),
        ensures
            final(self).wf(),
            ({
                let after = wrap_step(old(self)@, glyph, next_x@, wrap_width@);
                &&& stopped == are_too_many(after.boundaries, max_lines)
                &&& if stopped {
                    final(self)@.boundaries == old(self)@.boundaries
                } else {
                    final(self)@ == after
                }
            }),
    {
        if glyph.ch == '\n' {
            return false;
        }
        if self.seen_text && glyph.ch != ' ' && (self.prev_ch == ' ' || !glyph.is_word) {
            self.candidate = Some((glyph.boundary, glyph.x));
        }
        if glyph.ch != ' ' {
            self.seen_text = true;
        }
        let reach: i128 = next_x.units as i128 - self.start_x.units as i128;
        if reach > wrap_width.units as i128 && glyph.boundary.comes_after(&self.start) {
            if let Some(max_lines) = max_lines {
                if max_lines == 0 || self.found >= max_lines - 1 {
                    return true;
                }
            }
            if self.found >= MAX_ITEMS {
                return true;
            }
            match self.candidate {
                Some((boundary, x)) => {
                    self.start = boundary;
                    self.start_x = x;
                },
                None => {
                    self.start = glyph.boundary;
                    self.start_x = glyph.x;
                },
            }
            self.candidate = None;
            self.boundaries.push(self.start);
            self.found += 1;
        }
        self.prev_ch = glyph.ch;
        false
    }
}

/// Where breaking stops, it goes on to no glyph after, and the boundaries found are all that
/// there may be, unless these are more than a list can hold.
proof fn lemma_stopped(
    glyphs: Seq<WrapGlyph>,
    width: Pixels,
    wrap_width: Pixels,
    max_lines: Option<usize>,
    n: int,
)
    requires
        0 <= n < glyphs.len(),
        is_reached(glyphs, width, wrap_width, max_lines, n),
        !is_reached(glyphs, width, wrap_width, max_lines, n + 1),
    ensures
        ({
            let all = all_boundaries(glyphs, width, wrap_width);
            let found = wrap_state(glyphs, width, wrap_width, n).boundaries;
            &&& all.len() > 0
            &&& if max_lines is Some && found.len() + 1 >= max_lines->0 {
                clamped(all, max_lines) == found && found.len() <= MAX_ITEMS
            } else {
                clamped(all, max_lines).len() > MAX_ITEMS
            }
        }),
        forall|m: int|
            n < m <= glyphs.len() ==> !#[trigger] is_reached(
                glyphs,
                width,
                wrap_width,
                max_lines,
                m,
            ),
{
    let before = wrap_state(glyphs, width, wrap_width, n).boundaries;
    let all = all_boundaries(glyphs, width, wrap_width);
    lemma_boundaries_grow(glyphs, width, wrap_width, n, n + 1);
    lemma_boundaries_grow(glyphs, width, wrap_width, n + 1, glyphs.len() as int);
    lemma_boundaries_grow(glyphs, width, wrap_width, n, glyphs.len() as int);
    if max_lines is Some && before.len() + 1 >= max_lines->0 {
        assert(clamped(all, max_lines) =~= before);
    }
    assert forall|m: int| n < m <= glyphs.len() implies !#[trigger] is_reached(
        glyphs,
        width,
        wrap_width,
        max_lines,
        m,
    ) by {
        lemma_boundaries_grow(glyphs, width, wrap_width, n + 1, m);
    }
}

/// The character whose encoding starts at byte `index` of the text.
fn read_char(text: &str, index: usize) -> (ch: char)
    requires
        is_char_start(text@, index as int),
    ensures
        ch == char_at(text@, index as int),
{
    let (_, rest) = text.split_at(index);
    proof {
        vstd::utf8::encode_utf8_decode_utf8(rest@);
        assert(rest@.len() > 0) by {
            if rest@.len() == 0 {
                assert(vstd::utf8::encode_utf8(rest@).len() == 0);
            }
        }
    }
    let mut chars = rest.chars();
    let ch = chars.next();
    ch.unwrap()
}

/// Whether a character of the text starts at byte `index`.
fn starts_char(text: &str, index: usize) -> (starts: bool)
    ensures
        starts == is_char_start(text@, index as int),
{
    index < text.as_bytes().len() && text.is_char_boundary(index)
}

/// Whether `words` is what `is_word_char` may say of the first `n` characters, where they are
/// not newlines.
spec fn classifies<F: Fn(char) -> bool>(
    is_word_char: F,
    layout: LayoutView,
    text: Seq<char>,
    words: Seq<bool>,
    n: int,
) -> bool {
    forall|m: int|
        0 <= m < n && glyph_char(layout, text, m) != '\n' ==> call_ensures(
            is_word_char,
            (glyph_char(layout, text, m),),
            #[trigger] words[m],
        )
}

/// Nothing is asked of the glyphs from `n` on if glyph `n` is not for a character or breaking
/// does not go on to any of them.
proof fn lemma_may_classify<F: Fn(char) -> bool>(
    is_word_char: F,
    layout: LayoutView,
    text: Seq<char>,
    words: Seq<bool>,
    wrap_width: Pixels,
    max_lines: Option<usize>,
    n: int,
)
    requires
        words.len() == layout.glyphs().len(),
        classifies(is_word_char, layout, text, words, n),
        0 <= n,
        n < words.len() ==> !is_for_char(layout, text, n) || forall|m: int|
            n <= m < words.len() ==> !#[trigger] is_reached(
                wrap_glyphs(layout, text, words),
                layout.width,
                wrap_width,
                max_lines,
                m,
            ),
    ensures
        may_classify(is_word_char, layout, text, words, wrap_width, max_lines),
{
    let glyphs = wrap_glyphs(layout, text, words);
    assert forall|m: int|
        0 <= m < words.len() && glyphs[m].ch != '\n' && is_reached(
            glyphs,
            layout.width,
            wrap_width,
            max_lines,
            m,
        ) && (forall|k: int| 0 <= k <= m ==> #[trigger] is_for_char(layout, text, k)) implies
        call_ensures(is_word_char, (glyphs[m].ch,), #[trigger] words[m]) by {
        if m >= n {
            assert(is_for_char(layout, text, n));
        }
    }
}

/// Where a glyph that is read is not for a character, there are no boundaries to be had.
proof fn lemma_misread<F: Fn(char) -> bool>(
    is_word_char: F,
    layout: LayoutView,
    text: Seq<char>,
    words: Seq<bool>,
    wrap_width: Pixels,
    max_lines: Option<usize>,
    n: int,
)
    requires
        words.len() == layout.glyphs().len(),
        classifies(is_word_char, layout, text, words, n),
        0 <= n < words.len(),
        !is_for_char(layout, text, n),
        is_reached(
            wrap_glyphs(layout, text, words),
            layout.width,
            wrap_width,
            max_lines,
            n - 1,
        ),
    ensures
        may_break(is_word_char, layout, text, Some(wrap_width), max_lines, None),
{
    lemma_may_classify(is_word_char, layout, text, words, wrap_width, max_lines, n);
    assert(!reads_text(layout, text, words, wrap_width, max_lines));
}

/// What is found where breaking stops at glyph `n`.
proof fn lemma_stops<F: Fn(char) -> bool>(
    is_word_char: F,
    layout: LayoutView,
    text: Seq<char>,
    words: Seq<bool>,
    wrap_width: Pixels,
    max_lines: Option<usize>,
    n: int,
)
    requires
        words.len() == layout.glyphs().len(),
        classifies(is_word_char, layout, text, words, n + 1),
        0 <= n < words.len(),
        forall|m: int|
            0 <= m <= n + 1 && m < words.len() ==> #[trigger] is_for_char(layout, text, m),
        is_reached(wrap_glyphs(layout, text, words), layout.width, wrap_width, max_lines, n),
        !is_reached(
            wrap_glyphs(layout, text, words),
            layout.width,
            wrap_width,
            max_lines,
            n + 1,
        ),
    ensures
        ({
            let found = wrap_state(
                wrap_glyphs(layout, text, words),
                layout.width,
                wrap_width,
                n,
            ).boundaries;
            may_break(
                is_word_char,
                layout,
                text,
                Some(wrap_width),
                max_lines,
                if max_lines is Some && max_lines->0 > 0 && found.len() + 1 >= max_lines->0 {
                    Some(found)
                } else {
                    None
                },
            )
        }),
{
    let glyphs = wrap_glyphs(layout, text, words);
    lemma_stopped(glyphs, layout.width, wrap_width, max_lines, n);
    lemma_may_classify(is_word_char, layout, text, words, wrap_width, max_lines, n + 1);
    assert forall|m: int|
        0 <= m < glyphs.len() && is_reached(
            glyphs,
            layout.width,
            wrap_width,
            max_lines,
            m - 1,
        ) implies #[trigger] is_for_char(layout, text, m) by {
        if m > n + 1 {
            assert(!is_reached(glyphs, layout.width, wrap_width, max_lines, m - 1));
        }
    }
    assert(reads_text(layout, text, words, wrap_width, max_lines));
}

/// What is found where breaking goes past all glyphs.
proof fn lemma_finishes<F: Fn(char) -> bool>(
    is_word_char: F,
    layout: LayoutView,
    text: Seq<char>,
    words: Seq<bool>,
    wrap_width: Pixels,
    max_lines: Option<usize>,
)
    requires
        words.len() == layout.glyphs().len(),
        classifies(is_word_char, layout, text, words, words.len() as int),
        forall|m: int| 0 <= m < words.len() ==> #[trigger] is_for_char(layout, text, m),
        is_reached(
            wrap_glyphs(layout, text, words),
            layout.width,
            wrap_width,
            max_lines,
            words.len() as int,
        ),
    ensures
        may_break(
            is_word_char,
            layout,
            text,
            Some(wrap_width),
            max_lines,
            Some(
                wrap_state(
                    wrap_glyphs(layout, text, words),
                    layout.width,
                    wrap_width,
                    words.len() as int,
                ).boundaries,
            ),
        ),
{
    let glyphs = wrap_glyphs(layout, text, words);
    let all = all_boundaries(glyphs, layout.width, wrap_width);
    lemma_may_classify(
        is_word_char,
        layout,
        text,
        words,
        wrap_width,
        max_lines,
        words.len() as int,
    );
    assert(reads_text(layout, text, words, wrap_width, max_lines));
    assert(clamped(all, max_lines) =~= all);
}

impl LineLayout {
    /// The place of the first glyph that is in the given run at or after `glyph_ix`, or in a
    /// later run.
    fn glyph_from(&self, run_ix: usize, glyph_ix: usize) -> (place: Option<(usize, usize)>)
        requires
            run_ix <= self.runs@.len(),
            glyph_ix <= (if run_ix < self.runs@.len() {
                self.runs@[run_ix as int].glyphs@.len()
            } else {
                0
            }),
        ensures
            ({
                let n = crate::layout::glyphs_before(self@.runs, run_ix as int) + glyph_ix;
                match place {
                    Some((run_ix, glyph_ix)) => {
                        &&& run_ix < self.runs@.len()
                        &&& glyph_ix < self.runs@[run_ix as int].glyphs@.len()
                        &&& n == crate::layout::glyphs_before(self@.runs, run_ix as int) + glyph_ix
                    },
                    None => n == self@.glyphs().len(),
                }
            }),
    {
        let ghost runs = self@.runs;
        let mut run: usize = run_ix;
        let mut glyph: usize = glyph_ix;
        while run < self.runs.len()
            invariant
                runs == self@.runs,
                run <= runs.len(),
                glyph <= (if run < runs.len() {
                    runs[run as int].glyphs.len()
                } else {
                    0
                }),
                crate::layout::glyphs_before(runs, run_ix as int) + glyph_ix
                    == crate::layout::glyphs_before(runs, run as int) + glyph,
            decreases runs.len() - run,
        {
            assert(runs[run as int].glyphs == self.runs@[run as int].glyphs@);
            if glyph < self.runs[run].glyphs.len() {
                return Some((run, glyph));
            }
            run += 1;
            glyph = 0;
        }
        proof {
            crate::layout::lemma_placed_glyphs(runs);
        }
        None
    }

    /// The boundaries at which this layout of `text` breaks to fit `wrap_width` in at most
    /// `max_lines` lines. `is_word_char` tells which characters stay together in a word.
    ///
    /// Breaking reads the characters of the glyphs up to where the lines are full. The result
    /// is `None` if one of these glyphs is not for a character of the text, if there may be no
    /// line at all but the text needs more than one, and if there are more boundaries than a
    /// list can hold.
    pub fn checked_compute_wrap_boundaries<F: Fn(char) -> bool>(
        &self,
        text: &str,
        wrap_width: Pixels,
        max_lines: Option<usize>,
        is_word_char: &F,
    ) -> (found: Option<WrapBoundaries>)
        requires
            forall|ch: char| call_requires(*is_word_char, (ch,)),
        ensures
            may_break(
                *is_word_char,
                self@,
                text@,
                Some(wrap_width),
                max_lines,
                match found {
                    Some(found) => Some(found@),
                    None => None,
                },
            ),
    {
        let ghost layout = self@;
        let ghost placed = layout.glyphs();
        let ghost mut words: Seq<bool> = Seq::new(placed.len(), |n: int| false);
        let ghost mut n: int = 0;
        proof {
            crate::layout::lemma_placed_glyphs(layout.runs);
        }
        let mut breaker = LineBreaker::new();
        let mut place = self.glyph_from(0, 0);
        if let Some((run_ix, glyph_ix)) = place {
            let index: usize = self.runs[run_ix].glyphs[glyph_ix].index;
            assert(layout.runs[run_ix as int].glyphs[glyph_ix as int].index == index);
            if !starts_char(text, index) {
                proof {
                    lemma_misread(
                        *is_word_char,
                        layout,
                        text@,
                        words,
                        wrap_width,
                        max_lines,
                        0,
                    );
                }
                return None;
            }
            assert(is_for_char(layout, text@, 0));
        }
        loop
            invariant
                layout == self@,
                placed == layout.glyphs(),
                0 <= n <= placed.len(),
                match place {
                    Some((run_ix, glyph_ix)) => {
                        &&& n < placed.len()
                        &&& run_ix < self.runs@.len()
                        &&& glyph_ix < self.runs@[run_ix as int].glyphs@.len()
                        &&& n == crate::layout::glyphs_before(layout.runs, run_ix as int)
                            + glyph_ix
                    },
                    None => n == placed.len(),
                },
                forall|ch: char| call_requires(*is_word_char, (ch,)),
                words.len() == placed.len(),
                forall|m: int|
                    0 <= m <= n && m < placed.len() ==> #[trigger] is_for_char(layout, text@, m),
                classifies(*is_word_char, layout, text@, words, n),
                breaker.wf(),
                breaker@ == wrap_state(
                    wrap_glyphs(layout, text@, words),
                    layout.width,
                    wrap_width,
                    n,
                ),
                is_reached(
                    wrap_glyphs(layout, text@, words),
                    layout.width,
                    wrap_width,
                    max_lines,
                    n,
                ),
            decreases placed.len() - n,
        {
            let (run_ix, glyph_ix) = match place {
                Some(place) => place,
                None => {
                    proof {
                        lemma_finishes(*is_word_char, layout, text@, words, wrap_width, max_lines);
                    }
                    return Some(breaker.boundaries);
                },
            };
            let shaped = &self.runs[run_ix].glyphs[glyph_ix];
            proof {
                crate::layout::lemma_placed_glyphs(layout.runs);
                assert(layout.runs[run_ix as int].glyphs[glyph_ix as int] == *shaped);
                assert(placed[n].glyph == *shaped);
                assert(is_for_char(layout, text@, n));
            }
            let ch = read_char(text, shaped.index);
            let mut is_word = false;
            if ch != '\n' {
                is_word = is_word_char(ch);
            }
            let ghost before = wrap_glyphs(layout, text@, words);
            proof {
                words = words.update(n, is_word);
            }
            let ghost glyphs = wrap_glyphs(layout, text@, words);
            let glyph = WrapGlyph {
                boundary: WrapBoundary { run_ix, glyph_ix },
                ch,
                is_word,
                x: shaped.position.x,
            };
            proof {
                assert(glyphs[n] == glyph);
                lemma_state_of_prefix(before, glyphs, layout.width, wrap_width, n);
            }
            assert(self.runs@[run_ix as int].glyphs.len() > glyph_ix);
            place = self.glyph_from(run_ix, glyph_ix + 1);
            let mut next_x = self.width;
            if let Some((next_run_ix, next_glyph_ix)) = place {
                let next = &self.runs[next_run_ix].glyphs[next_glyph_ix];
                proof {
                    assert(layout.runs[next_run_ix as int].glyphs[next_glyph_ix as int] == *next);
                    assert(placed[n + 1].glyph == *next);
                }
                if !starts_char(text, next.index) {
                    proof {
                        lemma_misread(
                            *is_word_char,
                            layout,
                            text@,
                            words,
                            wrap_width,
                            max_lines,
                            n + 1,
                        );
                    }
                    return None;
                }
                assert(is_for_char(layout, text@, n + 1));
                next_x = next.position.x;
            }
            if breaker.step(glyph, next_x, wrap_width, max_lines) {
                proof {
                    lemma_stops(*is_word_char, layout, text@, words, wrap_width, max_lines, n);
                }
                if let Some(max_lines) = max_lines {
                    if max_lines > 0 && breaker.found >= max_lines - 1 {
                        return Some(breaker.boundaries);
                    }
                }
                return None;
            }
            proof {
                n = n + 1;
            }
        }
    }

    /// The boundaries at which this layout of `text` breaks to fit `wrap_width` in at most
    /// `max_lines` lines. `is_word_char` tells which characters stay together in a word.
    pub fn compute_wrap_boundaries<F: Fn(char) -> bool>(
        &self,
        text: &str,
        wrap_width: Pixels,
        max_lines: Option<usize>,
        is_word_char: &F,
    ) -> (found: WrapBoundaries)
        requires
            forall|ch: char| call_requires(*is_word_char, (ch,)),
            can_wrap(*is_word_char, self@, text@, Some(wrap_width), max_lines),
        ensures
            may_break(
                *is_word_char,
                self@,
                text@,
                Some(wrap_width),
                max_lines,
                Some(found@),
            ),
    {
        self.checked_compute_wrap_boundaries(text, wrap_width, max_lines, is_word_char).unwrap()
    }
}

} // verus!
