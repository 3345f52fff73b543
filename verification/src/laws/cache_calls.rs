//! What holds of calls on a cache, told by what they are given and what they give.

use crate::cache::{CacheView, LineLayoutCache, LineLayoutIndex, PlatformTextSystem};
use crate::geometry::Pixels;
use crate::inline_lists::FontRun;
use crate::keys::{HashedLineKey, LineKey};
use crate::layout::LineLayout;
use crate::snap::{OptionsView, ShapeLineOptions, SnapModeView};
use crate::wrapped::WrappedLineLayout;
use std::ops::Range;
use std::sync::Arc;
use vstd::prelude::*;

verus! {

/// The options that a line is cached under: all of them if they force a width, and otherwise no
/// width, a tolerance of one pixel, and columns by glyphs.
pub open spec fn kept_options(opts: ShapeLineOptions) -> OptionsView {
    if opts.force_width is Some {
        OptionsView {
            force_width: opts.force_width,
            snap_tolerance: opts.snap_tolerance,
            snap_mode: opts.snap_mode@,
        }
    } else {
        OptionsView {
            force_width: None,
            snap_tolerance: Pixels { units: 0x1_0000_0000 },
            snap_mode: SnapModeView::GlyphIndex,
        }
    }
}

/// What a line is cached under.
pub open spec fn key_of(
    text: Seq<char>,
    font_size: Pixels,
    runs: Seq<FontRun>,
    wrap_width: Option<Pixels>,
    opts: ShapeLineOptions,
) -> LineKey {
    LineKey { text, font_size, runs, wrap_width, options: kept_options(opts) }
}

/// What a line is cached under by the hash of its text.
pub open spec fn hashed_key_of(
    text_hash: u64,
    text_len: usize,
    font_size: Pixels,
    runs: Seq<FontRun>,
    opts: ShapeLineOptions,
) -> HashedLineKey {
    HashedLineKey {
        text_hash,
        text_len,
        font_size,
        runs,
        wrap_width: None,
        options: kept_options(opts),
    }
}

/// Whether a cache gave out a line and became another: the line is what the options passed make
/// of an answer of the text system to the very text, font size and font runs passed, and the
/// cache has it from now on under just these.
pub open spec fn gave_line<P: PlatformTextSystem>(
    platform: P,
    before: CacheView,
    text: Seq<char>,
    font_size: Pixels,
    runs: Seq<FontRun>,
    opts: ShapeLineOptions,
    layout: LineLayout,
    after: CacheView,
) -> bool {
    &&& crate::laws::asking::is_answered(platform, text, font_size, runs, opts, layout)
    &&& crate::laws::asking::brings_a_line(
        before,
        key_of(text, font_size, runs, None, opts),
        layout,
        after,
    )
}

/// Whether options ask for a grid that an answer of the text system to this text, font size and
/// font runs may not fit.
pub open spec fn may_not_fit<P: PlatformTextSystem>(
    platform: P,
    text: Seq<char>,
    font_size: Pixels,
    runs: Seq<FontRun>,
    opts: ShapeLineOptions,
) -> bool {
    &&& opts.force_width is Some
    &&& exists|text_ref: &str, runs_ref: &[FontRun], raw: LineLayout|
        {
            &&& text_ref@ == text
            &&& runs_ref@ == runs
            &&& #[trigger] call_ensures(
                P::layout_line,
                (&platform, text_ref, font_size, runs_ref),
                raw,
            )
            &&& !crate::laws::calls::fits(
                raw,
                opts.snap_mode,
                vstd::utf8::encode_utf8(text).len() as int,
            )
        }
}

proof fn lemma_gave_line<P: PlatformTextSystem>(
    platform: P,
    before: CacheView,
    text: Seq<char>,
    font_size: Pixels,
    runs: Seq<FontRun>,
    opts: ShapeLineOptions,
    layout: LineLayout,
    after: CacheView,
)
    requires
        crate::cache::gives_line(
            platform,
            before,
            LineKey::of_line(text, font_size, runs, opts@.normalized()),
            layout,
            after,
        ),
    ensures
        gave_line(platform, before, text, font_size, runs, opts, layout, after),
{
    let key = LineKey::of_line(text, font_size, runs, opts@.normalized());
    crate::laws::snapping::options_with_a_grid_are_kept(opts);
    assert(key == key_of(text, font_size, runs, None, opts));
    crate::laws::asking::lines_are_laid_out_as_asked(
        platform,
        before,
        text,
        font_size,
        runs,
        opts,
        layout,
        after,
    );
    crate::laws::asking::asking_brings_a_line(platform, before, key, layout, after);
}

/// A cache that is asked for a line gives out what was asked for, or, if it was asked to check,
/// nothing: then it has no such line, an answer of the text system may not fit the grid, and the
/// cache stays as it was.
pub proof fn lines_are_given<P: PlatformTextSystem>(
    text: &str,
    font_size: Pixels,
    runs: &[FontRun],
    opts: ShapeLineOptions,
)
    ensures
        forall|cache: &mut LineLayoutCache<P>, layout: Arc<LineLayout>| #[trigger]
            call_ensures(
                LineLayoutCache::<P>::layout_line_with,
                (cache, text, font_size, runs, opts),
                layout,
            ) ==> {
                &&& final(cache).platform() == cache.platform()
                &&& gave_line(
                    cache.platform(),
                    cache@,
                    text@,
                    font_size,
                    runs@,
                    opts,
                    *layout,
                    final(cache)@,
                )
            },
        forall|cache: &mut LineLayoutCache<P>, layout: Option<Arc<LineLayout>>| #[trigger]
            call_ensures(
                LineLayoutCache::<P>::checked_layout_line_with,
                (cache, text, font_size, runs, opts),
                layout,
            ) ==> {
                &&& final(cache).platform() == cache.platform()
                &&& match layout {
                    Some(layout) => gave_line(
                        cache.platform(),
                        cache@,
                        text@,
                        font_size,
                        runs@,
                        opts,
                        *layout,
                        final(cache)@,
                    ),
                    None => {
                        let key = key_of(text@, font_size, runs@, None, opts);
                        &&& final(cache)@ == cache@
                        &&& !cache@.current.lines.layouts.contains_key(key)
                        &&& !cache@.previous.lines.layouts.contains_key(key)
                        &&& may_not_fit(cache.platform(), text@, font_size, runs@, opts)
                    },
                }
            },
{
    assert forall|cache: &mut LineLayoutCache<P>, layout: Arc<LineLayout>| #[trigger]
        call_ensures(
            LineLayoutCache::<P>::layout_line_with,
            (cache, text, font_size, runs, opts),
            layout,
        ) implies {
        &&& final(cache).platform() == cache.platform()
        &&& gave_line(
            cache.platform(),
            cache@,
            text@,
            font_size,
            runs@,
            opts,
            *layout,
            final(cache)@,
        )
    } by {
        lemma_gave_line(
            cache.platform(),
            cache@,
            text@,
            font_size,
            runs@,
            opts,
            *layout,
            final(cache)@,
        );
    }
    assert forall|cache: &mut LineLayoutCache<P>, layout: Option<Arc<LineLayout>>| #[trigger]
        call_ensures(
            LineLayoutCache::<P>::checked_layout_line_with,
            (cache, text, font_size, runs, opts),
            layout,
        ) implies {
        &&& final(cache).platform() == cache.platform()
        &&& match layout {
            Some(layout) => gave_line(
                cache.platform(),
                cache@,
                text@,
                font_size,
                runs@,
                opts,
                *layout,
                final(cache)@,
            ),
            None => {
                let key = key_of(text@, font_size, runs@, None, opts);
                &&& final(cache)@ == cache@
                &&& !cache@.current.lines.layouts.contains_key(key)
                &&& !cache@.previous.lines.layouts.contains_key(key)
                &&& may_not_fit(cache.platform(), text@, font_size, runs@, opts)
            },
        }
    } by {
        match layout {
            Some(layout) => {
                lemma_gave_line(
                    cache.platform(),
                    cache@,
                    text@,
                    font_size,
                    runs@,
                    opts,
                    *layout,
                    final(cache)@,
                );
            },
            None => {
                crate::laws::snapping::options_with_a_grid_are_kept(opts);
                assert(LineKey::of_line(text@, font_size, runs@, opts@.normalized()) == key_of(
                    text@,
                    font_size,
                    runs@,
                    None,
                    opts,
                ));
                crate::laws::asking::lines_are_refused_for_what_is_given(
                    cache.platform(),
                    text@,
                    font_size,
                    runs@,
                    opts,
                );
            },
        }
    }
}

/// A cache that is asked for a line with a forced width alone gives out what this width, a
/// tolerance of one pixel and columns by glyphs make of it.
pub proof fn plain_lines_are_given<P: PlatformTextSystem>(
    text: &str,
    font_size: Pixels,
    runs: &[FontRun],
    force_width: Option<Pixels>,
    opts: ShapeLineOptions,
)
    requires
        opts.force_width == force_width,
        opts.snap_tolerance.units == 0x1_0000_0000,
        opts.snap_mode is GlyphIndex,
    ensures
        forall|cache: &mut LineLayoutCache<P>, layout: Arc<LineLayout>| #[trigger]
            call_ensures(
                LineLayoutCache::<P>::layout_line,
                (cache, text, font_size, runs, force_width),
                layout,
            ) ==> {
                &&& final(cache).platform() == cache.platform()
                &&& gave_line(
                    cache.platform(),
                    cache@,
                    text@,
                    font_size,
                    runs@,
                    opts,
                    *layout,
                    final(cache)@,
                )
            },
{
    assert(opts@.snap_mode == SnapModeView::GlyphIndex);
    assert(opts@.normalized() == OptionsView::plain(force_width));
    assert forall|cache: &mut LineLayoutCache<P>, layout: Arc<LineLayout>| #[trigger]
        call_ensures(
            LineLayoutCache::<P>::layout_line,
            (cache, text, font_size, runs, force_width),
            layout,
        ) implies {
        &&& final(cache).platform() == cache.platform()
        &&& gave_line(
            cache.platform(),
            cache@,
            text@,
            font_size,
            runs@,
            opts,
            *layout,
            final(cache)@,
        )
    } by {
        lemma_gave_line(
            cache.platform(),
            cache@,
            text@,
            font_size,
            runs@,
            opts,
            *layout,
            final(cache)@,
        );
    }
}

/// Whether a cache gave out a wrapped line and became another: the wrapped line has the wrap
/// width passed, its unwrapped line is an answer of the text system to the very text, font size
/// and font runs passed, and the cache has it from now on under just these. If the cache did not
/// have it, it breaks where that line does.
pub open spec fn gave_wrapped_line<P: PlatformTextSystem, F: Fn(char) -> bool>(
    platform: P,
    before: CacheView,
    text: Seq<char>,
    font_size: Pixels,
    runs: Seq<FontRun>,
    wrap_width: Option<Pixels>,
    max_lines: Option<usize>,
    is_word_char: F,
    opts: ShapeLineOptions,
    wrapped: WrappedLineLayout,
    after: CacheView,
) -> bool {
    let key = key_of(text, font_size, runs, wrap_width, opts);
    &&& crate::laws::asking::is_answered(
        platform,
        text,
        font_size,
        runs,
        opts,
        *wrapped.unwrapped_layout,
    )
    &&& wrapped.wrap_width == wrap_width
    &&& crate::laws::places::has_its_glyphs(wrapped)
    &&& crate::laws::asking::brings_a_wrapped_line(before, key, wrapped, after)
    &&& !before.current.wrapped_lines.layouts.contains_key(key)
        && !before.previous.wrapped_lines.layouts.contains_key(key)
        ==> crate::laws::calls::are_boundaries_of(
        is_word_char,
        *wrapped.unwrapped_layout,
        text,
        wrap_width,
        max_lines,
        wrapped.wrap_boundaries@,
    )
}

/// Whether a cache gave out no wrapped line and became another: it had none, and the unwrapped
/// line, which it has from now on, cannot be broken.
pub open spec fn gave_no_wrapped_line<P: PlatformTextSystem, F: Fn(char) -> bool>(
    platform: P,
    before: CacheView,
    text: Seq<char>,
    font_size: Pixels,
    runs: Seq<FontRun>,
    wrap_width: Option<Pixels>,
    max_lines: Option<usize>,
    is_word_char: F,
    opts: ShapeLineOptions,
    after: CacheView,
) -> bool {
    let key = key_of(text, font_size, runs, wrap_width, opts);
    &&& !before.current.wrapped_lines.layouts.contains_key(key)
    &&& !before.previous.wrapped_lines.layouts.contains_key(key)
    &&& exists|layout: LineLayout|
        {
            &&& #[trigger] gave_line(
                platform,
                before,
                text,
                font_size,
                runs,
                opts,
                layout,
                after,
            )
            &&& crate::laws::calls::cannot_be_broken(
                is_word_char,
                layout,
                text,
                wrap_width,
                max_lines,
            )
        }
}

proof fn lemma_gave_wrapped_line<P: PlatformTextSystem, F: Fn(char) -> bool>(
    platform: P,
    before: CacheView,
    text: Seq<char>,
    font_size: Pixels,
    runs: Seq<FontRun>,
    wrap_width: Option<Pixels>,
    max_lines: Option<usize>,
    is_word_char: F,
    opts: ShapeLineOptions,
    wrapped: WrappedLineLayout,
    after: CacheView,
)
    requires
        opts.force_width is None,
        crate::cache::gives_wrapped_line(
            platform,
            before,
            LineKey::of_wrapped_line(text, font_size, runs, wrap_width),
            max_lines,
            is_word_char,
            wrapped,
            after,
        ),
    ensures
        gave_wrapped_line(
            platform,
            before,
            text,
            font_size,
            runs,
            wrap_width,
            max_lines,
            is_word_char,
            opts,
            wrapped,
            after,
        ),
{
    let key = LineKey::of_wrapped_line(text, font_size, runs, wrap_width);
    assert(key == key_of(text, font_size, runs, wrap_width, opts));
    crate::laws::asking::wrapped_lines_are_laid_out_as_asked(
        platform,
        before,
        text,
        font_size,
        runs,
        wrap_width,
        max_lines,
        is_word_char,
        opts,
        wrapped,
        after,
    );
    crate::laws::asking::asking_brings_a_wrapped_line(
        platform,
        before,
        key,
        max_lines,
        is_word_char,
        wrapped,
        after,
    );
    if before.wrapped_line(key) is None && wrap_width is Some {
        let layout = &*wrapped.unwrapped_layout;
        crate::laws::breaking::layouts_break_by_their_places(
            is_word_char,
            *layout,
            text,
            wrap_width->0,
            max_lines,
            wrapped.wrap_boundaries@,
        );
    }
}

proof fn lemma_gave_no_wrapped_line<P: PlatformTextSystem, F: Fn(char) -> bool>(
    platform: P,
    before: CacheView,
    text: Seq<char>,
    font_size: Pixels,
    runs: Seq<FontRun>,
    wrap_width: Option<Pixels>,
    max_lines: Option<usize>,
    is_word_char: F,
    opts: ShapeLineOptions,
    layout: LineLayout,
    after: CacheView,
)
    requires
        opts.force_width is None,
        before.wrapped_line(LineKey::of_wrapped_line(text, font_size, runs, wrap_width)) is None,
        crate::cache::gives_line(
            platform,
            before,
            LineKey::of_wrapped_line(text, font_size, runs, wrap_width).unwrapped(),
            layout,
            after,
        ),
        crate::wrap::may_break(is_word_char, layout@, text, wrap_width, max_lines, None),
    ensures
        gave_no_wrapped_line(
            platform,
            before,
            text,
            font_size,
            runs,
            wrap_width,
            max_lines,
            is_word_char,
            opts,
            after,
        ),
{
    let key = LineKey::of_wrapped_line(text, font_size, runs, wrap_width);
    assert(key == key_of(text, font_size, runs, wrap_width, opts));
    assert(key.unwrapped() == LineKey::of_line(text, font_size, runs, opts@.normalized()));
    lemma_gave_line(platform, before, text, font_size, runs, opts, layout, after);
    crate::laws::breaking::layouts_break_unless_they_cannot(
        is_word_char,
        layout,
        text,
        wrap_width,
        max_lines,
    );
}

/// A cache that is asked for a wrapped line gives out what was asked for, or, if it was asked to
/// check, nothing if the line cannot be broken.
pub proof fn wrapped_lines_are_given<P: PlatformTextSystem, F: Fn(char) -> bool>(
    text: &str,
    font_size: Pixels,
    runs: &[FontRun],
    wrap_width: Option<Pixels>,
    max_lines: Option<usize>,
    is_word_char: &F,
    opts: ShapeLineOptions,
)
    requires
        opts.force_width is None,
    ensures
        forall|cache: &mut LineLayoutCache<P>, wrapped: Arc<WrappedLineLayout>| #[trigger]
            call_ensures(
                LineLayoutCache::<P>::layout_wrapped_line::<F>,
                (cache, text, font_size, runs, wrap_width, max_lines, is_word_char),
                wrapped,
            ) ==> {
                &&& final(cache).platform() == cache.platform()
                &&& gave_wrapped_line(
                    cache.platform(),
                    cache@,
                    text@,
                    font_size,
                    runs@,
                    wrap_width,
                    max_lines,
                    *is_word_char,
                    opts,
                    *wrapped,
                    final(cache)@,
                )
            },
        forall|cache: &mut LineLayoutCache<P>, wrapped: Option<Arc<WrappedLineLayout>>| #[trigger]
            call_ensures(
                LineLayoutCache::<P>::checked_layout_wrapped_line::<F>,
                (cache, text, font_size, runs, wrap_width, max_lines, is_word_char),
                wrapped,
            ) ==> {
                &&& final(cache).platform() == cache.platform()
                &&& match wrapped {
                    Some(wrapped) => gave_wrapped_line(
                        cache.platform(),
                        cache@,
                        text@,
                        font_size,
                        runs@,
                        wrap_width,
                        max_lines,
                        *is_word_char,
                        opts,
                        *wrapped,
                        final(cache)@,
                    ),
                    None => gave_no_wrapped_line(
                        cache.platform(),
                        cache@,
                        text@,
                        font_size,
                        runs@,
                        wrap_width,
                        max_lines,
                        *is_word_char,
                        opts,
                        final(cache)@,
                    ),
                }
            },
{
    assert forall|cache: &mut LineLayoutCache<P>, wrapped: Arc<WrappedLineLayout>| #[trigger]
        call_ensures(
            LineLayoutCache::<P>::layout_wrapped_line::<F>,
            (cache, text, font_size, runs, wrap_width, max_lines, is_word_char),
            wrapped,
        ) implies {
        &&& final(cache).platform() == cache.platform()
        &&& gave_wrapped_line(
            cache.platform(),
            cache@,
            text@,
            font_size,
            runs@,
            wrap_width,
            max_lines,
            *is_word_char,
            opts,
            *wrapped,
            final(cache)@,
        )
    } by {
        lemma_gave_wrapped_line(
            cache.platform(),
            cache@,
            text@,
            font_size,
            runs@,
            wrap_width,
            max_lines,
            *is_word_char,
            opts,
            *wrapped,
            final(cache)@,
        );
    }
    assert forall|cache: &mut LineLayoutCache<P>, wrapped: Option<Arc<WrappedLineLayout>>|
        #[trigger]
        call_ensures(
            LineLayoutCache::<P>::checked_layout_wrapped_line::<F>,
            (cache, text, font_size, runs, wrap_width, max_lines, is_word_char),
            wrapped,
        ) implies {
        &&& final(cache).platform() == cache.platform()
        &&& match wrapped {
            Some(wrapped) => gave_wrapped_line(
                cache.platform(),
                cache@,
                text@,
                font_size,
                runs@,
                wrap_width,
                max_lines,
                *is_word_char,
                opts,
                *wrapped,
                final(cache)@,
            ),
            None => gave_no_wrapped_line(
                cache.platform(),
                cache@,
                text@,
                font_size,
                runs@,
                wrap_width,
                max_lines,
                *is_word_char,
                opts,
                final(cache)@,
            ),
        }
    } by {
        match wrapped {
            Some(wrapped) => {
                lemma_gave_wrapped_line(
                    cache.platform(),
                    cache@,
                    text@,
                    font_size,
                    runs@,
                    wrap_width,
                    max_lines,
                    *is_word_char,
                    opts,
                    *wrapped,
                    final(cache)@,
                );
            },
            None => {
                let key = LineKey::of_wrapped_line(text@, font_size, runs@, wrap_width);
                let layout = choose|layout: LineLayout|
                    {
                        &&& #[trigger] crate::cache::gives_line(
                            cache.platform(),
                            cache@,
                            key.unwrapped(),
                            layout,
                            final(cache)@,
                        )
                        &&& crate::wrap::may_break(
                            *is_word_char,
                            layout@,
                            text@,
                            wrap_width,
                            max_lines,
                            None,
                        )
                    };
                lemma_gave_no_wrapped_line(
                    cache.platform(),
                    cache@,
                    text@,
                    font_size,
                    runs@,
                    wrap_width,
                    max_lines,
                    *is_word_char,
                    opts,
                    layout,
                    final(cache)@,
                );
            },
        }
    }
}

/// Whether a cache gave out a line by the hash of its text and became another: the line is what
/// the options passed make of an answer of the text system to some text and the very font size
/// and font runs passed, and the cache has it from now on under these, the hash and the length.
/// If the cache had none to give out, the text is the one that came with the call.
pub open spec fn gave_hashed_line<P: PlatformTextSystem, F: FnOnce() -> String>(
    platform: P,
    before: CacheView,
    text_hash: u64,
    text_len: usize,
    font_size: Pixels,
    runs: Seq<FontRun>,
    opts: ShapeLineOptions,
    materialize_text: F,
    layout: LineLayout,
    after: CacheView,
) -> bool {
    let key = hashed_key_of(text_hash, text_len, font_size, runs, opts);
    &&& exists|text: Seq<char>| #[trigger]
        crate::laws::asking::is_answered(platform, text, font_size, runs, opts, layout)
    &&& crate::laws::asking::brings_a_hashed_line(before, key, layout, after)
    &&& has_none(before, key) ==> exists|text: String|
        {
            &&& #[trigger] call_ensures(materialize_text, (), text)
            &&& crate::laws::asking::is_answered(
                platform,
                text@,
                font_size,
                runs,
                opts,
                layout,
            )
        }
}

/// Whether a cache has no line to give out under a hash: the current frame has none, and the
/// previous frame has none, or has no use of it recorded.
pub open spec fn has_none(cache: CacheView, key: HashedLineKey) -> bool {
    &&& !cache.current.lines_by_hash.layouts.contains_key(key)
    &&& !cache.previous.lines_by_hash.layouts.contains_key(key)
        || !cache.previous.lines_by_hash.used.contains(key)
}

proof fn lemma_gave_hashed_line<P: PlatformTextSystem, F: FnOnce() -> String>(
    platform: P,
    before: CacheView,
    text_hash: u64,
    text_len: usize,
    font_size: Pixels,
    runs: Seq<FontRun>,
    opts: ShapeLineOptions,
    materialize_text: F,
    layout: LineLayout,
    after: CacheView,
)
    requires
        crate::cache::gives_hashed_line(
            platform,
            before,
            HashedLineKey::of_hash(text_hash, text_len, font_size, runs, opts@.normalized()),
            materialize_text,
            layout,
            after,
        ),
    ensures
        gave_hashed_line(
            platform,
            before,
            text_hash,
            text_len,
            font_size,
            runs,
            opts,
            materialize_text,
            layout,
            after,
        ),
{
    let key = HashedLineKey::of_hash(text_hash, text_len, font_size, runs, opts@.normalized());
    crate::laws::snapping::options_with_a_grid_are_kept(opts);
    assert(key == hashed_key_of(text_hash, text_len, font_size, runs, opts));
    crate::laws::asking::hashed_lines_are_laid_out_as_asked(
        platform,
        before,
        text_hash,
        text_len,
        font_size,
        runs,
        opts,
        materialize_text,
        layout,
        after,
    );
    crate::laws::asking::asking_brings_a_hashed_line(
        platform,
        before,
        key,
        materialize_text,
        layout,
        after,
    );
}

/// A cache that is asked for a line by the hash of its text gives out what was asked for, or, if
/// it was asked to check, nothing: then it has none to give out, an answer of the text system to
/// the text that came with the call may not fit the grid, and the cache stays as it was.
pub proof fn hashed_lines_are_given<P: PlatformTextSystem, F: FnOnce() -> String>(
    text_hash: u64,
    text_len: usize,
    font_size: Pixels,
    runs: &[FontRun],
    opts: ShapeLineOptions,
    materialize_text: F,
)
    ensures
        forall|cache: &mut LineLayoutCache<P>, layout: Arc<LineLayout>| #[trigger]
            call_ensures(
                LineLayoutCache::<P>::layout_line_with_by_hash::<F>,
                (cache, text_hash, text_len, font_size, runs, opts, materialize_text),
                layout,
            ) ==> {
                &&& final(cache).platform() == cache.platform()
                &&& gave_hashed_line(
                    cache.platform(),
                    cache@,
                    text_hash,
                    text_len,
                    font_size,
                    runs@,
                    opts,
                    materialize_text,
                    *layout,
                    final(cache)@,
                )
            },
        forall|cache: &mut LineLayoutCache<P>, layout: Option<Arc<LineLayout>>| #[trigger]
            call_ensures(
                LineLayoutCache::<P>::checked_layout_line_with_by_hash::<F>,
                (cache, text_hash, text_len, font_size, runs, opts, materialize_text),
                layout,
            ) ==> {
                &&& final(cache).platform() == cache.platform()
                &&& match layout {
                    Some(layout) => gave_hashed_line(
                        cache.platform(),
                        cache@,
                        text_hash,
                        text_len,
                        font_size,
                        runs@,
                        opts,
                        materialize_text,
                        *layout,
                        final(cache)@,
                    ),
                    None => {
                        &&& final(cache)@ == cache@
                        &&& has_none(
                            cache@,
                            hashed_key_of(text_hash, text_len, font_size, runs@, opts),
                        )
                        &&& exists|text: String|
                            {
                                &&& #[trigger] call_ensures(materialize_text, (), text)
                                &&& may_not_fit(
                                    cache.platform(),
                                    text@,
                                    font_size,
                                    runs@,
                                    opts,
                                )
                            }
                    },
                }
            },
{
    let key = HashedLineKey::of_hash(text_hash, text_len, font_size, runs@, opts@.normalized());
    crate::laws::snapping::options_with_a_grid_are_kept(opts);
    assert(key == hashed_key_of(text_hash, text_len, font_size, runs@, opts));
    assert forall|cache: &mut LineLayoutCache<P>, layout: Arc<LineLayout>| #[trigger]
        call_ensures(
            LineLayoutCache::<P>::layout_line_with_by_hash::<F>,
            (cache, text_hash, text_len, font_size, runs, opts, materialize_text),
            layout,
        ) implies {
        &&& final(cache).platform() == cache.platform()
        &&& gave_hashed_line(
            cache.platform(),
            cache@,
            text_hash,
            text_len,
            font_size,
            runs@,
            opts,
            materialize_text,
            *layout,
            final(cache)@,
        )
    } by {
        lemma_gave_hashed_line(
            cache.platform(),
            cache@,
            text_hash,
            text_len,
            font_size,
            runs@,
            opts,
            materialize_text,
            *layout,
            final(cache)@,
        );
    }
    assert forall|cache: &mut LineLayoutCache<P>, layout: Option<Arc<LineLayout>>| #[trigger]
        call_ensures(
            LineLayoutCache::<P>::checked_layout_line_with_by_hash::<F>,
            (cache, text_hash, text_len, font_size, runs, opts, materialize_text),
            layout,
        ) implies {
        &&& final(cache).platform() == cache.platform()
        &&& match layout {
            Some(layout) => gave_hashed_line(
                cache.platform(),
                cache@,
                text_hash,
                text_len,
                font_size,
                runs@,
                opts,
                materialize_text,
                *layout,
                final(cache)@,
            ),
            None => {
                &&& final(cache)@ == cache@
                &&& has_none(cache@, hashed_key_of(text_hash, text_len, font_size, runs@, opts))
                &&& exists|text: String|
                    {
                        &&& #[trigger] call_ensures(materialize_text, (), text)
                        &&& may_not_fit(cache.platform(), text@, font_size, runs@, opts)
                    }
            },
        }
    } by {
        match layout {
            Some(layout) => {
                lemma_gave_hashed_line(
                    cache.platform(),
                    cache@,
                    text_hash,
                    text_len,
                    font_size,
                    runs@,
                    opts,
                    materialize_text,
                    *layout,
                    final(cache)@,
                );
            },
            None => {
                let text = choose|text: String|
                    {
                        &&& #[trigger] call_ensures(materialize_text, (), text)
                        &&& !crate::cache::can_lay_out(cache.platform(), key.of_text(text@))
                    };
                crate::laws::asking::hashed_keys_hold_what_is_asked_for(
                    text_hash,
                    text_len,
                    font_size,
                    runs@,
                    opts@.normalized(),
                    text@,
                );
                crate::laws::asking::lines_are_refused_for_what_is_given(
                    cache.platform(),
                    text@,
                    font_size,
                    runs@,
                    opts,
                );
                assert(call_ensures(materialize_text, (), text));
                assert(may_not_fit(cache.platform(), text@, font_size, runs@, opts));
            },
        }
    }
}

/// A line is found by the hash of its text exactly if one of the frames has it under this hash,
/// this length, this font size, all these font runs and these options, and it is the one that
/// the current frame has, or else the previous one.
pub proof fn hashed_lines_are_found<P: PlatformTextSystem>(
    cache: &LineLayoutCache<P>,
    text_hash: u64,
    text_len: usize,
    font_size: Pixels,
    runs: &[FontRun],
    opts: ShapeLineOptions,
)
    ensures
        forall|layout: Option<Arc<LineLayout>>| #[trigger]
            call_ensures(
                LineLayoutCache::<P>::try_layout_line_with_by_hash,
                (cache, text_hash, text_len, font_size, runs, opts),
                layout,
            ) ==> {
                let key = hashed_key_of(text_hash, text_len, font_size, runs@, opts);
                let (current, previous) = (
                    cache@.current.lines_by_hash.layouts,
                    cache@.previous.lines_by_hash.layouts,
                );
                match layout {
                    Some(layout) => {
                        &&& current.contains_key(key) || previous.contains_key(key)
                        &&& *layout == (if current.contains_key(key) {
                            current[key]
                        } else {
                            previous[key]
                        })
                        &&& exists|text: Seq<char>| #[trigger]
                            crate::laws::asking::is_answered(
                                cache.platform(),
                                text,
                                font_size,
                                runs@,
                                opts,
                                *layout,
                            )
                    },
                    None => !current.contains_key(key) && !previous.contains_key(key),
                }
            },
{
    let key = HashedLineKey::of_hash(text_hash, text_len, font_size, runs@, opts@.normalized());
    crate::laws::snapping::options_with_a_grid_are_kept(opts);
    assert(key == hashed_key_of(text_hash, text_len, font_size, runs@, opts));
    assert forall|layout: Option<Arc<LineLayout>>|
        layout is Some && #[trigger] call_ensures(
            LineLayoutCache::<P>::try_layout_line_with_by_hash,
            (cache, text_hash, text_len, font_size, runs, opts),
            layout,
        ) implies exists|text: Seq<char>| #[trigger]
        crate::laws::asking::is_answered(
            cache.platform(),
            text,
            font_size,
            runs@,
            opts,
            *(layout->0),
        ) by {
        let found = layout->0;
        crate::laws::asking::found_lines_are_laid_out_as_asked(
            cache.platform(),
            text_hash,
            text_len,
            font_size,
            runs@,
            opts,
            *found,
        );
    }
}

/// A new cache has nothing. The index of a cache is how many uses of each kind its current frame
/// has recorded.
pub proof fn caches_are_made<P: PlatformTextSystem>(platform: P, cache: &LineLayoutCache<P>)
    ensures
        forall|made: LineLayoutCache<P>| #[trigger]
            call_ensures(LineLayoutCache::<P>::new, (platform,), made) ==> {
                &&& made.platform() == platform
                &&& crate::laws::asking::frame_has_nothing(made@.current)
                &&& crate::laws::asking::frame_has_nothing(made@.previous)
            },
        forall|index: LineLayoutIndex| #[trigger]
            call_ensures(LineLayoutCache::<P>::layout_index, (cache,), index) ==> {
                &&& index.lines_index == cache@.current.lines.used.len()
                &&& index.wrapped_lines_index == cache@.current.wrapped_lines.used.len()
                &&& index.lines_by_hash_index == cache@.current.lines_by_hash.used.len()
                &&& index.wrapped_lines_by_hash_index
                    == cache@.current.wrapped_lines_by_hash.used.len()
            },
{
    crate::laws::asking::frames_take_turns(cache@);
}

/// When a frame ends, the previous frame becomes what the current one was, and the current frame
/// has nothing.
pub proof fn frames_are_finished<P: PlatformTextSystem>()
    ensures
        forall|cache: &mut LineLayoutCache<P>| #[trigger]
            call_ensures(LineLayoutCache::<P>::finish_frame, (cache,), ()) ==> {
                &&& final(cache).platform() == cache.platform()
                &&& final(cache)@.previous == cache@.current
                &&& crate::laws::asking::frame_has_nothing(final(cache)@.current)
            },
{
}

/// Going back to an index keeps all lines and the first uses of each kind.
pub proof fn uses_are_truncated<P: PlatformTextSystem>(index: LineLayoutIndex)
    ensures
        forall|cache: &mut LineLayoutCache<P>| #[trigger]
            call_ensures(LineLayoutCache::<P>::truncate_layouts, (cache, index), ()) ==> {
                let (before, after) = (cache@.current, final(cache)@.current);
                &&& final(cache).platform() == cache.platform()
                &&& final(cache)@.previous == cache@.previous
                &&& crate::laws::asking::has_gone_back(
                    before.lines,
                    index.lines_index,
                    after.lines,
                )
                &&& crate::laws::asking::has_gone_back(
                    before.wrapped_lines,
                    index.wrapped_lines_index,
                    after.wrapped_lines,
                )
                &&& crate::laws::asking::has_gone_back(
                    before.lines_by_hash,
                    index.lines_by_hash_index,
                    after.lines_by_hash,
                )
                &&& crate::laws::asking::has_gone_back(
                    before.wrapped_lines_by_hash,
                    index.wrapped_lines_by_hash_index,
                    after.wrapped_lines_by_hash,
                )
            },
{
}

/// Whether a stretch of uses is one that the previous frame of a cache has recorded, of each
/// kind.
pub open spec fn is_recorded(cache: CacheView, range: Range<LineLayoutIndex>) -> bool {
    let (start, end, frame) = (range.start, range.end, cache.previous);
    &&& start.lines_index <= end.lines_index <= frame.lines.used.len()
    &&& start.wrapped_lines_index <= end.wrapped_lines_index <= frame.wrapped_lines.used.len()
    &&& start.lines_by_hash_index <= end.lines_by_hash_index <= frame.lines_by_hash.used.len()
    &&& start.wrapped_lines_by_hash_index <= end.wrapped_lines_by_hash_index
        <= frame.wrapped_lines_by_hash.used.len()
}

/// A stretch of uses can be taken over exactly if the previous frame has recorded it.
pub proof fn stretches_are_checked<P: PlatformTextSystem>(
    cache: &LineLayoutCache<P>,
    range: &Range<LineLayoutIndex>,
)
    ensures
        forall|can: bool| #[trigger]
            call_ensures(LineLayoutCache::<P>::can_reuse, (cache, range), can) ==> can
                == is_recorded(cache@, *range),
{
}

/// Taking over a stretch of uses moves the lines that they were of, and no others, from the
/// previous frame to the current one, and records the uses there, of each kind.
pub proof fn stretches_are_taken_over<P: PlatformTextSystem>(range: Range<LineLayoutIndex>)
    ensures
        forall|cache: &mut LineLayoutCache<P>|
            is_recorded(cache@, range) && #[trigger] call_ensures(
                LineLayoutCache::<P>::reuse_layouts,
                (cache, range),
                (),
            ) ==> {
                let (before, after) = (cache@, final(cache)@);
                let (start, end) = (range.start, range.end);
                &&& final(cache).platform() == cache.platform()
                &&& crate::laws::asking::has_gone_over(
                    before.previous.lines,
                    before.current.lines,
                    start.lines_index,
                    end.lines_index,
                    after.previous.lines,
                    after.current.lines,
                )
                &&& crate::laws::asking::has_gone_over(
                    before.previous.wrapped_lines,
                    before.current.wrapped_lines,
                    start.wrapped_lines_index,
                    end.wrapped_lines_index,
                    after.previous.wrapped_lines,
                    after.current.wrapped_lines,
                )
                &&& crate::laws::asking::has_gone_over(
                    before.previous.lines_by_hash,
                    before.current.lines_by_hash,
                    start.lines_by_hash_index,
                    end.lines_by_hash_index,
                    after.previous.lines_by_hash,
                    after.current.lines_by_hash,
                )
                &&& crate::laws::asking::has_gone_over(
                    before.previous.wrapped_lines_by_hash,
                    before.current.wrapped_lines_by_hash,
                    start.wrapped_lines_by_hash_index,
                    end.wrapped_lines_by_hash_index,
                    after.previous.wrapped_lines_by_hash,
                    after.current.wrapped_lines_by_hash,
                )
            },
{
    assert forall|cache: CacheView| #[trigger] is_recorded(cache, range) implies {
        let after = cache.after_reuse(range.start, range.end);
        let (start, end) = (range.start, range.end);
        &&& crate::laws::asking::has_gone_over(
            cache.previous.lines,
            cache.current.lines,
            start.lines_index,
            end.lines_index,
            after.previous.lines,
            after.current.lines,
        )
        &&& crate::laws::asking::has_gone_over(
            cache.previous.wrapped_lines,
            cache.current.wrapped_lines,
            start.wrapped_lines_index,
            end.wrapped_lines_index,
            after.previous.wrapped_lines,
            after.current.wrapped_lines,
        )
        &&& crate::laws::asking::has_gone_over(
            cache.previous.lines_by_hash,
            cache.current.lines_by_hash,
            start.lines_by_hash_index,
            end.lines_by_hash_index,
            after.previous.lines_by_hash,
            after.current.lines_by_hash,
        )
        &&& crate::laws::asking::has_gone_over(
            cache.previous.wrapped_lines_by_hash,
            cache.current.wrapped_lines_by_hash,
            start.wrapped_lines_by_hash_index,
            end.wrapped_lines_by_hash_index,
            after.previous.wrapped_lines_by_hash,
            after.current.wrapped_lines_by_hash,
        )
    } by {
        crate::laws::asking::reusing_moves_what_was_used(cache, range.start, range.end);
    }
}

} // verus!
