//! What a cache does when it is asked, told by what it is asked with and by what its frames have.

use crate::cache::{CacheView, FrameView, LineLayoutIndex, PlatformTextSystem};
use crate::geometry::Pixels;
use crate::inline_lists::FontRun;
use crate::keys::{
    CacheKey, CacheKeyRef, HashedCacheKey, HashedCacheKeyRef, HashedLineKey, LineKey,
};
use crate::layout::LineLayout;
use crate::snap::{OptionsView, ShapeLineOptions, SnapMode, SnapModeRef};
use crate::table::TableView;
use crate::wrapped::WrappedLineLayout;
use vstd::prelude::*;

verus! {

/// The key of a line holds the text, the font size, all font runs and all options unchanged.
pub proof fn keys_hold_what_is_asked_for(
    text: Seq<char>,
    font_size: Pixels,
    runs: Seq<FontRun>,
    options: OptionsView,
)
    ensures
        ({
            let key = LineKey::of_line(text, font_size, runs, options);
            &&& key.text == text
            &&& key.font_size == font_size
            &&& key.runs == runs
            &&& key.wrap_width is None
            &&& key.options.force_width == options.force_width
            &&& key.options.snap_tolerance == options.snap_tolerance
            &&& key.options.snap_mode == options.snap_mode
        }),
{
}

/// The key of a wrapped line holds the text, the font size, all font runs and the wrap width
/// unchanged, with the default options; the key of its unwrapped line is that of the line that
/// is not wrapped.
pub proof fn wrapped_keys_hold_what_is_asked_for(
    text: Seq<char>,
    font_size: Pixels,
    runs: Seq<FontRun>,
    wrap_width: Option<Pixels>,
)
    ensures
        ({
            let key = LineKey::of_wrapped_line(text, font_size, runs, wrap_width);
            &&& key.text == text
            &&& key.font_size == font_size
            &&& key.runs == runs
            &&& key.wrap_width == wrap_width
            &&& key.options.force_width is None
            &&& key.options.snap_tolerance.units == 0x1_0000_0000
            &&& key.options.snap_mode is GlyphIndex
            &&& key.unwrapped().text == text
            &&& key.unwrapped().font_size == font_size
            &&& key.unwrapped().runs == runs
            &&& key.unwrapped().wrap_width is None
            &&& key.unwrapped().options == key.options
        }),
{
}

/// The key of a line by hash holds the hash, the length, the font size, all font runs and all
/// options unchanged; with a text in place of the hash it is the key of that text.
pub proof fn hashed_keys_hold_what_is_asked_for(
    text_hash: u64,
    text_len: usize,
    font_size: Pixels,
    runs: Seq<FontRun>,
    options: OptionsView,
    text: Seq<char>,
)
    ensures
        ({
            let key = HashedLineKey::of_hash(text_hash, text_len, font_size, runs, options);
            &&& key.text_hash == text_hash
            &&& key.text_len == text_len
            &&& key.font_size == font_size
            &&& key.runs == runs
            &&& key.wrap_width is None
            &&& key.options.force_width == options.force_width
            &&& key.options.snap_tolerance == options.snap_tolerance
            &&& key.options.snap_mode == options.snap_mode
            &&& key.of_text(text).text == text
            &&& key.of_text(text).font_size == font_size
            &&& key.of_text(text).runs == runs
            &&& key.of_text(text).wrap_width is None
            &&& key.of_text(text).options == key.options
            &&& key.of_text(text) == LineKey::of_line(text, font_size, runs, options)
        }),
{
}

/// Two calls are for the same line by hash only if they have the same hash, length, font size,
/// font runs and options.
pub proof fn hashed_lines_are_told_apart(
    text_hash: u64,
    other_hash: u64,
    text_len: usize,
    other_len: usize,
    font_size: Pixels,
    other_size: Pixels,
    runs: Seq<FontRun>,
    other_runs: Seq<FontRun>,
    options: OptionsView,
    other_options: OptionsView,
)
    ensures
        HashedLineKey::of_hash(text_hash, text_len, font_size, runs, options)
            == HashedLineKey::of_hash(
            other_hash,
            other_len,
            other_size,
            other_runs,
            other_options,
        ) <==> {
            &&& text_hash == other_hash
            &&& text_len == other_len
            &&& font_size == other_size
            &&& runs == other_runs
            &&& options == other_options
        },
{
}

/// Two calls are for the same line only if they have the same text, font size, font runs and
/// options.
pub proof fn lines_are_told_apart(
    text: Seq<char>,
    other_text: Seq<char>,
    font_size: Pixels,
    other_size: Pixels,
    runs: Seq<FontRun>,
    other_runs: Seq<FontRun>,
    options: OptionsView,
    other_options: OptionsView,
)
    ensures
        LineKey::of_line(text, font_size, runs, options) == LineKey::of_line(
            other_text,
            other_size,
            other_runs,
            other_options,
        ) <==> {
            &&& text == other_text
            &&& font_size == other_size
            &&& runs == other_runs
            &&& options == other_options
        },
{
}

/// Two calls are for the same wrapped line only if they have the same text, font size, font runs
/// and wrap width.
pub proof fn wrapped_lines_are_told_apart(
    text: Seq<char>,
    other_text: Seq<char>,
    font_size: Pixels,
    other_size: Pixels,
    runs: Seq<FontRun>,
    other_runs: Seq<FontRun>,
    wrap_width: Option<Pixels>,
    other_width: Option<Pixels>,
)
    ensures
        LineKey::of_wrapped_line(text, font_size, runs, wrap_width) == LineKey::of_wrapped_line(
            other_text,
            other_size,
            other_runs,
            other_width,
        ) <==> {
            &&& text == other_text
            &&& font_size == other_size
            &&& runs == other_runs
            &&& wrap_width == other_width
        },
{
}

/// Keys are equal exactly if all that they hold is the same: the text, or the hash and the length
/// of the text, the font size, the font runs, the wrap width and all options.
pub proof fn equal_keys_are_the_same(
    a: CacheKey,
    b: CacheKey,
    c: HashedCacheKey,
    d: HashedCacheKey,
)
    ensures
        vstd::std_specs::cmp::PartialEqSpec::eq_spec(&a, &b) <==> {
            &&& a.text@ == b.text@
            &&& a.font_size == b.font_size
            &&& a.runs@ == b.runs@
            &&& a.wrap_width == b.wrap_width
            &&& a.force_width == b.force_width
            &&& a.snap_tolerance == b.snap_tolerance
            &&& a.snap_mode@ == b.snap_mode@
        },
        vstd::std_specs::cmp::PartialEqSpec::eq_spec(&c, &d) <==> {
            &&& c.text_hash == d.text_hash
            &&& c.text_len == d.text_len
            &&& c.font_size == d.font_size
            &&& c.runs@ == d.runs@
            &&& c.wrap_width == d.wrap_width
            &&& c.force_width == d.force_width
            &&& c.snap_tolerance == d.snap_tolerance
            &&& c.snap_mode@ == d.snap_mode@
        },
{
}

/// Modes are equal exactly if both count glyphs or both go by the same table.
pub proof fn equal_modes_are_the_same(
    a: SnapMode,
    b: SnapMode,
    c: SnapModeRef<'_>,
    d: SnapModeRef<'_>,
)
    ensures
        vstd::std_specs::cmp::PartialEqSpec::eq_spec(&a, &b) <==> match (a, b) {
            (SnapMode::GlyphIndex, SnapMode::GlyphIndex) => true,
            (
                SnapMode::ByteToColumn { byte_to_column: one },
                SnapMode::ByteToColumn { byte_to_column: other },
            ) => one@ == other@,
            _ => false,
        },
        vstd::std_specs::cmp::PartialEqSpec::eq_spec(&c, &d) <==> match (c, d) {
            (SnapModeRef::GlyphIndex, SnapModeRef::GlyphIndex) => true,
            (
                SnapModeRef::ByteToColumn { byte_to_column: one },
                SnapModeRef::ByteToColumn { byte_to_column: other },
            ) => one@ == other@,
            _ => false,
        },
{
}

/// Borrowed keys are equal exactly if all that they hold is the same.
pub proof fn borrowed_keys_are_told_apart(
    a: CacheKeyRef<'_>,
    b: CacheKeyRef<'_>,
    c: HashedCacheKeyRef<'_>,
    d: HashedCacheKeyRef<'_>,
)
    ensures
        vstd::std_specs::cmp::PartialEqSpec::eq_spec(&a, &b) <==> {
            &&& a.text@ == b.text@
            &&& a.font_size == b.font_size
            &&& a.runs@ == b.runs@
            &&& a.wrap_width == b.wrap_width
            &&& a.force_width == b.force_width
            &&& a.snap_tolerance == b.snap_tolerance
            &&& a.snap_mode@ == b.snap_mode@
        },
        vstd::std_specs::cmp::PartialEqSpec::eq_spec(&c, &d) <==> {
            &&& c.text_hash == d.text_hash
            &&& c.text_len == d.text_len
            &&& c.font_size == d.font_size
            &&& c.runs@ == d.runs@
            &&& c.wrap_width == d.wrap_width
            &&& c.force_width == d.force_width
            &&& c.snap_tolerance == d.snap_tolerance
            &&& c.snap_mode@ == d.snap_mode@
        },
{
}

/// Whether a line is what options make of an answer of the text system, asked with this text,
/// this font size and these font runs.
pub open spec fn is_answered<P: PlatformTextSystem>(
    platform: P,
    text: Seq<char>,
    font_size: Pixels,
    runs: Seq<FontRun>,
    opts: ShapeLineOptions,
    layout: LineLayout,
) -> bool {
    let text_len = vstd::utf8::encode_utf8(text).len() as int;
    exists|text_ref: &str, runs_ref: &[FontRun], raw: LineLayout|
        {
            &&& text_ref@ == text
            &&& runs_ref@ == runs
            &&& #[trigger] call_ensures(
                P::layout_line,
                (&platform, text_ref, font_size, runs_ref),
                raw,
            )
            &&& crate::laws::calls::is_made(opts, raw, text_len, layout)
        }
}

proof fn lemma_is_answered<P: PlatformTextSystem>(
    platform: P,
    text: Seq<char>,
    font_size: Pixels,
    runs: Seq<FontRun>,
    opts: ShapeLineOptions,
    key: LineKey,
    layout: &LineLayout,
)
    requires
        crate::cache::is_line(platform, key, *layout),
        key.text == text,
        key.font_size == font_size,
        key.runs == runs,
        key.options == opts@.normalized(),
    ensures
        is_answered(platform, text, font_size, runs, opts, *layout),
{
    let raw = choose|raw: LineLayout|
        {
            &&& #[trigger] crate::cache::lays_out(
                platform,
                key.text,
                key.font_size,
                key.runs,
                raw,
            )
            &&& key.options.can_apply(raw@, key.text_len())
            &&& layout@ == key.options.apply(raw@, key.text_len())
        };
    let (text_ref, runs_ref) = choose|text_ref: &str, runs_ref: &[FontRun]|
        {
            &&& text_ref@ == text
            &&& runs_ref@ == runs
            &&& #[trigger] call_ensures(
                P::layout_line,
                (&platform, text_ref, font_size, runs_ref),
                raw,
            )
        };
    assert(call_ensures(P::layout_line, (&platform, text_ref, font_size, runs_ref), raw));
    crate::laws::snapping::normalizing_has_no_effect(opts@, raw@, key.text_len());
    crate::laws::calls::lemma_is_made(opts, raw, key.text_len(), *layout);
}

/// A line that is given out is what the options passed make of what the text system may give for
/// the very text, font size and font runs passed, whether it was laid out now or before.
pub proof fn lines_are_laid_out_as_asked<P: PlatformTextSystem>(
    platform: P,
    before: CacheView,
    text: Seq<char>,
    font_size: Pixels,
    runs: Seq<FontRun>,
    opts: ShapeLineOptions,
    layout: LineLayout,
    after: CacheView,
)
    requires
        crate::cache::gives_line(
            platform,
            before,
            LineKey::of_line(text, font_size, runs, opts@.normalized()),
            layout,
            after,
        ),
    ensures
        is_answered(platform, text, font_size, runs, opts, layout),
{
    lemma_is_answered(
        platform,
        text,
        font_size,
        runs,
        opts,
        LineKey::of_line(text, font_size, runs, opts@.normalized()),
        &layout,
    );
}

/// A line that is asked for with a forced width alone is what this width, a tolerance of one
/// pixel and columns by glyphs make of what the text system may give for the very text, font
/// size and font runs passed.
pub proof fn plain_lines_are_laid_out_as_asked<P: PlatformTextSystem>(
    platform: P,
    before: CacheView,
    text: Seq<char>,
    font_size: Pixels,
    runs: Seq<FontRun>,
    force_width: Option<Pixels>,
    opts: ShapeLineOptions,
    layout: LineLayout,
    after: CacheView,
)
    requires
        crate::cache::gives_line(
            platform,
            before,
            LineKey::of_line(text, font_size, runs, OptionsView::plain(force_width)),
            layout,
            after,
        ),
        opts.force_width == force_width,
        opts.snap_tolerance.units == 0x1_0000_0000,
        opts.snap_mode is GlyphIndex,
    ensures
        is_answered(platform, text, font_size, runs, opts, layout),
{
    assert(opts.snap_mode@ == crate::snap::SnapModeView::GlyphIndex);
    lemma_is_answered(
        platform,
        text,
        font_size,
        runs,
        opts,
        LineKey::of_line(text, font_size, runs, OptionsView::plain(force_width)),
        &layout,
    );
}

/// A line that is given out by hash, and was not cached, is what the options passed make of what
/// the text system may give for the text that came with it and the very font size and font runs
/// passed. One that was cached is this for some text.
pub proof fn hashed_lines_are_laid_out_as_asked<P: PlatformTextSystem, F: FnOnce() -> String>(
    platform: P,
    before: CacheView,
    text_hash: u64,
    text_len: usize,
    font_size: Pixels,
    runs: Seq<FontRun>,
    opts: ShapeLineOptions,
    materialize_text: F,
    layout: LineLayout,
    after: CacheView,
)
    requires
        crate::cache::gives_hashed_line(
            platform,
            before,
            HashedLineKey::of_hash(text_hash, text_len, font_size, runs, opts@.normalized()),
            materialize_text,
            layout,
            after,
        ),
    ensures
        ({
            let key = HashedLineKey::of_hash(
                text_hash,
                text_len,
                font_size,
                runs,
                opts@.normalized(),
            );
            &&& exists|text: Seq<char>| #[trigger]
                is_answered(platform, text, font_size, runs, opts, layout)
            &&& before.used_hashed_line(key) is None ==> exists|text: String|
                {
                    &&& #[trigger] call_ensures(materialize_text, (), text)
                    &&& is_answered(platform, text@, font_size, runs, opts, layout)
                }
        }),
{
    let key = HashedLineKey::of_hash(text_hash, text_len, font_size, runs, opts@.normalized());
    let some = choose|text: Seq<char>|
        crate::cache::is_line(platform, #[trigger] key.of_text(text), layout);
    lemma_is_answered(platform, some, font_size, runs, opts, key.of_text(some), &layout);
    if before.used_hashed_line(key) is None {
        let text = choose|text: String|
            {
                &&& #[trigger] call_ensures(materialize_text, (), text)
                &&& crate::cache::is_line(platform, key.of_text(text@), layout)
            };
        lemma_is_answered(platform, text@, font_size, runs, opts, key.of_text(text@), &layout);
    }
}

/// What is found by hash is what the options passed make of what the text system may give for
/// some text and the very font size and font runs passed.
pub proof fn found_lines_are_laid_out_as_asked<P: PlatformTextSystem>(
    platform: P,
    text_hash: u64,
    text_len: usize,
    font_size: Pixels,
    runs: Seq<FontRun>,
    opts: ShapeLineOptions,
    layout: LineLayout,
)
    requires
        crate::cache::is_hashed_line(
            platform,
            HashedLineKey::of_hash(text_hash, text_len, font_size, runs, opts@.normalized()),
            layout,
        ),
    ensures
        exists|text: Seq<char>| #[trigger]
            is_answered(platform, text, font_size, runs, opts, layout),
{
    let key = HashedLineKey::of_hash(text_hash, text_len, font_size, runs, opts@.normalized());
    let text = choose|text: Seq<char>|
        crate::cache::is_line(platform, #[trigger] key.of_text(text), layout);
    lemma_is_answered(platform, text, font_size, runs, opts, key.of_text(text), &layout);
}

/// A wrapped line that is given out has the wrap width passed, a glyph at each of its
/// boundaries, and as its unwrapped line what the text system may give for the very text, font
/// size and font runs passed. If it was not cached, it breaks as that line does for the wrap
/// width and the number of lines passed.
pub proof fn wrapped_lines_are_laid_out_as_asked<P: PlatformTextSystem, F: Fn(char) -> bool>(
    platform: P,
    before: CacheView,
    text: Seq<char>,
    font_size: Pixels,
    runs: Seq<FontRun>,
    wrap_width: Option<Pixels>,
    max_lines: Option<usize>,
    is_word_char: F,
    opts: ShapeLineOptions,
    wrapped: WrappedLineLayout,
    after: CacheView,
)
    requires
        crate::cache::gives_wrapped_line(
            platform,
            before,
            LineKey::of_wrapped_line(text, font_size, runs, wrap_width),
            max_lines,
            is_word_char,
            wrapped,
            after,
        ),
        opts.force_width is None,
    ensures
        is_answered(platform, text, font_size, runs, opts, *wrapped.unwrapped_layout),
        wrapped.wrap_width == wrap_width,
        crate::laws::places::has_its_glyphs(wrapped),
        before.wrapped_line(LineKey::of_wrapped_line(text, font_size, runs, wrap_width)) is None
            ==> crate::wrap::may_break(
            is_word_char,
            wrapped.unwrapped_layout@,
            text,
            wrap_width,
            max_lines,
            Some(wrapped.wrap_boundaries@),
        ),
{
    let key = LineKey::of_wrapped_line(text, font_size, runs, wrap_width);
    lemma_is_answered(
        platform,
        text,
        font_size,
        runs,
        opts,
        key.unwrapped(),
        &*wrapped.unwrapped_layout,
    );
    crate::laws::places::wrapped_lines_have_their_glyphs(wrapped);
}

/// A cache may be asked for a line if it has it, or else if the text system may be asked with the
/// very text, font size and font runs passed.
pub proof fn lines_are_asked_for_as_passed<P: PlatformTextSystem>(
    platform: P,
    cache: CacheView,
    text: Seq<char>,
    font_size: Pixels,
    runs: Seq<FontRun>,
    options: OptionsView,
)
    ensures
        ({
            let key = LineKey::of_line(text, font_size, runs, options);
            crate::cache::may_ask_for_line(platform, cache, key) <==> {
                ||| cache.current.lines.layouts.contains_key(key)
                ||| cache.previous.lines.layouts.contains_key(key)
                ||| platform.may_ask(text, font_size, runs)
            }
        }),
{
}

/// A cache may be asked for a wrapped line if it has it, or else if it may be asked for the
/// unwrapped line and, where there is a width to wrap to, about each character.
pub proof fn wrapped_lines_are_asked_for_as_passed<P: PlatformTextSystem, F: Fn(char) -> bool>(
    platform: P,
    cache: CacheView,
    text: Seq<char>,
    font_size: Pixels,
    runs: Seq<FontRun>,
    wrap_width: Option<Pixels>,
    is_word_char: F,
)
    ensures
        ({
            let key = LineKey::of_wrapped_line(text, font_size, runs, wrap_width);
            let line = LineKey::of_line(text, font_size, runs, key.options);
            crate::cache::may_ask_for_wrapped_line(platform, cache, key, is_word_char) <==> {
                ||| cache.current.wrapped_lines.layouts.contains_key(key)
                ||| cache.previous.wrapped_lines.layouts.contains_key(key)
                ||| {
                    &&& {
                        ||| cache.current.lines.layouts.contains_key(line)
                        ||| cache.previous.lines.layouts.contains_key(line)
                        ||| platform.may_ask(text, font_size, runs)
                    }
                    &&& wrap_width is Some ==> forall|ch: char| call_requires(is_word_char, (ch,))
                }
            }
        }),
{
}

/// A cache may be asked for a line by hash if it has it to give out, or else if there is a text
/// to come, with which, and with the very font size and font runs passed, the text system may be
/// asked.
pub proof fn hashed_lines_are_asked_for_as_passed<P: PlatformTextSystem, F: FnOnce() -> String>(
    platform: P,
    cache: CacheView,
    text_hash: u64,
    text_len: usize,
    font_size: Pixels,
    runs: Seq<FontRun>,
    options: OptionsView,
    materialize_text: F,
)
    ensures
        ({
            let key = HashedLineKey::of_hash(text_hash, text_len, font_size, runs, options);
            let previous = cache.previous.lines_by_hash;
            crate::cache::may_ask_for_hashed_line(platform, cache, key, materialize_text) <==> {
                ||| cache.current.lines_by_hash.layouts.contains_key(key)
                ||| previous.layouts.contains_key(key) && previous.used.contains(key)
                ||| {
                    &&& call_requires(materialize_text, ())
                    &&& forall|text: String| #[trigger]
                        call_ensures(materialize_text, (), text) ==> platform.may_ask(
                            text@,
                            font_size,
                            runs,
                        )
                }
            }
        }),
{
}

/// A line can be laid out exactly if the options passed can be applied to all that the text
/// system may give for the very text, font size and font runs passed.
pub proof fn lines_are_refused_for_what_is_given<P: PlatformTextSystem>(
    platform: P,
    text: Seq<char>,
    font_size: Pixels,
    runs: Seq<FontRun>,
    opts: ShapeLineOptions,
)
    ensures
        crate::cache::can_lay_out(
            platform,
            LineKey::of_line(text, font_size, runs, opts@.normalized()),
        ) <==> forall|text_ref: &str, runs_ref: &[FontRun], raw: LineLayout|
            text_ref@ == text && runs_ref@ == runs && #[trigger] call_ensures(
                P::layout_line,
                (&platform, text_ref, font_size, runs_ref),
                raw,
            ) ==> opts.force_width is None || crate::laws::calls::fits(
                raw,
                opts.snap_mode,
                vstd::utf8::encode_utf8(text).len() as int,
            ),
{
    let key = LineKey::of_line(text, font_size, runs, opts@.normalized());
    let text_len = vstd::utf8::encode_utf8(text).len() as int;
    assert forall|raw: LineLayout| #[trigger]
        key.options.can_apply(raw@, text_len) == (opts.force_width is None
            || crate::laws::calls::fits(raw, opts.snap_mode, text_len)) by {
        crate::laws::calls::lemma_fits(raw, opts.snap_mode, text_len);
    }
    if crate::cache::can_lay_out(platform, key) {
        assert forall|text_ref: &str, runs_ref: &[FontRun], raw: LineLayout|
            text_ref@ == text && runs_ref@ == runs && #[trigger] call_ensures(
                P::layout_line,
                (&platform, text_ref, font_size, runs_ref),
                raw,
            ) implies opts.force_width is None || crate::laws::calls::fits(
            raw,
            opts.snap_mode,
            text_len,
        ) by {
            assert(crate::cache::lays_out(platform, key.text, key.font_size, key.runs, raw));
            assert(key.options.can_apply(raw@, text_len));
        }
    } else {
        let raw = choose|raw: LineLayout| #[trigger]
            crate::cache::lays_out(platform, key.text, key.font_size, key.runs, raw)
                && !key.options.can_apply(raw@, text_len);
        let (text_ref, runs_ref) = choose|text_ref: &str, runs_ref: &[FontRun]|
            text_ref@ == text && runs_ref@ == runs && #[trigger] call_ensures(
                P::layout_line,
                (&platform, text_ref, font_size, runs_ref),
                raw,
            );
        assert(call_ensures(P::layout_line, (&platform, text_ref, font_size, runs_ref), raw));
        assert(!key.options.can_apply(raw@, text_len));
    }
}

/// A cache has a line if one of its frames has, and then the one that the current frame has, or
/// else the previous one. By hash, a line of the previous frame is given out only if a use of it
/// is recorded there.
pub proof fn the_cache_has_what_its_frames_have(
    cache: CacheView,
    key: LineKey,
    hashed_key: HashedLineKey,
)
    ensures
        ({
            let (current, previous) = (cache.current.lines.layouts, cache.previous.lines.layouts);
            &&& current.contains_key(key) ==> cache.line(key) == Some(current[key])
            &&& !current.contains_key(key) && previous.contains_key(key) ==> cache.line(key)
                == Some(previous[key])
            &&& !current.contains_key(key) && !previous.contains_key(key) ==> cache.line(key)
                is None
        }),
        ({
            let (current, previous) = (
                cache.current.wrapped_lines.layouts,
                cache.previous.wrapped_lines.layouts,
            );
            &&& current.contains_key(key) ==> cache.wrapped_line(key) == Some(current[key])
            &&& !current.contains_key(key) && previous.contains_key(key) ==> cache.wrapped_line(key)
                == Some(previous[key])
            &&& !current.contains_key(key) && !previous.contains_key(key) ==> cache.wrapped_line(
                key,
            ) is None
        }),
        ({
            let (current, previous) = (
                cache.current.lines_by_hash.layouts,
                cache.previous.lines_by_hash.layouts,
            );
            let used = cache.previous.lines_by_hash.used.contains(hashed_key);
            let found = cache.hashed_line(hashed_key);
            let given = cache.used_hashed_line(hashed_key);
            &&& current.contains_key(hashed_key) ==> found == Some(current[hashed_key]) && given
                == found
            &&& !current.contains_key(hashed_key) && previous.contains_key(hashed_key) ==> found
                == Some(previous[hashed_key]) && given == (if used {
                found
            } else {
                None
            })
            &&& !current.contains_key(hashed_key) && !previous.contains_key(hashed_key) ==> found
                is None && given is None
        }),
{
}

/// Whether a layout has come into the table of the current frame, with a use recorded last, and
/// is not in the table of the previous frame, while all else stayed.
pub open spec fn has_come<Key, V>(
    previous: TableView<Key, V>,
    current: TableView<Key, V>,
    key: Key,
    layout: V,
    previous_after: TableView<Key, V>,
    current_after: TableView<Key, V>,
) -> bool {
    &&& current_after.used.len() == current.used.len() + 1
    &&& current_after.used.last() == key
    &&& forall|n: int|
        0 <= n < current.used.len() ==> #[trigger] current_after.used[n] == current.used[n]
    &&& current_after.layouts.contains_key(key)
    &&& current_after.layouts[key] == layout
    &&& forall|other: Key|
        other != key ==> {
            &&& #[trigger] current_after.layouts.contains_key(other)
                == current.layouts.contains_key(other)
            &&& current.layouts.contains_key(other) ==> current_after.layouts[other]
                == current.layouts[other]
        }
    &&& previous_after.used == previous.used
    &&& !previous_after.layouts.contains_key(key)
    &&& forall|other: Key|
        other != key ==> {
            &&& #[trigger] previous_after.layouts.contains_key(other)
                == previous.layouts.contains_key(other)
            &&& previous.layouts.contains_key(other) ==> previous_after.layouts[other]
                == previous.layouts[other]
        }
}

/// Whether a cache that was asked gave out a line and became another like this: if the current
/// frame had the line, it gave this out and stayed as it was. Otherwise it gave out what the
/// previous frame had, if it had it, and the line came into the current frame. Wrapped lines and
/// lines by hash stayed.
pub open spec fn brings_a_line(
    before: CacheView,
    key: LineKey,
    layout: LineLayout,
    after: CacheView,
) -> bool {
    &&& before.current.lines.layouts.contains_key(key) ==> after == before && layout
        == before.current.lines.layouts[key]
    &&& !before.current.lines.layouts.contains_key(key) ==> {
        &&& before.previous.lines.layouts.contains_key(key) ==> layout
            == before.previous.lines.layouts[key]
        &&& has_come(
            before.previous.lines,
            before.current.lines,
            key,
            layout,
            after.previous.lines,
            after.current.lines,
        )
    }
    &&& after.previous.wrapped_lines == before.previous.wrapped_lines
    &&& after.current.wrapped_lines == before.current.wrapped_lines
    &&& after.previous.lines_by_hash == before.previous.lines_by_hash
    &&& after.current.lines_by_hash == before.current.lines_by_hash
    &&& after.previous.wrapped_lines_by_hash == before.previous.wrapped_lines_by_hash
    &&& after.current.wrapped_lines_by_hash == before.current.wrapped_lines_by_hash
}

/// Asking brings a line into the current frame, and changes nothing else.
pub proof fn asking_brings_a_line<P: PlatformTextSystem>(
    platform: P,
    before: CacheView,
    key: LineKey,
    layout: LineLayout,
    after: CacheView,
)
    requires
        crate::cache::gives_line(platform, before, key, layout, after),
    ensures
        brings_a_line(before, key, layout, after),
{
}

/// Whether a cache that was asked gave out a wrapped line and became another like this: if the
/// current frame had the wrapped line, it gave this out and stayed as it was. Otherwise it gave
/// out what the previous frame had, if it had it, and the wrapped line came into the current
/// frame. If it had none, the unwrapped line came into the current frame, too, unless it was
/// there. Lines by hash stayed.
pub open spec fn brings_a_wrapped_line(
    before: CacheView,
    key: LineKey,
    wrapped: WrappedLineLayout,
    after: CacheView,
) -> bool {
    &&& before.current.wrapped_lines.layouts.contains_key(key) ==> after == before && wrapped
        == before.current.wrapped_lines.layouts[key]
    &&& !before.current.wrapped_lines.layouts.contains_key(key) ==> {
        let line = LineKey { wrap_width: None, ..key };
        &&& has_come(
            before.previous.wrapped_lines,
            before.current.wrapped_lines,
            key,
            wrapped,
            after.previous.wrapped_lines,
            after.current.wrapped_lines,
        )
        &&& if before.previous.wrapped_lines.layouts.contains_key(key) {
            &&& wrapped == before.previous.wrapped_lines.layouts[key]
            &&& after.previous.lines == before.previous.lines
            &&& after.current.lines == before.current.lines
        } else if before.current.lines.layouts.contains_key(line) {
            &&& *wrapped.unwrapped_layout == before.current.lines.layouts[line]
            &&& after.previous.lines == before.previous.lines
            &&& after.current.lines == before.current.lines
        } else {
            &&& before.previous.lines.layouts.contains_key(line) ==> *wrapped.unwrapped_layout
                == before.previous.lines.layouts[line]
            &&& has_come(
                before.previous.lines,
                before.current.lines,
                line,
                *wrapped.unwrapped_layout,
                after.previous.lines,
                after.current.lines,
            )
        }
    }
    &&& after.previous.lines_by_hash == before.previous.lines_by_hash
    &&& after.current.lines_by_hash == before.current.lines_by_hash
    &&& after.previous.wrapped_lines_by_hash == before.previous.wrapped_lines_by_hash
    &&& after.current.wrapped_lines_by_hash == before.current.wrapped_lines_by_hash
}

/// Asking brings a wrapped line, and its unwrapped line where it takes that, into the current
/// frame, and changes nothing else.
pub proof fn asking_brings_a_wrapped_line<P: PlatformTextSystem, F: Fn(char) -> bool>(
    platform: P,
    before: CacheView,
    key: LineKey,
    max_lines: Option<usize>,
    is_word_char: F,
    wrapped: WrappedLineLayout,
    after: CacheView,
)
    requires
        crate::cache::gives_wrapped_line(
            platform,
            before,
            key,
            max_lines,
            is_word_char,
            wrapped,
            after,
        ),
    ensures
        brings_a_wrapped_line(before, key, wrapped, after),
{
}

/// Whether a cache that was asked by hash gave out a line and became another like this: if the
/// current frame had the line, it gave this out and stayed as it was. Otherwise, if the previous
/// frame had recorded a use of it, it gave out what that frame had, if it had it, and the line
/// came into the current frame. If no use was recorded, the line came into the current frame, and
/// the previous frame stayed as it was. All else stayed.
pub open spec fn brings_a_hashed_line(
    before: CacheView,
    key: HashedLineKey,
    layout: LineLayout,
    after: CacheView,
) -> bool {
    &&& before.current.lines_by_hash.layouts.contains_key(key) ==> after == before && layout
        == before.current.lines_by_hash.layouts[key]
    &&& !before.current.lines_by_hash.layouts.contains_key(key)
        && before.previous.lines_by_hash.used.contains(key) ==> {
        &&& before.previous.lines_by_hash.layouts.contains_key(key) ==> layout
            == before.previous.lines_by_hash.layouts[key]
        &&& has_come(
            before.previous.lines_by_hash,
            before.current.lines_by_hash,
            key,
            layout,
            after.previous.lines_by_hash,
            after.current.lines_by_hash,
        )
    }
    &&& !before.current.lines_by_hash.layouts.contains_key(key)
        && !before.previous.lines_by_hash.used.contains(key) ==> {
        &&& after.previous.lines_by_hash == before.previous.lines_by_hash
        &&& has_come(
            TableView::empty(),
            before.current.lines_by_hash,
            key,
            layout,
            TableView::empty(),
            after.current.lines_by_hash,
        )
    }
    &&& after.previous.lines == before.previous.lines
    &&& after.current.lines == before.current.lines
    &&& after.previous.wrapped_lines == before.previous.wrapped_lines
    &&& after.current.wrapped_lines == before.current.wrapped_lines
    &&& after.previous.wrapped_lines_by_hash == before.previous.wrapped_lines_by_hash
    &&& after.current.wrapped_lines_by_hash == before.current.wrapped_lines_by_hash
}

/// Asking by hash brings a line into the current frame, and changes nothing else.
pub proof fn asking_brings_a_hashed_line<P: PlatformTextSystem, F: FnOnce() -> String>(
    platform: P,
    before: CacheView,
    key: HashedLineKey,
    materialize_text: F,
    layout: LineLayout,
    after: CacheView,
)
    requires
        crate::cache::gives_hashed_line(platform, before, key, materialize_text, layout, after),
    ensures
        brings_a_hashed_line(before, key, layout, after),
{
}

/// Whether a table has no layout and no use.
pub open spec fn has_nothing<Key, V>(table: TableView<Key, V>) -> bool {
    &&& table.used.len() == 0
    &&& forall|key: Key| !(#[trigger] table.layouts.contains_key(key))
}

/// When a frame ends, the previous frame is what it was, and the current frame has nothing. A new
/// cache has nothing in either.
pub proof fn frames_take_turns(cache: CacheView)
    ensures
        ({
            let after = cache.after_frame();
            &&& after.previous.lines == cache.current.lines
            &&& after.previous.wrapped_lines == cache.current.wrapped_lines
            &&& after.previous.lines_by_hash == cache.current.lines_by_hash
            &&& after.previous.wrapped_lines_by_hash == cache.current.wrapped_lines_by_hash
            &&& frame_has_nothing(after.current)
        }),
        frame_has_nothing(CacheView::empty().current),
        frame_has_nothing(CacheView::empty().previous),
{
}

/// Whether a frame has no layout and no use.
pub open spec fn frame_has_nothing(frame: FrameView) -> bool {
    &&& has_nothing(frame.lines)
    &&& has_nothing(frame.wrapped_lines)
    &&& has_nothing(frame.lines_by_hash)
    &&& has_nothing(frame.wrapped_lines_by_hash)
}

/// Whether a table has kept its layouts and the first `len` of its uses, or all if there are
/// fewer.
pub open spec fn has_gone_back<Key, V>(
    before: TableView<Key, V>,
    len: usize,
    after: TableView<Key, V>,
) -> bool {
    &&& after.layouts == before.layouts
    &&& after.used.len() == (if len < before.used.len() {
        len as int
    } else {
        before.used.len() as int
    })
    &&& forall|n: int| 0 <= n < after.used.len() ==> #[trigger] after.used[n] == before.used[n]
}

/// Going back keeps all lines and the first uses of each kind. The previous frame stays.
pub proof fn truncating_keeps_the_first_uses(cache: CacheView, index: LineLayoutIndex)
    ensures
        ({
            let after = cache.after_truncate(index);
            &&& after.previous == cache.previous
            &&& has_gone_back(cache.current.lines, index.lines_index, after.current.lines)
            &&& has_gone_back(
                cache.current.wrapped_lines,
                index.wrapped_lines_index,
                after.current.wrapped_lines,
            )
            &&& has_gone_back(
                cache.current.lines_by_hash,
                index.lines_by_hash_index,
                after.current.lines_by_hash,
            )
            &&& has_gone_back(
                cache.current.wrapped_lines_by_hash,
                index.wrapped_lines_by_hash_index,
                after.current.wrapped_lines_by_hash,
            )
        }),
{
}

/// Whether a key is used in a stretch of uses.
pub open spec fn is_used_in<Key>(used: Seq<Key>, start: usize, end: usize, key: Key) -> bool {
    exists|n: int| start <= n < end && #[trigger] used[n] == key
}

/// Whether the layouts used in a stretch have gone over from one table to another, and their uses
/// have been recorded after those that were there, while all else stayed.
pub open spec fn has_gone_over<Key, V>(
    previous: TableView<Key, V>,
    current: TableView<Key, V>,
    start: usize,
    end: usize,
    previous_after: TableView<Key, V>,
    current_after: TableView<Key, V>,
) -> bool {
    &&& previous_after.used == previous.used
    &&& current_after.used.len() == current.used.len() + (end - start)
    &&& forall|n: int|
        0 <= n < current.used.len() ==> #[trigger] current_after.used[n] == current.used[n]
    &&& forall|n: int|
        current.used.len() <= n < current_after.used.len() ==> #[trigger] current_after.used[n]
            == previous.used[start + (n - current.used.len())]
    &&& forall|key: Key|
        {
            let moves = is_used_in(previous.used, start, end, key)
                && previous.layouts.contains_key(key);
            &&& #[trigger] current_after.layouts.contains_key(key) == (moves
                || current.layouts.contains_key(key))
            &&& moves ==> current_after.layouts[key] == previous.layouts[key]
            &&& !moves && current.layouts.contains_key(key) ==> current_after.layouts[key]
                == current.layouts[key]
        }
    &&& forall|key: Key|
        {
            &&& #[trigger] previous_after.layouts.contains_key(key)
                == (previous.layouts.contains_key(key) && !is_used_in(
                previous.used,
                start,
                end,
                key,
            ))
            &&& previous_after.layouts.contains_key(key) ==> previous_after.layouts[key]
                == previous.layouts[key]
        }
}

proof fn lemma_has_gone_over<Key, V>(
    previous: TableView<Key, V>,
    current: TableView<Key, V>,
    start: usize,
    end: usize,
)
    requires
        start <= end <= previous.used.len(),
    ensures
        has_gone_over(
            previous,
            current,
            start,
            end,
            previous.without_used(start as int, end as int),
            current.with_used(previous, start as int, end as int),
        ),
{
    let taken = previous.used.subrange(start as int, end as int);
    let keys = previous.used_between(start as int, end as int);
    assert forall|key: Key| #[trigger]
        keys.contains(key) == is_used_in(previous.used, start, end, key) by {
        assert(keys.contains(key) <==> taken.contains(key));
        if taken.contains(key) {
            let n = choose|n: int| 0 <= n < taken.len() && taken[n] == key;
            assert(previous.used[start + n] == key);
        }
        if is_used_in(previous.used, start, end, key) {
            let n = choose|n: int| start <= n < end && #[trigger] previous.used[n] == key;
            assert(taken[n - start] == key);
        }
    }
    let previous_after = previous.without_used(start as int, end as int);
    let current_after = current.with_used(previous, start as int, end as int);
    assert forall|key: Key|
        {
            let moves = is_used_in(previous.used, start, end, key)
                && previous.layouts.contains_key(key);
            &&& #[trigger] current_after.layouts.contains_key(key) == (moves
                || current.layouts.contains_key(key))
            &&& moves ==> current_after.layouts[key] == previous.layouts[key]
            &&& !moves && current.layouts.contains_key(key) ==> current_after.layouts[key]
                == current.layouts[key]
        } by {
        assert(keys.contains(key) == is_used_in(previous.used, start, end, key));
    }
    assert forall|key: Key|
        {
            &&& #[trigger] previous_after.layouts.contains_key(key)
                == (previous.layouts.contains_key(key) && !is_used_in(
                previous.used,
                start,
                end,
                key,
            ))
            &&& previous_after.layouts.contains_key(key) ==> previous_after.layouts[key]
                == previous.layouts[key]
        } by {
        assert(keys.contains(key) == is_used_in(previous.used, start, end, key));
    }
}

/// Taking over a stretch of uses moves the layouts that they were of, and no others, from the
/// previous frame to the current one, and records the uses there, of each kind.
pub proof fn reusing_moves_what_was_used(
    cache: CacheView,
    start: LineLayoutIndex,
    end: LineLayoutIndex,
)
    requires
        start.is_start_of(end, cache.previous),
    ensures
        ({
            let after = cache.after_reuse(start, end);
            let (previous, current) = (cache.previous, cache.current);
            &&& has_gone_over(
                previous.lines,
                current.lines,
                start.lines_index,
                end.lines_index,
                after.previous.lines,
                after.current.lines,
            )
            &&& has_gone_over(
                previous.wrapped_lines,
                current.wrapped_lines,
                start.wrapped_lines_index,
                end.wrapped_lines_index,
                after.previous.wrapped_lines,
                after.current.wrapped_lines,
            )
            &&& has_gone_over(
                previous.lines_by_hash,
                current.lines_by_hash,
                start.lines_by_hash_index,
                end.lines_by_hash_index,
                after.previous.lines_by_hash,
                after.current.lines_by_hash,
            )
            &&& has_gone_over(
                previous.wrapped_lines_by_hash,
                current.wrapped_lines_by_hash,
                start.wrapped_lines_by_hash_index,
                end.wrapped_lines_by_hash_index,
                after.previous.wrapped_lines_by_hash,
                after.current.wrapped_lines_by_hash,
            )
        }),
{
    let (previous, current) = (cache.previous, cache.current);
    lemma_has_gone_over(
        previous.lines,
        current.lines,
        start.lines_index,
        end.lines_index,
    );
    lemma_has_gone_over(
        previous.wrapped_lines,
        current.wrapped_lines,
        start.wrapped_lines_index,
        end.wrapped_lines_index,
    );
    lemma_has_gone_over(
        previous.lines_by_hash,
        current.lines_by_hash,
        start.lines_by_hash_index,
        end.lines_by_hash_index,
    );
    lemma_has_gone_over(
        previous.wrapped_lines_by_hash,
        current.wrapped_lines_by_hash,
        start.wrapped_lines_by_hash_index,
        end.wrapped_lines_by_hash_index,
    );
}

/// A stretch of uses can be taken over if it is one of those that the previous frame has
/// recorded, of each kind.
pub proof fn stretches_are_recorded(
    start: LineLayoutIndex,
    end: LineLayoutIndex,
    frame: FrameView,
)
    ensures
        start.is_start_of(end, frame) <==> {
            &&& start.lines_index <= end.lines_index
            &&& end.lines_index <= frame.lines.used.len()
            &&& start.wrapped_lines_index <= end.wrapped_lines_index
            &&& end.wrapped_lines_index <= frame.wrapped_lines.used.len()
            &&& start.lines_by_hash_index <= end.lines_by_hash_index
            &&& end.lines_by_hash_index <= frame.lines_by_hash.used.len()
            &&& start.wrapped_lines_by_hash_index <= end.wrapped_lines_by_hash_index
            &&& end.wrapped_lines_by_hash_index <= frame.wrapped_lines_by_hash.used.len()
        },
{
}

} // verus!
