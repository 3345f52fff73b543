//! A cache of laid out lines that lives for two frames.
//!
//! Lines that the current frame asks for are kept for the next one. A line that the previous
//! frame had is moved over when it is asked for again; what is not asked for is forgotten when
//! the frame after ends.

use crate::geometry::{px, Pixels};
use crate::inline_lists::{FontRun, FontRuns, MAX_ITEMS};
use crate::keys::{
    CacheKey, CacheKeyRef, HashedCacheKey, HashedCacheKeyRef, HashedLineKey, LineKey,
};
use crate::layout::LineLayout;
use crate::snap::{OptionsView, ShapeLineOptions, SnapMode, SnapModeRef};
use crate::table::{LayoutTable, TableView};
use crate::wrapped::WrappedLineLayout;
use std::ops::Range;
use std::sync::Arc;
use vstd::prelude::*;

verus! {

/// What lays out text on the platform at hand.
pub trait PlatformTextSystem {
    /// Whether the text system may be asked to lay out a line. By default it may be asked at any
    /// time; an implementor can say otherwise. The cache asks only for lines that it does not
    /// have.
    open spec fn may_ask(&self, text: Seq<char>, font_size: Pixels, runs: Seq<FontRun>) -> bool {
        true
    }

    /// Lay out a line of text in the given font runs.
    fn layout_line(&self, text: &str, font_size: Pixels, runs: &[FontRun]) -> LineLayout
        requires
            self.may_ask(text@, font_size, runs@),
    ;
}

/// A cache of laid out lines.
pub struct LineLayoutCache<P> {
    previous_frame: FrameCache,
    current_frame: FrameCache,
    platform_text_system: P,
}

/// The lines that one frame holds: with their text and by the hash of their text, unwrapped
/// and wrapped.
struct FrameCache {
    lines: LayoutTable<CacheKey, LineLayout>,
    wrapped_lines: LayoutTable<CacheKey, WrappedLineLayout>,
    lines_by_hash: LayoutTable<HashedCacheKey, LineLayout>,
    wrapped_lines_by_hash: LayoutTable<HashedCacheKey, WrappedLineLayout>,
}

/// How many uses a frame has recorded of each kind of line.
#[derive(Clone, Copy, Debug, Default)]
pub struct LineLayoutIndex {
    pub lines_index: usize,
    pub wrapped_lines_index: usize,
    pub lines_by_hash_index: usize,
    pub wrapped_lines_by_hash_index: usize,
}

/// What one frame of the cache is.
#[verifier::ext_equal]
pub struct FrameView {
    pub lines: TableView<LineKey, LineLayout>,
    pub wrapped_lines: TableView<LineKey, WrappedLineLayout>,
    pub lines_by_hash: TableView<HashedLineKey, LineLayout>,
    pub wrapped_lines_by_hash: TableView<HashedLineKey, WrappedLineLayout>,
}

/// What the cache is.
#[verifier::ext_equal]
pub struct CacheView {
    pub previous: FrameView,
    pub current: FrameView,
}

/// Whether the text system may lay out a text like this.
pub open spec fn lays_out<P: PlatformTextSystem>(
    platform: P,
    text: Seq<char>,
    font_size: Pixels,
    runs: Seq<FontRun>,
    layout: LineLayout,
) -> bool {
    exists|text_ref: &str, runs_ref: &[FontRun]|
        {
            &&& text_ref@ == text
            &&& runs_ref@ == runs
            &&& #[trigger] call_ensures(
                P::layout_line,
                (&platform, text_ref, font_size, runs_ref),
                layout,
            )
        }
}

/// Whether a layout is one for a key: what the options of the key make of a layout that the
/// text system may give.
pub open spec fn is_line<P: PlatformTextSystem>(
    platform: P,
    key: LineKey,
    layout: LineLayout,
) -> bool {
    exists|raw: LineLayout|
        {
            &&& #[trigger] lays_out(platform, key.text, key.font_size, key.runs, raw)
            &&& key.options.can_apply(raw@, key.text_len())
            &&& layout@ == key.options.apply(raw@, key.text_len())
        }
}

/// Whether the options of a key can be applied to whatever the text system may give for it.
pub open spec fn can_lay_out<P: PlatformTextSystem>(platform: P, key: LineKey) -> bool {
    forall|raw: LineLayout| #[trigger]
        lays_out(platform, key.text, key.font_size, key.runs, raw) ==> key.options.can_apply(
            raw@,
            key.text_len(),
        )
}

/// Whether a line can be wrapped like this, whatever the text system may give for its text.
pub open spec fn can_lay_out_wrapped<P: PlatformTextSystem, F: Fn(char) -> bool>(
    platform: P,
    key: LineKey,
    max_lines: Option<usize>,
    is_word_char: F,
) -> bool {
    forall|layout: LineLayout| #[trigger]
        is_line(platform, key.unwrapped(), layout) ==> crate::wrap::can_wrap(
            is_word_char,
            layout@,
            key.text,
            key.wrap_width,
            max_lines,
        )
}

/// Whether a wrapped line is one for a key: a layout of the same text without a wrap width,
/// wrapped to the wrap width of the key. How many lines there may be at most is not part of
/// the key.
pub open spec fn is_wrapped_line<P: PlatformTextSystem>(
    platform: P,
    key: LineKey,
    wrapped: WrappedLineLayout,
) -> bool {
    &&& is_line(platform, key.unwrapped(), *wrapped.unwrapped_layout)
    &&& wrapped.wrap_width == key.wrap_width
    &&& wrapped@.wf()
    &&& exists|words: Seq<bool>, max_lines: Option<usize>|
        wrapped@.boundaries == #[trigger] crate::wrap::boundaries_of(
            wrapped@.layout,
            key.text,
            words,
            key.wrap_width,
            max_lines,
        )
}

/// Whether a layout is one for a hashed key: one for the key with some text in place of the
/// hash.
pub open spec fn is_hashed_line<P: PlatformTextSystem>(
    platform: P,
    key: HashedLineKey,
    layout: LineLayout,
) -> bool {
    exists|text: Seq<char>| is_line(platform, #[trigger] key.of_text(text), layout)
}

impl FrameView {
    /// The frame that holds nothing.
    pub open spec fn empty() -> FrameView {
        FrameView {
            lines: TableView::empty(),
            wrapped_lines: TableView::empty(),
            lines_by_hash: TableView::empty(),
            wrapped_lines_by_hash: TableView::empty(),
        }
    }

    /// Whether each line is one for its key.
    pub open spec fn is_sound<P: PlatformTextSystem>(self, platform: P) -> bool {
        &&& forall|key: LineKey| #[trigger]
            self.lines.layouts.contains_key(key) ==> is_line(
                platform,
                key,
                self.lines.layouts[key],
            )
        &&& forall|key: LineKey| #[trigger]
            self.wrapped_lines.layouts.contains_key(key) ==> is_wrapped_line(
                platform,
                key,
                self.wrapped_lines.layouts[key],
            )
        &&& forall|key: HashedLineKey| #[trigger]
            self.lines_by_hash.layouts.contains_key(key) ==> is_hashed_line(
                platform,
                key,
                self.lines_by_hash.layouts[key],
            )
    }
}

impl LineLayoutIndex {
    /// Whether a stretch of uses from this index to another is one that a frame has recorded.
    pub open spec fn is_start_of(self, end: LineLayoutIndex, frame: FrameView) -> bool {
        &&& self.lines_index <= end.lines_index <= frame.lines.used.len()
        &&& self.wrapped_lines_index <= end.wrapped_lines_index <= frame.wrapped_lines.used.len()
        &&& self.lines_by_hash_index <= end.lines_by_hash_index <= frame.lines_by_hash.used.len()
        &&& self.wrapped_lines_by_hash_index <= end.wrapped_lines_by_hash_index
            <= frame.wrapped_lines_by_hash.used.len()
    }
}

/// The first `len` uses, or all if there are fewer.
pub open spec fn first_uses<Key>(used: Seq<Key>, len: usize) -> Seq<Key> {
    if len <= used.len() {
        used.take(len as int)
    } else {
        used
    }
}

impl CacheView {
    /// The cache that holds nothing.
    pub open spec fn empty() -> CacheView {
        CacheView { previous: FrameView::empty(), current: FrameView::empty() }
    }

    /// Whether each use that is recorded is of a line that the cache still has.
    pub open spec fn keeps_used(self) -> bool {
        &&& TableView::keeps_used(self.previous.lines, self.current.lines)
        &&& TableView::keeps_used(self.previous.wrapped_lines, self.current.wrapped_lines)
        &&& TableView::keeps_used(self.previous.lines_by_hash, self.current.lines_by_hash)
        &&& TableView::keeps_used(
            self.previous.wrapped_lines_by_hash,
            self.current.wrapped_lines_by_hash,
        )
    }

    /// Whether no line with its text is in both frames, and no line by hash that the previous
    /// frame would still give out.
    pub open spec fn frames_are_apart(self) -> bool {
        &&& forall|key: LineKey| #[trigger]
            self.current.lines.layouts.contains_key(key)
                ==> !self.previous.lines.layouts.contains_key(key)
        &&& forall|key: LineKey| #[trigger]
            self.current.wrapped_lines.layouts.contains_key(key)
                ==> !self.previous.wrapped_lines.layouts.contains_key(key)
        &&& forall|key: HashedLineKey| #[trigger]
            self.current.lines_by_hash.layouts.contains_key(key)
                ==> !self.previous.lines_by_hash.layouts.contains_key(key)
                || !self.previous.lines_by_hash.used.contains(key)
    }

    /// Whether each line is one for its key.
    pub open spec fn is_sound<P: PlatformTextSystem>(self, platform: P) -> bool {
        self.previous.is_sound(platform) && self.current.is_sound(platform)
    }

    /// The line that the cache has under a key.
    pub open spec fn line(self, key: LineKey) -> Option<LineLayout> {
        if self.current.lines.layouts.contains_key(key) {
            Some(self.current.lines.layouts[key])
        } else if self.previous.lines.layouts.contains_key(key) {
            Some(self.previous.lines.layouts[key])
        } else {
            None
        }
    }

    /// The wrapped line that the cache has under a key.
    pub open spec fn wrapped_line(self, key: LineKey) -> Option<WrappedLineLayout> {
        if self.current.wrapped_lines.layouts.contains_key(key) {
            Some(self.current.wrapped_lines.layouts[key])
        } else if self.previous.wrapped_lines.layouts.contains_key(key) {
            Some(self.previous.wrapped_lines.layouts[key])
        } else {
            None
        }
    }

    /// The line that the cache has under a hashed key.
    pub open spec fn hashed_line(self, key: HashedLineKey) -> Option<LineLayout> {
        if self.current.lines_by_hash.layouts.contains_key(key) {
            Some(self.current.lines_by_hash.layouts[key])
        } else if self.previous.lines_by_hash.layouts.contains_key(key) {
            Some(self.previous.lines_by_hash.layouts[key])
        } else {
            None
        }
    }

    /// The line that the cache gives out under a hashed key. A line of the previous frame is
    /// only given out again if a use of it is still recorded.
    pub open spec fn used_hashed_line(self, key: HashedLineKey) -> Option<LineLayout> {
        if self.current.lines_by_hash.layouts.contains_key(key)
            || self.previous.lines_by_hash.used.contains(key) {
            self.hashed_line(key)
        } else {
            None
        }
    }

    /// The cache after a line was asked for and given out. A line that the current frame does
    /// not have yet becomes one of its lines and leaves the previous frame.
    pub open spec fn after_line(self, key: LineKey, layout: LineLayout) -> CacheView {
        if self.current.lines.layouts.contains_key(key) {
            self
        } else {
            CacheView {
                previous: FrameView { lines: self.previous.lines.without(key), ..self.previous },
                current: FrameView {
                    lines: self.current.lines.with(key, layout),
                    ..self.current
                },
            }
        }
    }

    /// The cache after a wrapped line was asked for and given out. One that the cache does not
    /// have has had its unwrapped line asked for first.
    pub open spec fn after_wrapped_line(self, key: LineKey, wrapped: WrappedLineLayout) -> CacheView {
        if self.current.wrapped_lines.layouts.contains_key(key) {
            self
        } else {
            let with_line = if self.previous.wrapped_lines.layouts.contains_key(key) {
                self
            } else {
                self.after_line(key.unwrapped(), *wrapped.unwrapped_layout)
            };
            CacheView {
                previous: FrameView {
                    wrapped_lines: with_line.previous.wrapped_lines.without(key),
                    ..with_line.previous
                },
                current: FrameView {
                    wrapped_lines: with_line.current.wrapped_lines.with(key, wrapped),
                    ..with_line.current
                },
            }
        }
    }

    /// The cache after a line was asked for by the hash of its text and given out. A line that
    /// the current frame does not have yet becomes one of its lines; it leaves the previous
    /// frame if that is where it came from.
    pub open spec fn after_hashed_line(self, key: HashedLineKey, layout: LineLayout) -> CacheView {
        if self.current.lines_by_hash.layouts.contains_key(key) {
            self
        } else {
            CacheView {
                previous: if self.previous.lines_by_hash.used.contains(key) {
                    FrameView {
                        lines_by_hash: self.previous.lines_by_hash.without(key),
                        ..self.previous
                    }
                } else {
                    self.previous
                },
                current: FrameView {
                    lines_by_hash: self.current.lines_by_hash.with(key, layout),
                    ..self.current
                },
            }
        }
    }

    /// The cache after a stretch of the uses of the previous frame was taken over.
    pub open spec fn after_reuse(self, start: LineLayoutIndex, end: LineLayoutIndex) -> CacheView {
        let (a, b) = (start.lines_index as int, end.lines_index as int);
        let (c, d) = (start.wrapped_lines_index as int, end.wrapped_lines_index as int);
        let (e, f) = (start.lines_by_hash_index as int, end.lines_by_hash_index as int);
        let (g, h) = (
            start.wrapped_lines_by_hash_index as int,
            end.wrapped_lines_by_hash_index as int,
        );
        let previous = self.previous;
        let current = self.current;
        CacheView {
            previous: FrameView {
                lines: previous.lines.without_used(a, b),
                wrapped_lines: previous.wrapped_lines.without_used(c, d),
                lines_by_hash: previous.lines_by_hash.without_used(e, f),
                wrapped_lines_by_hash: previous.wrapped_lines_by_hash.without_used(g, h),
            },
            current: FrameView {
                lines: current.lines.with_used(previous.lines, a, b),
                wrapped_lines: current.wrapped_lines.with_used(previous.wrapped_lines, c, d),
                lines_by_hash: current.lines_by_hash.with_used(previous.lines_by_hash, e, f),
                wrapped_lines_by_hash: current.wrapped_lines_by_hash.with_used(
                    previous.wrapped_lines_by_hash,
                    g,
                    h,
                ),
            },
        }
    }

    /// The cache after the current frame went back to an earlier point of its uses. It keeps
    /// the lines that it got since.
    pub open spec fn after_truncate(self, index: LineLayoutIndex) -> CacheView {
        let current = self.current;
        CacheView {
            previous: self.previous,
            current: FrameView {
                lines: TableView {
                    used: first_uses(current.lines.used, index.lines_index),
                    ..current.lines
                },
                wrapped_lines: TableView {
                    used: first_uses(current.wrapped_lines.used, index.wrapped_lines_index),
                    ..current.wrapped_lines
                },
                lines_by_hash: TableView {
                    used: first_uses(current.lines_by_hash.used, index.lines_by_hash_index),
                    ..current.lines_by_hash
                },
                wrapped_lines_by_hash: TableView {
                    used: first_uses(
                        current.wrapped_lines_by_hash.used,
                        index.wrapped_lines_by_hash_index,
                    ),
                    ..current.wrapped_lines_by_hash
                },
            },
        }
    }

    /// The cache after the current frame ended and a new one started.
    pub open spec fn after_frame(self) -> CacheView {
        CacheView { previous: self.current, current: FrameView::empty() }
    }
}

/// Whether a cache may be asked for a line: if it does not have it, the text system may be
/// asked.
pub open spec fn may_ask_for_line<P: PlatformTextSystem>(
    platform: P,
    cache: CacheView,
    key: LineKey,
) -> bool {
    cache.line(key) is None ==> platform.may_ask(key.text, key.font_size, key.runs)
}

/// Whether a cache may be asked for a wrapped line: if it does not have it, the cache may be
/// asked for the unwrapped line, and if that is to be broken, `is_word_char` may be called.
pub open spec fn may_ask_for_wrapped_line<P: PlatformTextSystem, F: Fn(char) -> bool>(
    platform: P,
    cache: CacheView,
    key: LineKey,
    is_word_char: F,
) -> bool {
    cache.wrapped_line(key) is None ==> {
        &&& may_ask_for_line(platform, cache, key.unwrapped())
        &&& key.wrap_width is Some ==> forall|ch: char| call_requires(is_word_char, (ch,))
    }
}

/// Whether a cache may be asked for a line by the hash of its text: if it has none to give out,
/// `materialize_text` may be called, and the text system may be asked for what it gives.
pub open spec fn may_ask_for_hashed_line<P: PlatformTextSystem, F: FnOnce() -> String>(
    platform: P,
    cache: CacheView,
    key: HashedLineKey,
    materialize_text: F,
) -> bool {
    cache.used_hashed_line(key) is None ==> {
        &&& call_requires(materialize_text, ())
        &&& forall|text: String| #[trigger]
            call_ensures(materialize_text, (), text) ==> platform.may_ask(
                text@,
                key.font_size,
                key.runs,
            )
    }
}

/// Whether a cache that is asked for a line may give out a layout and become another cache: it
/// gives out what it has under the key, or else lays the line out.
pub open spec fn gives_line<P: PlatformTextSystem>(
    platform: P,
    before: CacheView,
    key: LineKey,
    layout: LineLayout,
    after: CacheView,
) -> bool {
    &&& is_line(platform, key, layout)
    &&& before.line(key) matches Some(cached) ==> layout == cached
    &&& after == before.after_line(key, layout)
}

/// Whether a cache that is asked for a wrapped line may give one out and become another cache:
/// it gives out what it has under the key, or else wraps the line that it has for the text or
/// lays out.
pub open spec fn gives_wrapped_line<P: PlatformTextSystem, F: Fn(char) -> bool>(
    platform: P,
    before: CacheView,
    key: LineKey,
    max_lines: Option<usize>,
    is_word_char: F,
    wrapped: WrappedLineLayout,
    after: CacheView,
) -> bool {
    &&& is_wrapped_line(platform, key, wrapped)
    &&& after == before.after_wrapped_line(key, wrapped)
    &&& match before.wrapped_line(key) {
        Some(cached) => wrapped == cached,
        None => {
            &&& before.line(key.unwrapped()) matches Some(cached) ==> *wrapped.unwrapped_layout
                == cached
            &&& crate::wrap::may_break(
                is_word_char,
                wrapped@.layout,
                key.text,
                key.wrap_width,
                max_lines,
                Some(wrapped@.boundaries),
            )
        },
    }
}

/// Whether a cache that is asked for a line by the hash of its text may give out a layout and
/// become another cache: it gives out what it has under the key, or else lays out the text
/// that `materialize_text` gives.
pub open spec fn gives_hashed_line<P: PlatformTextSystem, F: FnOnce() -> String>(
    platform: P,
    before: CacheView,
    key: HashedLineKey,
    materialize_text: F,
    layout: LineLayout,
    after: CacheView,
) -> bool {
    &&& is_hashed_line(platform, key, layout)
    &&& after == before.after_hashed_line(key, layout)
    &&& match before.used_hashed_line(key) {
        Some(cached) => layout == cached,
        None => exists|text: String|
            {
                &&& #[trigger] call_ensures(materialize_text, (), text)
                &&& is_line(platform, key.of_text(text@), layout)
            },
    }
}

impl View for FrameCache {
    type V = FrameView;

    closed spec fn view(&self) -> FrameView {
        FrameView {
            lines: self.lines@,
            wrapped_lines: self.wrapped_lines@,
            lines_by_hash: self.lines_by_hash@,
            wrapped_lines_by_hash: self.wrapped_lines_by_hash@,
        }
    }
}

impl FrameCache {
    spec fn wf(self) -> bool {
        &&& self.lines.wf()
        &&& self.wrapped_lines.wf()
        &&& self.lines_by_hash.wf()
        &&& self.wrapped_lines_by_hash.wf()
    }

    fn new() -> (frame: FrameCache)
        ensures
            frame.wf(),
            frame@ == FrameView::empty(),
    {
        FrameCache {
            lines: LayoutTable::new(),
            wrapped_lines: LayoutTable::new(),
            lines_by_hash: LayoutTable::new(),
            wrapped_lines_by_hash: LayoutTable::new(),
        }
    }
}

impl<P> View for LineLayoutCache<P> {
    type V = CacheView;

    closed spec fn view(&self) -> CacheView {
        CacheView { previous: self.previous_frame@, current: self.current_frame@ }
    }
}

/// A line that moves from one frame to the next is not lost.
proof fn lemma_take_over_keeps_used<Key, V>(
    previous: TableView<Key, V>,
    current: TableView<Key, V>,
    key: Key,
)
    requires
        TableView::keeps_used(previous, current),
    ensures
        forall|layout: V|
            #![trigger current.with(key, layout)]
            {
                &&& TableView::keeps_used(previous.without(key), current.with(key, layout))
                &&& TableView::keeps_used(previous, current.with(key, layout))
            },
{
    assert forall|layout: V|
        #![trigger current.with(key, layout)]
        {
            &&& TableView::keeps_used(previous.without(key), current.with(key, layout))
            &&& TableView::keeps_used(previous, current.with(key, layout))
        } by {
        let after = current.with(key, layout);
        assert forall|n: int| 0 <= n < after.used.len() implies after.layouts.contains_key(
            #[trigger] after.used[n],
        ) by {
            if n < current.used.len() {
                assert(current.layouts.contains_key(current.used[n]));
            }
        }
    }
}

/// A stretch of uses that moves from one frame to the next is not lost.
proof fn lemma_reuse_keeps_used<Key, V>(
    previous: TableView<Key, V>,
    current: TableView<Key, V>,
    start: int,
    end: int,
)
    requires
        TableView::keeps_used(previous, current),
        0 <= start <= end <= previous.used.len(),
    ensures
        TableView::keeps_used(
            previous.without_used(start, end),
            current.with_used(previous, start, end),
        ),
{
    let taken = previous.used.subrange(start, end);
    let after = current.with_used(previous, start, end);
    assert forall|n: int| 0 <= n < after.used.len() implies after.layouts.contains_key(
        #[trigger] after.used[n],
    ) by {
        if n < current.used.len() {
            assert(current.layouts.contains_key(current.used[n]));
        } else {
            let m = n - current.used.len();
            assert(after.used[n] == taken[m]);
            assert(taken[m] == previous.used[start + m]);
            assert(taken.contains(taken[m]));
        }
    }
}

impl<P: PlatformTextSystem> LineLayoutCache<P> {
    /// The text system that lays out the lines.
    pub closed spec fn platform(self) -> P {
        self.platform_text_system
    }

    /// Whether no table of the cache has a key twice.
    pub closed spec fn tables_wf(self) -> bool {
        self.previous_frame.wf() && self.current_frame.wf()
    }

    /// Whether the cache is one that its methods have made: each line is one for its key, each
    /// use that is recorded is of a line that the cache still has, and the frames do not share
    /// lines that they give out.
    pub open spec fn wf(self) -> bool {
        &&& self.tables_wf()
        &&& self@.keeps_used()
        &&& self@.frames_are_apart()
        &&& self@.is_sound(self.platform())
    }

    /// An empty cache for the lines of a text system.
    pub fn new(platform_text_system: P) -> (cache: Self)
        ensures
            cache.wf(),
            cache.platform() == platform_text_system,
            cache@ == CacheView::empty(),
    {
        LineLayoutCache {
            previous_frame: FrameCache::new(),
            current_frame: FrameCache::new(),
            platform_text_system,
        }
    }

    /// Where the current frame is in its uses.
    pub fn layout_index(&self) -> (index: LineLayoutIndex)
        ensures
            index.lines_index == self@.current.lines.used.len(),
            index.wrapped_lines_index == self@.current.wrapped_lines.used.len(),
            index.lines_by_hash_index == self@.current.lines_by_hash.used.len(),
            index.wrapped_lines_by_hash_index == self@.current.wrapped_lines_by_hash.used.len(),
    {
        LineLayoutIndex {
            lines_index: self.current_frame.lines.used_len(),
            wrapped_lines_index: self.current_frame.wrapped_lines.used_len(),
            lines_by_hash_index: self.current_frame.lines_by_hash.used_len(),
            wrapped_lines_by_hash_index: self.current_frame.wrapped_lines_by_hash.used_len(),
        }
    }

    /// Take over a stretch of the uses of the previous frame, with the lines that they were
    /// of.
    pub fn reuse_layouts(&mut self, range: Range<LineLayoutIndex>)
        requires
            old(self).wf(),
            range.start.is_start_of(range.end, old(self)@.previous),
        ensures
            final(self).wf(),
            final(self).platform() == old(self).platform(),
            final(self)@ == old(self)@.after_reuse(range.start, range.end),
    {
        let start = range.start;
        let end = range.end;
        let ghost before = self@;
        proof {
            lemma_reuse_keeps_used(
                before.previous.lines,
                before.current.lines,
                start.lines_index as int,
                end.lines_index as int,
            );
            lemma_reuse_keeps_used(
                before.previous.wrapped_lines,
                before.current.wrapped_lines,
                start.wrapped_lines_index as int,
                end.wrapped_lines_index as int,
            );
            lemma_reuse_keeps_used(
                before.previous.lines_by_hash,
                before.current.lines_by_hash,
                start.lines_by_hash_index as int,
                end.lines_by_hash_index as int,
            );
            lemma_reuse_keeps_used(
                before.previous.wrapped_lines_by_hash,
                before.current.wrapped_lines_by_hash,
                start.wrapped_lines_by_hash_index as int,
                end.wrapped_lines_by_hash_index as int,
            );
        }
        self.current_frame.lines.reuse(
            &mut self.previous_frame.lines,
            start.lines_index,
            end.lines_index,
        );
        self.current_frame.wrapped_lines.reuse(
            &mut self.previous_frame.wrapped_lines,
            start.wrapped_lines_index,
            end.wrapped_lines_index,
        );
        self.current_frame.lines_by_hash.reuse(
            &mut self.previous_frame.lines_by_hash,
            start.lines_by_hash_index,
            end.lines_by_hash_index,
        );
        self.current_frame.wrapped_lines_by_hash.reuse(
            &mut self.previous_frame.wrapped_lines_by_hash,
            start.wrapped_lines_by_hash_index,
            end.wrapped_lines_by_hash_index,
        );
    }

    /// Go back to an earlier point of the uses of the current frame.
    pub fn truncate_layouts(&mut self, index: LineLayoutIndex)
        requires
            old(self).wf(),
        ensures
            final(self).wf(),
            final(self).platform() == old(self).platform(),
            final(self)@ == old(self)@.after_truncate(index),
    {
        self.current_frame.lines.truncate_used(index.lines_index);
        self.current_frame.wrapped_lines.truncate_used(index.wrapped_lines_index);
        self.current_frame.lines_by_hash.truncate_used(index.lines_by_hash_index);
        self.current_frame.wrapped_lines_by_hash.truncate_used(index.wrapped_lines_by_hash_index);
        assert(self@ =~= old(self)@.after_truncate(index));
    }

    /// End the current frame and start a new one. The lines of the frame before are forgotten.
    pub fn finish_frame(&mut self)
        requires
            old(self).wf(),
        ensures
            final(self).wf(),
            final(self).platform() == old(self).platform(),
            final(self)@ == old(self)@.after_frame(),
    {
        std::mem::swap(&mut self.previous_frame, &mut self.current_frame);
        self.current_frame.lines.clear();
        self.current_frame.wrapped_lines.clear();
        self.current_frame.lines_by_hash.clear();
        self.current_frame.wrapped_lines_by_hash.clear();
    }

    /// Whether a stretch of uses is one that the previous frame has recorded, so that it can be
    /// taken over.
    pub fn can_reuse(&self, range: &Range<LineLayoutIndex>) -> (can: bool)
        ensures
            can == range.start.is_start_of(range.end, self@.previous),
    {
        let start = range.start;
        let end = range.end;
        let frame = &self.previous_frame;
        start.lines_index <= end.lines_index && end.lines_index <= frame.lines.used_len()
            && start.wrapped_lines_index <= end.wrapped_lines_index && end.wrapped_lines_index
            <= frame.wrapped_lines.used_len() && start.lines_by_hash_index
            <= end.lines_by_hash_index && end.lines_by_hash_index
            <= frame.lines_by_hash.used_len() && start.wrapped_lines_by_hash_index
            <= end.wrapped_lines_by_hash_index && end.wrapped_lines_by_hash_index
            <= frame.wrapped_lines_by_hash.used_len()
    }

    /// Lay out a line of text, with its glyphs on a grid if `force_width` is given.
    pub fn layout_line(
        &mut self,
        text: &str,
        font_size: Pixels,
        runs: &[FontRun],
        force_width: Option<Pixels>,
    ) -> (layout: Arc<LineLayout>)
        requires
            old(self).wf(),
            runs@.len() <= MAX_ITEMS,
            ({
                let key = LineKey::of_line(
                    text@,
                    font_size,
                    runs@,
                    OptionsView::plain(force_width),
                );
                &&& may_ask_for_line(old(self).platform(), old(self)@, key)
                &&& old(self)@.line(key) is None ==> can_lay_out(old(self).platform(), key)
            }),
        ensures
            final(self).wf(),
            final(self).platform() == old(self).platform(),
            gives_line(
                old(self).platform(),
                old(self)@,
                LineKey::of_line(text@, font_size, runs@, OptionsView::plain(force_width)),
                *layout,
                final(self)@,
            ),
    {
        let opts = ShapeLineOptions {
            force_width,
            snap_tolerance: px(1),
            snap_mode: SnapMode::GlyphIndex,
        };
        assert(opts@.normalized() == OptionsView::plain(force_width));
        self.layout_line_with(text, font_size, runs, opts)
    }

    /// Lay out a line of text, with its glyphs on the grid that the options give.
    pub fn layout_line_with(
        &mut self,
        text: &str,
        font_size: Pixels,
        runs: &[FontRun],
        opts: ShapeLineOptions,
    ) -> (layout: Arc<LineLayout>)
        requires
            old(self).wf(),
            runs@.len() <= MAX_ITEMS,
            ({
                let key = LineKey::of_line(text@, font_size, runs@, opts@.normalized());
                &&& may_ask_for_line(old(self).platform(), old(self)@, key)
                &&& old(self)@.line(key) is None ==> can_lay_out(old(self).platform(), key)
            }),
        ensures
            final(self).wf(),
            final(self).platform() == old(self).platform(),
            gives_line(
                old(self).platform(),
                old(self)@,
                LineKey::of_line(text@, font_size, runs@, opts@.normalized()),
                *layout,
                final(self)@,
            ),
    {
        self.checked_layout_line_with(text, font_size, runs, opts).unwrap()
    }

    /// Lay out a line of text, with its glyphs on the grid that the options give.
    ///
    /// The result is `None`, and the cache stays as it is, if the text system gives a layout
    /// that does not fit the grid.
    pub fn checked_layout_line_with(
        &mut self,
        text: &str,
        font_size: Pixels,
        runs: &[FontRun],
        opts: ShapeLineOptions,
    ) -> (layout: Option<Arc<LineLayout>>)
        requires
            old(self).wf(),
            runs@.len() <= MAX_ITEMS,
            may_ask_for_line(
                old(self).platform(),
                old(self)@,
                LineKey::of_line(text@, font_size, runs@, opts@.normalized()),
            ),
        ensures
            final(self).wf(),
            final(self).platform() == old(self).platform(),
            ({
                let key = LineKey::of_line(text@, font_size, runs@, opts@.normalized());
                match layout {
                    Some(layout) => gives_line(
                        old(self).platform(),
                        old(self)@,
                        key,
                        *layout,
                        final(self)@,
                    ),
                    None => {
                        &&& final(self)@ == old(self)@
                        &&& old(self)@.line(key) is None
                        &&& !can_lay_out(old(self).platform(), key)
                    },
                }
            }),
    {
        let ghost before = self@;
        let ghost key = LineKey::of_line(text@, font_size, runs@, opts@.normalized());
        let opts = opts.normalized();
        let probe = CacheKeyRef {
            text,
            font_size,
            runs,
            wrap_width: None,
            force_width: opts.force_width,
            snap_tolerance: opts.snap_tolerance,
            snap_mode: opts.snap_mode.as_ref(),
        };
        assert(probe@ == key);
        if let Some(layout) = self.current_frame.lines.get(&probe) {
            return Some(layout);
        }
        proof {
            lemma_take_over_keeps_used(before.previous.lines, before.current.lines, key);
        }
        if let Some(layout) = self.current_frame.lines.take_over(
            &mut self.previous_frame.lines,
            &probe,
        ) {
            assert(self@ == before.after_line(key, *layout));
            return Some(layout);
        }
        assert(self@ == before);
        let raw = self.platform_text_system.layout_line(text, font_size, runs);
        let text_len: usize = text.as_bytes().len();
        assert(lays_out(self.platform(), key.text, key.font_size, key.runs, raw));
        let layout = match opts.apply(raw, text_len) {
            Some(layout) => layout,
            None => {
                return None;
            },
        };
        assert(is_line(self.platform(), key, layout));
        let key = Arc::new(
            CacheKey {
                text: text.to_owned(),
                font_size,
                runs: FontRuns::from_slice(runs),
                wrap_width: None,
                force_width: opts.force_width,
                snap_tolerance: opts.snap_tolerance,
                snap_mode: opts.snap_mode,
            },
        );
        let layout = Arc::new(layout);
        self.current_frame.lines.insert(key, layout.clone());
        proof {
            assert(before.previous.lines.without(key@).layouts =~= before.previous.lines.layouts);
            assert(self@ == before.after_line(key@, *layout));
        }
        Some(layout)
    }
}

impl<P: PlatformTextSystem> LineLayoutCache<P> {
    /// Lay out a line of text and wrap it to fit `wrap_width` in at most `max_lines` lines.
    /// `is_word_char` tells which characters stay together in a word.
    ///
    /// A line that was wrapped before is given out as it is, whatever `max_lines` and
    /// `is_word_char` were then.
    pub fn layout_wrapped_line<F: Fn(char) -> bool>(
        &mut self,
        text: &str,
        font_size: Pixels,
        runs: &[FontRun],
        wrap_width: Option<Pixels>,
        max_lines: Option<usize>,
        is_word_char: &F,
    ) -> (wrapped: Arc<WrappedLineLayout>)
        requires
            old(self).wf(),
            runs@.len() <= MAX_ITEMS,
            ({
                let key = LineKey::of_wrapped_line(text@, font_size, runs@, wrap_width);
                &&& may_ask_for_wrapped_line(
                    old(self).platform(),
                    old(self)@,
                    key,
                    *is_word_char,
                )
                &&& old(self)@.wrapped_line(key) is None ==> can_lay_out_wrapped(
                    old(self).platform(),
                    key,
                    max_lines,
                    *is_word_char,
                )
            }),
        ensures
            final(self).wf(),
            final(self).platform() == old(self).platform(),
            gives_wrapped_line(
                old(self).platform(),
                old(self)@,
                LineKey::of_wrapped_line(text@, font_size, runs@, wrap_width),
                max_lines,
                *is_word_char,
                *wrapped,
                final(self)@,
            ),
    {
        self.checked_layout_wrapped_line(
            text,
            font_size,
            runs,
            wrap_width,
            max_lines,
            is_word_char,
        ).unwrap()
    }

    /// Lay out a line of text and wrap it to fit `wrap_width` in at most `max_lines` lines.
    /// `is_word_char` tells which characters stay together in a word.
    ///
    /// A line that was wrapped before is given out as it is, whatever `max_lines` and
    /// `is_word_char` were then.
    ///
    /// The result is `None` if the text system gives a layout that cannot be wrapped. The cache
    /// then has the unwrapped line all the same.
    pub fn checked_layout_wrapped_line<F: Fn(char) -> bool>(
        &mut self,
        text: &str,
        font_size: Pixels,
        runs: &[FontRun],
        wrap_width: Option<Pixels>,
        max_lines: Option<usize>,
        is_word_char: &F,
    ) -> (wrapped: Option<Arc<WrappedLineLayout>>)
        requires
            old(self).wf(),
            runs@.len() <= MAX_ITEMS,
            may_ask_for_wrapped_line(
                old(self).platform(),
                old(self)@,
                LineKey::of_wrapped_line(text@, font_size, runs@, wrap_width),
                *is_word_char,
            ),
        ensures
            final(self).wf(),
            final(self).platform() == old(self).platform(),
            ({
                let key = LineKey::of_wrapped_line(text@, font_size, runs@, wrap_width);
                match wrapped {
                    Some(wrapped) => gives_wrapped_line(
                        old(self).platform(),
                        old(self)@,
                        key,
                        max_lines,
                        *is_word_char,
                        *wrapped,
                        final(self)@,
                    ),
                    None => {
                        &&& old(self)@.wrapped_line(key) is None
                        &&& exists|layout: LineLayout|
                            {
                                &&& #[trigger] gives_line(
                                    old(self).platform(),
                                    old(self)@,
                                    key.unwrapped(),
                                    layout,
                                    final(self)@,
                                )
                                &&& crate::wrap::may_break(
                                    *is_word_char,
                                    layout@,
                                    text@,
                                    wrap_width,
                                    max_lines,
                                    None,
                                )
                            }
                    },
                }
            }),
    {
        let ghost before = self@;
        let ghost key = LineKey::of_wrapped_line(text@, font_size, runs@, wrap_width);
        let probe = CacheKeyRef {
            text,
            font_size,
            runs,
            wrap_width,
            force_width: None,
            snap_tolerance: px(1),
            snap_mode: SnapModeRef::GlyphIndex,
        };
        assert(probe@ == key);
        if let Some(wrapped) = self.current_frame.wrapped_lines.get(&probe) {
            return Some(wrapped);
        }
        if let Some(wrapped) = self.current_frame.wrapped_lines.take_over(
            &mut self.previous_frame.wrapped_lines,
            &probe,
        ) {
            proof {
                lemma_take_over_keeps_used(
                    before.previous.wrapped_lines,
                    before.current.wrapped_lines,
                    key,
                );
                assert(self@ == before.after_wrapped_line(key, *wrapped));
            }
            return Some(wrapped);
        }
        assert(self@ == before);
        let unwrapped_layout = self.layout_line(text, font_size, runs, None);
        let ghost with_line = self@;
        assert(gives_line(
            self.platform(),
            before,
            key.unwrapped(),
            *unwrapped_layout,
            with_line,
        ));
        let wrapped = match WrappedLineLayout::wrap(
            unwrapped_layout,
            text,
            wrap_width,
            max_lines,
            is_word_char,
        ) {
            Some(wrapped) => wrapped,
            None => {
                return None;
            },
        };
        proof {
            let words = match wrap_width {
                Some(width) => choose|words: Seq<bool>|
                    {
                        &&& #[trigger] crate::wrap::may_classify(
                            *is_word_char,
                            unwrapped_layout@,
                            text@,
                            words,
                            width,
                            max_lines,
                        )
                        &&& Some(wrapped@.boundaries) == crate::wrap::checked_boundaries_of(
                            unwrapped_layout@,
                            text@,
                            words,
                            width,
                            max_lines,
                        )
                    },
                None => Seq::empty(),
            };
            assert(wrapped@.boundaries == crate::wrap::boundaries_of(
                wrapped@.layout,
                key.text,
                words,
                key.wrap_width,
                max_lines,
            ));
            assert(is_wrapped_line(self.platform(), key, wrapped));
        }
        let cache_key = Arc::new(
            CacheKey {
                text: text.to_owned(),
                font_size,
                runs: FontRuns::from_slice(runs),
                wrap_width,
                force_width: None,
                snap_tolerance: px(1),
                snap_mode: SnapMode::GlyphIndex,
            },
        );
        assert(cache_key@ == key);
        let wrapped = Arc::new(wrapped);
        self.current_frame.wrapped_lines.insert(cache_key, wrapped.clone());
        proof {
            lemma_take_over_keeps_used(
                with_line.previous.wrapped_lines,
                with_line.current.wrapped_lines,
                key,
            );
            assert(with_line.previous.wrapped_lines.without(key).layouts
                =~= with_line.previous.wrapped_lines.layouts);
            assert(self@ == before.after_wrapped_line(key, *wrapped));
        }
        Some(wrapped)
    }

    /// Try to retrieve a previously shaped line layout using a caller-provided content hash.
    ///
    /// This does not need the text. If the layout is not already cached in either the current
    /// frame or the previous frame, the result is `None`.
    ///
    /// It is up to the caller that the same `text_hash` means the same text. `text_len` should
    /// be the UTF-8 byte length of the text, which helps to tell texts apart whose hashes
    /// collide.
    pub fn try_layout_line_with_by_hash(
        &self,
        text_hash: u64,
        text_len: usize,
        font_size: Pixels,
        runs: &[FontRun],
        opts: ShapeLineOptions,
    ) -> (layout: Option<Arc<LineLayout>>)
        requires
            self.wf(),
        ensures
            ({
                let key = HashedLineKey::of_hash(
                    text_hash,
                    text_len,
                    font_size,
                    runs@,
                    opts@.normalized(),
                );
                match self@.hashed_line(key) {
                    Some(cached) => layout matches Some(layout) && *layout == cached
                        && is_hashed_line(self.platform(), key, cached),
                    None => layout is None,
                }
            }),
    {
        let ghost key = HashedLineKey::of_hash(
            text_hash,
            text_len,
            font_size,
            runs@,
            opts@.normalized(),
        );
        let opts = opts.normalized();
        let probe = HashedCacheKeyRef {
            text_hash,
            text_len,
            font_size,
            runs,
            wrap_width: None,
            force_width: opts.force_width,
            snap_tolerance: opts.snap_tolerance,
            snap_mode: opts.snap_mode.as_ref(),
        };
        assert(probe@ == key);
        if let Some(layout) = self.current_frame.lines_by_hash.get(&probe) {
            return Some(layout);
        }
        self.previous_frame.lines_by_hash.get(&probe)
    }

    /// Lay out a line of text using a caller-provided content hash as the cache key.
    ///
    /// This finds cached lines without their text: those of the current frame, and those of the
    /// previous frame as long as a use of them is recorded there. A line of the previous frame
    /// whose use was taken back is not given out, though
    /// [`Self::try_layout_line_with_by_hash`] finds it. If there is no line to give out,
    /// `materialize_text` is called for the text to lay out.
    ///
    /// It is up to the caller that the same `text_hash` means the same text. `text_len` should
    /// be the UTF-8 byte length of the text, which helps to tell texts apart whose hashes
    /// collide.
    pub fn layout_line_with_by_hash<F: FnOnce() -> String>(
        &mut self,
        text_hash: u64,
        text_len: usize,
        font_size: Pixels,
        runs: &[FontRun],
        opts: ShapeLineOptions,
        materialize_text: F,
    ) -> (layout: Arc<LineLayout>)
        requires
            old(self).wf(),
            runs@.len() <= MAX_ITEMS,
            ({
                let key = HashedLineKey::of_hash(
                    text_hash,
                    text_len,
                    font_size,
                    runs@,
                    opts@.normalized(),
                );
                &&& may_ask_for_hashed_line(
                    old(self).platform(),
                    old(self)@,
                    key,
                    materialize_text,
                )
                &&& old(self)@.used_hashed_line(key) is None ==> forall|text: String| #[trigger]
                    call_ensures(materialize_text, (), text) ==> can_lay_out(
                        old(self).platform(),
                        key.of_text(text@),
                    )
            }),
        ensures
            final(self).wf(),
            final(self).platform() == old(self).platform(),
            gives_hashed_line(
                old(self).platform(),
                old(self)@,
                HashedLineKey::of_hash(text_hash, text_len, font_size, runs@, opts@.normalized()),
                materialize_text,
                *layout,
                final(self)@,
            ),
    {
        self.checked_layout_line_with_by_hash(
            text_hash,
            text_len,
            font_size,
            runs,
            opts,
            materialize_text,
        ).unwrap()
    }

    /// Lay out a line of text using a caller-provided content hash as the cache key, as
    /// [`Self::layout_line_with_by_hash`] does.
    ///
    /// The result is `None`, and the cache stays as it is, if the text system gives a layout
    /// that does not fit the grid.
    pub fn checked_layout_line_with_by_hash<F: FnOnce() -> String>(
        &mut self,
        text_hash: u64,
        text_len: usize,
        font_size: Pixels,
        runs: &[FontRun],
        opts: ShapeLineOptions,
        materialize_text: F,
    ) -> (layout: Option<Arc<LineLayout>>)
        requires
            old(self).wf(),
            runs@.len() <= MAX_ITEMS,
            may_ask_for_hashed_line(
                old(self).platform(),
                old(self)@,
                HashedLineKey::of_hash(text_hash, text_len, font_size, runs@, opts@.normalized()),
                materialize_text,
            ),
        ensures
            final(self).wf(),
            final(self).platform() == old(self).platform(),
            ({
                let key = HashedLineKey::of_hash(
                    text_hash,
                    text_len,
                    font_size,
                    runs@,
                    opts@.normalized(),
                );
                match layout {
                    Some(layout) => gives_hashed_line(
                        old(self).platform(),
                        old(self)@,
                        key,
                        materialize_text,
                        *layout,
                        final(self)@,
                    ),
                    None => {
                        &&& final(self)@ == old(self)@
                        &&& old(self)@.used_hashed_line(key) is None
                        &&& exists|text: String|
                            {
                                &&& #[trigger] call_ensures(materialize_text, (), text)
                                &&& !can_lay_out(old(self).platform(), key.of_text(text@))
                            }
                    },
                }
            }),
    {
        let ghost before = self@;
        let ghost key = HashedLineKey::of_hash(
            text_hash,
            text_len,
            font_size,
            runs@,
            opts@.normalized(),
        );
        let opts = opts.normalized();
        let probe = HashedCacheKeyRef {
            text_hash,
            text_len,
            font_size,
            runs,
            wrap_width: None,
            force_width: opts.force_width,
            snap_tolerance: opts.snap_tolerance,
            snap_mode: opts.snap_mode.as_ref(),
        };
        assert(probe@ == key);
        if let Some(layout) = self.current_frame.lines_by_hash.get(&probe) {
            return Some(layout);
        }
        if self.previous_frame.lines_by_hash.is_used(&probe) {
            if let Some(layout) = self.current_frame.lines_by_hash.take_over(
                &mut self.previous_frame.lines_by_hash,
                &probe,
            ) {
                proof {
                    lemma_take_over_keeps_used(
                        before.previous.lines_by_hash,
                        before.current.lines_by_hash,
                        key,
                    );
                    assert(self@ == before.after_hashed_line(key, *layout));
                }
                return Some(layout);
            }
        }
        assert(self@ == before);
        let text = materialize_text();
        let raw = self.platform_text_system.layout_line(text.as_str(), font_size, runs);
        let text_bytes: usize = text.as_str().as_bytes().len();
        let ghost line_key = key.of_text(text@);
        assert(lays_out(
            self.platform(),
            line_key.text,
            line_key.font_size,
            line_key.runs,
            raw,
        ));
        let layout = match opts.apply(raw, text_bytes) {
            Some(layout) => layout,
            None => {
                return None;
            },
        };
        assert(is_line(self.platform(), line_key, layout));
        assert(is_hashed_line(self.platform(), key, layout));
        let cache_key = Arc::new(
            HashedCacheKey {
                text_hash,
                text_len,
                font_size,
                runs: FontRuns::from_slice(runs),
                wrap_width: None,
                force_width: opts.force_width,
                snap_tolerance: opts.snap_tolerance,
                snap_mode: opts.snap_mode,
            },
        );
        assert(cache_key@ == key);
        let layout = Arc::new(layout);
        self.current_frame.lines_by_hash.insert(cache_key, layout.clone());
        proof {
            lemma_take_over_keeps_used(
                before.previous.lines_by_hash,
                before.current.lines_by_hash,
                key,
            );
            if before.previous.lines_by_hash.used.contains(key) {
                assert(before.previous.lines_by_hash.without(key).layouts
                    =~= before.previous.lines_by_hash.layouts);
            }
            assert(self@ == before.after_hashed_line(key, *layout));
        }
        Some(layout)
    }
}

} // verus!
