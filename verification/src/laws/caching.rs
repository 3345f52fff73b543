//! What holds of the cache of lines.

use crate::cache::{CacheView, FrameView, LineLayoutIndex, PlatformTextSystem};
use crate::geometry::Pixels;
use crate::keys::{HashedLineKey, LineKey};
use crate::layout::LineLayout;
use crate::snap::OptionsView;
use crate::table::TableView;
use crate::wrapped::WrappedLineLayout;
use vstd::prelude::*;

verus! {

/// Whether the uses of a frame are those that an index stands for.
pub open spec fn is_index_of(index: LineLayoutIndex, frame: FrameView) -> bool {
    &&& index.lines_index == frame.lines.used.len()
    &&& index.wrapped_lines_index == frame.wrapped_lines.used.len()
    &&& index.lines_by_hash_index == frame.lines_by_hash.used.len()
    &&& index.wrapped_lines_by_hash_index == frame.wrapped_lines_by_hash.used.len()
}

/// The index of a frame without uses.
pub open spec fn index_zero() -> LineLayoutIndex {
    LineLayoutIndex {
        lines_index: 0,
        wrapped_lines_index: 0,
        lines_by_hash_index: 0,
        wrapped_lines_by_hash_index: 0,
    }
}

/// A line that was given out is given out again when it is asked for, in the same frame and in
/// the next one, and the text system is not asked again. Asking for it again in the same frame
/// changes nothing.
pub proof fn lines_are_given_out_again<P: PlatformTextSystem>(
    platform: P,
    before: CacheView,
    key: LineKey,
    layout: LineLayout,
    after: CacheView,
)
    requires
        crate::cache::gives_line(platform, before, key, layout, after),
    ensures
        forall|again: LineLayout, then: CacheView| #[trigger]
            crate::cache::gives_line(platform, after, key, again, then) ==> again == layout && then
                == after,
        forall|again: LineLayout, then: CacheView| #[trigger]
            crate::cache::gives_line(platform, after.after_frame(), key, again, then) ==> again
                == layout,
        crate::cache::may_ask_for_line(platform, after, key),
        crate::cache::may_ask_for_line(platform, after.after_frame(), key),
{
}

/// A wrapped line that was given out is given out again when it is asked for, in the same frame
/// and in the next one, however many lines may be asked for then, and the text system is not
/// asked again. Asking for it again in the same frame changes nothing.
pub proof fn wrapped_lines_are_given_out_again<P: PlatformTextSystem, F: Fn(char) -> bool>(
    platform: P,
    before: CacheView,
    key: LineKey,
    max_lines: Option<usize>,
    is_word_char: F,
    wrapped: WrappedLineLayout,
    after: CacheView,
)
    requires
        crate::cache::gives_wrapped_line(
            platform,
            before,
            key,
            max_lines,
            is_word_char,
            wrapped,
            after,
        ),
    ensures
        forall|other_max: Option<usize>, again: WrappedLineLayout, then: CacheView| #[trigger]
            crate::cache::gives_wrapped_line(
                platform,
                after,
                key,
                other_max,
                is_word_char,
                again,
                then,
            ) ==> again == wrapped && then == after,
        forall|other_max: Option<usize>, again: WrappedLineLayout, then: CacheView| #[trigger]
            crate::cache::gives_wrapped_line(
                platform,
                after.after_frame(),
                key,
                other_max,
                is_word_char,
                again,
                then,
            ) ==> again == wrapped,
        crate::cache::may_ask_for_wrapped_line(platform, after, key, is_word_char),
        crate::cache::may_ask_for_wrapped_line(platform, after.after_frame(), key, is_word_char),
{
}

/// A line that was given out by the hash of its text is given out again when it is asked for
/// by the same hash, whatever text would come with it, and found when it is looked up; neither
/// that text nor the text system is asked for. Asking for it again in the same frame changes
/// nothing. In the next frame it is given out again if its use has not been taken back.
pub proof fn hashed_lines_are_given_out_again<P: PlatformTextSystem, F: FnOnce() -> String>(
    platform: P,
    before: CacheView,
    key: HashedLineKey,
    materialize_text: F,
    layout: LineLayout,
    after: CacheView,
)
    requires
        crate::cache::gives_hashed_line(platform, before, key, materialize_text, layout, after),
    ensures
        after.hashed_line(key) == Some(layout),
        after.after_frame().hashed_line(key) == Some(layout),
        forall|other: F, again: LineLayout, then: CacheView| #[trigger]
            crate::cache::gives_hashed_line(platform, after, key, other, again, then) ==> again
                == layout && then == after,
        after.current.lines_by_hash.used.contains(key) ==> forall|
            other: F,
            again: LineLayout,
            then: CacheView,
        | #[trigger]
            crate::cache::gives_hashed_line(
                platform,
                after.after_frame(),
                key,
                other,
                again,
                then,
            ) ==> again == layout,
        !before.current.lines_by_hash.layouts.contains_key(key)
            ==> after.current.lines_by_hash.used.contains(key),
        forall|other: F| #[trigger]
            crate::cache::may_ask_for_hashed_line(platform, after, key, other),
        after.current.lines_by_hash.used.contains(key) ==> forall|other: F| #[trigger]
            crate::cache::may_ask_for_hashed_line(platform, after.after_frame(), key, other),
{
    if !before.current.lines_by_hash.layouts.contains_key(key) {
        let used = after.current.lines_by_hash.used;
        assert(used[used.len() - 1] == key);
    }
}

/// A line stays what it is when other lines are asked for, whether it is found by its text or
/// by the hash of it.
pub proof fn other_lines_stay(
    cache: CacheView,
    key: LineKey,
    layout: LineLayout,
    wrapped: WrappedLineLayout,
    hashed_key: HashedLineKey,
)
    ensures
        ({
            let after = cache.after_line(key, layout);
            &&& forall|other: LineKey|
                other != key ==> #[trigger] after.line(other) == cache.line(other)
            &&& forall|other: LineKey| #[trigger]
                after.wrapped_line(other) == cache.wrapped_line(other)
            &&& forall|other: HashedLineKey| #[trigger]
                after.hashed_line(other) == cache.hashed_line(other)
            &&& forall|other: HashedLineKey| #[trigger]
                after.used_hashed_line(other) == cache.used_hashed_line(other)
        }),
        ({
            let after = cache.after_wrapped_line(key, wrapped);
            &&& forall|other: LineKey|
                other != key.unwrapped() ==> #[trigger] after.line(other) == cache.line(other)
            &&& forall|other: LineKey|
                other != key ==> #[trigger] after.wrapped_line(other) == cache.wrapped_line(other)
            &&& forall|other: HashedLineKey| #[trigger]
                after.hashed_line(other) == cache.hashed_line(other)
            &&& forall|other: HashedLineKey| #[trigger]
                after.used_hashed_line(other) == cache.used_hashed_line(other)
        }),
        ({
            let after = cache.after_hashed_line(hashed_key, layout);
            &&& forall|other: LineKey| #[trigger] after.line(other) == cache.line(other)
            &&& forall|other: LineKey| #[trigger]
                after.wrapped_line(other) == cache.wrapped_line(other)
            &&& forall|other: HashedLineKey|
                other != hashed_key ==> #[trigger] after.hashed_line(other) == cache.hashed_line(
                    other,
                )
            &&& forall|other: HashedLineKey|
                other != hashed_key ==> #[trigger] after.used_hashed_line(other)
                    == cache.used_hashed_line(other)
        }),
{
}

/// Whether asking for a line, looking one up or taking over uses may lead from one cache to
/// another. What is asked for is given out as the cache has it.
pub open spec fn is_call(before: CacheView, after: CacheView) -> bool {
    ||| after == before
    ||| exists|key: LineKey, layout: LineLayout|
        {
            &&& before.line(key) matches Some(cached) ==> layout == cached
            &&& after == #[trigger] before.after_line(key, layout)
        }
    ||| exists|key: LineKey, wrapped: WrappedLineLayout|
        {
            &&& match before.wrapped_line(key) {
                Some(cached) => wrapped == cached,
                None => before.line(key.unwrapped()) matches Some(cached)
                    ==> *wrapped.unwrapped_layout == cached,
            }
            &&& after == #[trigger] before.after_wrapped_line(key, wrapped)
        }
    ||| exists|key: HashedLineKey, layout: LineLayout|
        {
            &&& before.used_hashed_line(key) matches Some(cached) ==> layout == cached
            &&& after == #[trigger] before.after_hashed_line(key, layout)
        }
    ||| exists|start: LineLayoutIndex, end: LineLayoutIndex|
        {
            &&& start.is_start_of(end, before.previous)
            &&& after == #[trigger] before.after_reuse(start, end)
        }
}

/// Whether going back to an earlier point may lead from one cache to another.
pub open spec fn is_truncation(before: CacheView, after: CacheView) -> bool {
    exists|index: LineLayoutIndex| after == #[trigger] before.after_truncate(index)
}

/// Asking for a line is a call.
pub proof fn asking_for_a_line_is_a_call<P: PlatformTextSystem>(
    platform: P,
    before: CacheView,
    key: LineKey,
    layout: LineLayout,
    after: CacheView,
)
    requires
        crate::cache::gives_line(platform, before, key, layout, after),
    ensures
        is_call(before, after),
{
}

/// Asking for a wrapped line is a call.
pub proof fn asking_for_a_wrapped_line_is_a_call<P: PlatformTextSystem, F: Fn(char) -> bool>(
    platform: P,
    before: CacheView,
    key: LineKey,
    max_lines: Option<usize>,
    is_word_char: F,
    wrapped: WrappedLineLayout,
    after: CacheView,
)
    requires
        crate::cache::gives_wrapped_line(
            platform,
            before,
            key,
            max_lines,
            is_word_char,
            wrapped,
            after,
        ),
    ensures
        is_call(before, after),
{
}

/// Asking for a line by the hash of its text is a call.
pub proof fn asking_for_a_hashed_line_is_a_call<P: PlatformTextSystem, F: FnOnce() -> String>(
    platform: P,
    before: CacheView,
    key: HashedLineKey,
    materialize_text: F,
    layout: LineLayout,
    after: CacheView,
)
    requires
        crate::cache::gives_hashed_line(platform, before, key, materialize_text, layout, after),
    ensures
        is_call(before, after),
{
}

/// Whether what happens between state `n` of a cache and the next is a call, the end of the
/// frame if that is to come there, or going back to an earlier point if that may come.
pub open spec fn is_step(
    states: Seq<CacheView>,
    frame_at: int,
    may_truncate: bool,
    n: int,
) -> bool {
    ||| is_call(states[n], states[n + 1])
    ||| n == frame_at && states[n + 1] == states[n].after_frame()
    ||| may_truncate && is_truncation(states[n], states[n + 1])
}

/// Whether a cache goes through these states with at most one end of a frame, after the state
/// `frame_at`.
pub open spec fn is_history(states: Seq<CacheView>, frame_at: int, may_truncate: bool) -> bool {
    &&& states.len() > 0
    &&& states[0].frames_are_apart()
    &&& forall|n: int|
        0 <= n < states.len() - 1 ==> #[trigger] is_step(states, frame_at, may_truncate, n)
}

/// What a call keeps.
proof fn lemma_call(before: CacheView, after: CacheView)
    requires
        before.frames_are_apart(),
        is_call(before, after),
    ensures
        after.frames_are_apart(),
        forall|key: LineKey| #[trigger]
            before.line(key) is Some ==> after.line(key) == before.line(key),
        forall|key: LineKey| #[trigger]
            before.wrapped_line(key) is Some ==> after.wrapped_line(key) == before.wrapped_line(
                key,
            ),
        forall|key: HashedLineKey| #[trigger]
            before.used_hashed_line(key) is Some ==> after.used_hashed_line(key)
                == before.used_hashed_line(key),
        forall|key: LineKey|
            before.current.lines.layouts.contains_key(key)
                ==> #[trigger] after.current.lines.layouts.contains_key(key),
        forall|key: LineKey|
            before.current.wrapped_lines.layouts.contains_key(key)
                ==> #[trigger] after.current.wrapped_lines.layouts.contains_key(key),
        forall|key: HashedLineKey|
            before.current.lines_by_hash.layouts.contains_key(key)
                ==> #[trigger] after.current.lines_by_hash.layouts.contains_key(key),
        forall|key: HashedLineKey|
            before.current.lines_by_hash.used.contains(key)
                ==> #[trigger] after.current.lines_by_hash.used.contains(key),
{
    assert forall|key: HashedLineKey|
        before.current.lines_by_hash.used.contains(key) implies #[trigger] after.current.lines_by_hash.used.contains(
    key) by {
        let used = before.current.lines_by_hash.used;
        let n = choose|n: int| 0 <= n < used.len() && used[n] == key;
        assert(after.current.lines_by_hash.used[n] == key);
    }
}

/// What is kept up to state `n` of a history.
proof fn lemma_history(states: Seq<CacheView>, frame_at: int, may_truncate: bool, n: int)
    requires
        is_history(states, frame_at, may_truncate),
        0 <= n < states.len(),
    ensures
        states[n].frames_are_apart(),
        forall|key: LineKey|
            states[0].current.lines.layouts.contains_key(key) ==> {
                &&& #[trigger] states[n].line(key) == states[0].line(key)
                &&& n <= frame_at ==> states[n].current.lines.layouts.contains_key(key)
            },
        forall|key: LineKey|
            states[0].current.wrapped_lines.layouts.contains_key(key) ==> {
                &&& #[trigger] states[n].wrapped_line(key) == states[0].wrapped_line(key)
                &&& n <= frame_at ==> states[n].current.wrapped_lines.layouts.contains_key(key)
            },
        forall|key: HashedLineKey|
            !may_truncate && states[0].current.lines_by_hash.layouts.contains_key(key)
                && states[0].current.lines_by_hash.used.contains(key) ==> {
                &&& #[trigger] states[n].used_hashed_line(key) == states[0].used_hashed_line(key)
                &&& n <= frame_at ==> {
                    &&& states[n].current.lines_by_hash.layouts.contains_key(key)
                    &&& states[n].current.lines_by_hash.used.contains(key)
                }
            },
    decreases n,
{
    if n > 0 {
        lemma_history(states, frame_at, may_truncate, n - 1);
        assert(is_step(states, frame_at, may_truncate, n - 1));
        let before = states[n - 1];
        let after = states[n];
        if is_call(before, after) {
            lemma_call(before, after);
        }
        assert forall|key: LineKey| states[0].current.lines.layouts.contains_key(key) implies {
            &&& #[trigger] after.line(key) == states[0].line(key)
            &&& n <= frame_at ==> after.current.lines.layouts.contains_key(key)
        } by {
            assert(before.line(key) == states[0].line(key));
        }
        assert forall|key: LineKey| states[0].current.wrapped_lines.layouts.contains_key(key) implies {
            &&& #[trigger] after.wrapped_line(key) == states[0].wrapped_line(key)
            &&& n <= frame_at ==> after.current.wrapped_lines.layouts.contains_key(key)
        } by {
            assert(before.wrapped_line(key) == states[0].wrapped_line(key));
        }
        assert forall|key: HashedLineKey|
            !may_truncate && states[0].current.lines_by_hash.layouts.contains_key(key)
                && states[0].current.lines_by_hash.used.contains(key) implies {
            &&& #[trigger] after.used_hashed_line(key) == states[0].used_hashed_line(key)
            &&& n <= frame_at ==> {
                &&& after.current.lines_by_hash.layouts.contains_key(key)
                &&& after.current.lines_by_hash.used.contains(key)
            }
        } by {
            assert(before.used_hashed_line(key) == states[0].used_hashed_line(key));
        }
    }
}

/// A line that the current frame has is given out again after any calls and any going back, up
/// to the end of the next frame, and the text system is not asked again.
pub proof fn lines_stay<P: PlatformTextSystem>(
    platform: P,
    states: Seq<CacheView>,
    frame_at: int,
    key: LineKey,
)
    requires
        is_history(states, frame_at, true),
        states[0].current.lines.layouts.contains_key(key),
    ensures
        states.last().line(key) == states[0].line(key),
        forall|layout: LineLayout, then: CacheView| #[trigger]
            crate::cache::gives_line(platform, states.last(), key, layout, then) ==> Some(layout)
                == states[0].line(key),
        crate::cache::may_ask_for_line(platform, states.last(), key),
{
    lemma_history(states, frame_at, true, states.len() - 1);
    assert(states[states.len() - 1].line(key) == states[0].line(key));
}

/// A wrapped line that the current frame has is given out again after any calls and any going
/// back, up to the end of the next frame, and the text system is not asked again.
pub proof fn wrapped_lines_stay<P: PlatformTextSystem, F: Fn(char) -> bool>(
    platform: P,
    is_word_char: F,
    states: Seq<CacheView>,
    frame_at: int,
    key: LineKey,
)
    requires
        is_history(states, frame_at, true),
        states[0].current.wrapped_lines.layouts.contains_key(key),
    ensures
        states.last().wrapped_line(key) == states[0].wrapped_line(key),
        forall|max_lines: Option<usize>, wrapped: WrappedLineLayout, then: CacheView| #[trigger]
            crate::cache::gives_wrapped_line(
                platform,
                states.last(),
                key,
                max_lines,
                is_word_char,
                wrapped,
                then,
            ) ==> Some(wrapped) == states[0].wrapped_line(key),
        crate::cache::may_ask_for_wrapped_line(platform, states.last(), key, is_word_char),
{
    lemma_history(states, frame_at, true, states.len() - 1);
    assert(states[states.len() - 1].wrapped_line(key) == states[0].wrapped_line(key));
}

/// A line by hash that the current frame has, and has recorded a use of, is found and given out
/// again after any calls, whatever text would come with it, up to the end of the next frame;
/// neither that text nor the text system is asked for. This does not hold after going back to
/// before its use.
pub proof fn hashed_lines_stay<P: PlatformTextSystem, F: FnOnce() -> String>(
    platform: P,
    states: Seq<CacheView>,
    frame_at: int,
    key: HashedLineKey,
)
    requires
        is_history(states, frame_at, false),
        states[0].current.lines_by_hash.layouts.contains_key(key),
        states[0].current.lines_by_hash.used.contains(key),
    ensures
        states.last().hashed_line(key) == states[0].hashed_line(key),
        states.last().used_hashed_line(key) == states[0].hashed_line(key),
        forall|materialize_text: F, layout: LineLayout, then: CacheView| #[trigger]
            crate::cache::gives_hashed_line(
                platform,
                states.last(),
                key,
                materialize_text,
                layout,
                then,
            ) ==> Some(layout) == states[0].hashed_line(key),
        forall|materialize_text: F| #[trigger]
            crate::cache::may_ask_for_hashed_line(
                platform,
                states.last(),
                key,
                materialize_text,
            ),
{
    lemma_history(states, frame_at, false, states.len() - 1);
    assert(states[states.len() - 1].used_hashed_line(key) == states[0].used_hashed_line(key));
}

/// Options that are the same once normalized lead to the same line: with a line for one of them
/// in the cache, the text system is not asked for the other, and what is given out is the same.
pub proof fn options_share_lines<P: PlatformTextSystem>(
    platform: P,
    before: CacheView,
    key: LineKey,
    one: OptionsView,
    other: OptionsView,
    layout: LineLayout,
    after: CacheView,
)
    requires
        one.normalized() == other.normalized(),
        crate::cache::gives_line(
            platform,
            before,
            LineKey { options: one.normalized(), ..key },
            layout,
            after,
        ),
    ensures
        ({
            let other_key = LineKey { options: other.normalized(), ..key };
            &&& crate::cache::may_ask_for_line(platform, after, other_key)
            &&& forall|again: LineLayout, then: CacheView| #[trigger]
                crate::cache::gives_line(platform, after, other_key, again, then) ==> again
                    == layout && then == after
        }),
{
}

/// A forced width alone is the default options with that width.
pub proof fn a_forced_width_is_an_option(force_width: Option<Pixels>)
    ensures
        (OptionsView { force_width, ..OptionsView::plain(None) }).normalized()
            == OptionsView::plain(force_width),
{
}

/// Wrapping a text to several widths lays it out once: the wrapped lines that the cache did not
/// have share the unwrapped line, and the text system is not asked for the second of them.
pub proof fn wrap_widths_share_a_line<P: PlatformTextSystem, F: Fn(char) -> bool>(
    platform: P,
    before: CacheView,
    key: LineKey,
    other_width: Option<Pixels>,
    max_lines: Option<usize>,
    is_word_char: F,
    wrapped: WrappedLineLayout,
    after: CacheView,
)
    requires
        before.wrapped_line(key) is None,
        before.wrapped_line(LineKey { wrap_width: other_width, ..key }) is None,
        crate::cache::gives_wrapped_line(
            platform,
            before,
            key,
            max_lines,
            is_word_char,
            wrapped,
            after,
        ),
    ensures
        crate::cache::may_ask_for_line(platform, after, key.unwrapped()),
        forall|other_max: Option<usize>, other: WrappedLineLayout, then: CacheView| #[trigger]
            crate::cache::gives_wrapped_line(
                platform,
                after,
                LineKey { wrap_width: other_width, ..key },
                other_max,
                is_word_char,
                other,
                then,
            ) ==> {
                &&& *other.unwrapped_layout == *wrapped.unwrapped_layout
                &&& other.wrap_width == other_width
            },
{
    let other_key = LineKey { wrap_width: other_width, ..key };
    assert(other_key.unwrapped() == key.unwrapped());
    assert(after.line(key.unwrapped()) == Some(*wrapped.unwrapped_layout));
}

/// What is not asked for again is forgotten after two frames.
pub proof fn frames_are_forgotten(cache: CacheView)
    ensures
        cache.after_frame().after_frame() == CacheView::empty(),
{
}

/// Lines move from frame to frame: those with their text start out in one frame alone, and
/// nothing that is done to the cache brings one into both; nor is a line by hash brought into
/// both that the previous frame would still give out.
pub proof fn frames_stay_apart(
    cache: CacheView,
    key: LineKey,
    hashed_key: HashedLineKey,
    layout: LineLayout,
    wrapped: WrappedLineLayout,
    start: LineLayoutIndex,
    end: LineLayoutIndex,
)
    requires
        cache.frames_are_apart(),
    ensures
        CacheView::empty().frames_are_apart(),
        cache.after_line(key, layout).frames_are_apart(),
        cache.after_wrapped_line(key, wrapped).frames_are_apart(),
        cache.after_hashed_line(hashed_key, layout).frames_are_apart(),
        start.is_start_of(end, cache.previous) ==> cache.after_reuse(start, end).frames_are_apart(),
        cache.after_truncate(end).frames_are_apart(),
        cache.after_frame().frames_are_apart(),
{
}

/// Going back to where the current frame is changes nothing.
pub proof fn truncating_to_the_end_changes_nothing(cache: CacheView, index: LineLayoutIndex)
    requires
        is_index_of(index, cache.current),
    ensures
        cache.after_truncate(index) == cache,
{
    let current = cache.current;
    assert(current.lines.used.take(current.lines.used.len() as int) =~= current.lines.used);
    assert(current.wrapped_lines.used.take(current.wrapped_lines.used.len() as int)
        =~= current.wrapped_lines.used);
    assert(current.lines_by_hash.used.take(current.lines_by_hash.used.len() as int)
        =~= current.lines_by_hash.used);
    assert(current.wrapped_lines_by_hash.used.take(current.wrapped_lines_by_hash.used.len() as int)
        =~= current.wrapped_lines_by_hash.used);
}

/// The smaller of two numbers of uses.
pub open spec fn fewer(a: int, b: int) -> int {
    if a <= b {
        a
    } else {
        b
    }
}

/// Going back leaves at most as many uses as the point has, and never more than there were. No
/// line goes.
pub proof fn truncating_only_takes_uses_back(cache: CacheView, index: LineLayoutIndex)
    ensures
        ({
            let before = cache.current;
            let after = cache.after_truncate(index).current;
            &&& after.lines.used.len() == fewer(
                before.lines.used.len() as int,
                index.lines_index as int,
            )
            &&& after.wrapped_lines.used.len() == fewer(
                before.wrapped_lines.used.len() as int,
                index.wrapped_lines_index as int,
            )
            &&& after.lines_by_hash.used.len() == fewer(
                before.lines_by_hash.used.len() as int,
                index.lines_by_hash_index as int,
            )
            &&& after.wrapped_lines_by_hash.used.len() == fewer(
                before.wrapped_lines_by_hash.used.len() as int,
                index.wrapped_lines_by_hash_index as int,
            )
        }),
        forall|key: LineKey| #[trigger] cache.after_truncate(index).line(key) == cache.line(key),
        forall|key: LineKey| #[trigger]
            cache.after_truncate(index).wrapped_line(key) == cache.wrapped_line(key),
        forall|key: HashedLineKey| #[trigger]
            cache.after_truncate(index).hashed_line(key) == cache.hashed_line(key),
        forall|key: HashedLineKey| #[trigger]
            cache.after_truncate(index).used_hashed_line(key) == cache.used_hashed_line(key),
{
}

/// Whether two frames have recorded the same uses.
pub open spec fn same_uses(a: FrameView, b: FrameView) -> bool {
    &&& a.lines.used == b.lines.used
    &&& a.wrapped_lines.used == b.wrapped_lines.used
    &&& a.lines_by_hash.used == b.lines_by_hash.used
    &&& a.wrapped_lines_by_hash.used == b.wrapped_lines_by_hash.used
}

/// Going back to where the current frame was before a line was asked for takes the use of the
/// line back, but the line stays.
pub proof fn truncating_takes_uses_back(
    cache: CacheView,
    index: LineLayoutIndex,
    key: LineKey,
    layout: LineLayout,
    wrapped: WrappedLineLayout,
    hashed_key: HashedLineKey,
)
    requires
        is_index_of(index, cache.current),
    ensures
        ({
            let after = cache.after_line(key, layout);
            &&& same_uses(after.after_truncate(index).current, cache.current)
            &&& after.after_truncate(index).line(key) == after.line(key)
        }),
        ({
            let after = cache.after_wrapped_line(key, wrapped);
            &&& same_uses(after.after_truncate(index).current, cache.current)
            &&& after.after_truncate(index).wrapped_line(key) == after.wrapped_line(key)
        }),
        ({
            let after = cache.after_hashed_line(hashed_key, layout);
            &&& same_uses(after.after_truncate(index).current, cache.current)
            &&& after.after_truncate(index).hashed_line(hashed_key) == after.hashed_line(
                hashed_key,
            )
        }),
{
    let with_line = cache.after_line(key, layout).after_truncate(index).current;
    let with_wrapped = cache.after_wrapped_line(key, wrapped).after_truncate(index).current;
    let with_hashed = cache.after_hashed_line(hashed_key, layout).after_truncate(index).current;
    lemma_same_uses(with_line, cache.current);
    lemma_same_uses(with_wrapped, cache.current);
    lemma_same_uses(with_hashed, cache.current);
}

/// Uses are the same if they are the same one by one.
proof fn lemma_same_uses(a: FrameView, b: FrameView)
    ensures
        a.lines.used =~= b.lines.used && a.wrapped_lines.used =~= b.wrapped_lines.used
            && a.lines_by_hash.used =~= b.lines_by_hash.used && a.wrapped_lines_by_hash.used
            =~= b.wrapped_lines_by_hash.used ==> same_uses(a, b),
{
}

/// Taking over uses of the previous frame moves lines from one frame to the other, but the
/// cache still has the same lines, and gives out the same lines by hash.
pub proof fn reusing_changes_no_line(
    cache: CacheView,
    start: LineLayoutIndex,
    end: LineLayoutIndex,
)
    requires
        cache.frames_are_apart(),
        start.is_start_of(end, cache.previous),
    ensures
        forall|key: LineKey| #[trigger] cache.after_reuse(start, end).line(key) == cache.line(key),
        forall|key: LineKey| #[trigger]
            cache.after_reuse(start, end).wrapped_line(key) == cache.wrapped_line(key),
        forall|key: HashedLineKey| #[trigger]
            cache.after_reuse(start, end).hashed_line(key) == cache.hashed_line(key),
        forall|key: HashedLineKey| #[trigger]
            cache.after_reuse(start, end).used_hashed_line(key) == cache.used_hashed_line(key),
{
}

/// What taking over a stretch of uses does to the layouts of one kind.
proof fn lemma_reuse<Key, V>(
    previous: TableView<Key, V>,
    current: TableView<Key, V>,
    start: int,
    end: int,
)
    requires
        TableView::keeps_used(previous, current),
        0 <= start <= end <= previous.used.len(),
    ensures
        ({
            let after = current.with_used(previous, start, end);
            &&& after.used.len() == current.used.len() + (end - start)
            &&& forall|n: int|
                start <= n < end ==> {
                    &&& after.layouts.contains_key(#[trigger] previous.used[n])
                    &&& after.used.contains(previous.used[n])
                }
        }),
{
    let taken = previous.used.subrange(start, end);
    let after = current.with_used(previous, start, end);
    assert forall|n: int| start <= n < end implies {
        &&& after.layouts.contains_key(#[trigger] previous.used[n])
        &&& after.used.contains(previous.used[n])
    } by {
        assert(taken[n - start] == previous.used[n]);
        assert(taken.contains(previous.used[n]));
        assert(after.used[current.used.len() + (n - start)] == previous.used[n]);
    }
}

/// After a stretch of uses was taken over, the current frame has recorded that many uses more,
/// each line used there is a line of the current frame, with its use recorded, and it is the
/// same line that the cache had. So it is still there in the next frame.
pub proof fn reusing_a_stretch_keeps_its_lines(
    cache: CacheView,
    start: LineLayoutIndex,
    end: LineLayoutIndex,
)
    requires
        cache.keeps_used(),
        cache.frames_are_apart(),
        start.is_start_of(end, cache.previous),
    ensures
        ({
            let before = cache.current;
            let after = cache.after_reuse(start, end).current;
            &&& after.lines.used.len() == before.lines.used.len() + (end.lines_index
                - start.lines_index)
            &&& after.wrapped_lines.used.len() == before.wrapped_lines.used.len() + (
            end.wrapped_lines_index - start.wrapped_lines_index)
            &&& after.lines_by_hash.used.len() == before.lines_by_hash.used.len() + (
            end.lines_by_hash_index - start.lines_by_hash_index)
            &&& after.wrapped_lines_by_hash.used.len() == before.wrapped_lines_by_hash.used.len()
                + (end.wrapped_lines_by_hash_index - start.wrapped_lines_by_hash_index)
        }),
        forall|n: int|
            start.lines_index <= n < end.lines_index ==> {
                let key = #[trigger] cache.previous.lines.used[n];
                let after = cache.after_reuse(start, end);
                &&& after.current.lines.layouts.contains_key(key)
                &&& after.current.lines.used.contains(key)
                &&& after.line(key) == cache.line(key)
                &&& after.after_frame().line(key) == cache.line(key)
            },
        forall|n: int|
            start.wrapped_lines_index <= n < end.wrapped_lines_index ==> {
                let key = #[trigger] cache.previous.wrapped_lines.used[n];
                let after = cache.after_reuse(start, end);
                &&& after.current.wrapped_lines.layouts.contains_key(key)
                &&& after.current.wrapped_lines.used.contains(key)
                &&& after.wrapped_line(key) == cache.wrapped_line(key)
                &&& after.after_frame().wrapped_line(key) == cache.wrapped_line(key)
            },
        forall|n: int|
            start.lines_by_hash_index <= n < end.lines_by_hash_index ==> {
                let key = #[trigger] cache.previous.lines_by_hash.used[n];
                let after = cache.after_reuse(start, end);
                &&& after.current.lines_by_hash.layouts.contains_key(key)
                &&& after.current.lines_by_hash.used.contains(key)
                &&& after.used_hashed_line(key) == cache.used_hashed_line(key)
                &&& after.after_frame().used_hashed_line(key) == cache.used_hashed_line(key)
            },
{
    let (previous, current) = (cache.previous, cache.current);
    lemma_reuse(
        previous.lines,
        current.lines,
        start.lines_index as int,
        end.lines_index as int,
    );
    lemma_reuse(
        previous.wrapped_lines,
        current.wrapped_lines,
        start.wrapped_lines_index as int,
        end.wrapped_lines_index as int,
    );
    lemma_reuse(
        previous.lines_by_hash,
        current.lines_by_hash,
        start.lines_by_hash_index as int,
        end.lines_by_hash_index as int,
    );
    lemma_reuse(
        previous.wrapped_lines_by_hash,
        current.wrapped_lines_by_hash,
        start.wrapped_lines_by_hash_index as int,
        end.wrapped_lines_by_hash_index as int,
    );
    reusing_changes_no_line(cache, start, end);
    let after = cache.after_reuse(start, end);
    assert forall|n: int| start.lines_index <= n < end.lines_index implies {
        let key = #[trigger] previous.lines.used[n];
        &&& after.line(key) == cache.line(key)
        &&& after.after_frame().line(key) == cache.line(key)
    } by {
        assert(after.current.lines.layouts.contains_key(previous.lines.used[n]));
    }
    assert forall|n: int| start.wrapped_lines_index <= n < end.wrapped_lines_index implies {
        let key = #[trigger] previous.wrapped_lines.used[n];
        &&& after.wrapped_line(key) == cache.wrapped_line(key)
        &&& after.after_frame().wrapped_line(key) == cache.wrapped_line(key)
    } by {
        assert(after.current.wrapped_lines.layouts.contains_key(previous.wrapped_lines.used[n]));
    }
    assert forall|n: int| start.lines_by_hash_index <= n < end.lines_by_hash_index implies {
        let key = #[trigger] previous.lines_by_hash.used[n];
        &&& after.used_hashed_line(key) == cache.used_hashed_line(key)
        &&& after.after_frame().used_hashed_line(key) == cache.used_hashed_line(key)
    } by {
        assert(after.current.lines_by_hash.layouts.contains_key(previous.lines_by_hash.used[n]));
    }
}

/// The layouts of one kind that a frame used are those that the next frame has after it took
/// over all uses.
proof fn lemma_reuse_all<Key, V>(table: TableView<Key, V>)
    requires
        forall|n: int|
            0 <= n < table.used.len() ==> table.layouts.contains_key(#[trigger] table.used[n]),
    ensures
        ({
            let after = TableView::<Key, V>::empty().with_used(table, 0, table.used.len() as int);
            &&& after.used == table.used
            &&& forall|n: int|
                0 <= n < table.used.len() ==> {
                    &&& after.layouts.contains_key(#[trigger] table.used[n])
                    &&& after.layouts[table.used[n]] == table.layouts[table.used[n]]
                }
        }),
{
    let after = TableView::<Key, V>::empty().with_used(table, 0, table.used.len() as int);
    let all = table.used.subrange(0, table.used.len() as int);
    assert(all =~= table.used);
    assert(after.used =~= table.used);
    assert forall|n: int| 0 <= n < table.used.len() implies {
        &&& after.layouts.contains_key(#[trigger] table.used[n])
        &&& after.layouts[table.used[n]] == table.layouts[table.used[n]]
    } by {
        assert(all.contains(table.used[n]));
        assert(table.used_between(0, table.used.len() as int).contains(table.used[n]));
    }
}

/// A frame that takes over all uses of the frame before has the same uses, and has each line
/// that they were of.
pub proof fn reusing_a_frame_keeps_its_lines(cache: CacheView, end: LineLayoutIndex)
    requires
        cache.keeps_used(),
        is_index_of(end, cache.current),
    ensures
        ({
            let after = cache.after_frame().after_reuse(index_zero(), end);
            &&& after.current.lines.used == cache.current.lines.used
            &&& after.current.wrapped_lines.used == cache.current.wrapped_lines.used
            &&& after.current.lines_by_hash.used == cache.current.lines_by_hash.used
            &&& forall|n: int|
                0 <= n < cache.current.lines.used.len() ==> after.line(
                    #[trigger] cache.current.lines.used[n],
                ) == cache.line(cache.current.lines.used[n])
            &&& forall|n: int|
                0 <= n < cache.current.wrapped_lines.used.len() ==> after.wrapped_line(
                    #[trigger] cache.current.wrapped_lines.used[n],
                ) == cache.wrapped_line(cache.current.wrapped_lines.used[n])
            &&& forall|n: int|
                0 <= n < cache.current.lines_by_hash.used.len() ==> after.hashed_line(
                    #[trigger] cache.current.lines_by_hash.used[n],
                ) == cache.hashed_line(cache.current.lines_by_hash.used[n])
        }),
{
    lemma_reuse_all(cache.current.lines);
    lemma_reuse_all(cache.current.wrapped_lines);
    lemma_reuse_all(cache.current.lines_by_hash);
}

} // verus!
