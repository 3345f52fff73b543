use line_layout::cache::{LineLayoutCache, LineLayoutIndex, PlatformTextSystem};
use line_layout::geometry::{point, px, Pixels};
use line_layout::inline_lists::{FontRun, WrapBoundary};
use line_layout::layout::{FontId, GlyphId, LineLayout, ShapedGlyph, ShapedRun};
use line_layout::snap::{ShapeLineOptions, SnapMode};
use std::cell::Cell;
use std::rc::Rc;
use std::sync::Arc;

/// A text system that gives each character the font size as its width, and counts how often
/// it is asked.
struct Monospace {
    asked: Rc<Cell<usize>>,
}

impl PlatformTextSystem for Monospace {
    fn layout_line(&self, text: &str, font_size: Pixels, runs: &[FontRun]) -> LineLayout {
        self.asked.set(self.asked.get() + 1);
        let mut glyphs = Vec::new();
        let mut x = px(0);
        for (index, _) in text.char_indices() {
            glyphs.push(ShapedGlyph {
                id: GlyphId(index as u32),
                position: point(x, px(0)),
                index,
                is_emoji: false,
            });
            x = x.plus(font_size);
        }
        LineLayout {
            font_size,
            width: x,
            ascent: px(0),
            descent: px(0),
            runs: vec![ShapedRun {
                font_id: runs[0].font_id,
                glyphs,
            }],
            len: text.len(),
        }
    }
}

fn cache() -> (LineLayoutCache<Monospace>, Rc<Cell<usize>>) {
    let asked = Rc::new(Cell::new(0));
    let cache = LineLayoutCache::new(Monospace { asked: asked.clone() });
    (cache, asked)
}

fn font(len: usize) -> Vec<FontRun> {
    vec![FontRun { len, font_id: FontId(7) }]
}

fn grid(force_width: i32, table: Vec<u32>) -> ShapeLineOptions {
    ShapeLineOptions {
        force_width: Some(px(force_width)),
        snap_tolerance: px(0),
        snap_mode: SnapMode::ByteToColumn {
            byte_to_column: Arc::from(table),
        },
    }
}

fn is_word_char(ch: char) -> bool {
    ch.is_alphanumeric()
}

fn counts(index: LineLayoutIndex) -> [usize; 4] {
    [
        index.lines_index,
        index.wrapped_lines_index,
        index.lines_by_hash_index,
        index.wrapped_lines_by_hash_index,
    ]
}

#[test]
fn a_line_is_laid_out_as_the_text_system_says() {
    let (mut cache, asked) = cache();
    let line = cache.layout_line("abc", px(10), &font(3), None);
    assert_eq!(asked.get(), 1);
    assert_eq!(line.len, 3);
    assert_eq!(line.width, px(30));
    assert_eq!(line.font_size, px(10));
    assert_eq!(line.runs[0].font_id, FontId(7));
    assert_eq!(line.runs[0].glyphs[2].position.x, px(20));
}

#[test]
fn a_line_is_given_out_again() {
    let (mut cache, asked) = cache();
    let line = cache.layout_line("abc", px(10), &font(3), None);
    let again = cache.layout_line("abc", px(10), &font(3), None);
    assert!(Arc::ptr_eq(&line, &again));
    assert_eq!(asked.get(), 1);
    assert_eq!(counts(cache.layout_index()), [1, 0, 0, 0]);
}

#[test]
fn lines_are_told_apart_by_all_that_they_depend_on() {
    let (mut cache, asked) = cache();
    cache.layout_line("abc", px(10), &font(3), None);
    cache.layout_line("abd", px(10), &font(3), None);
    cache.layout_line("abc", px(11), &font(3), None);
    cache.layout_line("abc", px(10), &font(2), None);
    cache.layout_line("abc", px(10), &[font(3)[0], font(0)[0]], None);
    cache.layout_line("abc", px(10), &font(3), Some(px(10)));
    cache.layout_line_with("abc", px(10), &font(3), grid(10, vec![0, 1, 2, 3]));
    cache.layout_line_with("abc", px(10), &font(3), grid(10, vec![0, 1, 1, 2]));
    assert_eq!(asked.get(), 8);
    assert_eq!(counts(cache.layout_index()), [8, 0, 0, 0]);
}

#[test]
fn options_without_a_grid_do_not_tell_lines_apart() {
    let (mut cache, asked) = cache();
    let line = cache.layout_line("ab", px(10), &font(2), None);
    let opts = ShapeLineOptions {
        force_width: None,
        snap_tolerance: px(0),
        snap_mode: grid(1, vec![0, 1, 2]).snap_mode,
    };
    let same = cache.layout_line_with("ab", px(10), &font(2), opts);
    assert!(Arc::ptr_eq(&line, &same));
    let default = cache.layout_line_with("ab", px(10), &font(2), ShapeLineOptions::default());
    assert!(Arc::ptr_eq(&line, &default));
    assert_eq!(asked.get(), 1);
}

#[test]
fn grids_are_the_same_by_their_columns() {
    let (mut cache, asked) = cache();
    let line = cache.layout_line_with("ab", px(10), &font(2), grid(7, vec![0, 2, 3]));
    let same = cache.layout_line_with("ab", px(10), &font(2), grid(7, vec![0, 2, 3]));
    assert!(Arc::ptr_eq(&line, &same));
    assert_eq!(asked.get(), 1);
    assert_eq!(line.runs[0].glyphs[1].position.x, px(14));
    assert_eq!(line.width, px(21));
}

#[test]
fn a_forced_width_leaves_small_drifts() {
    let (mut cache, _) = cache();
    // The natural positions 0, 10, 20, 30 are at most one pixel off the grid up to 10.
    let line = cache.layout_line("abcd", px(10), &font(4), Some(px(9)));
    let mut xs = Vec::new();
    for glyph in &line.runs[0].glyphs {
        xs.push(glyph.position.x);
    }
    assert_eq!(xs, vec![px(0), px(10), px(18), px(27)]);
    assert_eq!(line.width, px(36));
}

#[test]
fn a_line_lives_for_two_frames() {
    let (mut cache, asked) = cache();
    let line = cache.layout_line("abc", px(10), &font(3), None);
    cache.finish_frame();
    assert_eq!(counts(cache.layout_index()), [0, 0, 0, 0]);
    let again = cache.layout_line("abc", px(10), &font(3), None);
    assert!(Arc::ptr_eq(&line, &again));
    assert_eq!(asked.get(), 1);
    assert_eq!(counts(cache.layout_index()), [1, 0, 0, 0]);
    // It was asked for in the second frame, so it is still there in the third.
    cache.finish_frame();
    cache.layout_line("abc", px(10), &font(3), None);
    assert_eq!(asked.get(), 1);
    // A whole frame goes by without it.
    cache.finish_frame();
    cache.finish_frame();
    let new = cache.layout_line("abc", px(10), &font(3), None);
    assert!(!Arc::ptr_eq(&line, &new));
    assert_eq!(asked.get(), 2);
}

#[test]
fn a_wrapped_line_shares_its_unwrapped_line() {
    let (mut cache, asked) = cache();
    let text = "hello world";
    let wrapped =
        cache.layout_wrapped_line(text, px(10), &font(11), Some(px(60)), None, &is_word_char);
    assert_eq!(wrapped.wrap_boundaries(), &[WrapBoundary { run_ix: 0, glyph_ix: 6 }]);
    assert_eq!(wrapped.wrap_width, Some(px(60)));
    assert_eq!(counts(cache.layout_index()), [1, 1, 0, 0]);
    let line = cache.layout_line(text, px(10), &font(11), None);
    assert!(Arc::ptr_eq(&wrapped.unwrapped_layout, &line));
    assert_eq!(asked.get(), 1);
}

#[test]
fn a_wrapped_line_is_given_out_again() {
    let (mut cache, asked) = cache();
    let text = "hello world";
    let runs = font(11);
    let wrapped = cache.layout_wrapped_line(text, px(10), &runs, Some(px(60)), None, &is_word_char);
    let again = cache.layout_wrapped_line(text, px(10), &runs, Some(px(60)), None, &is_word_char);
    assert!(Arc::ptr_eq(&wrapped, &again));
    cache.finish_frame();
    let next = cache.layout_wrapped_line(text, px(10), &runs, Some(px(60)), None, &is_word_char);
    assert!(Arc::ptr_eq(&wrapped, &next));
    assert_eq!(counts(cache.layout_index()), [0, 1, 0, 0]);
    assert_eq!(asked.get(), 1);
    let other = cache.layout_wrapped_line(text, px(10), &runs, Some(px(50)), None, &is_word_char);
    assert_eq!(other.wrap_boundaries().len(), 2);
    assert_eq!(other.wrap_width, Some(px(50)));
    let whole = cache.layout_wrapped_line(text, px(10), &runs, None, None, &is_word_char);
    assert!(whole.wrap_boundaries().is_empty());
    assert_eq!(asked.get(), 1);
}

#[test]
fn the_number_of_lines_does_not_tell_wrapped_lines_apart() {
    let (mut cache, _) = cache();
    let text = "hello world";
    let one =
        cache.layout_wrapped_line(text, px(10), &font(11), Some(px(60)), Some(1), &is_word_char);
    assert!(one.wrap_boundaries().is_empty());
    let more =
        cache.layout_wrapped_line(text, px(10), &font(11), Some(px(60)), None, &is_word_char);
    assert!(Arc::ptr_eq(&one, &more));
}

#[test]
fn a_line_that_cannot_be_wrapped_is_not_given_out() {
    let (mut cache, asked) = cache();
    let wrapped = cache.checked_layout_wrapped_line(
        "hello world",
        px(10),
        &font(11),
        Some(px(60)),
        Some(0),
        &is_word_char,
    );
    assert!(wrapped.is_none());
    assert_eq!(counts(cache.layout_index()), [1, 0, 0, 0]);
    let fits = cache.checked_layout_wrapped_line(
        "hello",
        px(10),
        &font(5),
        Some(px(60)),
        Some(0),
        &is_word_char,
    );
    assert!(fits.unwrap().wrap_boundaries().is_empty());
    assert_eq!(asked.get(), 2);
}

#[test]
fn a_line_that_does_not_fit_its_grid_is_not_given_out() {
    let (mut cache, asked) = cache();
    let line = cache.checked_layout_line_with("abc", px(10), &font(3), grid(7, vec![0, 1]));
    assert!(line.is_none());
    assert_eq!(counts(cache.layout_index()), [0, 0, 0, 0]);
    let hashed = cache.checked_layout_line_with_by_hash(
        1,
        3,
        px(10),
        &font(3),
        grid(7, vec![0, 1]),
        || String::from("abc"),
    );
    assert!(hashed.is_none());
    assert_eq!(counts(cache.layout_index()), [0, 0, 0, 0]);
    assert_eq!(asked.get(), 2);
    let fits = cache.checked_layout_line_with("abc", px(10), &font(3), grid(7, vec![0, 1, 2, 3]));
    assert_eq!(fits.unwrap().width, px(21));
}

#[test]
fn a_line_is_found_by_the_hash_of_its_text() {
    let (mut cache, asked) = cache();
    let runs = font(3);
    let opts = ShapeLineOptions::default();
    assert!(cache.try_layout_line_with_by_hash(5, 3, px(10), &runs, opts.clone()).is_none());
    let line = cache.layout_line_with_by_hash(5, 3, px(10), &runs, opts.clone(), || {
        String::from("abc")
    });
    assert_eq!(line.width, px(30));
    let found = cache.try_layout_line_with_by_hash(5, 3, px(10), &runs, opts.clone()).unwrap();
    assert!(Arc::ptr_eq(&line, &found));
    // The text is not asked for again.
    let again = cache.layout_line_with_by_hash(5, 3, px(10), &runs, opts.clone(), || {
        panic!("the line is cached")
    });
    assert!(Arc::ptr_eq(&line, &again));
    assert_eq!(asked.get(), 1);
    assert_eq!(counts(cache.layout_index()), [0, 0, 1, 0]);
    // Another hash, another length and other options are another line.
    assert!(cache.try_layout_line_with_by_hash(6, 3, px(10), &runs, opts.clone()).is_none());
    assert!(cache.try_layout_line_with_by_hash(5, 4, px(10), &runs, opts.clone()).is_none());
    assert!(cache
        .try_layout_line_with_by_hash(5, 3, px(10), &runs, grid(10, vec![0, 1, 2, 3]))
        .is_none());
    assert!(cache.try_layout_line_with_by_hash(5, 3, px(10), &font(4), opts.clone()).is_none());
    // Lines with their text and lines by hash do not know of each other.
    cache.layout_line("abc", px(10), &runs, None);
    assert_eq!(asked.get(), 2);
}

#[test]
fn a_line_by_hash_lives_for_two_frames() {
    let (mut cache, asked) = cache();
    let runs = font(3);
    let opts = ShapeLineOptions::default();
    let line = cache.layout_line_with_by_hash(5, 3, px(10), &runs, opts.clone(), || {
        String::from("abc")
    });
    cache.finish_frame();
    let found = cache.try_layout_line_with_by_hash(5, 3, px(10), &runs, opts.clone()).unwrap();
    assert!(Arc::ptr_eq(&line, &found));
    // Looking it up is no use of it.
    assert_eq!(counts(cache.layout_index()), [0, 0, 0, 0]);
    let again = cache.layout_line_with_by_hash(5, 3, px(10), &runs, opts.clone(), || {
        panic!("the line is cached")
    });
    assert!(Arc::ptr_eq(&line, &again));
    assert_eq!(counts(cache.layout_index()), [0, 0, 1, 0]);
    cache.finish_frame();
    cache.finish_frame();
    assert!(cache.try_layout_line_with_by_hash(5, 3, px(10), &runs, opts).is_none());
    assert_eq!(asked.get(), 1);
}

#[test]
fn a_line_by_hash_whose_use_was_taken_back_is_laid_out_again() {
    let (mut cache, asked) = cache();
    let runs = font(3);
    let opts = ShapeLineOptions::default();
    let index = cache.layout_index();
    let line = cache.layout_line_with_by_hash(5, 3, px(10), &runs, opts.clone(), || {
        String::from("abc")
    });
    cache.truncate_layouts(index);
    cache.finish_frame();
    // It is still found, but not given out.
    let found = cache.try_layout_line_with_by_hash(5, 3, px(10), &runs, opts.clone()).unwrap();
    assert!(Arc::ptr_eq(&line, &found));
    let new = cache.layout_line_with_by_hash(5, 3, px(10), &runs, opts, || String::from("abc"));
    assert!(!Arc::ptr_eq(&line, &new));
    assert_eq!(asked.get(), 2);
}

#[test]
fn options_are_applied_to_lines_by_hash() {
    let (mut cache, _) = cache();
    let line = cache.layout_line_with_by_hash(
        5,
        3,
        px(10),
        &font(3),
        grid(7, vec![0, 0, 1, 2]),
        || String::from("éa"),
    );
    assert_eq!(line.runs[0].glyphs[1].position.x, px(7));
    assert_eq!(line.width, px(14));
}

#[test]
fn truncating_takes_uses_back_but_keeps_lines() {
    let (mut cache, asked) = cache();
    cache.layout_line("a", px(10), &font(1), None);
    let index = cache.layout_index();
    cache.layout_line("b", px(10), &font(1), None);
    cache.layout_wrapped_line("c d", px(10), &font(3), Some(px(20)), None, &is_word_char);
    assert_eq!(counts(cache.layout_index()), [3, 1, 0, 0]);
    cache.truncate_layouts(index);
    assert_eq!(counts(cache.layout_index()), [1, 0, 0, 0]);
    cache.layout_line("b", px(10), &font(1), None);
    assert_eq!(asked.get(), 3);
    assert_eq!(counts(cache.layout_index()), [1, 0, 0, 0]);
    // Going to a point further on changes nothing.
    let further = LineLayoutIndex {
        lines_index: 9,
        wrapped_lines_index: 9,
        lines_by_hash_index: 9,
        wrapped_lines_by_hash_index: 9,
    };
    cache.truncate_layouts(further);
    assert_eq!(counts(cache.layout_index()), [1, 0, 0, 0]);
}

#[test]
fn reusing_a_frame_keeps_its_lines() {
    let (mut cache, asked) = cache();
    let start = cache.layout_index();
    let a = cache.layout_line("a", px(10), &font(1), None);
    let wrapped =
        cache.layout_wrapped_line("c d", px(10), &font(3), Some(px(20)), None, &is_word_char);
    let hashed = cache.layout_line_with_by_hash(
        5,
        1,
        px(10),
        &font(1),
        ShapeLineOptions::default(),
        || String::from("h"),
    );
    let end = cache.layout_index();
    assert_eq!(counts(end), [2, 1, 1, 0]);
    cache.finish_frame();
    assert!(cache.can_reuse(&(start..end)));
    cache.reuse_layouts(start..end);
    assert_eq!(counts(cache.layout_index()), [2, 1, 1, 0]);
    // A further frame on, the lines are still the same.
    cache.finish_frame();
    let a_again = cache.layout_line("a", px(10), &font(1), None);
    assert!(Arc::ptr_eq(&a, &a_again));
    let wrapped_again =
        cache.layout_wrapped_line("c d", px(10), &font(3), Some(px(20)), None, &is_word_char);
    assert!(Arc::ptr_eq(&wrapped, &wrapped_again));
    let hashed_again = cache
        .try_layout_line_with_by_hash(5, 1, px(10), &font(1), ShapeLineOptions::default())
        .unwrap();
    assert!(Arc::ptr_eq(&hashed, &hashed_again));
    assert_eq!(asked.get(), 3);
}

#[test]
fn reusing_a_stretch_leaves_the_other_lines() {
    let (mut cache, asked) = cache();
    cache.layout_line("a", px(10), &font(1), None);
    let start = cache.layout_index();
    cache.layout_line("b", px(10), &font(1), None);
    let end = cache.layout_index();
    cache.layout_line("c", px(10), &font(1), None);
    cache.finish_frame();
    cache.reuse_layouts(start..end);
    assert_eq!(counts(cache.layout_index()), [1, 0, 0, 0]);
    // Only the reused line is in the current frame; the others go with their frame.
    cache.finish_frame();
    cache.layout_line("b", px(10), &font(1), None);
    assert_eq!(asked.get(), 3);
    cache.layout_line("a", px(10), &font(1), None);
    cache.layout_line("c", px(10), &font(1), None);
    assert_eq!(asked.get(), 5);
}

#[test]
fn a_line_can_be_reused_after_it_was_asked_for() {
    let (mut cache, asked) = cache();
    let start = cache.layout_index();
    let line = cache.layout_line("a", px(10), &font(1), None);
    let end = cache.layout_index();
    cache.finish_frame();
    cache.layout_line("a", px(10), &font(1), None);
    cache.reuse_layouts(start..end);
    assert_eq!(counts(cache.layout_index()), [2, 0, 0, 0]);
    let again = cache.layout_line("a", px(10), &font(1), None);
    assert!(Arc::ptr_eq(&line, &again));
    assert_eq!(asked.get(), 1);
}

#[test]
fn only_recorded_uses_can_be_reused() {
    let (mut cache, _) = cache();
    let start = cache.layout_index();
    cache.layout_line("a", px(10), &font(1), None);
    let end = cache.layout_index();
    // The frame has not ended yet.
    assert!(!cache.can_reuse(&(start..end)));
    assert!(cache.can_reuse(&(start..start)));
    cache.finish_frame();
    assert!(cache.can_reuse(&(start..end)));
    assert!(cache.can_reuse(&(end..end)));
    assert!(!cache.can_reuse(&(end..start)));
}

#[test]
fn lines_stay_through_other_calls() {
    let (mut cache, asked) = cache();
    let opts = ShapeLineOptions::default();
    let start = cache.layout_index();
    let other = cache.layout_line_with_by_hash(8, 1, px(10), &font(1), opts.clone(), || {
        String::from("o")
    });
    let end = cache.layout_index();
    let line = cache.layout_line("abc", px(10), &font(3), None);
    let wrapped =
        cache.layout_wrapped_line("c d", px(10), &font(3), Some(px(20)), None, &is_word_char);
    let hashed = cache.layout_line_with_by_hash(5, 1, px(10), &font(1), opts.clone(), || {
        String::from("h")
    });
    cache.layout_line("x", px(10), &font(1), None);
    cache.finish_frame();
    cache.reuse_layouts(start..end);
    cache.layout_line("y", px(10), &font(1), None);
    cache.layout_wrapped_line("e f", px(10), &font(3), Some(px(20)), None, &is_word_char);
    cache.layout_line_with_by_hash(6, 1, px(10), &font(1), opts.clone(), || String::from("i"));
    let count = asked.get();
    let line_again = cache.layout_line("abc", px(10), &font(3), None);
    assert!(Arc::ptr_eq(&line, &line_again));
    let wrapped_again =
        cache.layout_wrapped_line("c d", px(10), &font(3), Some(px(20)), None, &is_word_char);
    assert!(Arc::ptr_eq(&wrapped, &wrapped_again));
    let hashed_again = cache.layout_line_with_by_hash(5, 1, px(10), &font(1), opts.clone(), || {
        panic!("the line is cached")
    });
    assert!(Arc::ptr_eq(&hashed, &hashed_again));
    let other_again = cache.layout_line_with_by_hash(8, 1, px(10), &font(1), opts, || {
        panic!("the line is cached")
    });
    assert!(Arc::ptr_eq(&other, &other_again));
    assert_eq!(asked.get(), count);
}

#[test]
fn wrap_widths_share_a_line() {
    let (mut cache, asked) = cache();
    let text = "hello world";
    let narrow =
        cache.layout_wrapped_line(text, px(10), &font(11), Some(px(50)), None, &is_word_char);
    let wide =
        cache.layout_wrapped_line(text, px(10), &font(11), Some(px(80)), None, &is_word_char);
    assert!(Arc::ptr_eq(&narrow.unwrapped_layout, &wide.unwrapped_layout));
    assert_eq!(asked.get(), 1);
}

#[test]
fn a_forced_width_is_an_option() {
    let (mut cache, asked) = cache();
    let opts = ShapeLineOptions { force_width: Some(px(9)), ..Default::default() };
    let line = cache.layout_line_with("abc", px(10), &font(3), opts);
    let same = cache.layout_line("abc", px(10), &font(3), Some(px(9)));
    assert!(Arc::ptr_eq(&line, &same));
    assert_eq!(asked.get(), 1);
}
