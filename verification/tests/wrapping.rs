use line_layout::geometry::{point, px, Pixels};
use line_layout::inline_lists::{same_font_runs, FontRun, WrapBoundaries, WrapBoundary};
use line_layout::layout::{FontId, GlyphId, LineLayout, ShapedGlyph, ShapedRun};
use line_layout::wrapped::WrappedLineLayout;
use std::sync::Arc;

fn is_word_char(ch: char) -> bool {
    ch.is_alphanumeric()
}

/// A layout of a text with a glyph for each character, each ten pixels wide, with `first`
/// glyphs in the first run and the others in a second one.
fn shaped(text: &str, first: usize) -> LineLayout {
    let mut runs = vec![
        ShapedRun { font_id: FontId(0), glyphs: Vec::new() },
        ShapedRun { font_id: FontId(1), glyphs: Vec::new() },
    ];
    let mut count = 0;
    for (index, _) in text.char_indices() {
        let run_ix = if count < first { 0 } else { 1 };
        runs[run_ix].glyphs.push(ShapedGlyph {
            id: GlyphId(count as u32),
            position: point(px(10 * count as i32), px(0)),
            index,
            is_emoji: false,
        });
        count += 1;
    }
    LineLayout {
        font_size: px(12),
        width: px(10 * count as i32),
        ascent: px(0),
        descent: px(0),
        runs,
        len: text.len(),
    }
}

/// The glyphs that the lines after the first start with.
fn starts(text: &str, wrap_width: i32, max_lines: Option<usize>) -> Vec<usize> {
    let layout = Arc::new(shaped(text, 1000));
    let wrapped = WrappedLineLayout::wrap(
        layout,
        text,
        Some(px(wrap_width)),
        max_lines,
        &is_word_char,
    )
    .unwrap();
    let mut starts = Vec::new();
    for boundary in wrapped.wrap_boundaries() {
        assert_eq!(boundary.run_ix, 0);
        starts.push(boundary.glyph_ix);
    }
    starts
}

#[test]
fn lines_break_before_words() {
    assert_eq!(starts("hello world foo", 60, None), vec![6, 12]);
}

#[test]
fn a_line_that_fits_is_not_broken() {
    assert_eq!(starts("hello", 50, None), vec![]);
    assert_eq!(starts("", 0, None), vec![]);
}

#[test]
fn a_long_word_breaks_where_it_is_full() {
    assert_eq!(starts("abcdefgh", 30, None), vec![3, 6]);
    assert_eq!(starts("ab cdefgh", 40, None), vec![3, 7]);
}

#[test]
fn a_glyph_wider_than_the_line_stays_in_it() {
    assert_eq!(starts("abcd", 5, None), vec![1, 2, 3]);
}

#[test]
fn lines_break_before_what_is_no_word() {
    assert_eq!(starts("ab-cd", 35, None), vec![2]);
}

#[test]
fn lines_do_not_break_before_the_first_word() {
    assert_eq!(starts("  ab cd", 40, None), vec![4]);
    assert_eq!(starts("  abcd", 30, None), vec![3]);
}

#[test]
fn newlines_are_passed_over() {
    assert_eq!(starts("ab\ncd", 25, None), vec![3]);
}

#[test]
fn there_are_at_most_as_many_lines_as_asked_for() {
    assert_eq!(starts("hello world foo", 60, Some(4)), vec![6, 12]);
    assert_eq!(starts("hello world foo", 60, Some(3)), vec![6, 12]);
    assert_eq!(starts("hello world foo", 60, Some(2)), vec![6]);
    assert_eq!(starts("hello world foo", 60, Some(1)), vec![]);
    assert_eq!(starts("hello", 50, Some(0)), vec![]);
}

#[test]
fn no_line_at_all_is_too_few_for_two() {
    let layout = shaped("hello world", 1000);
    let found =
        layout.checked_compute_wrap_boundaries("hello world", px(60), Some(0), &is_word_char);
    assert!(found.is_none());
    let wrapped = WrappedLineLayout::wrap(
        Arc::new(layout),
        "hello world",
        Some(px(60)),
        Some(0),
        &is_word_char,
    );
    assert!(wrapped.is_none());
}

#[test]
fn boundaries_tell_runs_and_glyphs() {
    let text = "hello world foo";
    let layout = Arc::new(shaped(text, 8));
    let wrapped =
        WrappedLineLayout::wrap(layout.clone(), text, Some(px(60)), None, &is_word_char).unwrap();
    assert_eq!(
        wrapped.wrap_boundaries(),
        &[
            WrapBoundary { run_ix: 0, glyph_ix: 6 },
            WrapBoundary { run_ix: 1, glyph_ix: 4 },
        ]
    );
    assert!(Arc::ptr_eq(&wrapped.unwrapped_layout, &layout));
    assert_eq!(wrapped.wrap_width, Some(px(60)));
    assert_eq!(wrapped.size(px(20)).height, px(60));
}

#[test]
fn without_a_width_there_is_one_line() {
    let text = "hello world foo";
    let wrapped =
        WrappedLineLayout::wrap(Arc::new(shaped(text, 8)), text, None, None, &is_word_char)
            .unwrap();
    assert!(wrapped.wrap_boundaries().is_empty());
    assert_eq!(wrapped.width(), px(150));
}

#[test]
fn characters_of_several_bytes_are_read() {
    // The space comes after six bytes, the last letter after seven.
    assert_eq!(starts("ééé à", 30, None), vec![3]);
    assert_eq!(starts("ééé à", 45, None), vec![4]);
    assert_eq!(starts("你好 世界", 35, None), vec![3]);
}

#[test]
fn glyphs_have_to_be_for_characters_of_the_text() {
    let mut layout = shaped("é", 1);
    assert!(layout
        .checked_compute_wrap_boundaries("é", px(60), None, &is_word_char)
        .is_some());
    // In the middle of a character, and at the end of the text.
    for index in [1, 2] {
        layout.runs[0].glyphs[0].index = index;
        assert!(layout
            .checked_compute_wrap_boundaries("é", px(60), None, &is_word_char)
            .is_none());
    }
    // A line that is not wrapped need not know its text.
    assert!(WrappedLineLayout::wrap(Arc::new(layout), "é", None, None, &is_word_char).is_some());
}

#[test]
fn glyphs_past_the_last_line_are_not_read() {
    // The line is full at glyph 3, which the one after is read with.
    let text = "abcdefgh";
    for (wrong, max_lines, found) in [
        (5, Some(1), Some(vec![])),
        (4, Some(1), None),
        (3, Some(1), None),
        (5, Some(2), None),
        (8, Some(2), Some(vec![3])),
        (7, Some(2), None),
        (5, None, None),
    ] {
        let mut layout = shaped("abcdefghi", 1000);
        layout.runs[0].glyphs.pop();
        for (n, glyph) in layout.runs[0].glyphs.iter_mut().enumerate() {
            if n >= wrong {
                glyph.index = 100;
            }
        }
        let wrapped = WrappedLineLayout::wrap(
            Arc::new(layout),
            text,
            Some(px(30)),
            max_lines,
            &is_word_char,
        );
        let starts = wrapped.map(|wrapped| {
            let mut starts = Vec::new();
            for boundary in wrapped.wrap_boundaries() {
                starts.push(boundary.glyph_ix);
            }
            starts
        });
        assert_eq!(starts, found);
    }
}

#[test]
fn words_are_not_asked_for_past_the_last_line() {
    let asked = std::cell::RefCell::new(String::new());
    let note = |ch: char| {
        asked.borrow_mut().push(ch);
        true
    };
    let text = "a\nbcdefgh";
    let layout = shaped(text, 1000);
    let found = layout.checked_compute_wrap_boundaries(text, px(35), Some(1), &note);
    assert!(found.is_some());
    assert_eq!(asked.into_inner(), "abc");
}

#[test]
fn compute_wrap_boundaries_is_what_wrapping_takes() {
    let text = "ab cd ef";
    let layout = shaped(text, 4);
    let found = layout.compute_wrap_boundaries(text, px(30), None, &is_word_char);
    let wrapped = WrappedLineLayout {
        unwrapped_layout: Arc::new(layout),
        wrap_boundaries: found,
        wrap_width: Some(px(30)),
    };
    assert_eq!(
        wrapped.wrap_boundaries(),
        &[
            WrapBoundary { run_ix: 0, glyph_ix: 3 },
            WrapBoundary { run_ix: 1, glyph_ix: 2 },
        ]
    );
}

#[test]
fn breaking_goes_by_what_it_is_told_of_words() {
    let text = "ab-cd";
    let layout = Arc::new(shaped(text, 1000));
    let whole =
        WrappedLineLayout::wrap(layout.clone(), text, Some(px(35)), None, &|_: char| true).unwrap();
    assert_eq!(whole.wrap_boundaries(), &[WrapBoundary { run_ix: 0, glyph_ix: 3 }]);
    let parts =
        WrappedLineLayout::wrap(layout, text, Some(px(35)), None, &|ch: char| ch != '-').unwrap();
    assert_eq!(parts.wrap_boundaries(), &[WrapBoundary { run_ix: 0, glyph_ix: 2 }]);
}

#[test]
fn lines_break_at_the_last_place_that_they_can() {
    // The line can break before "b", too, but before "-" is the last place.
    assert_eq!(starts("a b -cc dddd", 75, None), vec![4, 8]);
    assert_eq!(starts("a b c dddd", 75, None), vec![6]);
    // A place up to the glyph that made the line before too wide does not count again.
    assert_eq!(starts("ab cdefgh", 40, None), vec![3, 7]);
}

#[test]
fn runs_without_glyphs_are_passed_over() {
    let text = "hello world";
    let mut layout = shaped(text, 3);
    let empty = || ShapedRun { font_id: FontId(9), glyphs: Vec::new() };
    layout.runs.insert(0, empty());
    layout.runs.insert(2, empty());
    layout.runs.push(empty());
    let found = layout.checked_compute_wrap_boundaries(text, px(60), None, &is_word_char).unwrap();
    let wrapped = WrappedLineLayout {
        unwrapped_layout: Arc::new(layout),
        wrap_boundaries: found,
        wrap_width: Some(px(60)),
    };
    assert_eq!(wrapped.wrap_boundaries(), &[WrapBoundary { run_ix: 3, glyph_ix: 3 }]);
}

#[test]
fn a_limit_keeps_the_first_lines() {
    let text = "one two three four five six";
    let full = starts(text, 80, None);
    assert_eq!(full.len(), 3);
    for max_lines in 1..6 {
        let some = starts(text, 80, Some(max_lines));
        assert_eq!(some, full[..full.len().min(max_lines - 1)]);
    }
}

#[test]
fn lines_fit_and_are_full() {
    let text = "one two three four five six";
    let wrap_width = px(80);
    let layout = Arc::new(shaped(text, 1000));
    let wrapped =
        WrappedLineLayout::wrap(layout.clone(), text, Some(wrap_width), None, &is_word_char)
            .unwrap();
    let mut start = 0;
    for boundary in wrapped.wrap_boundaries() {
        // Up to the boundary the line fits; the word there would not fit any more.
        assert!(boundary.glyph_ix > start);
        assert!(px(10 * (boundary.glyph_ix - start) as i32) <= wrap_width);
        let rest = &text[boundary.glyph_ix..];
        assert_eq!(text.as_bytes()[boundary.glyph_ix - 1], b' ');
        let word = rest.split(' ').next().unwrap();
        let end = boundary.glyph_ix + word.len();
        assert!(px(10 * (end - start) as i32) > wrap_width);
        start = boundary.glyph_ix;
    }
    assert_eq!(wrapped.wrap_boundaries().len(), 3);
}

#[test]
fn boundaries_are_ordered_by_their_glyphs() {
    let a = WrapBoundary { run_ix: 0, glyph_ix: 9 };
    let b = WrapBoundary { run_ix: 1, glyph_ix: 0 };
    let c = WrapBoundary { run_ix: 1, glyph_ix: 1 };
    assert!(b.comes_after(&a));
    assert!(c.comes_after(&b));
    assert!(!a.comes_after(&b));
    assert!(!a.comes_after(&a));
    assert!(a < b && b < c);
}

#[test]
fn lists_hold_what_they_are_given() {
    let mut boundaries = Vec::new();
    for n in 0..5 {
        boundaries.push(WrapBoundary { run_ix: n, glyph_ix: 2 * n });
    }
    let wrapped = WrappedLineLayout {
        wrap_boundaries: WrapBoundaries::from_slice(&boundaries),
        ..Default::default()
    };
    assert_eq!(wrapped.wrap_boundaries(), &boundaries[..]);
    assert_eq!(wrapped.size(Pixels { units: 10 }).height, Pixels { units: 60 });
}

#[test]
fn font_runs_are_the_same_by_their_items() {
    let a = [FontRun { len: 1, font_id: FontId(1) }, FontRun { len: 2, font_id: FontId(2) }];
    let b = [FontRun { len: 1, font_id: FontId(1) }, FontRun { len: 2, font_id: FontId(3) }];
    assert!(same_font_runs(&a, &a));
    assert!(!same_font_runs(&a, &b));
    assert!(!same_font_runs(&a, &a[..1]));
    assert!(same_font_runs(&a[..1], &b[..1]));
    assert!(same_font_runs(&[], &[]));
}
