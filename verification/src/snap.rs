//! Snapping the glyphs of a line onto a grid of columns.

use crate::geometry::{px, Pixels, Point};
use crate::layout::{LayoutView, LineLayout, RunView, ShapedGlyph, ShapedRun};
use std::sync::Arc;
use vstd::prelude::*;

verus! {

/// How glyphs snap onto the forced grid when `force_width` is set.
#[derive(Clone, Debug, Hash)]
pub enum SnapMode {
    /// Snap glyph N to `N * force_width`. Correct when one glyph is one column: no ligatures
    /// or contextual substitutions that fuse multiple input positions into one glyph.
    GlyphIndex,
    /// Snap a glyph whose source starts at byte B to `byte_to_column[B] * force_width`. The
    /// table must have one entry for each byte of the text and one more, the total column
    /// count, which gives the width of the line; its entries must not decrease.
    ///
    /// A column is one stride of `force_width`, whatever that is to the caller. On a uniform
    /// grid the table counts cells; where wide cells are laid out in spans of their own, it
    /// counts the strides of the span.
    ///
    /// Use this whenever source bytes and output columns are not in 1:1 correspondence:
    /// ligatures, emoji clusters, multi-byte UTF-8 graphemes.
    ByteToColumn {
        /// From byte offset to column ordinal.
        byte_to_column: Arc<[u32]>,
    },
}

/// Borrowed sibling of [`SnapMode`], used in cache probe keys to keep them `Copy`.
#[derive(Clone, Copy, Debug, Hash)]
pub enum SnapModeRef<'a> {
    /// See [`SnapMode::GlyphIndex`].
    GlyphIndex,
    /// See [`SnapMode::ByteToColumn`].
    ByteToColumn {
        /// From byte offset to column ordinal.
        byte_to_column: &'a [u32],
    },
}

/// What a snap mode is.
#[verifier::ext_equal]
pub enum SnapModeView {
    GlyphIndex,
    ByteToColumn { byte_to_column: Seq<u32> },
}

impl View for SnapMode {
    type V = SnapModeView;

    open spec fn view(&self) -> SnapModeView {
        match self {
            SnapMode::GlyphIndex => SnapModeView::GlyphIndex,
            SnapMode::ByteToColumn { byte_to_column } => SnapModeView::ByteToColumn {
                byte_to_column: byte_to_column@,
            },
        }
    }
}

impl View for SnapModeRef<'_> {
    type V = SnapModeView;

    open spec fn view(&self) -> SnapModeView {
        match self {
            SnapModeRef::GlyphIndex => SnapModeView::GlyphIndex,
            SnapModeRef::ByteToColumn { byte_to_column } => SnapModeView::ByteToColumn {
                byte_to_column: byte_to_column@,
            },
        }
    }
}

impl SnapMode {
    /// The same mode, borrowed.
    pub fn as_ref(&self) -> (mode: SnapModeRef<'_>)
        ensures
            mode@ == self@,
    {
        match self {
            SnapMode::GlyphIndex => SnapModeRef::GlyphIndex,
            SnapMode::ByteToColumn { byte_to_column } => SnapModeRef::ByteToColumn {
                byte_to_column: &**byte_to_column,
            },
        }
    }
}

/// Whether two tables hold the same columns.
fn same_columns(a: &[u32], b: &[u32]) -> (same: bool)
    ensures
        same == (a@ == b@),
{
    if a.len() != b.len() {
        return false;
    }
    let mut i: usize = 0;
    while i < a.len()
        invariant
            i <= a@.len(),
            a@.len() == b@.len(),
            a@.take(i as int) =~= b@.take(i as int),
        decreases a@.len() - i,
    {
        if a[i] != b[i] {
            return false;
        }
        assert(a@.take(i + 1) =~= a@.take(i as int).push(a@[i as int]));
        assert(b@.take(i + 1) =~= b@.take(i as int).push(b@[i as int]));
        i += 1;
    }
    assert(a@.take(a@.len() as int) =~= a@);
    assert(b@.take(b@.len() as int) =~= b@);
    true
}

impl PartialEq for SnapModeRef<'_> {
    fn eq(&self, other: &Self) -> (same: bool) {
        match (self, other) {
            (SnapModeRef::GlyphIndex, SnapModeRef::GlyphIndex) => true,
            (
                SnapModeRef::ByteToColumn { byte_to_column: a },
                SnapModeRef::ByteToColumn { byte_to_column: b },
            ) => same_columns(a, b),
            _ => false,
        }
    }
}

impl vstd::std_specs::cmp::PartialEqSpecImpl for SnapModeRef<'_> {
    open spec fn obeys_eq_spec() -> bool {
        true
    }

    open spec fn eq_spec(&self, other: &Self) -> bool {
        self@ == other@
    }
}

impl Eq for SnapModeRef<'_> {

}

impl PartialEq for SnapMode {
    fn eq(&self, other: &Self) -> (same: bool) {
        self.as_ref() == other.as_ref()
    }
}

impl vstd::std_specs::cmp::PartialEqSpecImpl for SnapMode {
    open spec fn obeys_eq_spec() -> bool {
        true
    }

    open spec fn eq_spec(&self, other: &Self) -> bool {
        self@ == other@
    }
}

impl Eq for SnapMode {

}

/// Options controlling glyph snapping when shaping a line with a forced column grid.
///
/// The default value means no snapping, 1px tolerance, `GlyphIndex` snap mode.
///
/// When `force_width` is `None`, `snap_tolerance` and `snap_mode` have no effect on the
/// resulting layout. Options are normalized at each entry point, so that other values in that
/// case collapse to the defaults and cached lines are found whatever those fields hold.
#[derive(Clone, Debug)]
pub struct ShapeLineOptions {
    /// If set, glyphs are snapped onto a grid of this width. `None` means no snap.
    pub force_width: Option<Pixels>,
    /// Glyphs only snap if their natural position differs from the target by more than this
    /// tolerance.
    pub snap_tolerance: Pixels,
    /// How the snap target column is derived. See [`SnapMode`].
    pub snap_mode: SnapMode,
}

/// What shaping options are.
#[verifier::ext_equal]
pub struct OptionsView {
    pub force_width: Option<Pixels>,
    pub snap_tolerance: Pixels,
    pub snap_mode: SnapModeView,
}

impl View for ShapeLineOptions {
    type V = OptionsView;

    open spec fn view(&self) -> OptionsView {
        OptionsView {
            force_width: self.force_width,
            snap_tolerance: self.snap_tolerance,
            snap_mode: self.snap_mode@,
        }
    }
}

impl OptionsView {
    /// No grid, but for a forced width.
    pub open spec fn plain(force_width: Option<Pixels>) -> OptionsView {
        OptionsView {
            force_width,
            snap_tolerance: Pixels { units: crate::geometry::UNITS_PER_PIXEL },
            snap_mode: SnapModeView::GlyphIndex,
        }
    }

    /// The options with the fields that have no effect set to their defaults.
    pub open spec fn normalized(self) -> OptionsView {
        if self.force_width is None {
            OptionsView::plain(None)
        } else {
            self
        }
    }

    /// What the options make of the layout of a text of `text_len` bytes.
    pub open spec fn apply(self, layout: LayoutView, text_len: int) -> LayoutView {
        match self.force_width {
            Some(force_width) => snapped(
                layout,
                force_width,
                self.snap_tolerance,
                self.snap_mode,
                text_len,
            ),
            None => layout,
        }
    }

    /// Whether the options can be applied to the layout of a text of `text_len` bytes.
    pub open spec fn can_apply(self, layout: LayoutView, text_len: int) -> bool {
        self.force_width is Some ==> can_snap(layout, self.snap_mode, text_len)
    }
}

impl Default for ShapeLineOptions {
    fn default() -> (options: Self)
        ensures
            options@ == OptionsView::plain(None),
    {
        ShapeLineOptions {
            force_width: None,
            snap_tolerance: px(1),
            snap_mode: SnapMode::GlyphIndex,
        }
    }
}

impl ShapeLineOptions {
    /// Normalize to a canonical form for cache keying. When `force_width` is `None` the snap
    /// loop is skipped entirely, so `snap_tolerance` and `snap_mode` cannot influence the
    /// resulting layout; they collapse to the defaults.
    pub fn normalized(self) -> (options: Self)
        ensures
            options@ == self@.normalized(),
            self.force_width is Some ==> options == self,
    {
        if self.force_width.is_none() {
            ShapeLineOptions {
                force_width: None,
                snap_tolerance: px(1),
                snap_mode: SnapMode::GlyphIndex,
            }
        } else {
            self
        }
    }
}

/// Whether a table of columns goes with a text of `text_len` bytes.
pub open spec fn columns_fit(byte_to_column: Seq<u32>, text_len: int) -> bool {
    &&& byte_to_column.len() == text_len + 1
    &&& forall|i: int, j: int|
        0 <= i <= j < byte_to_column.len() ==> byte_to_column[i] <= byte_to_column[j]
}

/// Whether the glyphs of a layout can be counted and, where a table tells their columns, each
/// has an entry in it.
pub open spec fn can_snap(layout: LayoutView, snap_mode: SnapModeView, text_len: int) -> bool {
    &&& crate::layout::glyphs_before(layout.runs, layout.runs.len() as int) <= u32::MAX
    &&& snap_mode matches SnapModeView::ByteToColumn { byte_to_column } ==> {
        &&& columns_fit(byte_to_column, text_len)
        &&& forall|run_ix: int, glyph_ix: int|
            0 <= run_ix < layout.runs.len() && 0 <= glyph_ix < layout.runs[run_ix].glyphs.len()
                ==> (#[trigger] layout.runs[run_ix].glyphs[glyph_ix]).index <= text_len
    }
}

/// The column of a glyph, the `ordinal`-th of its line.
pub open spec fn column_of(snap_mode: SnapModeView, glyph: ShapedGlyph, ordinal: int) -> int {
    match snap_mode {
        SnapModeView::GlyphIndex => ordinal,
        SnapModeView::ByteToColumn { byte_to_column } => byte_to_column[glyph.index as int] as int,
    }
}

/// How many columns a line of `count` glyphs and `text_len` bytes takes.
pub open spec fn columns_of(snap_mode: SnapModeView, count: int, text_len: int) -> int {
    match snap_mode {
        SnapModeView::GlyphIndex => count,
        SnapModeView::ByteToColumn { byte_to_column } => byte_to_column[text_len] as int,
    }
}

/// A glyph that goes to `target` if it is further from it than the tolerance.
pub open spec fn snapped_glyph(
    glyph: ShapedGlyph,
    target: Pixels,
    snap_tolerance: Pixels,
) -> ShapedGlyph {
    let off = glyph.position.x@ - target@;
    if off > snap_tolerance@ || -off > snap_tolerance@ {
        ShapedGlyph { position: Point { x: target, y: glyph.position.y }, ..glyph }
    } else {
        glyph
    }
}

/// A run that has `before` glyphs of its line before it, with its glyphs on the grid.
pub open spec fn snapped_run(
    run: RunView,
    before: int,
    force_width: Pixels,
    snap_tolerance: Pixels,
    snap_mode: SnapModeView,
) -> RunView {
    RunView {
        font_id: run.font_id,
        glyphs: Seq::new(
            run.glyphs.len(),
            |glyph_ix: int|
                {
                    let glyph = run.glyphs[glyph_ix];
                    let column = column_of(snap_mode, glyph, before + glyph_ix);
                    snapped_glyph(glyph, Pixels::nearest(column * force_width@), snap_tolerance)
                },
        ),
    }
}

/// A layout with its glyphs on the grid, as wide as its columns.
pub open spec fn snapped(
    layout: LayoutView,
    force_width: Pixels,
    snap_tolerance: Pixels,
    snap_mode: SnapModeView,
    text_len: int,
) -> LayoutView {
    let count = crate::layout::glyphs_before(layout.runs, layout.runs.len() as int);
    LayoutView {
        width: Pixels::nearest(columns_of(snap_mode, count, text_len) * force_width@),
        runs: Seq::new(
            layout.runs.len(),
            |run_ix: int|
                snapped_run(
                    layout.runs[run_ix],
                    crate::layout::glyphs_before(layout.runs, run_ix),
                    force_width,
                    snap_tolerance,
                    snap_mode,
                ),
        ),
        ..layout
    }
}

/// Snap the glyphs of one run, the first of which is glyph `first` of its line.
fn snap_run(
    run: &mut ShapedRun,
    first: u32,
    force_width: Pixels,
    snap_tolerance: Pixels,
    snap_mode: &SnapMode,
)
    requires
        first + old(run).glyphs@.len() <= u32::MAX,
        snap_mode@ matches SnapModeView::ByteToColumn { byte_to_column } ==> forall|glyph_ix: int|
            0 <= glyph_ix < old(run).glyphs@.len() ==> (
            #[trigger] old(run).glyphs@[glyph_ix]).index < byte_to_column.len(),
    ensures
        final(run)@ == snapped_run(
            old(run)@,
            first as int,
            force_width,
            snap_tolerance,
            snap_mode@,
        ),
{
    let ghost before = run@;
    let ghost after = snapped_run(before, first as int, force_width, snap_tolerance, snap_mode@);
    let count: usize = run.glyphs.len();
    let mut glyph_ix: usize = 0;
    while glyph_ix < count
        invariant
            glyph_ix <= count,
            count == before.glyphs.len(),
            count == run.glyphs@.len(),
            run.font_id == before.font_id,
            first + before.glyphs.len() <= u32::MAX,
            after == snapped_run(before, first as int, force_width, snap_tolerance, snap_mode@),
            snap_mode@ matches SnapModeView::ByteToColumn { byte_to_column } ==> forall|n: int|
                0 <= n < before.glyphs.len() ==> (#[trigger] before.glyphs[n]).index
                    < byte_to_column.len(),
            forall|n: int| 0 <= n < glyph_ix ==> run.glyphs@[n] == after.glyphs[n],
            forall|n: int| glyph_ix <= n < count ==> run.glyphs@[n] == before.glyphs[n],
        decreases count - glyph_ix,
    {
        let mut glyph = run.glyphs[glyph_ix];
        assert(glyph == before.glyphs[glyph_ix as int]);
        let column: u32 = match snap_mode {
            SnapMode::GlyphIndex => first + glyph_ix as u32,
            SnapMode::ByteToColumn { byte_to_column } => byte_to_column[glyph.index],
        };
        let target_x = force_width.times(column as i128);
        let off: i128 = glyph.position.x.units as i128 - target_x.units as i128;
        if off > snap_tolerance.units as i128 || -off > snap_tolerance.units as i128 {
            glyph.position.x = target_x;
            run.glyphs.set(glyph_ix, glyph);
        }
        glyph_ix += 1;
    }
    assert(run@.glyphs =~= after.glyphs);
}

/// Snap the glyphs of a line of `text_len` bytes onto the grid of columns `force_width` wide:
/// each glyph that is further than `snap_tolerance` from where its column starts goes there.
/// The line becomes as wide as its columns.
pub fn snap_glyph_positions(
    layout: &mut LineLayout,
    force_width: Pixels,
    snap_tolerance: Pixels,
    snap_mode: &SnapMode,
    text_len: usize,
)
    requires
        can_snap(old(layout)@, snap_mode@, text_len as int),
    ensures
        final(layout)@ == snapped(
            old(layout)@,
            force_width,
            snap_tolerance,
            snap_mode@,
            text_len as int,
        ),
{
    let ghost before = layout@;
    let ghost after = snapped(before, force_width, snap_tolerance, snap_mode@, text_len as int);
    let run_count: usize = layout.runs.len();
    let mut glyph_pos: u32 = 0;
    let mut run_ix: usize = 0;
    while run_ix < run_count
        invariant
            run_ix <= run_count,
            run_count == before.runs.len(),
            can_snap(before, snap_mode@, text_len as int),
            after == snapped(before, force_width, snap_tolerance, snap_mode@, text_len as int),
            layout@ == (LayoutView { runs: layout@.runs, ..before }),
            layout@.runs.len() == run_count,
            glyph_pos == crate::layout::glyphs_before(before.runs, run_ix as int),
            forall|n: int| 0 <= n < run_ix ==> layout@.runs[n] == after.runs[n],
            forall|n: int| run_ix <= n < run_count ==> layout@.runs[n] == before.runs[n],
        decreases run_count - run_ix,
    {
        proof {
            crate::layout::lemma_glyphs_before_grows(
                before.runs,
                run_ix + 1,
                before.runs.len() as int,
            );
            assert(layout@.runs[run_ix as int] == before.runs[run_ix as int]);
            assert(layout.runs@[run_ix as int]@ == before.runs[run_ix as int]);
            assert forall|n: int|
                0 <= n < layout.runs@[run_ix as int].glyphs@.len() implies snap_mode@ matches
                SnapModeView::ByteToColumn { byte_to_column } ==> (
            #[trigger] layout.runs@[run_ix as int].glyphs@[n]).index < byte_to_column.len() by {
                assert(before.runs[run_ix as int].glyphs[n].index <= text_len || snap_mode@ is GlyphIndex);
            }
        }
        let glyph_count: usize = layout.runs[run_ix].glyphs.len();
        let ghost mid = layout@;
        snap_run(&mut layout.runs[run_ix], glyph_pos, force_width, snap_tolerance, snap_mode);
        assert(forall|n: int| 0 <= n < run_count && n != run_ix ==> layout@.runs[n] == mid.runs[n]);
        glyph_pos += glyph_count as u32;
        run_ix += 1;
    }
    let columns: u32 = match snap_mode {
        SnapMode::GlyphIndex => glyph_pos,
        SnapMode::ByteToColumn { byte_to_column } => byte_to_column[text_len],
    };
    layout.width = force_width.times(columns as i128);
    assert(layout@.runs =~= after.runs);
}

/// Whether a table of columns goes with a text of `text_len` bytes.
fn check_columns(byte_to_column: &[u32], text_len: usize) -> (fits: bool)
    ensures
        fits == columns_fit(byte_to_column@, text_len as int),
{
    if byte_to_column.len() == 0 || byte_to_column.len() - 1 != text_len {
        return false;
    }
    let mut i: usize = 1;
    while i < byte_to_column.len()
        invariant
            1 <= i <= byte_to_column@.len(),
            forall|j: int, k: int|
                0 <= j <= k < i ==> byte_to_column@[j] <= byte_to_column@[k],
        decreases byte_to_column@.len() - i,
    {
        if byte_to_column[i - 1] > byte_to_column[i] {
            return false;
        }
        i += 1;
    }
    true
}

/// Whether the glyphs of a layout can be counted.
fn check_glyph_count(layout: &LineLayout) -> (fits: bool)
    ensures
        fits == (crate::layout::glyphs_before(layout@.runs, layout@.runs.len() as int)
            <= u32::MAX),
{
    let ghost runs = layout@.runs;
    let mut count: u32 = 0;
    let mut run_ix: usize = 0;
    while run_ix < layout.runs.len()
        invariant
            run_ix <= runs.len(),
            runs == layout@.runs,
            count == crate::layout::glyphs_before(runs, run_ix as int),
        decreases runs.len() - run_ix,
    {
        let glyph_count: usize = layout.runs[run_ix].glyphs.len();
        assert(runs[run_ix as int].glyphs.len() == glyph_count);
        proof {
            crate::layout::lemma_glyphs_before_grows(runs, run_ix + 1, runs.len() as int);
        }
        if glyph_count as u64 > (u32::MAX - count) as u64 {
            return false;
        }
        count += glyph_count as u32;
        run_ix += 1;
    }
    true
}

/// Whether each glyph of a layout starts within the first `text_len` bytes or at their end.
fn check_glyph_indices(layout: &LineLayout, text_len: usize) -> (fits: bool)
    ensures
        fits == (forall|run_ix: int, glyph_ix: int|
            0 <= run_ix < layout@.runs.len() && 0 <= glyph_ix < layout@.runs[run_ix].glyphs.len()
                ==> (#[trigger] layout@.runs[run_ix].glyphs[glyph_ix]).index <= text_len),
{
    let ghost runs = layout@.runs;
    let mut run_ix: usize = 0;
    while run_ix < layout.runs.len()
        invariant
            run_ix <= runs.len(),
            runs == layout@.runs,
            forall|n: int, glyph_ix: int|
                0 <= n < run_ix && 0 <= glyph_ix < runs[n].glyphs.len() ==> (
                #[trigger] runs[n].glyphs[glyph_ix]).index <= text_len,
        decreases runs.len() - run_ix,
    {
        let run = &layout.runs[run_ix];
        let mut glyph_ix: usize = 0;
        while glyph_ix < run.glyphs.len()
            invariant
                run_ix < runs.len(),
                runs == layout@.runs,
                *run == layout.runs@[run_ix as int],
                glyph_ix <= run.glyphs@.len(),
                forall|n: int|
                    0 <= n < glyph_ix ==> (#[trigger] run.glyphs@[n]).index <= text_len,
            decreases run.glyphs@.len() - glyph_ix,
        {
            if run.glyphs[glyph_ix].index > text_len {
                assert(runs[run_ix as int].glyphs[glyph_ix as int].index > text_len);
                return false;
            }
            glyph_ix += 1;
        }
        assert(runs[run_ix as int].glyphs == run.glyphs@);
        run_ix += 1;
    }
    true
}

/// Whether the glyphs of a line of `text_len` bytes can be snapped: they can be counted, and
/// where a table tells their columns, it goes with the text and has an entry for each of them.
pub fn fits_columns(layout: &LineLayout, snap_mode: &SnapMode, text_len: usize) -> (fits: bool)
    ensures
        fits == can_snap(layout@, snap_mode@, text_len as int),
{
    check_glyph_count(layout) && match snap_mode {
        SnapMode::GlyphIndex => true,
        SnapMode::ByteToColumn { byte_to_column } => check_columns(&**byte_to_column, text_len)
            && check_glyph_indices(layout, text_len),
    }
}

impl ShapeLineOptions {
    /// What the options make of the layout of a text of `text_len` bytes; `None` if they ask
    /// for a grid that it does not fit.
    pub fn apply(&self, layout: LineLayout, text_len: usize) -> (applied: Option<LineLayout>)
        ensures
            match applied {
                Some(applied) => {
                    &&& self@.can_apply(layout@, text_len as int)
                    &&& applied@ == self@.apply(layout@, text_len as int)
                },
                None => !self@.can_apply(layout@, text_len as int),
            },
    {
        let mut layout = layout;
        if let Some(force_width) = self.force_width {
            if !fits_columns(&layout, &self.snap_mode, text_len) {
                return None;
            }
            snap_glyph_positions(
                &mut layout,
                force_width,
                self.snap_tolerance,
                &self.snap_mode,
                text_len,
            );
        }
        Some(layout)
    }
}

} // verus!
