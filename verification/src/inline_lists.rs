//! Lists that mostly hold a single item and keep it without an allocation of their own.
//!
//! They are small vectors of the `smallvec` crate, which hold one item in place and move to
//! the heap when they grow.

use crate::layout::FontId;
use smallvec::SmallVec;
use vstd::prelude::*;

verus! {

/// How many items a list can hold. Lists grow to powers of two, and their items are two machine
/// words each; the next power of two would take more than half of the address space, which no
/// allocation may.
#[verifier::nonlinear]
pub const MAX_ITEMS: usize = usize::MAX / (usize::BITS as usize) + 1;

/// A run of text with a single font.
#[derive(Clone, Copy, Debug, PartialEq, Eq, Hash, Structural)]
pub struct FontRun {
    /// How many bytes of the text the run covers.
    pub len: usize,
    /// The font of the run.
    pub font_id: FontId,
}

/// A boundary at which a line was wrapped.
#[derive(Clone, Copy, Debug, PartialEq, Eq, PartialOrd, Ord, Structural)]
pub struct WrapBoundary {
    /// The run of the glyph that the next line starts with.
    pub run_ix: usize,
    /// Which glyph of that run it is.
    pub glyph_ix: usize,
}

/// The font runs of a line, a `smallvec::SmallVec` of one item in place.
#[verifier::external_body]
#[derive(Debug, Hash)]
pub struct FontRuns {
    inner: SmallVec<[FontRun; 1]>,
}

/// The font runs that a list holds, in order.
pub uninterp spec fn font_runs(list: FontRuns) -> Seq<FontRun>;

/// The boundaries at which a line was wrapped, a `smallvec::SmallVec` of one item in place.
#[verifier::external_body]
#[derive(Debug)]
pub struct WrapBoundaries {
    inner: SmallVec<[WrapBoundary; 1]>,
}

/// The wrap boundaries that a list holds, in order.
pub uninterp spec fn wrap_boundaries(list: WrapBoundaries) -> Seq<WrapBoundary>;

impl View for FontRuns {
    type V = Seq<FontRun>;

    open spec fn view(&self) -> Seq<FontRun> {
        font_runs(*self)
    }
}

impl View for WrapBoundaries {
    type V = Seq<WrapBoundary>;

    open spec fn view(&self) -> Seq<WrapBoundary> {
        wrap_boundaries(*self)
    }
}

impl FontRuns {
    /// `SmallVec::from` on a slice. Claimed: the list holds the items of the slice in their
    /// order. The longest slices are left out, for which the list would ask for more memory
    /// than can be addressed.
    #[verifier::external_body]
    fn small_vec_from(runs: &[FontRun]) -> (list: FontRuns)
        requires
            runs@.len() <= MAX_ITEMS,
        ensures
            font_runs(list) == runs@,
    {
        FontRuns { inner: SmallVec::from(runs) }
    }

    /// The list of the given font runs.
    pub fn from_slice(runs: &[FontRun]) -> (list: FontRuns)
        requires
            runs@.len() <= MAX_ITEMS,
        ensures
            list@ == runs@,
    {
        FontRuns::small_vec_from(runs)
    }

    /// `SmallVec::as_slice`. Claimed: the slice has the items of the list in their order.
    #[verifier::external_body]
    pub(crate) fn as_slice(&self) -> (runs: &[FontRun])
        ensures
            runs@ == font_runs(*self),
    {
        self.inner.as_slice()
    }
}

impl WrapBoundaries {
    /// `SmallVec::new`. Claimed: the list is empty.
    #[verifier::external_body]
    pub(crate) fn new() -> (list: WrapBoundaries)
        ensures
            wrap_boundaries(list) == Seq::<WrapBoundary>::empty(),
    {
        WrapBoundaries { inner: SmallVec::new() }
    }

    /// `SmallVec::push`. Claimed: the item comes last, after what the list held before. Lists
    /// are left out that are so long that growing would ask for more memory than can be
    /// addressed.
    #[verifier::external_body]
    pub(crate) fn push(&mut self, boundary: WrapBoundary)
        requires
            wrap_boundaries(*old(self)).len() < MAX_ITEMS,
        ensures
            wrap_boundaries(*final(self)) == wrap_boundaries(*old(self)).push(boundary),
    {
        self.inner.push(boundary)
    }

    /// `SmallVec::as_slice`. Claimed: the slice has the items of the list in their order.
    #[verifier::external_body]
    pub(crate) fn as_slice(&self) -> (boundaries: &[WrapBoundary])
        ensures
            boundaries@ == wrap_boundaries(*self),
    {
        self.inner.as_slice()
    }

    /// The list of the given boundaries.
    pub fn from_slice(boundaries: &[WrapBoundary]) -> (list: WrapBoundaries)
        requires
            boundaries@.len() <= MAX_ITEMS,
        ensures
            list@ == boundaries@,
    {
        let mut list = WrapBoundaries::new();
        let mut i: usize = 0;
        while i < boundaries.len()
            invariant
                i <= boundaries@.len() <= MAX_ITEMS,
                list@ == boundaries@.take(i as int),
            decreases boundaries@.len() - i,
        {
            list.push(boundaries[i]);
            assert(boundaries@.take(i + 1) =~= boundaries@.take(i as int).push(
                boundaries@[i as int],
            ));
            i += 1;
        }
        assert(boundaries@.take(boundaries@.len() as int) =~= boundaries@);
        list
    }
}

impl WrapBoundary {
    /// Whether this boundary comes after another in the order of the glyphs.
    pub open spec fn is_after(self, other: WrapBoundary) -> bool {
        self.run_ix > other.run_ix || (self.run_ix == other.run_ix && self.glyph_ix
            > other.glyph_ix)
    }

    /// Whether this boundary comes after another in the order of the glyphs.
    pub fn comes_after(&self, other: &WrapBoundary) -> (after: bool)
        ensures
            after == self.is_after(*other),
    {
        self.run_ix > other.run_ix || (self.run_ix == other.run_ix && self.glyph_ix
            > other.glyph_ix)
    }
}

/// Whether two lists of font runs are the same.
pub fn same_font_runs(a: &[FontRun], b: &[FontRun]) -> (same: bool)
    ensures
        same == (a@ == b@),
{
    if a.len() != b.len() {
        return false;
    }
    let mut i: usize = 0;
    while i < a.len()
        invariant
            i <= a@.len(),
            a@.len() == b@.len(),
            a@.take(i as int) =~= b@.take(i as int),
        decreases a@.len() - i,
    {
        if a[i].len != b[i].len || a[i].font_id.0 != b[i].font_id.0 {
            return false;
        }
        assert(a@.take(i + 1) =~= a@.take(i as int).push(a@[i as int]));
        assert(b@.take(i + 1) =~= b@.take(i as int).push(b@[i as int]));
        i += 1;
    }
    assert(a@.take(a@.len() as int) =~= a@);
    assert(b@.take(b@.len() as int) =~= b@);
    true
}

} // verus!
