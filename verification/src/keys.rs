//! What laid out lines are cached under.

use crate::geometry::Pixels;
use crate::inline_lists::{same_font_runs, FontRun, FontRuns};
use crate::snap::{OptionsView, SnapMode, SnapModeRef};
use vstd::prelude::*;

verus! {

/// A text and everything that its layout depends on.
#[verifier::ext_equal]
pub struct LineKey {
    pub text: Seq<char>,
    pub font_size: Pixels,
    pub runs: Seq<FontRun>,
    pub wrap_width: Option<Pixels>,
    pub options: OptionsView,
}

impl LineKey {
    /// The key of a text that is not wrapped.
    pub open spec fn of_line(
        text: Seq<char>,
        font_size: Pixels,
        runs: Seq<FontRun>,
        options: OptionsView,
    ) -> LineKey {
        LineKey { text, font_size, runs, wrap_width: None, options }
    }

    /// The key of a text that is wrapped, which goes without a grid.
    pub open spec fn of_wrapped_line(
        text: Seq<char>,
        font_size: Pixels,
        runs: Seq<FontRun>,
        wrap_width: Option<Pixels>,
    ) -> LineKey {
        LineKey { text, font_size, runs, wrap_width, options: OptionsView::plain(None) }
    }

    /// The length of the text in utf-8 bytes.
    pub open spec fn text_len(self) -> int {
        vstd::utf8::encode_utf8(self.text).len() as int
    }

    /// The key of the same text without a wrap width.
    pub open spec fn unwrapped(self) -> LineKey {
        LineKey { wrap_width: None, ..self }
    }
}

/// The hash of a text and everything else that its layout depends on.
#[verifier::ext_equal]
pub struct HashedLineKey {
    pub text_hash: u64,
    pub text_len: usize,
    pub font_size: Pixels,
    pub runs: Seq<FontRun>,
    pub wrap_width: Option<Pixels>,
    pub options: OptionsView,
}

impl HashedLineKey {
    /// The key of a text that is not wrapped, by its hash and its length.
    pub open spec fn of_hash(
        text_hash: u64,
        text_len: usize,
        font_size: Pixels,
        runs: Seq<FontRun>,
        options: OptionsView,
    ) -> HashedLineKey {
        HashedLineKey { text_hash, text_len, font_size, runs, wrap_width: None, options }
    }

    /// The key with a text in place of its hash.
    pub open spec fn of_text(self, text: Seq<char>) -> LineKey {
        LineKey {
            text,
            font_size: self.font_size,
            runs: self.runs,
            wrap_width: self.wrap_width,
            options: self.options,
        }
    }
}

/// A key that a line is cached under.
#[derive(Debug, Hash)]
pub struct CacheKey {
    pub text: String,
    pub font_size: Pixels,
    pub runs: FontRuns,
    pub wrap_width: Option<Pixels>,
    pub force_width: Option<Pixels>,
    pub snap_tolerance: Pixels,
    pub snap_mode: SnapMode,
}

/// A borrowed key to look a line up with.
#[derive(Clone, Copy, Debug, Hash)]
pub struct CacheKeyRef<'a> {
    pub text: &'a str,
    pub font_size: Pixels,
    pub runs: &'a [FontRun],
    pub wrap_width: Option<Pixels>,
    pub force_width: Option<Pixels>,
    pub snap_tolerance: Pixels,
    pub snap_mode: SnapModeRef<'a>,
}

/// A key that a line is cached under without its text.
#[derive(Debug, Hash)]
pub struct HashedCacheKey {
    pub text_hash: u64,
    pub text_len: usize,
    pub font_size: Pixels,
    pub runs: FontRuns,
    pub wrap_width: Option<Pixels>,
    pub force_width: Option<Pixels>,
    pub snap_tolerance: Pixels,
    pub snap_mode: SnapMode,
}

/// A borrowed key to look a line up with without its text.
#[derive(Clone, Copy, Debug, Hash)]
pub struct HashedCacheKeyRef<'a> {
    pub text_hash: u64,
    pub text_len: usize,
    pub font_size: Pixels,
    pub runs: &'a [FontRun],
    pub wrap_width: Option<Pixels>,
    pub force_width: Option<Pixels>,
    pub snap_tolerance: Pixels,
    pub snap_mode: SnapModeRef<'a>,
}

impl View for CacheKey {
    type V = LineKey;

    open spec fn view(&self) -> LineKey {
        LineKey {
            text: self.text@,
            font_size: self.font_size,
            runs: self.runs@,
            wrap_width: self.wrap_width,
            options: OptionsView {
                force_width: self.force_width,
                snap_tolerance: self.snap_tolerance,
                snap_mode: self.snap_mode@,
            },
        }
    }
}

impl View for CacheKeyRef<'_> {
    type V = LineKey;

    open spec fn view(&self) -> LineKey {
        LineKey {
            text: self.text@,
            font_size: self.font_size,
            runs: self.runs@,
            wrap_width: self.wrap_width,
            options: OptionsView {
                force_width: self.force_width,
                snap_tolerance: self.snap_tolerance,
                snap_mode: self.snap_mode@,
            },
        }
    }
}

impl View for HashedCacheKey {
    type V = HashedLineKey;

    open spec fn view(&self) -> HashedLineKey {
        HashedLineKey {
            text_hash: self.text_hash,
            text_len: self.text_len,
            font_size: self.font_size,
            runs: self.runs@,
            wrap_width: self.wrap_width,
            options: OptionsView {
                force_width: self.force_width,
                snap_tolerance: self.snap_tolerance,
                snap_mode: self.snap_mode@,
            },
        }
    }
}

impl View for HashedCacheKeyRef<'_> {
    type V = HashedLineKey;

    open spec fn view(&self) -> HashedLineKey {
        HashedLineKey {
            text_hash: self.text_hash,
            text_len: self.text_len,
            font_size: self.font_size,
            runs: self.runs@,
            wrap_width: self.wrap_width,
            options: OptionsView {
                force_width: self.force_width,
                snap_tolerance: self.snap_tolerance,
                snap_mode: self.snap_mode@,
            },
        }
    }
}

/// Whether two texts are the same.
fn same_text(a: &str, b: &str) -> (same: bool)
    ensures
        same == (a@ == b@),
{
    let a_bytes = a.as_bytes();
    let b_bytes = b.as_bytes();
    proof {
        vstd::utf8::encode_utf8_decode_utf8(a@);
        vstd::utf8::encode_utf8_decode_utf8(b@);
    }
    if a_bytes.len() != b_bytes.len() {
        return false;
    }
    let mut i: usize = 0;
    while i < a_bytes.len()
        invariant
            i <= a_bytes@.len(),
            a_bytes@.len() == b_bytes@.len(),
            a_bytes@ == vstd::utf8::encode_utf8(a@),
            b_bytes@ == vstd::utf8::encode_utf8(b@),
            forall|j: int| 0 <= j < i ==> a_bytes@[j] == b_bytes@[j],
        decreases a_bytes@.len() - i,
    {
        if a_bytes[i] != b_bytes[i] {
            return false;
        }
        i += 1;
    }
    assert(a_bytes@ =~= b_bytes@);
    true
}

/// What can be borrowed as a cache key.
pub trait AsCacheKeyRef: View<V = LineKey> {
    /// The same key, borrowed.
    fn as_cache_key_ref(&self) -> (key: CacheKeyRef<'_>)
        ensures
            key@ == self@,
    ;
}

impl AsCacheKeyRef for CacheKey {
    fn as_cache_key_ref(&self) -> (key: CacheKeyRef<'_>) {
        CacheKeyRef {
            text: self.text.as_str(),
            font_size: self.font_size,
            runs: self.runs.as_slice(),
            wrap_width: self.wrap_width,
            force_width: self.force_width,
            snap_tolerance: self.snap_tolerance,
            snap_mode: self.snap_mode.as_ref(),
        }
    }
}

impl AsCacheKeyRef for CacheKeyRef<'_> {
    fn as_cache_key_ref(&self) -> (key: CacheKeyRef<'_>) {
        *self
    }
}

impl HashedCacheKey {
    /// The same key, borrowed.
    pub fn to_ref(&self) -> (key: HashedCacheKeyRef<'_>)
        ensures
            key@ == self@,
    {
        HashedCacheKeyRef {
            text_hash: self.text_hash,
            text_len: self.text_len,
            font_size: self.font_size,
            runs: self.runs.as_slice(),
            wrap_width: self.wrap_width,
            force_width: self.force_width,
            snap_tolerance: self.snap_tolerance,
            snap_mode: self.snap_mode.as_ref(),
        }
    }
}

impl PartialEq for CacheKeyRef<'_> {
    fn eq(&self, other: &Self) -> (same: bool) {
        same_text(self.text, other.text) && self.font_size.units == other.font_size.units
            && same_font_runs(self.runs, other.runs) && Pixels::same_option(
            self.wrap_width,
            other.wrap_width,
        ) && Pixels::same_option(self.force_width, other.force_width) && self.snap_tolerance.units
            == other.snap_tolerance.units && self.snap_mode == other.snap_mode
    }
}

impl vstd::std_specs::cmp::PartialEqSpecImpl for CacheKeyRef<'_> {
    open spec fn obeys_eq_spec() -> bool {
        true
    }

    open spec fn eq_spec(&self, other: &Self) -> bool {
        self@ == other@
    }
}

impl Eq for CacheKeyRef<'_> {

}

impl PartialEq for CacheKey {
    fn eq(&self, other: &Self) -> (same: bool) {
        self.as_cache_key_ref() == other.as_cache_key_ref()
    }
}

impl vstd::std_specs::cmp::PartialEqSpecImpl for CacheKey {
    open spec fn obeys_eq_spec() -> bool {
        true
    }

    open spec fn eq_spec(&self, other: &Self) -> bool {
        self@ == other@
    }
}

impl Eq for CacheKey {

}

impl PartialEq for HashedCacheKeyRef<'_> {
    fn eq(&self, other: &Self) -> (same: bool) {
        self.text_hash == other.text_hash && self.text_len == other.text_len
            && self.font_size.units == other.font_size.units && same_font_runs(
            self.runs,
            other.runs,
        ) && Pixels::same_option(self.wrap_width, other.wrap_width) && Pixels::same_option(
            self.force_width,
            other.force_width,
        ) && self.snap_tolerance.units == other.snap_tolerance.units && self.snap_mode
            == other.snap_mode
    }
}

impl vstd::std_specs::cmp::PartialEqSpecImpl for HashedCacheKeyRef<'_> {
    open spec fn obeys_eq_spec() -> bool {
        true
    }

    open spec fn eq_spec(&self, other: &Self) -> bool {
        self@ == other@
    }
}

impl Eq for HashedCacheKeyRef<'_> {

}

impl PartialEq for HashedCacheKey {
    fn eq(&self, other: &Self) -> (same: bool) {
        self.to_ref() == other.to_ref()
    }
}

impl vstd::std_specs::cmp::PartialEqSpecImpl for HashedCacheKey {
    open spec fn obeys_eq_spec() -> bool {
        true
    }

    open spec fn eq_spec(&self, other: &Self) -> bool {
        self@ == other@
    }
}

impl Eq for HashedCacheKey {

}

/// A key that can be told from what it is looked up with.
pub trait SameKey<Probe: View<V = Self::V>>: View {
    /// Whether this is the key that is looked for.
    fn same_key(&self, probe: &Probe) -> (same: bool)
        ensures
            same == (self@ == probe@),
    ;
}

impl SameKey<CacheKey> for CacheKey {
    fn same_key(&self, probe: &CacheKey) -> (same: bool) {
        *self == *probe
    }
}

impl<'a> SameKey<CacheKeyRef<'a>> for CacheKey {
    fn same_key(&self, probe: &CacheKeyRef<'a>) -> (same: bool) {
        self.as_cache_key_ref() == *probe
    }
}

impl SameKey<HashedCacheKey> for HashedCacheKey {
    fn same_key(&self, probe: &HashedCacheKey) -> (same: bool) {
        *self == *probe
    }
}

impl<'a> SameKey<HashedCacheKeyRef<'a>> for HashedCacheKey {
    fn same_key(&self, probe: &HashedCacheKeyRef<'a>) -> (same: bool) {
        self.to_ref() == *probe
    }
}

} // verus!
