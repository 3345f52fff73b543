use line_layout::geometry::px;
use line_layout::inline_lists::{FontRun, FontRuns};
use line_layout::keys::{AsCacheKeyRef, CacheKey, HashedCacheKey, SameKey};
use line_layout::layout::FontId;
use line_layout::snap::SnapMode;
use std::collections::hash_map::DefaultHasher;
use std::hash::{Hash, Hasher};
use std::sync::Arc;

fn hash_of<T: Hash>(value: &T) -> u64 {
    let mut hasher = DefaultHasher::new();
    value.hash(&mut hasher);
    hasher.finish()
}

fn runs() -> Vec<FontRun> {
    vec![
        FontRun { len: 2, font_id: FontId(1) },
        FontRun { len: 3, font_id: FontId(2) },
    ]
}

fn columns(table: Vec<u32>) -> SnapMode {
    SnapMode::ByteToColumn {
        byte_to_column: Arc::from(table),
    }
}

fn key() -> CacheKey {
    CacheKey {
        text: String::from("éabc"),
        font_size: px(12),
        runs: FontRuns::from_slice(&runs()),
        wrap_width: Some(px(100)),
        force_width: Some(px(7)),
        snap_tolerance: px(1),
        snap_mode: columns(vec![0, 0, 1, 2, 3, 4]),
    }
}

fn hashed_key() -> HashedCacheKey {
    HashedCacheKey {
        text_hash: 17,
        text_len: 5,
        font_size: px(12),
        runs: FontRuns::from_slice(&runs()),
        wrap_width: Some(px(100)),
        force_width: Some(px(7)),
        snap_tolerance: px(1),
        snap_mode: columns(vec![0, 0, 1, 2, 3, 4]),
    }
}

#[test]
fn a_borrowed_key_has_what_its_owner_has() {
    let key = key();
    let borrowed = key.as_cache_key_ref();
    assert_eq!(borrowed.text, "éabc");
    assert_eq!(borrowed.font_size, px(12));
    assert_eq!(borrowed.runs, &runs()[..]);
    assert_eq!(borrowed.wrap_width, Some(px(100)));
    assert_eq!(borrowed.force_width, Some(px(7)));
    assert_eq!(borrowed.snap_tolerance, px(1));
    assert_eq!(borrowed.snap_mode, key.snap_mode.as_ref());
    assert_eq!(borrowed.as_cache_key_ref(), borrowed);
    let hashed = hashed_key();
    assert_eq!(hashed.to_ref().text_hash, 17);
    assert_eq!(hashed.to_ref().text_len, 5);
    assert_eq!(hashed.to_ref().runs, &runs()[..]);
}

#[test]
fn keys_are_the_same_by_what_they_hold() {
    assert_eq!(key(), key());
    assert!(key().same_key(&key()));
    assert!(key().same_key(&key().as_cache_key_ref()));
    assert_ne!(key(), CacheKey { text: String::from("éabd"), ..key() });
    assert_ne!(key(), CacheKey { text: String::from("éab"), ..key() });
    assert_ne!(key(), CacheKey { font_size: px(13), ..key() });
    assert_ne!(key(), CacheKey { runs: FontRuns::from_slice(&runs()[..1]), ..key() });
    assert_ne!(key(), CacheKey { wrap_width: None, ..key() });
    assert_ne!(key(), CacheKey { force_width: Some(px(8)), ..key() });
    assert_ne!(key(), CacheKey { snap_tolerance: px(0), ..key() });
    assert_ne!(key(), CacheKey { snap_mode: SnapMode::GlyphIndex, ..key() });
}

#[test]
fn hashed_keys_are_the_same_by_what_they_hold() {
    assert_eq!(hashed_key(), hashed_key());
    assert!(hashed_key().same_key(&hashed_key()));
    assert!(hashed_key().same_key(&hashed_key().to_ref()));
    assert_ne!(hashed_key(), HashedCacheKey { text_hash: 18, ..hashed_key() });
    assert_ne!(hashed_key(), HashedCacheKey { text_len: 6, ..hashed_key() });
    assert_ne!(hashed_key(), HashedCacheKey { font_size: px(13), ..hashed_key() });
    assert_ne!(
        hashed_key(),
        HashedCacheKey { runs: FontRuns::from_slice(&[]), ..hashed_key() }
    );
    assert_ne!(hashed_key(), HashedCacheKey { wrap_width: None, ..hashed_key() });
    assert_ne!(hashed_key(), HashedCacheKey { force_width: None, ..hashed_key() });
    assert_ne!(hashed_key(), HashedCacheKey { snap_tolerance: px(0), ..hashed_key() });
    assert_ne!(hashed_key(), HashedCacheKey { snap_mode: columns(vec![0]), ..hashed_key() });
}

#[test]
fn owned_and_borrowed_keys_have_the_same_hash() {
    assert_eq!(hash_of(&key()), hash_of(&key().as_cache_key_ref()));
    assert_eq!(hash_of(&hashed_key()), hash_of(&hashed_key().to_ref()));
    let plain = CacheKey { snap_mode: SnapMode::GlyphIndex, ..key() };
    assert_eq!(hash_of(&plain), hash_of(&plain.as_cache_key_ref()));
    assert_ne!(hash_of(&plain), hash_of(&key()));
}
