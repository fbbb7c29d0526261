use panea::fonts::GlyphCacheKey;
use panea::glyph_cache::GlyphCache;

fn key(glyph_id: u16) -> GlyphCacheKey {
    GlyphCacheKey { font_id: 1, glyph_id, size_millipoints: 13_000, bold: false, italic: false }
}

#[test]
fn glyph_cache_evicts_oldest_entry() {
    let mut cache: GlyphCache<u32> = GlyphCache::new(2);
    let key_a = key(u16::from(b'a'));
    let key_b = key(u16::from(b'b'));
    let key_c = key(u16::from(b'c'));

    cache.get_or_insert_with(key_a, || 1);
    cache.get_or_insert_with(key_b, || 2);
    cache.get_or_insert_with(key_c, || 3);

    assert_eq!(cache.len(), 2);
    assert!(!cache.contains_key(key_a));
    assert!(cache.contains_key(key_b));
    assert!(cache.contains_key(key_c));
}

#[test]
fn glyph_cache_hits_survive_one_eviction_round_without_reordering() {
    let mut cache: GlyphCache<u32> = GlyphCache::new(2);
    let key_a = key(u16::from(b'a'));
    let key_b = key(u16::from(b'b'));
    let key_c = key(u16::from(b'c'));

    cache.get_or_insert_with(key_a, || 1);
    cache.get_or_insert_with(key_b, || 2);
    cache.get_or_insert_with(key_a, || panic!("cache hit must not rasterize"));
    cache.get_or_insert_with(key_c, || 3);

    assert_eq!(cache.len(), 2);
    assert!(
        cache.contains_key(key_a),
        "a glyph used since the last sweep must not be evicted ahead of an unused one"
    );
    assert!(!cache.contains_key(key_b));
    assert!(cache.contains_key(key_c));
}

#[test]
fn a_unique_glyph_burst_does_not_evict_the_working_set() {
    let mut cache: GlyphCache<u32> = GlyphCache::new(8);
    let hot = (0..4).map(key).collect::<Vec<_>>();
    for hot_key in &hot {
        cache.get_or_insert_with(*hot_key, || 0);
    }

    for round in 0..8 {
        for hot_key in &hot {
            cache.get_or_insert_with(*hot_key, || panic!("working set must stay cached"));
        }
        for index in 0..4 {
            let unique = key(100 + round * 4 + index);
            cache.get_or_insert_with(unique, || 1);
        }
    }

    for hot_key in &hot {
        assert!(cache.contains_key(*hot_key), "repeatedly used glyphs must survive a burst of unique ones");
    }
}

#[test]
fn glyph_cache_hits_return_the_cached_bitmap() {
    let mut cache: GlyphCache<Vec<u8>> = GlyphCache::new(0);
    assert!(cache.is_empty());
    let (first, hit) = cache.get_or_insert_with_status(key(7), || vec![1, 2, 3]);
    assert!(!hit);
    assert_eq!(*first, vec![1, 2, 3]);
    let (again, hit) = cache.get_or_insert_with_status(key(7), || vec![9]);
    assert!(hit);
    assert_eq!(*again, vec![1, 2, 3]);
    let (_, hit) = cache.get_or_insert_with_status(key(8), || vec![4]);
    assert!(!hit);
    assert_eq!(cache.len(), 1);
    assert!(!cache.contains_key(key(7)));
}

#[test]
fn a_fully_used_cache_evicts_its_oldest_glyph_after_a_full_lap() {
    let mut cache: GlyphCache<u32> = GlyphCache::new(2);
    cache.get_or_insert_with(key(1), || 1);
    cache.get_or_insert_with(key(2), || 2);
    cache.get_or_insert_with(key(1), || 0);
    cache.get_or_insert_with(key(2), || 0);
    cache.get_or_insert_with(key(3), || 3);
    assert!(!cache.contains_key(key(1)));
    assert!(cache.contains_key(key(2)));
    assert!(cache.contains_key(key(3)));
}
