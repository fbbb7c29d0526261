//! Placing glyph bitmaps in the atlas for a frame, with the upload records and
//! counters that go with it, and the cache of shaped glyph runs.

use vstd::prelude::*;
use crate::atlas::{lookup, AtlasCacheKey, AtlasEntry, GlyphAtlas};
use crate::fonts::GlyphBitmapFormat;
use crate::planner::AtlasUpload;
use crate::render_core::GlyphInstrumentation;
use crate::text::str_eq;

verus! {

/// `v + 1`, saturated at `u64::MAX`.
pub open spec fn bumped(v: u64) -> u64 {
    if v == u64::MAX {
        u64::MAX
    } else {
        (v + 1) as u64
    }
}

/// One upload record was appended to `before`, for `key` at `entry`, carrying
/// the bitmap's pixels and format.
pub open spec fn upload_pushed(
    before: Seq<AtlasUpload>,
    after: Seq<AtlasUpload>,
    key: AtlasCacheKey,
    entry: AtlasEntry,
    pixels: Seq<u8>,
    format: GlyphBitmapFormat,
) -> bool {
    &&& after.len() == before.len() + 1
    &&& after.take(before.len() as int) == before
    &&& after.last().key == key
    &&& after.last().entry == entry
    &&& after.last().pixels@ == pixels
    &&& after.last().format == format
}

/// The allocation the atlas's `allocate` accepts for a bitmap of this size.
pub open spec fn placeable(atlas: GlyphAtlas, key: AtlasCacheKey, width: u32, height: u32) -> bool {
    &&& atlas.wf()
    &&& atlas.allocation_in_range(key, width, height)
    &&& (if width == 0 { 1 } else { width as int }) * (if height == 0 { 1 } else { height as int }) * 4 <= u64::MAX
}

fn bump(v: u64) -> (r: u64)
    ensures
        r == bumped(v),
{
    v.saturating_add(1)
}

/// Finds or places a bitmap keyed by `key` (a glyph the atlas itself caches,
/// such as a powerline cap). An entry already in the atlas is a cache hit and
/// uploads nothing. Otherwise it is a miss: the bitmap is placed and one
/// upload is recorded, or, when the atlas has no room, nothing is placed and
/// the atlas is marked exhausted.
pub fn place_glyph(
    atlas: &mut GlyphAtlas,
    key: AtlasCacheKey,
    width: u32,
    height: u32,
    pixels: Vec<u8>,
    format: GlyphBitmapFormat,
    stats: &mut GlyphInstrumentation,
    uploads: &mut Vec<AtlasUpload>,
    exhausted: &mut bool,
) -> (r: Option<AtlasEntry>)
    requires
        placeable(*old(atlas), key, width, height),
    ensures
        final(atlas).wf(),
        final(stats).atlas_used_bytes == old(stats).atlas_used_bytes,
        final(stats).atlas_capacity_bytes == old(stats).atlas_capacity_bytes,
        match lookup(old(atlas).entries_spec(), key) {
            Some(cached) => {
                &&& r == Some(cached)
                &&& *final(atlas) == *old(atlas)
                &&& final(stats).cache_hits == bumped(old(stats).cache_hits)
                &&& final(stats).cache_misses == old(stats).cache_misses
                &&& final(stats).atlas_uploads == old(stats).atlas_uploads
                &&& final(uploads)@ == old(uploads)@
                &&& *final(exhausted) == *old(exhausted)
            },
            None => {
                &&& final(stats).cache_hits == old(stats).cache_hits
                &&& final(stats).cache_misses == bumped(old(stats).cache_misses)
                &&& match r {
                    Some(entry) => {
                        &&& final(atlas).entries_spec() == old(atlas).entries_spec().push((key, entry))
                        &&& entry.width == (if width == 0 { 1 } else { width })
                        &&& entry.height == (if height == 0 { 1 } else { height })
                        &&& final(stats).atlas_uploads == bumped(old(stats).atlas_uploads)
                        &&& upload_pushed(old(uploads)@, final(uploads)@, key, entry, pixels@, format)
                        &&& *final(exhausted) == *old(exhausted)
                    },
                    None => {
                        &&& final(atlas).entries_spec() == old(atlas).entries_spec()
                        &&& final(stats).atlas_uploads == old(stats).atlas_uploads
                        &&& final(uploads)@ == old(uploads)@
                        &&& *final(exhausted)
                    },
                }
            },
        },
{
    match atlas.entry(key) {
        Some(entry) => {
            stats.cache_hits = bump(stats.cache_hits);
            return Some(entry);
        },
        None => {},
    }
    stats.cache_misses = bump(stats.cache_misses);
    match atlas.allocate(key, width, height) {
        Some(entry) => {
            stats.atlas_uploads = bump(stats.atlas_uploads);
            let ghost before = uploads@;
            uploads.push(AtlasUpload { key, entry, pixels, format });
            proof {
                assert(uploads@.take(before.len() as int) =~= before);
            }
            Some(entry)
        },
        None => {
            *exhausted = true;
            None
        },
    }
}

/// Places a rasterized glyph's bitmap (whose cache hit or miss the glyph cache
/// has already counted). A new placement records one upload; an entry already
/// in the atlas uploads nothing; no room marks the atlas exhausted.
pub fn upload_glyph(
    atlas: &mut GlyphAtlas,
    key: AtlasCacheKey,
    width: u32,
    height: u32,
    pixels: Vec<u8>,
    format: GlyphBitmapFormat,
    stats: &mut GlyphInstrumentation,
    uploads: &mut Vec<AtlasUpload>,
    exhausted: &mut bool,
) -> (r: Option<AtlasEntry>)
    requires
        placeable(*old(atlas), key, width, height),
    ensures
        final(atlas).wf(),
        final(stats).cache_hits == old(stats).cache_hits,
        final(stats).cache_misses == old(stats).cache_misses,
        final(stats).atlas_used_bytes == old(stats).atlas_used_bytes,
        final(stats).atlas_capacity_bytes == old(stats).atlas_capacity_bytes,
        match lookup(old(atlas).entries_spec(), key) {
            Some(cached) => {
                &&& r == Some(cached)
                &&& *final(atlas) == *old(atlas)
                &&& final(stats).atlas_uploads == old(stats).atlas_uploads
                &&& final(uploads)@ == old(uploads)@
                &&& *final(exhausted) == *old(exhausted)
            },
            None => match r {
                Some(entry) => {
                    &&& final(atlas).entries_spec() == old(atlas).entries_spec().push((key, entry))
                    &&& entry.width == (if width == 0 { 1 } else { width })
                    &&& entry.height == (if height == 0 { 1 } else { height })
                    &&& final(stats).atlas_uploads == bumped(old(stats).atlas_uploads)
                    &&& upload_pushed(old(uploads)@, final(uploads)@, key, entry, pixels@, format)
                    &&& *final(exhausted) == *old(exhausted)
                },
                None => {
                    &&& final(atlas).entries_spec() == old(atlas).entries_spec()
                    &&& final(stats).atlas_uploads == old(stats).atlas_uploads
                    &&& final(uploads)@ == old(uploads)@
                    &&& *final(exhausted)
                },
            },
        },
{
    match atlas.allocate_with_status(key, width, height) {
        Some((entry, true)) => Some(entry),
        Some((entry, false)) => {
            stats.atlas_uploads = bump(stats.atlas_uploads);
            let ghost before = uploads@;
            uploads.push(AtlasUpload { key, entry, pixels, format });
            proof {
                assert(uploads@.take(before.len() as int) =~= before);
            }
            Some(entry)
        },
        None => {
            *exhausted = true;
            None
        },
    }
}

/// What a shaped run is cached under: the font generation, the text, the size
/// in thousandths of a point, and the style.
#[derive(Debug)]
pub struct GlyphRunKey {
    pub font_generation: u64,
    pub text: String,
    pub size_millipoints: u32,
    pub bold: bool,
    pub italic: bool,
}

/// A run key as plain values.
pub type RunKeyView = (u64, Seq<char>, u32, bool, bool);

pub open spec fn run_key_view(key: GlyphRunKey) -> RunKeyView {
    (key.font_generation, key.text@, key.size_millipoints, key.bold, key.italic)
}

fn same_run_key(a: &GlyphRunKey, b: &GlyphRunKey) -> (r: bool)
    ensures
        r == (run_key_view(*a) == run_key_view(*b)),
{
    a.font_generation == b.font_generation && str_eq(a.text.as_str(), b.text.as_str())
        && a.size_millipoints == b.size_millipoints && a.bold == b.bold && a.italic == b.italic
}

#[derive(Debug)]
struct CachedRun<V> {
    key: GlyphRunKey,
    run: V,
    last_used: u64,
}

/// A bounded cache of shaped glyph runs, evicting the least recently used
/// run when it is full.
#[derive(Debug)]
pub struct GlyphRunCache<V> {
    runs: Vec<CachedRun<V>>,
    clock: u64,
    max_runs: usize,
}

/// The position of the run cached under `key`, if any.
pub open spec fn run_position<V>(entries: Seq<(RunKeyView, V, u64)>, key: RunKeyView) -> Option<int> {
    if exists|i: int| 0 <= i < entries.len() && (#[trigger] entries[i]).0 == key {
        Some(choose|i: int| 0 <= i < entries.len() && (#[trigger] entries[i]).0 == key)
    } else {
        None
    }
}

/// The position of the least recently used run: the first of those used
/// longest ago.
pub open spec fn oldest_run<V>(entries: Seq<(RunKeyView, V, u64)>) -> int
    decreases entries.len(),
{
    if entries.len() <= 1 {
        0
    } else {
        let m = oldest_run(entries.drop_last());
        if entries.last().2 < entries[m].2 {
            entries.len() - 1
        } else {
            m
        }
    }
}

proof fn lemma_oldest_run<V>(entries: Seq<(RunKeyView, V, u64)>)
    requires
        entries.len() > 0,
    ensures
        0 <= oldest_run(entries) < entries.len(),
        forall|j: int| 0 <= j < entries.len() ==> entries[oldest_run(entries)].2 <= #[trigger] entries[j].2,
    decreases entries.len(),
{
    if entries.len() > 1 {
        lemma_oldest_run(entries.drop_last());
        assert forall|j: int| 0 <= j < entries.len() implies entries[oldest_run(entries)].2 <= #[trigger] entries[j].2 by {
            if j < entries.len() - 1 {
                assert(entries.drop_last()[j] == entries[j]);
            }
        }
    }
}

impl<V> GlyphRunCache<V> {
    /// The cached runs, in the order they were cached, with the time each was
    /// last used.
    pub closed spec fn entries(&self) -> Seq<(RunKeyView, V, u64)> {
        self.runs@.map_values(|c: CachedRun<V>| (run_key_view(c.key), c.run, c.last_used))
    }

    /// The time of the latest lookup.
    pub closed spec fn clock_spec(&self) -> u64 {
        self.clock
    }

    /// How many runs the cache holds at most.
    pub closed spec fn max_runs_spec(&self) -> usize {
        self.max_runs
    }

    /// At least one run fits, no more than that many are held, and no key is
    /// cached twice.
    pub open spec fn wf(&self) -> bool {
        &&& self.max_runs_spec() >= 1
        &&& self.entries().len() <= self.max_runs_spec()
        &&& forall|i: int, j: int| 0 <= i < j < self.entries().len() ==> self.entries()[i].0 != self.entries()[j].0
    }

    /// An empty cache for `max_runs` runs (at least one).
    pub fn new(max_runs: usize) -> (r: GlyphRunCache<V>)
        ensures
            r.wf(),
            r.entries().len() == 0,
            r.max_runs_spec() == (if max_runs < 1 { 1 } else { max_runs }),
            r.clock_spec() == 0,
    {
        let r = GlyphRunCache { runs: Vec::new(), clock: 0, max_runs: if max_runs < 1 { 1 } else { max_runs } };
        proof {
            assert(r.entries() =~= Seq::<(RunKeyView, V, u64)>::empty());
        }
        r
    }

    pub fn len(&self) -> (r: usize)
        ensures
            r == self.entries().len(),
    {
        self.runs.len()
    }

    fn find(&self, key: &GlyphRunKey) -> (r: Option<usize>)
        requires
            self.wf(),
        ensures
            r matches Some(i) ==> i < self.entries().len() && self.entries()[i as int].0 == run_key_view(*key),
            r is None ==> run_position(self.entries(), run_key_view(*key)) is None,
            r matches Some(i) ==> run_position(self.entries(), run_key_view(*key)) == Some(i as int),
    {
        let mut i: usize = 0;
        while i < self.runs.len()
            invariant
                0 <= i <= self.runs.len(),
                self.wf(),
                forall|j: int| 0 <= j < i ==> self.entries()[j].0 != run_key_view(*key),
            decreases self.runs.len() - i,
        {
            if same_run_key(&self.runs[i].key, key) {
                proof {
                    assert(self.entries()[i as int].0 == run_key_view(*key));
                    let e = self.entries();
                    let p = choose|p: int| 0 <= p < e.len() && (#[trigger] e[p]).0 == run_key_view(*key);
                    if p < i as int {
                        assert(e[p].0 != e[i as int].0);
                    } else if p > i as int {
                        assert(e[i as int].0 != e[p].0);
                    }
                    assert(p == i as int);
                }
                return Some(i);
            }
            i = i + 1;
        }
        None
    }

    /// Looks `key` up as one more use: the clock advances (wrapping), and a
    /// cached run is marked used now. Reports whether it was cached.
    pub fn touch(&mut self, key: &GlyphRunKey) -> (r: bool)
        requires
            old(self).wf(),
        ensures
            final(self).wf(),
            final(self).max_runs_spec() == old(self).max_runs_spec(),
            final(self).clock_spec() == (if old(self).clock_spec() == u64::MAX { 0 } else { (old(self).clock_spec() + 1) as u64 }),
            match run_position(old(self).entries(), run_key_view(*key)) {
                Some(i) => r && final(self).entries() == old(self).entries().update(
                    i,
                    (old(self).entries()[i].0, old(self).entries()[i].1, final(self).clock_spec()),
                ),
                None => !r && final(self).entries() == old(self).entries(),
            },
    {
        self.clock = self.clock.wrapping_add(1);
        proof {
            assert(self.entries() == old(self).entries());
        }
        match self.find(key) {
            Some(i) => {
                let ghost before = self.entries();
                let clock = self.clock;
                let mut slot = self.runs.remove(i);
                slot.last_used = clock;
                self.runs.insert(i, slot);
                proof {
                    assert(self.entries() =~= before.update(i as int, (before[i as int].0, before[i as int].1, clock)));
                }
                true
            },
            None => false,
        }
    }

    /// The run cached under `key`.
    pub fn run(&self, key: &GlyphRunKey) -> (r: Option<&V>)
        requires
            self.wf(),
        ensures
            match run_position(self.entries(), run_key_view(*key)) {
                Some(i) => r matches Some(v) && *v == self.entries()[i].1,
                None => r is None,
            },
    {
        match self.find(key) {
            Some(i) => Some(&self.runs[i].run),
            None => None,
        }
    }

    /// Caches a run that a lookup missed, marked used now; a full cache first
    /// evicts its least recently used run.
    pub fn insert(&mut self, key: GlyphRunKey, run: V)
        requires
            old(self).wf(),
            run_position(old(self).entries(), run_key_view(key)) is None,
        ensures
            final(self).wf(),
            final(self).max_runs_spec() == old(self).max_runs_spec(),
            final(self).clock_spec() == old(self).clock_spec(),
            final(self).entries() == (if old(self).entries().len() >= old(self).max_runs_spec() {
                old(self).entries().remove(oldest_run(old(self).entries()))
            } else {
                old(self).entries()
            }).push((run_key_view(key), run, old(self).clock_spec())),
    {
        let ghost start = self.entries();
        if self.runs.len() >= self.max_runs {
            let mut oldest: usize = 0;
            let mut i: usize = 1;
            proof {
                lemma_oldest_run(start);
            }
            while i < self.runs.len()
                invariant
                    1 <= i <= self.runs.len(),
                    self.entries() == start,
                    self.runs.len() == start.len(),
                    start.len() >= 1,
                    oldest == oldest_run(start.take(i as int)),
                    oldest < i,
                decreases self.runs.len() - i,
            {
                proof {
                    assert(start.take(i + 1).drop_last() =~= start.take(i as int));
                    lemma_oldest_run(start.take(i as int));
                    assert(start.take(i as int)[oldest as int] == start[oldest as int]);
                    assert(self.entries()[i as int] == start[i as int]);
                    assert(self.entries()[oldest as int] == start[oldest as int]);
                }
                if self.runs[i].last_used < self.runs[oldest].last_used {
                    oldest = i;
                }
                i = i + 1;
            }
            proof {
                assert(start.take(i as int) =~= start);
            }
            self.runs.remove(oldest);
            proof {
                assert(self.entries() =~= start.remove(oldest as int));
            }
        }
        let ghost middle = self.entries();
        let clock = self.clock;
        self.runs.push(CachedRun { key, run, last_used: clock });
        proof {
            assert(self.entries() =~= middle.push((run_key_view(key), run, clock)));
            let e = self.entries();
            assert forall|i: int, j: int| 0 <= i < j < e.len() implies e[i].0 != e[j].0 by {
                if j == e.len() - 1 {
                    assert(e[i] == middle[i]);
                    if middle[i].0 == run_key_view(key) && start.len() >= self.max_runs {
                        assert(middle[i] == start.remove(oldest_run(start))[i]);
                    }
                }
            }
        }
    }
}

} // verus!
