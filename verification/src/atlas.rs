//! Glyph atlas shelf packing and its cache of placed entries.
//!
//! The placed entries live in a vector searched by key rather than in a hash
//! map. The keys are structs and enums whose `Hash` and `Eq` come from
//! `derive`, which Verus does not read, so a map keyed by them would let no
//! lookup be proved; the search compares keys field by field and its result is
//! proved.

use vstd::prelude::*;
use crate::fonts::GlyphCacheKey;

verus! {

#[derive(Debug, Clone, Copy, PartialEq, Eq, Structural)]
pub struct AtlasEntry {
    pub x: u32,
    pub y: u32,
    pub width: u32,
    pub height: u32,
}

#[derive(Debug, Clone, Copy, PartialEq, Eq, Structural, Hash)]
pub enum AtlasCacheKey {
    Glyph(GlyphCacheKey),
    PowerlineCap { codepoint: char, width: u32, height: u32 },
    PaneaLogo,
}

/// A shelf-packed atlas: entries fill rows left to right; a row is as tall as
/// its tallest allocation; every allocation keeps one pixel of padding around
/// the glyph.
#[derive(Debug)]
pub struct GlyphAtlas {
    width: u32,
    height: u32,
    cursor_x: u32,
    cursor_y: u32,
    row_height: u32,
    entries: Vec<(AtlasCacheKey, AtlasEntry)>,
    used_bytes: u64,
}

/// `a + b`, saturated at `u32::MAX`.
pub open spec fn sat_add(a: int, b: int) -> int {
    if a + b > u32::MAX {
        u32::MAX as int
    } else {
        a + b
    }
}

/// The padded box that an entry was allocated: one pixel around the glyph on
/// each side, its size saturated at `u32::MAX`.
pub open spec fn box_x(e: AtlasEntry) -> int {
    e.x - 1
}

pub open spec fn box_y(e: AtlasEntry) -> int {
    e.y - 1
}

pub open spec fn box_w(e: AtlasEntry) -> int {
    sat_add(e.width as int, 2)
}

pub open spec fn box_h(e: AtlasEntry) -> int {
    sat_add(e.height as int, 2)
}

/// Two padded boxes share no pixel.
pub open spec fn boxes_disjoint(a: AtlasEntry, b: AtlasEntry) -> bool {
    ||| box_x(a) + box_w(a) <= box_x(b)
    ||| box_x(b) + box_w(b) <= box_x(a)
    ||| box_y(a) + box_h(a) <= box_y(b)
    ||| box_y(b) + box_h(b) <= box_y(a)
}

/// A padded box lies inside a `width` by `height` atlas.
pub open spec fn box_inside(e: AtlasEntry, width: int, height: int) -> bool {
    &&& e.x >= 1
    &&& e.y >= 1
    &&& e.width >= 1
    &&& e.height >= 1
    &&& box_x(e) + box_w(e) <= width
    &&& box_y(e) + box_h(e) <= height
}

/// Entries whose padded boxes lie inside the atlas and never overlap, one per key.
pub open spec fn placements_valid(entries: Seq<(AtlasCacheKey, AtlasEntry)>, width: int, height: int) -> bool {
    &&& forall|i: int| 0 <= i < entries.len() ==> box_inside(#[trigger] entries[i].1, width, height)
    &&& forall|i: int, j: int|
        0 <= i < j < entries.len() ==> boxes_disjoint(#[trigger] entries[i].1, #[trigger] entries[j].1)
    &&& forall|i: int, j: int|
        0 <= i < j < entries.len() ==> #[trigger] entries[i].0 != #[trigger] entries[j].0
}

/// The entry cached for a key, if any.
pub open spec fn lookup(entries: Seq<(AtlasCacheKey, AtlasEntry)>, key: AtlasCacheKey) -> Option<AtlasEntry>
    decreases entries.len(),
{
    if entries.len() == 0 {
        None
    } else if entries.last().0 == key {
        Some(entries.last().1)
    } else {
        lookup(entries.drop_last(), key)
    }
}

pub proof fn lemma_lookup_absent(entries: Seq<(AtlasCacheKey, AtlasEntry)>, key: AtlasCacheKey)
    ensures
        lookup(entries, key) is None <==> forall|i: int| 0 <= i < entries.len() ==> #[trigger] entries[i].0 != key,
    decreases entries.len(),
{
    if entries.len() > 0 {
        let last = entries.len() - 1;
        if entries.last().0 == key {
            assert(entries[last].0 == key);
        } else {
            lemma_lookup_absent(entries.drop_last(), key);
            assert(forall|i: int| 0 <= i < last ==> #[trigger] entries.drop_last()[i] == entries[i]);
            if forall|i: int| 0 <= i < entries.drop_last().len() ==> #[trigger] entries.drop_last()[i].0 != key {
                assert forall|i: int| 0 <= i < entries.len() implies #[trigger] entries[i].0 != key by {
                    if i < last {
                        assert(entries.drop_last()[i] == entries[i]);
                    }
                }
            } else {
                let j = choose|j: int| 0 <= j < entries.drop_last().len() && #[trigger] entries.drop_last()[j].0 == key;
                assert(entries[j].0 == key);
            }
        }
    }
}

/// Appending an entry makes a lookup of its key find it, and leaves the
/// lookup of every other key as it was.
pub proof fn lemma_lookup_push(entries: Seq<(AtlasCacheKey, AtlasEntry)>, key: AtlasCacheKey, entry: AtlasEntry, other: AtlasCacheKey)
    ensures
        lookup(entries.push((key, entry)), other) == (if other == key {
            Some(entry)
        } else {
            lookup(entries, other)
        }),
{
    assert(entries.push((key, entry)).drop_last() =~= entries);
}

/// `a + b`, saturated at `u64::MAX`.
pub open spec fn sat_add_u64(a: int, b: int) -> int {
    if a + b > u64::MAX {
        u64::MAX as int
    } else {
        a + b
    }
}

/// Glyph pixels held by the entries (padding not counted).
pub open spec fn pixel_sum(entries: Seq<(AtlasCacheKey, AtlasEntry)>) -> int
    decreases entries.len(),
{
    if entries.len() == 0 {
        0
    } else {
        pixel_sum(entries.drop_last()) + entries.last().1.width * entries.last().1.height
    }
}

/// Four bytes per glyph pixel, saturated at `u64::MAX`.
pub open spec fn entry_bytes(entries: Seq<(AtlasCacheKey, AtlasEntry)>) -> int {
    sat_add_u64(0, pixel_sum(entries) * 4)
}

proof fn lemma_pixel_sum_push(entries: Seq<(AtlasCacheKey, AtlasEntry)>, key: AtlasCacheKey, entry: AtlasEntry)
    ensures
        pixel_sum(entries.push((key, entry))) == pixel_sum(entries) + entry.width * entry.height,
{
    assert(entries.push((key, entry)).drop_last() =~= entries);
}

proof fn lemma_pixel_sum_nonneg(entries: Seq<(AtlasCacheKey, AtlasEntry)>)
    ensures
        pixel_sum(entries) >= 0,
    decreases entries.len(),
{
    if entries.len() > 0 {
        lemma_pixel_sum_nonneg(entries.drop_last());
        let e = entries.last().1;
        assert(e.width * e.height >= 0) by (nonlinear_arith);
    }
}

/// Starting a new shelf row keeps the area that the finished rows and the
/// current row span.
proof fn lemma_shelf_wrap(width: int, cursor_y: int, cursor_x: int, row_height: int)
    by (nonlinear_arith)
    requires
        0 <= cursor_x <= width,
        0 <= row_height,
    ensures
        width * cursor_y + cursor_x * row_height <= width * (cursor_y + row_height),
{
}

/// Placing a `w` by `h` glyph in a box at least that large grows the spanned area by at least `w * h`.
proof fn lemma_shelf_place(width: int, cursor_y: int, cursor_x: int, row_height: int, box_width: int, box_height: int, w: int, h: int, new_row_height: int)
    by (nonlinear_arith)
    requires
        0 <= cursor_x,
        0 <= row_height <= new_row_height,
        0 <= w <= box_width,
        0 <= h <= box_height <= new_row_height,
    ensures
        width * cursor_y + cursor_x * row_height + w * h <= width * cursor_y + (cursor_x + box_width) * new_row_height,
{
}

proof fn lemma_shelf_bound(width: int, height: int, cursor_y: int, cursor_x: int, row_height: int)
    by (nonlinear_arith)
    requires
        0 <= cursor_x <= width,
        0 <= cursor_y,
        0 <= row_height,
        cursor_y + row_height <= height,
    ensures
        width * cursor_y + cursor_x * row_height <= width * height,
{
}

impl GlyphAtlas {
    /// The placed entries, in allocation order.
    pub closed spec fn entries_spec(&self) -> Seq<(AtlasCacheKey, AtlasEntry)> {
        self.entries@
    }

    pub closed spec fn width_spec(&self) -> u32 {
        self.width
    }

    pub closed spec fn height_spec(&self) -> u32 {
        self.height
    }

    pub closed spec fn cursor_x_spec(&self) -> u32 {
        self.cursor_x
    }

    pub closed spec fn cursor_y_spec(&self) -> u32 {
        self.cursor_y
    }

    pub closed spec fn row_height_spec(&self) -> u32 {
        self.row_height
    }

    pub closed spec fn used_bytes_spec(&self) -> u64 {
        self.used_bytes
    }

    /// The packing invariant: the shelf cursor stays inside the atlas, every entry
    /// sits in a finished row or left of the cursor in the current row, and the
    /// placements are valid.
    pub closed spec fn wf(&self) -> bool {
        &&& self.width >= 1
        &&& self.height >= 1
        &&& self.cursor_x <= self.width
        &&& self.cursor_y + self.row_height <= self.height
        &&& placements_valid(self.entries@, self.width as int, self.height as int)
        &&& self.used_bytes == entry_bytes(self.entries@)
        &&& pixel_sum(self.entries@) <= self.width * self.cursor_y + self.cursor_x * self.row_height
        &&& forall|i: int|
            0 <= i < self.entries@.len() ==> {
                let e = #[trigger] self.entries@[i].1;
                ||| box_y(e) + box_h(e) <= self.cursor_y
                ||| (box_y(e) == self.cursor_y && box_x(e) + box_w(e) <= self.cursor_x && box_h(e)
                    <= self.row_height)
            }
    }

    /// A valid atlas's placements never overlap and stay inside it.
    pub proof fn lemma_wf_placements(&self)
        requires
            self.wf(),
        ensures
            placements_valid(self.entries_spec(), self.width_spec() as int, self.height_spec() as int),
    {
    }

    /// The byte count of a valid atlas is four bytes per glyph pixel of its
    /// entries (saturated at `u64::MAX`), and those pixels fit in the atlas: where
    /// the atlas's own byte size fits in a `u64`, the count is exact and within it.
    pub proof fn lemma_used_bytes_within_capacity(&self)
        requires
            self.wf(),
        ensures
            self.used_bytes_spec() == entry_bytes(self.entries_spec()),
            0 <= pixel_sum(self.entries_spec()) <= self.width_spec() * self.height_spec(),
            self.width_spec() * self.height_spec() * 4 <= u64::MAX ==> self.used_bytes_spec() == pixel_sum(self.entries_spec()) * 4
                && self.used_bytes_spec() <= self.width_spec() * self.height_spec() * 4,
    {
        lemma_pixel_sum_nonneg(self.entries@);
        lemma_shelf_bound(self.width as int, self.height as int, self.cursor_y as int, self.cursor_x as int, self.row_height as int);
    }

    /// An empty atlas; a zero dimension becomes one.
    pub fn new(width: u32, height: u32) -> (r: GlyphAtlas)
        ensures
            r.wf(),
            r.width_spec() == (if width == 0 { 1 } else { width }),
            r.height_spec() == (if height == 0 { 1 } else { height }),
            r.entries_spec().len() == 0,
            r.used_bytes_spec() == 0,
            r.cursor_x_spec() == 0,
            r.cursor_y_spec() == 0,
            r.row_height_spec() == 0,
    {
        GlyphAtlas {
            width: if width == 0 { 1 } else { width },
            height: if height == 0 { 1 } else { height },
            cursor_x: 0,
            cursor_y: 0,
            row_height: 0,
            entries: Vec::new(),
            used_bytes: 0,
        }
    }

    fn find(&self, key: AtlasCacheKey) -> (r: Option<AtlasEntry>)
        ensures
            r == lookup(self.entries@, key),
    {
        let mut i = self.entries.len();
        assert(self.entries@.take(i as int) =~= self.entries@);
        while i > 0
            invariant
                i <= self.entries@.len(),
                lookup(self.entries@, key) == lookup(self.entries@.take(i as int), key),
            decreases i,
        {
            let ghost t = self.entries@.take(i as int);
            assert(t.drop_last() =~= self.entries@.take(i - 1));
            if self.entries[i - 1].0 == key {
                return Some(self.entries[i - 1].1);
            }
            i = i - 1;
        }
        None
    }

    /// The entry cached for a key.
    pub fn entry(&self, key: AtlasCacheKey) -> (r: Option<AtlasEntry>)
        ensures
            r == lookup(self.entries_spec(), key),
    {
        self.find(key)
    }

    pub fn len(&self) -> (r: usize)
        ensures
            r == self.entries_spec().len(),
    {
        self.entries.len()
    }

    pub fn is_empty(&self) -> (r: bool)
        ensures
            r == (self.entries_spec().len() == 0),
    {
        self.entries.len() == 0
    }

    pub fn dimensions(&self) -> (r: (u32, u32))
        ensures
            r == (self.width_spec(), self.height_spec()),
    {
        (self.width, self.height)
    }

    pub fn used_bytes(&self) -> (r: u64)
        ensures
            r == self.used_bytes_spec(),
    {
        self.used_bytes
    }

    /// Four bytes per atlas pixel.
    pub fn capacity_bytes(&self) -> (r: u64)
        requires
            self.width_spec() * self.height_spec() * 4 <= u64::MAX,
        ensures
            r == self.width_spec() * self.height_spec() * 4,
    {
        (self.width as u64) * (self.height as u64) * 4
    }

    /// Whether the shelf moves to a new row before placing an allocation this wide.
    pub open spec fn wraps(&self, allocation_width: int) -> bool {
        sat_add(self.cursor_x_spec() as int, allocation_width) > self.width_spec()
    }

    /// The row an allocation this wide is placed in.
    pub open spec fn target_row(&self, allocation_width: int) -> int {
        if self.wraps(allocation_width) {
            self.cursor_y_spec() + self.row_height_spec()
        } else {
            self.cursor_y_spec() as int
        }
    }

    /// An allocation leaves the shelf cursor within `u32`: the packing arithmetic
    /// only overflows for an atlas `u32::MAX` pixels wide or high.
    pub open spec fn allocation_in_range(&self, key: AtlasCacheKey, bitmap_width: u32, bitmap_height: u32) -> bool {
        let aw = sat_add(if bitmap_width == 0 { 1 } else { bitmap_width as int }, 2);
        let ah = sat_add(if bitmap_height == 0 { 1 } else { bitmap_height as int }, 2);
        lookup(self.entries_spec(), key) is None ==> {
            &&& (self.width_spec() == u32::MAX ==> self.cursor_x_spec() + aw <= u32::MAX)
            &&& (self.height_spec() == u32::MAX ==> self.target_row(aw) + ah <= u32::MAX)
        }
    }

    /// Places a bitmap of `bitmap_width` by `bitmap_height` pixels (a zero side
    /// counts as one) under `key`, or returns the entry already cached for it with
    /// `true`. A new allocation goes right of the cursor in the current row, or
    /// starts a new row below when it would cross the right edge; it fails when it
    /// is larger than the atlas or no row below has room.
    pub fn allocate_with_status(&mut self, key: AtlasCacheKey, bitmap_width: u32, bitmap_height: u32) -> (r: Option<(AtlasEntry, bool)>)
        requires
            old(self).wf(),
            old(self).allocation_in_range(key, bitmap_width, bitmap_height),
            (if bitmap_width == 0 { 1 } else { bitmap_width as int }) * (if bitmap_height == 0 { 1 } else { bitmap_height as int }) * 4 <= u64::MAX,
        ensures
            final(self).wf(),
            final(self).width_spec() == old(self).width_spec(),
            final(self).height_spec() == old(self).height_spec(),
            ({
                let w = if bitmap_width == 0 { 1 } else { bitmap_width as int };
                let h = if bitmap_height == 0 { 1 } else { bitmap_height as int };
                let aw = sat_add(w, 2);
                let ah = sat_add(h, 2);
                let wrap = old(self).wraps(aw);
                let cx: int = if wrap { 0 } else { old(self).cursor_x_spec() as int };
                let cy: int = if wrap { old(self).cursor_y_spec() + old(self).row_height_spec() } else { old(self).cursor_y_spec() as int };
                let rh: int = if wrap { 0 } else { old(self).row_height_spec() as int };
                let e = AtlasEntry { x: (cx + 1) as u32, y: (cy + 1) as u32, width: w as u32, height: h as u32 };
                match lookup(old(self).entries_spec(), key) {
                    Some(cached) => r == Some((cached, true)) && *final(self) == *old(self),
                    None => if aw > old(self).width_spec() || ah > old(self).height_spec() {
                        r is None && *final(self) == *old(self)
                    } else if cy + ah > old(self).height_spec() {
                        &&& r is None
                        &&& final(self).entries_spec() == old(self).entries_spec()
                        &&& final(self).used_bytes_spec() == old(self).used_bytes_spec()
                        &&& final(self).cursor_x_spec() == cx
                        &&& final(self).cursor_y_spec() == cy
                        &&& final(self).row_height_spec() == rh
                    } else {
                        &&& r == Some((e, false))
                        &&& final(self).entries_spec() == old(self).entries_spec().push((key, e))
                        &&& final(self).used_bytes_spec() == sat_add_u64(old(self).used_bytes_spec() as int, w * h * 4)
                        &&& final(self).cursor_x_spec() == cx + aw
                        &&& final(self).cursor_y_spec() == cy
                        &&& final(self).row_height_spec() == (if rh > ah { rh } else { ah })
                    },
                }
            }),
    {
        if let Some(entry) = self.find(key) {
            return Some((entry, true));
        }
        proof {
            lemma_lookup_absent(self.entries@, key);
        }
        let width = if bitmap_width == 0 { 1 } else { bitmap_width };
        let height = if bitmap_height == 0 { 1 } else { bitmap_height };
        let allocation_width = width.saturating_add(2);
        let allocation_height = height.saturating_add(2);
        if allocation_width > self.width || allocation_height > self.height {
            return None;
        }
        let ghost before = *self;
        if self.cursor_x.saturating_add(allocation_width) > self.width {
            proof {
                lemma_shelf_wrap(self.width as int, self.cursor_y as int, self.cursor_x as int, self.row_height as int);
            }
            self.cursor_x = 0;
            self.cursor_y = self.cursor_y + self.row_height;
            self.row_height = 0;
        }
        assert(placements_valid(self.entries@, self.width as int, self.height as int));
        assert forall|i: int| 0 <= i < self.entries@.len() implies {
            let e = #[trigger] self.entries@[i].1;
            ||| box_y(e) + box_h(e) <= self.cursor_y
            ||| (box_y(e) == self.cursor_y && box_x(e) + box_w(e) <= self.cursor_x && box_h(e) <= self.row_height)
        } by {
            let e = before.entries@[i].1;
            assert(self.entries@[i] == before.entries@[i]);
        }
        if self.cursor_y.saturating_add(allocation_height) > self.height {
            assert(self.entries@ == before.entries@);
            assert(self.used_bytes == before.used_bytes);
            assert(self.cursor_y + allocation_height > self.height);
            return None;
        }
        assert(self.cursor_x + allocation_width <= self.width);
        let entry = AtlasEntry { x: self.cursor_x + 1, y: self.cursor_y + 1, width, height };
        let ghost old_entries = self.entries@;
        let ghost placed_from = (self.cursor_x, self.row_height);
        self.cursor_x = self.cursor_x + allocation_width;
        if allocation_height > self.row_height {
            self.row_height = allocation_height;
        }
        self.entries.push((key, entry));
        assert((width as u64) * (height as u64) <= u64::MAX) by (nonlinear_arith)
            requires
                width * height * 4 <= u64::MAX,
                width >= 1,
                height >= 1,
        ;
        let pixels = (width as u64) * (height as u64);
        assert(pixels * 4 <= u64::MAX);
        self.used_bytes = self.used_bytes.saturating_add(pixels * 4);
        proof {
            lemma_pixel_sum_push(old_entries, key, entry);
            lemma_pixel_sum_nonneg(old_entries);
            lemma_shelf_place(self.width as int, self.cursor_y as int, placed_from.0 as int, placed_from.1 as int,
                allocation_width as int, allocation_height as int, width as int, height as int, self.row_height as int);
            let n = old_entries.len();
            assert(self.entries@[n as int] == (key, entry));
            assert forall|i: int| 0 <= i < n implies #[trigger] self.entries@[i] == old_entries[i] by {}
            assert forall|i: int, j: int|
                0 <= i < j < self.entries@.len() implies boxes_disjoint(#[trigger] self.entries@[i].1, #[trigger] self.entries@[j].1) by {
                if j == n {
                    assert(self.entries@[i] == old_entries[i]);
                } else {
                    assert(self.entries@[i] == old_entries[i]);
                    assert(self.entries@[j] == old_entries[j]);
                }
            }
            assert forall|i: int, j: int|
                0 <= i < j < self.entries@.len() implies #[trigger] self.entries@[i].0 != #[trigger] self.entries@[j].0 by {
                if j == n {
                    assert(self.entries@[i] == old_entries[i]);
                } else {
                    assert(self.entries@[i] == old_entries[i]);
                    assert(self.entries@[j] == old_entries[j]);
                }
            }
            assert forall|i: int| 0 <= i < self.entries@.len() implies box_inside(#[trigger] self.entries@[i].1, self.width as int, self.height as int) by {
                if i < n {
                    assert(self.entries@[i] == old_entries[i]);
                }
            }
        }
        Some((entry, false))
    }

    /// Places a bitmap, or returns the entry already cached for the key.
    pub fn allocate(&mut self, key: AtlasCacheKey, bitmap_width: u32, bitmap_height: u32) -> (r: Option<AtlasEntry>)
        requires
            old(self).wf(),
            old(self).allocation_in_range(key, bitmap_width, bitmap_height),
            (if bitmap_width == 0 { 1 } else { bitmap_width as int }) * (if bitmap_height == 0 { 1 } else { bitmap_height as int }) * 4 <= u64::MAX,
        ensures
            final(self).wf(),
            final(self).width_spec() == old(self).width_spec(),
            final(self).height_spec() == old(self).height_spec(),
            lookup(old(self).entries_spec(), key) matches Some(cached) ==> r == Some(cached) && *final(self) == *old(self),
            lookup(old(self).entries_spec(), key) is None ==> match r {
                Some(e) => final(self).entries_spec() == old(self).entries_spec().push((key, e))
                    && e.width == (if bitmap_width == 0 { 1 } else { bitmap_width })
                    && e.height == (if bitmap_height == 0 { 1 } else { bitmap_height }),
                None => final(self).entries_spec() == old(self).entries_spec(),
            },
    {
        match self.allocate_with_status(key, bitmap_width, bitmap_height) {
            Some((entry, _)) => Some(entry),
            None => None,
        }
    }

    /// Forgets every entry and starts packing from the top-left corner again.
    pub fn clear(&mut self)
        requires
            old(self).wf(),
        ensures
            final(self).wf(),
            final(self).entries_spec().len() == 0,
            final(self).used_bytes_spec() == 0,
            final(self).width_spec() == old(self).width_spec(),
            final(self).height_spec() == old(self).height_spec(),
            final(self).cursor_x_spec() == 0,
            final(self).cursor_y_spec() == 0,
            final(self).row_height_spec() == 0,
    {
        self.cursor_x = 0;
        self.cursor_y = 0;
        self.row_height = 0;
        self.entries.clear();
        self.used_bytes = 0;
    }
}

} // verus!
