//! Damage regions: offsetting, bounding unions, and the merge that coalesces
//! touching regions of one row band and then of one column band.

use vstd::prelude::*;
use crate::render_core::{RenderOffset, RenderRect};

verus! {

/// `v` clamped into `i32`.
pub open spec fn clamp_i32(v: int) -> i32 {
    if v > i32::MAX {
        i32::MAX
    } else if v < i32::MIN {
        i32::MIN
    } else {
        v as i32
    }
}

/// `v` clamped into `u32`, for a `v` that is not negative.
pub open spec fn clamp_u32(v: int) -> u32 {
    if v > u32::MAX {
        u32::MAX
    } else {
        v as u32
    }
}

pub open spec fn offset_spec(region: RenderRect, offset: RenderOffset) -> RenderRect {
    RenderRect {
        x: clamp_i32(region.x + offset.x),
        y: clamp_i32(region.y + offset.y),
        width: region.width,
        height: region.height,
    }
}

pub open spec fn min_int(a: int, b: int) -> int {
    if a <= b {
        a
    } else {
        b
    }
}

pub open spec fn max_int(a: int, b: int) -> int {
    if a >= b {
        a
    } else {
        b
    }
}

/// The bounding box of two regions; a side longer than `u32::MAX` is cut there.
pub open spec fn union_spec(a: RenderRect, b: RenderRect) -> RenderRect {
    let x0 = min_int(a.x as int, b.x as int);
    let y0 = min_int(a.y as int, b.y as int);
    let x1 = max_int(a.x + a.width, b.x + b.width);
    let y1 = max_int(a.y + a.height, b.y + b.height);
    RenderRect { x: x0 as i32, y: y0 as i32, width: clamp_u32(x1 - x0), height: clamp_u32(y1 - y0) }
}

fn clamp_to_i32(v: i64) -> (r: i32)
    ensures
        r == clamp_i32(v as int),
{
    if v > i32::MAX as i64 {
        i32::MAX
    } else if v < i32::MIN as i64 {
        i32::MIN
    } else {
        v as i32
    }
}

fn clamp_to_u32(v: i64) -> (r: u32)
    requires
        v >= 0,
    ensures
        r == clamp_u32(v as int),
{
    if v > u32::MAX as i64 {
        u32::MAX
    } else {
        v as u32
    }
}

/// Moves a region by an offset, saturating at the ends of `i32`.
pub fn offset_region(region: RenderRect, offset: RenderOffset) -> (r: RenderRect)
    ensures
        r == offset_spec(region, offset),
{
    RenderRect {
        x: clamp_to_i32(region.x as i64 + offset.x as i64),
        y: clamp_to_i32(region.y as i64 + offset.y as i64),
        width: region.width,
        height: region.height,
    }
}

/// The bounding box of two regions.
pub fn union_region(a: RenderRect, b: RenderRect) -> (r: RenderRect)
    ensures
        r == union_spec(a, b),
{
    let x0 = if a.x <= b.x { a.x } else { b.x };
    let y0 = if a.y <= b.y { a.y } else { b.y };
    let ax1 = a.x as i64 + a.width as i64;
    let bx1 = b.x as i64 + b.width as i64;
    let ay1 = a.y as i64 + a.height as i64;
    let by1 = b.y as i64 + b.height as i64;
    let x1 = if ax1 >= bx1 { ax1 } else { bx1 };
    let y1 = if ay1 >= by1 { ay1 } else { by1 };
    RenderRect {
        x: x0,
        y: y0,
        width: clamp_to_u32(x1 - x0 as i64),
        height: clamp_to_u32(y1 - y0 as i64),
    }
}

/// The orders in which a merge sorts its regions; each compares all four
/// fields, the listed ones first.
#[derive(Debug, Clone, Copy, PartialEq, Eq, Structural)]
pub enum RegionOrder {
    /// By `y`, `height`, `x`, then `width`.
    Rows,
    /// By `x`, `width`, `y`, then `height`.
    Columns,
    /// By `y`, `x`, `height`, then `width`.
    Output,
}

pub open spec fn region_key(r: RenderRect, order: RegionOrder) -> (int, int, int, int) {
    match order {
        RegionOrder::Rows => (r.y as int, r.height as int, r.x as int, r.width as int),
        RegionOrder::Columns => (r.x as int, r.width as int, r.y as int, r.height as int),
        RegionOrder::Output => (r.y as int, r.x as int, r.height as int, r.width as int),
    }
}

pub open spec fn key_le(a: (int, int, int, int), b: (int, int, int, int)) -> bool {
    ||| a.0 < b.0
    ||| a.0 == b.0 && a.1 < b.1
    ||| a.0 == b.0 && a.1 == b.1 && a.2 < b.2
    ||| a.0 == b.0 && a.1 == b.1 && a.2 == b.2 && a.3 <= b.3
}

/// Whether `a` sorts no later than `b`.
pub open spec fn region_le(a: RenderRect, b: RenderRect, order: RegionOrder) -> bool {
    key_le(region_key(a, order), region_key(b, order))
}

pub open spec fn sorted_by(s: Seq<RenderRect>, order: RegionOrder) -> bool {
    forall|i: int, j: int| 0 <= i < j < s.len() ==> region_le(#[trigger] s[i], #[trigger] s[j], order)
}

fn region_le_exec(a: &RenderRect, b: &RenderRect, order: RegionOrder) -> (r: bool)
    ensures
        r == region_le(*a, *b, order),
{
    let (a0, a1, a2, a3, b0, b1, b2, b3): (i64, i64, i64, i64, i64, i64, i64, i64) = match order {
        RegionOrder::Rows => (
            a.y as i64, a.height as i64, a.x as i64, a.width as i64,
            b.y as i64, b.height as i64, b.x as i64, b.width as i64,
        ),
        RegionOrder::Columns => (
            a.x as i64, a.width as i64, a.y as i64, a.height as i64,
            b.x as i64, b.width as i64, b.y as i64, b.height as i64,
        ),
        RegionOrder::Output => (
            a.y as i64, a.x as i64, a.height as i64, a.width as i64,
            b.y as i64, b.x as i64, b.height as i64, b.width as i64,
        ),
    };
    a0 < b0 || (a0 == b0 && a1 < b1) || (a0 == b0 && a1 == b1 && a2 < b2) || (a0 == b0 && a1
        == b1 && a2 == b2 && a3 <= b3)
}

/// Where `r` goes in `s`: after the last element that sorts no later than it.
pub open spec fn insert_position(s: Seq<RenderRect>, r: RenderRect, order: RegionOrder) -> int
    decreases s.len(),
{
    if s.len() == 0 {
        0
    } else if region_le(s.last(), r, order) {
        s.len() as int
    } else {
        insert_position(s.drop_last(), r, order)
    }
}

/// Insertion sort, each element going after the equal ones before it.
pub open spec fn sort_regions(s: Seq<RenderRect>, order: RegionOrder) -> Seq<RenderRect>
    decreases s.len(),
{
    if s.len() == 0 {
        s
    } else {
        let sorted = sort_regions(s.drop_last(), order);
        sorted.insert(insert_position(sorted, s.last(), order), s.last())
    }
}

proof fn lemma_insert_position_bounds(s: Seq<RenderRect>, r: RenderRect, order: RegionOrder)
    ensures
        0 <= insert_position(s, r, order) <= s.len(),
    decreases s.len(),
{
    if s.len() > 0 && !region_le(s.last(), r, order) {
        lemma_insert_position_bounds(s.drop_last(), r, order);
    }
}

proof fn lemma_sort_len(s: Seq<RenderRect>, order: RegionOrder)
    ensures
        sort_regions(s, order).len() == s.len(),
    decreases s.len(),
{
    if s.len() > 0 {
        lemma_sort_len(s.drop_last(), order);
        lemma_insert_position_bounds(sort_regions(s.drop_last(), order), s.last(), order);
    }
}

/// Inserts `r` into the sorted `v` at its place.
fn insert_sorted(v: &mut Vec<RenderRect>, r: RenderRect, order: RegionOrder)
    ensures
        final(v)@ == old(v)@.insert(insert_position(old(v)@, r, order), r),
{
    let ghost s = v@;
    let mut j: usize = v.len();
    assert(s.take(j as int) =~= s);
    while j > 0 && !region_le_exec(&v[j - 1], &r, order)
        invariant
            v@ == s,
            j <= s.len(),
            insert_position(s.take(j as int), r, order) == insert_position(s, r, order),
        decreases j,
    {
        proof {
            assert(s.take(j as int).drop_last() =~= s.take(j - 1));
        }
        j = j - 1;
    }
    proof {
        if j > 0 {
            assert(s.take(j as int).last() == s[j - 1]);
        }
    }
    v.insert(j, r);
}

/// Sorts regions in `order`.
pub fn sort_by_order(regions: Vec<RenderRect>, order: RegionOrder) -> (r: Vec<RenderRect>)
    ensures
        r@ == sort_regions(regions@, order),
{
    let mut sorted: Vec<RenderRect> = Vec::new();
    let mut i: usize = 0;
    while i < regions.len()
        invariant
            i <= regions@.len(),
            sorted@ == sort_regions(regions@.take(i as int), order),
        decreases regions@.len() - i,
    {
        proof {
            assert(regions@.take(i + 1).drop_last() =~= regions@.take(i as int));
            lemma_sort_len(regions@.take(i as int), order);
        }
        insert_sorted(&mut sorted, regions[i], order);
        i = i + 1;
    }
    assert(regions@.take(i as int) =~= regions@);
    sorted
}

pub open spec fn positive(r: RenderRect) -> bool {
    r.width > 0 && r.height > 0
}

/// Whether `r` continues `prev`: in a row pass, the same row band with `r`
/// starting no later than `prev` ends; in a column pass, the same column band
/// with `r` starting no lower than `prev` ends.
pub open spec fn joins(prev: RenderRect, r: RenderRect, rows: bool) -> bool {
    if rows {
        prev.y == r.y && prev.height == r.height && r.x <= prev.x + prev.width
    } else {
        prev.x == r.x && prev.width == r.width && r.y <= prev.y + prev.height
    }
}

/// The regions of `s` that have an area, in order.
pub open spec fn with_area(s: Seq<RenderRect>) -> Seq<RenderRect> {
    s.filter(|r: RenderRect| positive(r))
}

/// One merge pass: each region either widens the last region kept, when it
/// joins it, or is kept after it.
pub open spec fn merge_pass(s: Seq<RenderRect>, rows: bool) -> Seq<RenderRect>
    decreases s.len(),
{
    if s.len() == 0 {
        s
    } else {
        let kept = merge_pass(s.drop_last(), rows);
        let r = s.last();
        if kept.len() > 0 && joins(kept.last(), r, rows) {
            kept.update(kept.len() - 1, union_spec(kept.last(), r))
        } else {
            kept.push(r)
        }
    }
}

/// What a merge gives: the regions with an area, sorted by rows and merged
/// along rows, then sorted by columns and merged along columns, then sorted for
/// output.
pub open spec fn merged_regions(s: Seq<RenderRect>) -> Seq<RenderRect> {
    let rows = merge_pass(sort_regions(with_area(s), RegionOrder::Rows), true);
    let columns = merge_pass(sort_regions(rows, RegionOrder::Columns), false);
    sort_regions(columns, RegionOrder::Output)
}

proof fn lemma_merge_pass_len(s: Seq<RenderRect>, rows: bool)
    ensures
        merge_pass(s, rows).len() <= s.len(),
        s.len() > 0 ==> merge_pass(s, rows).len() > 0,
    decreases s.len(),
{
    if s.len() > 0 {
        lemma_merge_pass_len(s.drop_last(), rows);
    }
}

fn joins_exec(prev: &RenderRect, r: &RenderRect, rows: bool) -> (b: bool)
    ensures
        b == joins(*prev, *r, rows),
{
    if rows {
        prev.y == r.y && prev.height == r.height && (r.x as i64) <= (prev.x as i64) + (prev.width as i64)
    } else {
        prev.x == r.x && prev.width == r.width && (r.y as i64) <= (prev.y as i64) + (prev.height as i64)
    }
}

fn merge_pass_exec(regions: Vec<RenderRect>, rows: bool) -> (r: Vec<RenderRect>)
    ensures
        r@ == merge_pass(regions@, rows),
{
    let mut kept: Vec<RenderRect> = Vec::new();
    let mut i: usize = 0;
    while i < regions.len()
        invariant
            i <= regions@.len(),
            kept@ == merge_pass(regions@.take(i as int), rows),
        decreases regions@.len() - i,
    {
        proof {
            assert(regions@.take(i + 1).drop_last() =~= regions@.take(i as int));
            lemma_merge_pass_len(regions@.take(i as int), rows);
        }
        let region = regions[i];
        let n = kept.len();
        if n > 0 && joins_exec(&kept[n - 1], &region, rows) {
            let widened = union_region(kept[n - 1], region);
            kept.set(n - 1, widened);
        } else {
            kept.push(region);
        }
        i = i + 1;
    }
    assert(regions@.take(i as int) =~= regions@);
    kept
}

/// Coalesces damage regions: drops those without an area, merges regions of
/// one row band that touch or overlap, then regions of one column band, and
/// returns the result sorted by `y`, `x`, `height` and `width`.
pub fn merge_regions(regions: Vec<RenderRect>) -> (r: Vec<RenderRect>)
    ensures
        r@ == merged_regions(regions@),
{
    let mut kept_area: Vec<RenderRect> = Vec::new();
    let mut i: usize = 0;
    while i < regions.len()
        invariant
            i <= regions@.len(),
            kept_area@ == with_area(regions@.take(i as int)),
        decreases regions@.len() - i,
    {
        proof {
            reveal_with_fuel(Seq::filter, 1);
            assert(regions@.take(i + 1).drop_last() =~= regions@.take(i as int));
        }
        let region = regions[i];
        if region.width > 0 && region.height > 0 {
            kept_area.push(region);
        }
        i = i + 1;
    }
    assert(regions@.take(i as int) =~= regions@);
    let rows = merge_pass_exec(sort_by_order(kept_area, RegionOrder::Rows), true);
    let columns = merge_pass_exec(sort_by_order(rows, RegionOrder::Columns), false);
    sort_by_order(columns, RegionOrder::Output)
}

/// Whether pixel `(px, py)` lies in `r`.
pub open spec fn covers(r: RenderRect, px: int, py: int) -> bool {
    r.x <= px < r.x + r.width && r.y <= py < r.y + r.height
}

/// Whether some region of `s` holds pixel `(px, py)`.
pub open spec fn covered(s: Seq<RenderRect>, px: int, py: int) -> bool {
    exists|i: int| 0 <= i < s.len() && covers(#[trigger] s[i], px, py)
}

/// Whether a region lies in the non-negative quadrant that `i32` spans.
pub open spec fn in_plane(r: RenderRect) -> bool {
    0 <= r.x && r.x + r.width <= i32::MAX && 0 <= r.y && r.y + r.height <= i32::MAX
}

pub open spec fn all_in_plane(s: Seq<RenderRect>) -> bool {
    forall|i: int| 0 <= i < s.len() ==> in_plane(#[trigger] s[i])
}

pub open spec fn all_positive(s: Seq<RenderRect>) -> bool {
    forall|i: int| 0 <= i < s.len() ==> positive(#[trigger] s[i])
}

pub open spec fn pass_order(rows: bool) -> RegionOrder {
    if rows {
        RegionOrder::Rows
    } else {
        RegionOrder::Columns
    }
}

/// The last region a pass kept lies in the band of the last region it read,
/// starting no later along the pass.
pub open spec fn starts_band(m: RenderRect, r: RenderRect, rows: bool) -> bool {
    if rows {
        m.y == r.y && m.height == r.height && m.x <= r.x
    } else {
        m.x == r.x && m.width == r.width && m.y <= r.y
    }
}

proof fn lemma_le_transitive(a: RenderRect, b: RenderRect, c: RenderRect, order: RegionOrder)
    requires
        region_le(a, b, order),
        region_le(b, c, order),
    ensures
        region_le(a, c, order),
{
}

proof fn lemma_le_total(a: RenderRect, b: RenderRect, order: RegionOrder)
    ensures
        region_le(a, b, order) || region_le(b, a, order),
{
}

proof fn lemma_insert_position_split(t: Seq<RenderRect>, r: RenderRect, order: RegionOrder)
    requires
        sorted_by(t, order),
    ensures
        0 <= insert_position(t, r, order) <= t.len(),
        forall|i: int| 0 <= i < insert_position(t, r, order) ==> region_le(#[trigger] t[i], r, order),
        forall|i: int| insert_position(t, r, order) <= i < t.len() ==> !region_le(#[trigger] t[i], r, order),
    decreases t.len(),
{
    let p = insert_position(t, r, order);
    if t.len() > 0 {
        if region_le(t.last(), r, order) {
            assert forall|i: int| 0 <= i < p implies region_le(#[trigger] t[i], r, order) by {
                if i < t.len() - 1 {
                    lemma_le_transitive(t[i], t.last(), r, order);
                }
            }
        } else {
            let u = t.drop_last();
            assert(sorted_by(u, order)) by {
                assert forall|i: int, j: int| 0 <= i < j < u.len() implies region_le(#[trigger] u[i], #[trigger] u[j], order) by {
                    assert(u[i] == t[i] && u[j] == t[j]);
                }
            }
            lemma_insert_position_split(u, r, order);
            assert forall|i: int| 0 <= i < p implies region_le(#[trigger] t[i], r, order) by {
                assert(t[i] == u[i]);
            }
            assert forall|i: int| p <= i < t.len() implies !region_le(#[trigger] t[i], r, order) by {
                if i < t.len() - 1 {
                    assert(t[i] == u[i]);
                }
            }
        }
    }
}

/// Sorting keeps the length and the members, and sorts.
pub proof fn lemma_sort_regions(s: Seq<RenderRect>, order: RegionOrder)
    ensures
        sort_regions(s, order).len() == s.len(),
        sorted_by(sort_regions(s, order), order),
        forall|x: RenderRect| #[trigger] sort_regions(s, order).contains(x) <==> s.contains(x),
    decreases s.len(),
{
    if s.len() > 0 {
        let u = s.drop_last();
        let r = s.last();
        let t = sort_regions(u, order);
        lemma_sort_regions(u, order);
        lemma_insert_position_split(t, r, order);
        let p = insert_position(t, r, order);
        let v = t.insert(p, r);
        t.insert_ensures(p, r);
        assert(v == sort_regions(s, order));
        assert forall|i: int, j: int| 0 <= i < j < v.len() implies region_le(#[trigger] v[i], #[trigger] v[j], order) by {
            if j < p {
                assert(v[i] == t[i] && v[j] == t[j]);
            } else if j == p {
                assert(v[i] == t[i]);
            } else if i < p {
                assert(v[i] == t[i] && v[j] == t[j - 1]);
                lemma_le_total(t[j - 1], r, order);
                lemma_le_transitive(t[i], r, t[j - 1], order);
            } else if i == p {
                assert(v[j] == t[j - 1]);
                lemma_le_total(t[j - 1], r, order);
            } else {
                assert(v[i] == t[i - 1] && v[j] == t[j - 1]);
            }
        }
        assert forall|x: RenderRect| #[trigger] v.contains(x) <==> s.contains(x) by {
            if v.contains(x) {
                let k = choose|k: int| 0 <= k < v.len() && v[k] == x;
                if k < p {
                    assert(t[k] == x);
                    assert(t.contains(x));
                    let m = choose|m: int| 0 <= m < u.len() && u[m] == x;
                    assert(s[m] == x);
                } else if k == p {
                    assert(s[s.len() - 1] == x);
                } else {
                    assert(t[k - 1] == x);
                    assert(t.contains(x));
                    let m = choose|m: int| 0 <= m < u.len() && u[m] == x;
                    assert(s[m] == x);
                }
            }
            if s.contains(x) {
                let k = choose|k: int| 0 <= k < s.len() && s[k] == x;
                if k == s.len() - 1 {
                    assert(v[p] == x);
                } else {
                    assert(u[k] == x);
                    assert(u.contains(x));
                    assert(t.contains(x));
                    let m = choose|m: int| 0 <= m < t.len() && t[m] == x;
                    if m < p {
                        assert(v[m] == x);
                    } else {
                        assert(v[m + 1] == x);
                    }
                }
            }
        }
    }
}

proof fn lemma_sorted_drop_last(s: Seq<RenderRect>, order: RegionOrder)
    requires
        sorted_by(s, order),
        s.len() > 0,
    ensures
        sorted_by(s.drop_last(), order),
{
    let u = s.drop_last();
    assert forall|i: int, j: int| 0 <= i < j < u.len() implies region_le(#[trigger] u[i], #[trigger] u[j], order) by {
        assert(u[i] == s[i] && u[j] == s[j]);
    }
}

proof fn lemma_merge_pass_band(s: Seq<RenderRect>, rows: bool)
    requires
        sorted_by(s, pass_order(rows)),
        s.len() > 0,
    ensures
        merge_pass(s, rows).len() > 0,
        starts_band(merge_pass(s, rows).last(), s.last(), rows),
    decreases s.len(),
{
    let u = s.drop_last();
    let kept = merge_pass(u, rows);
    let r = s.last();
    if kept.len() > 0 && joins(kept.last(), r, rows) {
        lemma_sorted_drop_last(s, pass_order(rows));
        lemma_merge_pass_band(u, rows);
        assert(region_le(s[s.len() - 2], s[s.len() - 1], pass_order(rows)));
        assert(u.last() == s[s.len() - 2]);
    }
}

proof fn lemma_merge_pass_sound(s: Seq<RenderRect>, rows: bool, px: int, py: int)
    requires
        sorted_by(s, pass_order(rows)),
        covered(merge_pass(s, rows), px, py),
    ensures
        covered(s, px, py),
    decreases s.len(),
{
    let m = merge_pass(s, rows);
    let i = choose|i: int| 0 <= i < m.len() && covers(#[trigger] m[i], px, py);
    if s.len() > 0 {
        let u = s.drop_last();
        let kept = merge_pass(u, rows);
        let r = s.last();
        let n = s.len() - 1;
        assert(s[n] == r);
        lemma_sorted_drop_last(s, pass_order(rows));
        if kept.len() > 0 && joins(kept.last(), r, rows) {
            if i < kept.len() - 1 {
                assert(m[i] == kept[i]);
                lemma_merge_pass_sound(u, rows, px, py);
                let k = choose|k: int| 0 <= k < u.len() && covers(#[trigger] u[k], px, py);
                assert(s[k] == u[k]);
            } else {
                let a = kept.last();
                lemma_merge_pass_band(u, rows);
                assert(region_le(s[n - 1], s[n], pass_order(rows)));
                assert(u.last() == s[n - 1]);
                if covers(a, px, py) {
                    assert(kept[kept.len() - 1] == a);
                    lemma_merge_pass_sound(u, rows, px, py);
                    let k = choose|k: int| 0 <= k < u.len() && covers(#[trigger] u[k], px, py);
                    assert(s[k] == u[k]);
                } else {
                    assert(covers(s[n], px, py));
                }
            }
        } else {
            if i < kept.len() {
                assert(m[i] == kept[i]);
                lemma_merge_pass_sound(u, rows, px, py);
                let k = choose|k: int| 0 <= k < u.len() && covers(#[trigger] u[k], px, py);
                assert(s[k] == u[k]);
            } else {
                assert(covers(s[n], px, py));
            }
        }
    }
}

proof fn lemma_merge_pass_complete(s: Seq<RenderRect>, rows: bool, px: int, py: int)
    requires
        all_in_plane(s),
        covered(s, px, py),
    ensures
        covered(merge_pass(s, rows), px, py),
        all_in_plane(merge_pass(s, rows)),
    decreases s.len(),
{
    let m = merge_pass(s, rows);
    let k = choose|k: int| 0 <= k < s.len() && covers(#[trigger] s[k], px, py);
    let u = s.drop_last();
    let kept = merge_pass(u, rows);
    let r = s.last();
    let n = s.len() - 1;
    assert(s[n] == r);
    assert(all_in_plane(u)) by {
        assert forall|i: int| 0 <= i < u.len() implies in_plane(#[trigger] u[i]) by {
            assert(u[i] == s[i]);
        }
    }
    assert(in_plane(r));
    if k < n {
        assert(u[k] == s[k]);
        lemma_merge_pass_complete(u, rows, px, py);
    } else {
        lemma_merge_pass_in_plane(u, rows);
    }
    let j = choose|j: int| 0 <= j < kept.len() && covers(#[trigger] kept[j], px, py);
    if kept.len() > 0 && joins(kept.last(), r, rows) {
        let a = kept.last();
        assert(in_plane(a));
        if k < n && j < kept.len() - 1 {
            assert(m[j] == kept[j]);
        } else {
            assert(m[kept.len() - 1] == union_spec(a, r));
            if k < n {
                assert(kept[j] == a);
            }
        }
    } else {
        if k < n {
            assert(m[j] == kept[j]);
        } else {
            assert(m[kept.len() as int] == r);
        }
    }
    lemma_merge_pass_in_plane(s, rows);
}

proof fn lemma_merge_pass_in_plane(s: Seq<RenderRect>, rows: bool)
    requires
        all_in_plane(s),
    ensures
        all_in_plane(merge_pass(s, rows)),
    decreases s.len(),
{
    if s.len() > 0 {
        let u = s.drop_last();
        assert(all_in_plane(u)) by {
            assert forall|i: int| 0 <= i < u.len() implies in_plane(#[trigger] u[i]) by {
                assert(u[i] == s[i]);
            }
        }
        assert(in_plane(s[s.len() - 1]));
        lemma_merge_pass_in_plane(u, rows);
    }
}

proof fn lemma_merge_pass_positive(s: Seq<RenderRect>, rows: bool)
    requires
        all_positive(s),
    ensures
        all_positive(merge_pass(s, rows)),
    decreases s.len(),
{
    if s.len() > 0 {
        let u = s.drop_last();
        assert(all_positive(u)) by {
            assert forall|i: int| 0 <= i < u.len() implies positive(#[trigger] u[i]) by {
                assert(u[i] == s[i]);
            }
        }
        assert(positive(s[s.len() - 1]));
        lemma_merge_pass_positive(u, rows);
    }
}

proof fn lemma_with_area(s: Seq<RenderRect>, px: int, py: int)
    ensures
        covered(with_area(s), px, py) <==> covered(s, px, py),
        all_positive(with_area(s)),
        all_in_plane(s) ==> all_in_plane(with_area(s)),
        with_area(s).len() <= s.len(),
{
    let pred = |r: RenderRect| positive(r);
    let f = with_area(s);
    s.lemma_filter_len(pred);
    assert forall|i: int| 0 <= i < f.len() implies positive(#[trigger] f[i]) by {
        s.lemma_filter_pred(pred, i);
    }
    if covered(f, px, py) {
        let i = choose|i: int| 0 <= i < f.len() && covers(#[trigger] f[i], px, py);
        assert(f.contains(f[i]));
        s.lemma_filter_contains_rev(pred, f[i]);
        let k = choose|k: int| 0 <= k < s.len() && s[k] == f[i];
        assert(covers(s[k], px, py));
    }
    if covered(s, px, py) {
        let k = choose|k: int| 0 <= k < s.len() && covers(#[trigger] s[k], px, py);
        s.lemma_filter_contains(pred, k);
        let i = choose|i: int| 0 <= i < f.len() && f[i] == s[k];
        assert(covers(f[i], px, py));
    }
    if all_in_plane(s) {
        assert forall|i: int| 0 <= i < f.len() implies in_plane(#[trigger] f[i]) by {
            assert(f.contains(f[i]));
            s.lemma_filter_contains_rev(pred, f[i]);
        }
    }
}

proof fn lemma_sort_keeps(s: Seq<RenderRect>, order: RegionOrder, px: int, py: int)
    ensures
        covered(sort_regions(s, order), px, py) <==> covered(s, px, py),
        all_positive(s) ==> all_positive(sort_regions(s, order)),
        all_in_plane(s) ==> all_in_plane(sort_regions(s, order)),
{
    let t = sort_regions(s, order);
    lemma_sort_regions(s, order);
    if covered(t, px, py) {
        let i = choose|i: int| 0 <= i < t.len() && covers(#[trigger] t[i], px, py);
        assert(t.contains(t[i]));
        let k = choose|k: int| 0 <= k < s.len() && s[k] == t[i];
        assert(covers(s[k], px, py));
    }
    if covered(s, px, py) {
        let k = choose|k: int| 0 <= k < s.len() && covers(#[trigger] s[k], px, py);
        assert(s.contains(s[k]));
        assert(t.contains(s[k]));
        let i = choose|i: int| 0 <= i < t.len() && t[i] == s[k];
        assert(covers(t[i], px, py));
    }
    if all_positive(s) {
        assert forall|i: int| 0 <= i < t.len() implies positive(#[trigger] t[i]) by {
            assert(t.contains(t[i]));
        }
    }
    if all_in_plane(s) {
        assert forall|i: int| 0 <= i < t.len() implies in_plane(#[trigger] t[i]) by {
            assert(t.contains(t[i]));
        }
    }
}

/// Every merged region has an area.
pub proof fn lemma_merged_regions_have_area(s: Seq<RenderRect>)
    ensures
        all_positive(merged_regions(s)),
{
    let a = sort_regions(with_area(s), RegionOrder::Rows);
    let b = merge_pass(a, true);
    let c = sort_regions(b, RegionOrder::Columns);
    let d = merge_pass(c, false);
    lemma_with_area(s, 0, 0);
    lemma_sort_keeps(with_area(s), RegionOrder::Rows, 0, 0);
    lemma_merge_pass_positive(a, true);
    lemma_sort_keeps(b, RegionOrder::Columns, 0, 0);
    lemma_merge_pass_positive(c, false);
    lemma_sort_keeps(d, RegionOrder::Output, 0, 0);
}

/// The merged regions come sorted by `y`, then `x`, `height` and `width`.
pub proof fn lemma_merged_regions_sorted(s: Seq<RenderRect>)
    ensures
        sorted_by(merged_regions(s), RegionOrder::Output),
{
    let a = sort_regions(with_area(s), RegionOrder::Rows);
    let c = sort_regions(merge_pass(a, true), RegionOrder::Columns);
    lemma_sort_regions(merge_pass(c, false), RegionOrder::Output);
}

/// Merging never yields more regions than it was given.
pub proof fn lemma_merged_regions_no_more(s: Seq<RenderRect>)
    ensures
        merged_regions(s).len() <= s.len(),
{
    let a = sort_regions(with_area(s), RegionOrder::Rows);
    let b = merge_pass(a, true);
    let c = sort_regions(b, RegionOrder::Columns);
    let d = merge_pass(c, false);
    lemma_with_area(s, 0, 0);
    lemma_sort_regions(with_area(s), RegionOrder::Rows);
    lemma_merge_pass_len(a, true);
    lemma_sort_regions(b, RegionOrder::Columns);
    lemma_merge_pass_len(c, false);
    lemma_sort_regions(d, RegionOrder::Output);
}

/// Every pixel of a merged region lies in one of the regions given.
pub proof fn lemma_merged_regions_within_damage(s: Seq<RenderRect>, px: int, py: int)
    requires
        covered(merged_regions(s), px, py),
    ensures
        covered(s, px, py),
{
    let a = sort_regions(with_area(s), RegionOrder::Rows);
    let b = merge_pass(a, true);
    let c = sort_regions(b, RegionOrder::Columns);
    let d = merge_pass(c, false);
    lemma_sort_keeps(d, RegionOrder::Output, px, py);
    lemma_sort_regions(b, RegionOrder::Columns);
    lemma_merge_pass_sound(c, false, px, py);
    lemma_sort_keeps(b, RegionOrder::Columns, px, py);
    lemma_sort_regions(with_area(s), RegionOrder::Rows);
    lemma_merge_pass_sound(a, true, px, py);
    lemma_sort_keeps(with_area(s), RegionOrder::Rows, px, py);
    lemma_with_area(s, px, py);
}

/// When every region given lies in the non-negative `i32` quadrant, every pixel
/// of them stays covered by the merged regions.
pub proof fn lemma_merged_regions_cover_damage(s: Seq<RenderRect>, px: int, py: int)
    requires
        all_in_plane(s),
        covered(s, px, py),
    ensures
        covered(merged_regions(s), px, py),
{
    let a = sort_regions(with_area(s), RegionOrder::Rows);
    let b = merge_pass(a, true);
    let c = sort_regions(b, RegionOrder::Columns);
    let d = merge_pass(c, false);
    lemma_with_area(s, px, py);
    lemma_sort_keeps(with_area(s), RegionOrder::Rows, px, py);
    lemma_merge_pass_complete(a, true, px, py);
    lemma_sort_keeps(b, RegionOrder::Columns, px, py);
    lemma_merge_pass_complete(c, false, px, py);
    lemma_sort_keeps(d, RegionOrder::Output, px, py);
}

/// Cells on each side of a changed cell that are redrawn with it, since a
/// ligature may span them.
pub const LIGATURE_CONTEXT_CELLS: u16 = 2;

/// The columns redrawn around a changed cell at `col` in a grid of `columns`:
/// two on each side, clipped to the grid; none for an empty grid.
pub fn ligature_context_columns(col: u16, columns: u16) -> (r: Option<(u16, u16)>)
    ensures
        columns == 0 ==> r is None,
        columns > 0 ==> r == Some((
            (if col >= LIGATURE_CONTEXT_CELLS { col - LIGATURE_CONTEXT_CELLS } else { 0 }) as u16,
            ({
                let end = if col + LIGATURE_CONTEXT_CELLS > u16::MAX { u16::MAX as int } else { col + LIGATURE_CONTEXT_CELLS };
                if end <= columns - 1 { end } else { columns - 1 }
            }) as u16,
        )),
{
    if columns == 0 {
        return None;
    }
    let start = col.saturating_sub(LIGATURE_CONTEXT_CELLS);
    let end = col.saturating_add(LIGATURE_CONTEXT_CELLS);
    let last = columns - 1;
    Some((start, if end <= last { end } else { last }))
}

} // verus!
