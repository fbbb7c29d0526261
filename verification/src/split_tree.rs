//! The split tree of a tab: panes at the leaves, splits along an axis in
//! between, each split weighting its children by ratios.
//!
//! Ratios are arithmetic on weights (floating point in the desktop build), so
//! the tree is generic over them: the [`SplitRatio`] trait supplies each step
//! of that arithmetic, and everything about which panes sit where is proved
//! here, whatever the weights turn out to be.

use vstd::prelude::*;
use crate::mux::{MuxError, PaneId, SplitAxis};

verus! {

/// The arithmetic that a split tree performs on its weights. Each step has a
/// spec function that names its result, so that what the tree does with the
/// weights is stated over them whatever the weight type is.
pub trait SplitRatio: Copy + Sized {
    /// The weight of each half of a fresh two-way split.
    spec fn half_weight() -> Self;

    /// The weight of each half of a fresh two-way split.
    fn half() -> (r: Self)
        ensures
            r == Self::half_weight(),
    ;

    /// Whether a restored weight can be used: finite and positive.
    spec fn usable(&self) -> bool;

    /// Whether a resize amount grows the pane toward its next sibling.
    spec fn forward(&self) -> bool;

    /// Whether a restored weight can be used: finite and positive.
    fn is_usable(&self) -> (r: bool)
        ensures
            r == self.usable(),
    ;

    /// This weight scaled by another.
    spec fn scaled(&self, factor: &Self) -> Self;

    /// This weight scaled by another: a grandchild's share within its
    /// parent's share.
    fn scaled_by(&self, factor: &Self) -> (r: Self)
        ensures
            r == self.scaled(factor),
    ;

    /// The weight a sum starts from.
    spec fn zero_weight() -> Self;

    /// The sum of two weights.
    spec fn added(&self, other: &Self) -> Self;

    /// The difference of two weights.
    spec fn subtracted(&self, other: &Self) -> Self;

    /// The weight a sum starts from.
    fn zero() -> (r: Self)
        ensures
            r == Self::zero_weight(),
    ;

    /// Whether a total is too small to divide by.
    spec fn negligible(&self) -> bool;

    /// Whether a total is too small to divide by.
    fn is_negligible(&self) -> (r: bool)
        ensures
            r == self.negligible(),
    ;

    /// One of `count` equal shares.
    spec fn equal_part(count: usize) -> Self;

    /// One of `count` equal shares.
    fn equal_share(count: usize) -> (r: Self)
        ensures
            r == Self::equal_part(count),
    ;

    /// This weight as a share of `total`, kept between five and ninety-five
    /// percent.
    spec fn share(&self, total: &Self) -> Self;

    /// This weight as a share of `total`, kept between five and ninety-five
    /// percent.
    fn share_of(&self, total: &Self) -> (r: Self)
        ensures
            r == self.share(total),
    ;

    /// Whether a resize amount grows the pane toward its next sibling.
    fn grows_forward(&self) -> (r: bool)
        ensures
            r == self.forward(),
    ;

    /// The amount with its sign flipped.
    spec fn negation(&self) -> Self;

    /// The amount with its sign flipped.
    fn negated(&self) -> (r: Self)
        ensures
            r == self.negation(),
    ;

    /// How much weight a resize by `amount` moves over from a neighbour
    /// whose weight is `neighbor`.
    spec fn moved(amount: &Self, neighbor: &Self) -> Self;

    /// How much weight a resize by `amount` moves over from a neighbour
    /// whose weight is `neighbor`.
    fn transfer(amount: &Self, neighbor: &Self) -> (r: Self)
        ensures
            r == Self::moved(amount, neighbor),
    ;

    /// The sum of two weights.
    fn plus(&self, other: &Self) -> (r: Self)
        ensures
            r == self.added(other),
    ;

    /// The difference of two weights.
    fn minus(&self, other: &Self) -> (r: Self)
        ensures
            r == self.subtracted(other),
    ;
}

/// The sum of the weights, added left to right from `zero_weight`.
pub open spec fn weight_total<R: SplitRatio>(weights: Seq<R>) -> R
    decreases weights.len(),
{
    if weights.len() == 0 {
        R::zero_weight()
    } else {
        weight_total(weights.drop_last()).added(&weights.last())
    }
}

/// The weights rescaled to shares of their total, each kept between five and
/// ninety-five percent; when the total is too small to divide by, equal
/// shares. No weights stay no weights.
pub open spec fn renormalized<R: SplitRatio>(weights: Seq<R>) -> Seq<R> {
    if weights.len() == 0 {
        weights
    } else if weight_total(weights).negligible() {
        Seq::new(weights.len(), |i: int| R::equal_part(weights.len() as usize))
    } else {
        weights.map_values(|w: R| w.share(&weight_total(weights)))
    }
}

/// `v` held within the range of `i32`.
pub open spec fn held_in_i32(v: int) -> int {
    if v > i32::MAX {
        i32::MAX as int
    } else if v < i32::MIN {
        i32::MIN as int
    } else {
        v
    }
}

/// `a / b` rounded toward zero, as integer division does, for a positive `b`.
pub open spec fn quotient_toward_zero(a: int, b: int) -> int {
    if a >= 0 { a / b } else { -((-a) / b) }
}

fn clamp_to_i32(v: i64) -> (r: i32)
    ensures
        r == held_in_i32(v as int),
{
    if v > i32::MAX as i64 {
        i32::MAX
    } else if v < i32::MIN as i64 {
        i32::MIN
    } else {
        v as i32
    }
}

/// `a / b` for a positive `b`, rounded toward zero.
fn divide_toward_zero(a: i64, b: i64) -> (r: i64)
    requires
        b > 0,
        a > i64::MIN,
    ensures
        r == quotient_toward_zero(a as int, b as int),
{
    if a >= 0 {
        a / b
    } else {
        -((-a) / b)
    }
}

/// A weight in thousandths, for hosts that keep split ratios in whole
/// numbers: usable when positive, a resize grows forward when not negative,
/// and every step saturates within `i32`.
#[derive(Debug, Clone, Copy, PartialEq, Eq)]
pub struct Permille(pub i32);

/// A share in thousandths held between 50 and 950.
pub open spec fn held_share(v: int) -> int {
    if v < 50 { 50 } else if v > 950 { 950 } else { v }
}

/// A number's size, without its sign.
pub open spec fn magnitude(v: int) -> int {
    if v < 0 { -v } else { v }
}

impl SplitRatio for Permille {
    open spec fn half_weight() -> Self {
        Permille(500)
    }

    open spec fn usable(&self) -> bool {
        self.0 > 0
    }

    open spec fn forward(&self) -> bool {
        self.0 >= 0
    }

    open spec fn negation(&self) -> Self {
        Permille(if self.0 == i32::MIN { i32::MAX } else { (-self.0) as i32 })
    }

    open spec fn scaled(&self, factor: &Self) -> Self {
        Permille(held_in_i32(quotient_toward_zero(self.0 * factor.0, 1000)) as i32)
    }

    open spec fn zero_weight() -> Self {
        Permille(0)
    }

    open spec fn added(&self, other: &Self) -> Self {
        Permille(held_in_i32(self.0 + other.0) as i32)
    }

    open spec fn subtracted(&self, other: &Self) -> Self {
        Permille(held_in_i32(self.0 - other.0) as i32)
    }

    open spec fn negligible(&self) -> bool {
        self.0 <= 0
    }

    open spec fn equal_part(count: usize) -> Self {
        Permille(if count == 0 { 1000 } else { (1000usize / count) as i32 })
    }

    open spec fn share(&self, total: &Self) -> Self {
        Permille(if total.0 <= 0 { 500 } else { held_share(quotient_toward_zero(self.0 * 1000, total.0 as int)) as i32 })
    }

    open spec fn moved(amount: &Self, neighbor: &Self) -> Self {
        let size = magnitude(amount.0 as int);
        let size = if size < 10 { 10 } else if size > 250 { 250 } else { size };
        let available = neighbor.0 - 50;
        let available = if available < 0 { 0 } else { available };
        Permille((if size < available { size } else { available }) as i32)
    }

    fn half() -> (r: Self) {
        Permille(500)
    }

    fn is_usable(&self) -> (r: bool) {
        self.0 > 0
    }

    fn scaled_by(&self, factor: &Self) -> (r: Self) {
        assert((self.0 as i64) * (factor.0 as i64) <= 0x4000_0000_0000_0000 && (self.0 as i64) * (factor.0 as i64)
            >= -0x4000_0000_0000_0000) by (nonlinear_arith)
            requires
                i32::MIN <= self.0 <= i32::MAX,
                i32::MIN <= factor.0 <= i32::MAX,
        ;
        Permille(clamp_to_i32(divide_toward_zero((self.0 as i64) * (factor.0 as i64), 1000)))
    }

    fn zero() -> (r: Self) {
        Permille(0)
    }

    fn is_negligible(&self) -> (r: bool) {
        self.0 <= 0
    }

    fn equal_share(count: usize) -> (r: Self) {
        if count == 0 {
            Permille(1000)
        } else {
            Permille((1000 / count) as i32)
        }
    }

    fn share_of(&self, total: &Self) -> (r: Self) {
        if total.0 <= 0 {
            return Permille(500);
        }
        let share = divide_toward_zero((self.0 as i64) * 1000, total.0 as i64);
        Permille(if share < 50 { 50 } else if share > 950 { 950 } else { share as i32 })
    }

    fn grows_forward(&self) -> (r: bool) {
        self.0 >= 0
    }

    fn negated(&self) -> (r: Self) {
        Permille(if self.0 == i32::MIN { i32::MAX } else { -self.0 })
    }

    fn transfer(amount: &Self, neighbor: &Self) -> (r: Self) {
        let size: i64 = if amount.0 < 0 { -(amount.0 as i64) } else { amount.0 as i64 };
        let size: i64 = if size < 10 { 10 } else if size > 250 { 250 } else { size };
        let available: i64 = (neighbor.0 as i64) - 50;
        let available: i64 = if available < 0 { 0 } else { available };
        Permille((if size < available { size } else { available }) as i32)
    }

    fn plus(&self, other: &Self) -> (r: Self) {
        Permille(clamp_to_i32(self.0 as i64 + other.0 as i64))
    }

    fn minus(&self, other: &Self) -> (r: Self) {
        Permille(clamp_to_i32(self.0 as i64 - other.0 as i64))
    }
}

#[derive(Debug)]
pub enum SplitTree<R> {
    Pane(PaneId),
    Split { axis: SplitAxis, children: Vec<SplitTree<R>>, ratios: Vec<R> },
}

/// The panes of a sequence of trees, left to right.
pub open spec fn leaves_of<R>(trees: Seq<SplitTree<R>>) -> Seq<PaneId>
    decreases trees,
{
    if trees.len() == 0 {
        Seq::empty()
    } else {
        leaves_of(trees.drop_last()) + trees.last().leaves()
    }
}

/// Some tree of the sequence takes a resize of `target` along `axis` that
/// grows it forward (toward its next sibling) or backward.
pub open spec fn any_resizable<R>(trees: Seq<SplitTree<R>>, target: PaneId, axis: SplitAxis, forward: bool) -> bool
    decreases trees,
{
    trees.len() > 0 && (any_resizable(trees.drop_last(), target, axis, forward) || trees.last().resizable(target, axis, forward))
}

/// Some tree of the sequence takes the resize exactly when one of them,
/// at some position, does.
pub proof fn lemma_any_resizable<R>(trees: Seq<SplitTree<R>>, target: PaneId, axis: SplitAxis, forward: bool)
    ensures
        any_resizable(trees, target, axis, forward) <==> exists|k: int|
            0 <= k < trees.len() && #[trigger] trees[k].resizable(target, axis, forward),
    decreases trees.len(),
{
    if trees.len() > 0 {
        let rest = trees.drop_last();
        let last = trees.len() - 1;
        lemma_any_resizable(rest, target, axis, forward);
        if any_resizable(trees, target, axis, forward) {
            if any_resizable(rest, target, axis, forward) {
                let k = choose|k: int| 0 <= k < rest.len() && #[trigger] rest[k].resizable(target, axis, forward);
                assert(trees[k] == rest[k]);
                assert(trees[k].resizable(target, axis, forward));
            } else {
                assert(trees[last].resizable(target, axis, forward));
            }
        }
        if exists|k: int| 0 <= k < trees.len() && #[trigger] trees[k].resizable(target, axis, forward) {
            let k = choose|k: int| 0 <= k < trees.len() && #[trigger] trees[k].resizable(target, axis, forward);
            if k < last {
                assert(rest[k] == trees[k]);
                assert(rest[k].resizable(target, axis, forward));
            } else {
                assert(trees.last().resizable(target, axis, forward));
            }
            assert(any_resizable(trees, target, axis, forward));
        }
    }
}

/// Child `index` is the first of `children` that holds `target`.
pub open spec fn first_holding<R>(children: Seq<SplitTree<R>>, target: PaneId, index: int) -> bool {
    &&& 0 <= index < children.len()
    &&& children[index].leaves().contains(target)
    &&& forall|k: int| 0 <= k < index ==> !(#[trigger] children[k].leaves()).contains(target)
}

/// Every tree of the sequence is aligned.
pub open spec fn all_aligned<R>(trees: Seq<SplitTree<R>>) -> bool
    decreases trees,
{
    trees.len() == 0 || (all_aligned(trees.drop_last()) && trees.last().aligned())
}

/// The two sequences pair up tree by tree with the same shape.
pub open spec fn all_same_shape<R>(a: Seq<SplitTree<R>>, b: Seq<SplitTree<R>>) -> bool
    decreases a,
{
    &&& a.len() == b.len()
    &&& (a.len() == 0 || (all_same_shape(a.drop_last(), b.drop_last()) && a.last().same_shape(b.last())))
}

/// Every tree of the sequence is in normal form.
pub open spec fn all_normal<R>(trees: Seq<SplitTree<R>>) -> bool
    decreases trees,
{
    trees.len() == 0 || (all_normal(trees.drop_last()) && trees.last().is_normal())
}

/// The tree is in normal form and is not a split along `axis`.
pub open spec fn fits_under<R>(tree: SplitTree<R>, axis: SplitAxis) -> bool
    decreases tree, 1int,
{
    tree.is_normal() && !(tree is Split && tree->axis == axis)
}

/// Every tree of the sequence fits under a split along `axis`.
pub open spec fn all_normal_under<R>(trees: Seq<SplitTree<R>>, axis: SplitAxis) -> bool
    decreases trees, 0int,
{
    trees.len() == 0 || (all_normal_under(trees.drop_last(), axis) && fits_under(trees.last(), axis))
}

pub proof fn lemma_all_normal<R>(trees: Seq<SplitTree<R>>)
    ensures
        all_normal(trees) == forall|i: int| 0 <= i < trees.len() ==> #[trigger] trees[i].is_normal(),
    decreases trees.len(),
{
    if trees.len() > 0 {
        lemma_all_normal(trees.drop_last());
        if forall|i: int| 0 <= i < trees.len() ==> #[trigger] trees[i].is_normal() {
            assert forall|i: int| 0 <= i < trees.drop_last().len() implies #[trigger] trees.drop_last()[i].is_normal() by {
                assert(trees.drop_last()[i] == trees[i]);
            }
            assert(trees[trees.len() - 1].is_normal());
        }
        if all_normal(trees) {
            assert forall|i: int| 0 <= i < trees.len() implies #[trigger] trees[i].is_normal() by {
                if i < trees.len() - 1 {
                    assert(trees.drop_last()[i] == trees[i]);
                }
            }
        }
    }
}

pub proof fn lemma_all_normal_under<R>(trees: Seq<SplitTree<R>>, axis: SplitAxis)
    ensures
        all_normal_under(trees, axis) == forall|i: int| 0 <= i < trees.len() ==> #[trigger] fits_under(trees[i], axis),
    decreases trees.len(),
{
    if trees.len() > 0 {
        lemma_all_normal_under(trees.drop_last(), axis);
        if forall|i: int| 0 <= i < trees.len() ==> #[trigger] fits_under(trees[i], axis) {
            assert forall|i: int| 0 <= i < trees.drop_last().len() implies #[trigger] fits_under(trees.drop_last()[i], axis) by {
                assert(trees.drop_last()[i] == trees[i]);
            }
            assert(fits_under(trees[trees.len() - 1], axis));
        }
        if all_normal_under(trees, axis) {
            assert forall|i: int| 0 <= i < trees.len() implies #[trigger] fits_under(trees[i], axis) by {
                if i < trees.len() - 1 {
                    assert(trees.drop_last()[i] == trees[i]);
                }
            }
        }
    }
}

pub proof fn lemma_all_aligned<R>(trees: Seq<SplitTree<R>>)
    ensures
        all_aligned(trees) == forall|i: int| 0 <= i < trees.len() ==> #[trigger] trees[i].aligned(),
    decreases trees.len(),
{
    if trees.len() > 0 {
        lemma_all_aligned(trees.drop_last());
        if forall|i: int| 0 <= i < trees.len() ==> #[trigger] trees[i].aligned() {
            assert forall|i: int| 0 <= i < trees.drop_last().len() implies #[trigger] trees.drop_last()[i].aligned() by {
                assert(trees.drop_last()[i] == trees[i]);
            }
            assert(trees[trees.len() - 1].aligned());
        }
        if all_aligned(trees) {
            assert forall|i: int| 0 <= i < trees.len() implies #[trigger] trees[i].aligned() by {
                if i < trees.len() - 1 {
                    assert(trees.drop_last()[i] == trees[i]);
                }
            }
        }
    }
}

pub proof fn lemma_all_same_shape<R>(a: Seq<SplitTree<R>>, b: Seq<SplitTree<R>>)
    ensures
        all_same_shape(a, b) == (a.len() == b.len() && forall|i: int| 0 <= i < a.len() ==> #[trigger] a[i].same_shape(b[i])),
    decreases a.len(),
{
    if a.len() > 0 && a.len() == b.len() {
        lemma_all_same_shape(a.drop_last(), b.drop_last());
        if forall|i: int| 0 <= i < a.len() ==> #[trigger] a[i].same_shape(b[i]) {
            assert forall|i: int| 0 <= i < a.drop_last().len() implies #[trigger] a.drop_last()[i].same_shape(b.drop_last()[i]) by {
                assert(a.drop_last()[i] == a[i]);
                assert(b.drop_last()[i] == b[i]);
            }
            assert(a[a.len() - 1].same_shape(b[a.len() - 1]));
        }
        if all_same_shape(a, b) {
            assert forall|i: int| 0 <= i < a.len() implies #[trigger] a[i].same_shape(b[i]) by {
                if i < a.len() - 1 {
                    assert(a.drop_last()[i] == a[i]);
                    assert(b.drop_last()[i] == b[i]);
                }
            }
        }
    }
}

impl<R> SplitTree<R> {
    /// The panes of the tree, left to right (top to bottom).
    pub open spec fn leaves(self) -> Seq<PaneId>
        decreases self,
    {
        match self {
            SplitTree::Pane(id) => seq![id],
            SplitTree::Split { children, .. } => leaves_of(children@),
        }
    }

    /// A resize of `target` along `axis` that grows it forward (toward its
    /// next sibling) or backward lands: on the way down to `target` there is a
    /// split along `axis` with two weights or more whose child holding
    /// `target` (the first one) has a neighbour on that side, or some child of
    /// a split is such a tree.
    pub open spec fn resizable(self, target: PaneId, axis: SplitAxis, forward: bool) -> bool
        decreases self,
    {
        match self {
            SplitTree::Pane(_) => false,
            SplitTree::Split { axis: split_axis, children, ratios } => {
                ||| (split_axis == axis && ratios.len() > 1 && exists|index: int|
                    #[trigger] first_holding(children@, target, index) && (if forward {
                        index + 1 < ratios.len()
                    } else {
                        index > 0
                    }))
                ||| any_resizable(children@, target, axis, forward)
            },
        }
    }

    /// No split has exactly one child, and no split has a child split along
    /// its own axis.
    pub open spec fn is_normal(self) -> bool
        decreases self, 0int,
    {
        match self {
            SplitTree::Pane(_) => true,
            SplitTree::Split { axis, children, .. } => children.len() != 1 && all_normal_under(children@, axis),
        }
    }

    /// Every split has as many ratios as children.
    pub open spec fn aligned(self) -> bool
        decreases self,
    {
        match self {
            SplitTree::Pane(_) => true,
            SplitTree::Split { children, ratios, .. } => {
                &&& children.len() == ratios.len()
                &&& all_aligned(children@)
            },
        }
    }

    /// The two trees have the same splits, axes, and ratios; only the panes
    /// at their leaves may differ.
    pub open spec fn same_shape(self, other: SplitTree<R>) -> bool
        decreases self,
    {
        match (self, other) {
            (SplitTree::Pane(_), SplitTree::Pane(_)) => true,
            (
                SplitTree::Split { axis, children, ratios },
                SplitTree::Split { axis: other_axis, children: other_children, ratios: other_ratios },
            ) => {
                &&& axis == other_axis
                &&& ratios@ == other_ratios@
                &&& all_same_shape(children@, other_children@)
            },
            _ => false,
        }
    }
}

/// The panes of `a + b` are those of `a` followed by those of `b`.
pub proof fn lemma_leaves_of_concat<R>(a: Seq<SplitTree<R>>, b: Seq<SplitTree<R>>)
    ensures
        leaves_of(a + b) == leaves_of(a) + leaves_of(b),
    decreases b.len(),
{
    if b.len() == 0 {
        assert(a + b =~= a);
        assert(leaves_of(a) + leaves_of(b) =~= leaves_of(a));
    } else {
        lemma_leaves_of_concat(a, b.drop_last());
        assert((a + b).drop_last() =~= a + b.drop_last());
        assert((a + b).last() == b.last());
        assert(leaves_of(a + b) =~= leaves_of(a) + leaves_of(b));
    }
}

/// A single tree contributes exactly its own panes.
pub proof fn lemma_leaves_of_single<R>(t: SplitTree<R>)
    ensures
        leaves_of(seq![t]) == t.leaves(),
{
    assert(seq![t].drop_last() =~= Seq::<SplitTree<R>>::empty());
    assert(leaves_of(Seq::<SplitTree<R>>::empty()) + t.leaves() =~= t.leaves());
}

/// Appending a tree appends its panes.
pub proof fn lemma_leaves_of_push<R>(s: Seq<SplitTree<R>>, t: SplitTree<R>)
    ensures
        leaves_of(s.push(t)) == leaves_of(s) + t.leaves(),
{
    assert(s.push(t).drop_last() =~= s);
}

/// The panes of a sequence, seen around its `i`-th tree.
pub proof fn lemma_leaves_of_around<R>(s: Seq<SplitTree<R>>, i: int)
    requires
        0 <= i < s.len(),
    ensures
        leaves_of(s) == leaves_of(s.take(i)) + s[i].leaves() + leaves_of(s.skip(i + 1)),
        leaves_of(s.take(i + 1)) == leaves_of(s.take(i)) + s[i].leaves(),
{
    assert(s =~= s.take(i) + seq![s[i]] + s.skip(i + 1));
    lemma_leaves_of_concat(s.take(i) + seq![s[i]], s.skip(i + 1));
    lemma_leaves_of_concat(s.take(i), seq![s[i]]);
    lemma_leaves_of_single(s[i]);
    assert(s.take(i + 1) =~= s.take(i) + seq![s[i]]);
}

/// An element of `a + b` is an element of `a` or of `b`.
pub proof fn lemma_concat_contains<A>(a: Seq<A>, b: Seq<A>, x: A)
    ensures
        (a + b).contains(x) == (a.contains(x) || b.contains(x)),
{
    if (a + b).contains(x) {
        let k = choose|k: int| 0 <= k < (a + b).len() && (a + b)[k] == x;
        if k < a.len() {
            assert(a[k] == x);
        } else {
            assert(b[k - a.len()] == x);
        }
    }
    if a.contains(x) {
        let k = choose|k: int| 0 <= k < a.len() && a[k] == x;
        assert((a + b)[k] == x);
    }
    if b.contains(x) {
        let k = choose|k: int| 0 <= k < b.len() && b[k] == x;
        assert((a + b)[a.len() + k] == x);
    }
}

/// Appending a tree keeps a sequence aligned exactly when the tree is.
pub proof fn lemma_all_aligned_push<R>(s: Seq<SplitTree<R>>, t: SplitTree<R>)
    ensures
        all_aligned(s.push(t)) == (all_aligned(s) && t.aligned()),
{
    assert(s.push(t).drop_last() =~= s);
}

/// Trees with the same panes, position by position, give the same panes.
pub proof fn lemma_leaves_of_pointwise<R>(a: Seq<SplitTree<R>>, b: Seq<SplitTree<R>>)
    requires
        a.len() == b.len(),
        forall|k: int| 0 <= k < a.len() ==> #[trigger] a[k].leaves() == b[k].leaves(),
    ensures
        leaves_of(a) == leaves_of(b),
    decreases a.len(),
{
    if a.len() > 0 {
        assert forall|k: int| 0 <= k < a.drop_last().len() implies #[trigger] a.drop_last()[k].leaves() == b.drop_last()[k].leaves() by {
            assert(a.drop_last()[k] == a[k]);
            assert(b.drop_last()[k] == b[k]);
        }
        lemma_leaves_of_pointwise(a.drop_last(), b.drop_last());
        assert(a.last().leaves() == b.last().leaves());
    }
}

/// The pane sequence with every occurrence of `pane` taken out.
pub open spec fn without(ids: Seq<PaneId>, pane: PaneId) -> Seq<PaneId>
    decreases ids.len(),
{
    if ids.len() == 0 {
        ids
    } else if ids.last() == pane {
        without(ids.drop_last(), pane)
    } else {
        without(ids.drop_last(), pane).push(ids.last())
    }
}

pub proof fn lemma_without_concat(a: Seq<PaneId>, b: Seq<PaneId>, pane: PaneId)
    ensures
        without(a + b, pane) == without(a, pane) + without(b, pane),
    decreases b.len(),
{
    if b.len() == 0 {
        assert(a + b =~= a);
        assert(without(a, pane) + without(b, pane) =~= without(a, pane));
    } else {
        lemma_without_concat(a, b.drop_last(), pane);
        assert((a + b).drop_last() =~= a + b.drop_last());
        assert((a + b).last() == b.last());
        if b.last() != pane {
            assert(without(a, pane) + without(b.drop_last(), pane).push(b.last())
                =~= (without(a, pane) + without(b.drop_last(), pane)).push(b.last()));
        }
    }
}

pub proof fn lemma_without_absent(a: Seq<PaneId>, pane: PaneId)
    requires
        !a.contains(pane),
    ensures
        without(a, pane) == a,
    decreases a.len(),
{
    if a.len() > 0 {
        assert(!a.drop_last().contains(pane)) by {
            if a.drop_last().contains(pane) {
                let k = choose|k: int| 0 <= k < a.drop_last().len() && a.drop_last()[k] == pane;
                assert(a[k] == pane);
            }
        }
        lemma_without_absent(a.drop_last(), pane);
        assert(a[a.len() - 1] != pane);
        assert(a.drop_last().push(a.last()) =~= a);
    }
}

pub proof fn lemma_without_single(id: PaneId, pane: PaneId)
    ensures
        without(seq![id], pane) == (if id == pane { Seq::<PaneId>::empty() } else { seq![id] }),
{
    assert(seq![id].drop_last() =~= Seq::<PaneId>::empty());
    assert(without(Seq::<PaneId>::empty(), pane) =~= Seq::<PaneId>::empty());
    assert(Seq::<PaneId>::empty().push(id) =~= seq![id]);
}

/// The pane sequence with `new_pane` inserted right after the first
/// occurrence of `target`.
pub open spec fn inserted_after(ids: Seq<PaneId>, target: PaneId, new_pane: PaneId) -> Seq<PaneId>
    decreases ids.len(),
{
    if ids.len() == 0 {
        ids
    } else if ids[0] == target {
        seq![target, new_pane] + ids.skip(1)
    } else {
        seq![ids[0]] + inserted_after(ids.skip(1), target, new_pane)
    }
}

pub proof fn lemma_inserted_after_concat(a: Seq<PaneId>, b: Seq<PaneId>, target: PaneId, new_pane: PaneId)
    ensures
        !a.contains(target) ==> inserted_after(a + b, target, new_pane) == a + inserted_after(b, target, new_pane),
        a.contains(target) ==> inserted_after(a + b, target, new_pane) == inserted_after(a, target, new_pane) + b,
    decreases a.len(),
{
    if a.len() == 0 {
        assert(a + b =~= b);
    } else {
        lemma_inserted_after_concat(a.skip(1), b, target, new_pane);
        assert((a + b).skip(1) =~= a.skip(1) + b);
        assert((a + b)[0] == a[0]);
        if a[0] == target {
            assert(a.contains(target));
            assert(seq![target, new_pane] + (a.skip(1) + b) =~= (seq![target, new_pane] + a.skip(1)) + b);
        } else {
            assert(a.contains(target) == a.skip(1).contains(target)) by {
                if a.contains(target) {
                    let k = choose|k: int| 0 <= k < a.len() && a[k] == target;
                    assert(a.skip(1)[k - 1] == target);
                }
                if a.skip(1).contains(target) {
                    let k = choose|k: int| 0 <= k < a.skip(1).len() && a.skip(1)[k] == target;
                    assert(a[k + 1] == target);
                }
            }
            if !a.contains(target) {
                assert(seq![a[0]] + (a.skip(1) + inserted_after(b, target, new_pane)) =~= a + inserted_after(b, target, new_pane));
            } else {
                assert(seq![a[0]] + (inserted_after(a.skip(1), target, new_pane) + b) =~= (seq![a[0]] + inserted_after(a.skip(1), target, new_pane)) + b);
            }
        }
    }
}

pub proof fn lemma_all_normal_under_push<R>(s: Seq<SplitTree<R>>, t: SplitTree<R>, axis: SplitAxis)
    ensures
        all_normal_under(s.push(t), axis) == (all_normal_under(s, axis) && fits_under(t, axis)),
{
    assert(s.push(t).drop_last() =~= s);
}

/// The pane sequence after `first` and `second` trade places.
pub open spec fn swapped_ids(ids: Seq<PaneId>, first: PaneId, second: PaneId) -> Seq<PaneId> {
    ids.map_values(|id: PaneId| if id == first { second } else if id == second { first } else { id })
}

/// The children of a split along `axis` with each child split along `axis`
/// replaced by its own children.
pub open spec fn inlined_children<R>(children: Seq<SplitTree<R>>, axis: SplitAxis) -> Seq<SplitTree<R>>
    decreases children.len(),
{
    if children.len() == 0 {
        Seq::empty()
    } else {
        let c = children.last();
        inlined_children(children.drop_last(), axis) + if c is Split && c->axis == axis {
            c->children@
        } else {
            seq![c]
        }
    }
}

/// The ratios that go with `inlined_children`: an inlined grandchild's ratio
/// scaled by its parent's, the other children's ratios as they were.
pub open spec fn inlined_ratios<R: SplitRatio>(children: Seq<SplitTree<R>>, ratios: Seq<R>, axis: SplitAxis) -> Seq<R>
    decreases children.len(),
{
    if children.len() == 0 {
        Seq::empty()
    } else {
        let c = children.last();
        let ratio = ratios[children.len() - 1];
        inlined_ratios(children.drop_last(), ratios, axis) + if c is Split && c->axis == axis {
            c->ratios@.map_values(|g: R| ratio.scaled(&g))
        } else {
            seq![ratio]
        }
    }
}

/// `out` is `tree` with its child splits along `axis` inlined and its ratios
/// renormalized, when `tree` is a split along `axis`; otherwise `tree` itself.
pub open spec fn flattened_from<R: SplitRatio>(tree: SplitTree<R>, out: SplitTree<R>, axis: SplitAxis) -> bool {
    if tree is Split && tree->axis == axis {
        &&& out is Split
        &&& out->axis == axis
        &&& out->children@ == inlined_children(tree->children@, axis)
        &&& out->ratios@ == renormalized(inlined_ratios(tree->children@, tree->ratios@, axis))
    } else {
        out == tree
    }
}

/// The two trees are the same: the same splits, axes and ratios, and the
/// same panes in the same places.
pub open spec fn identical<R>(a: SplitTree<R>, b: SplitTree<R>) -> bool {
    a.same_shape(b) && a.leaves() == b.leaves()
}

/// Every tree is the same as itself.
pub proof fn lemma_same_shape_refl<R>(t: SplitTree<R>)
    ensures
        t.same_shape(t),
    decreases t,
{
    if let SplitTree::Split { children, .. } = t {
        assert forall|k: int| 0 <= k < children@.len() implies #[trigger] children@[k].same_shape(children@[k]) by {
            lemma_same_shape_refl(children@[k]);
        }
        lemma_all_same_shape(children@, children@);
    }
}

/// `out` is `tree` with its first pane `target` split along `axis`, `new_pane`
/// after it. A pane becomes a split of the two with half the weight each.
/// In a split, the first child holding `target` is split and the other
/// children stay; when the split runs along `axis` too, the grown child has
/// its own splits along `axis` inlined and the split's ratios are
/// renormalized.
pub open spec fn split_from<R: SplitRatio>(tree: SplitTree<R>, out: SplitTree<R>, target: PaneId, new_pane: PaneId, axis: SplitAxis) -> bool
    decreases tree,
{
    match tree {
        SplitTree::Pane(_) => {
            &&& out is Split
            &&& out->axis == axis
            &&& out->children@ == seq![SplitTree::<R>::Pane(target), SplitTree::<R>::Pane(new_pane)]
            &&& out->ratios@ == seq![R::half_weight(), R::half_weight()]
        },
        SplitTree::Split { axis: existing, children, ratios } => {
            &&& out is Split
            &&& out->axis == existing
            &&& out->children@.len() == children@.len()
            &&& out->ratios@ == if existing == axis { renormalized(ratios@) } else { ratios@ }
            &&& exists|i: int|
                #[trigger] first_holding(children@, target, i) && (forall|k: int|
                    0 <= k < children@.len() && k != i ==> identical(children@[k], #[trigger] out->children@[k])) && (if existing
                    == axis {
                    exists|mid: SplitTree<R>|
                        split_from(children@[i], mid, target, new_pane, axis) && #[trigger] flattened_from(mid, out->children@[i], axis)
                } else {
                    split_from(children@[i], out->children@[i], target, new_pane, axis)
                })
        },
    }
}

/// The sibling a resize that grows forward (or backward) takes weight from:
/// the next child (or the previous one), if there is one among `count`.
pub open spec fn has_neighbour(index: int, count: int, forward: bool) -> bool {
    if forward { index + 1 < count } else { index > 0 }
}

/// `out` is `tree` after a resize of `target` along `axis` by `delta`. At a
/// split along `axis` with two ratios or more whose first child holding
/// `target` has a neighbour on the side `delta` points to, the child gains
/// `moved(delta, neighbour)` and the neighbour loses it, then the ratios are
/// renormalized and the children stay. Otherwise the ratios stay and the
/// first child that takes the resize is resized, the others staying.
pub open spec fn resized_from<R: SplitRatio>(tree: SplitTree<R>, out: SplitTree<R>, target: PaneId, axis: SplitAxis, delta: R) -> bool
    decreases tree,
{
    match tree {
        SplitTree::Pane(_) => false,
        SplitTree::Split { axis: split_axis, children, ratios } => {
            &&& out is Split
            &&& out->axis == split_axis
            &&& if split_axis == axis && ratios@.len() > 1 && exists|index: int|
                #[trigger] first_holding(children@, target, index) && has_neighbour(index, ratios@.len() as int, delta.forward()) {
                let index = choose|index: int| first_holding(children@, target, index);
                let neighbor = if delta.forward() { index + 1 } else { index - 1 };
                let applied = R::moved(&delta, &ratios@[neighbor]);
                &&& out->children@ == children@
                &&& out->ratios@ == renormalized(
                    ratios@.update(index, ratios@[index].added(&applied)).update(neighbor, ratios@[neighbor].subtracted(&applied)),
                )
            } else {
                &&& out->ratios@ == ratios@
                &&& out->children@.len() == children@.len()
                &&& exists|j: int|
                    0 <= j < children@.len() && #[trigger] children@[j].resizable(target, axis, delta.forward()) && (forall|k: int|
                        0 <= k < j ==> !(#[trigger] children@[k]).resizable(target, axis, delta.forward())) && (forall|k: int|
                        0 <= k < children@.len() && k != j ==> identical(children@[k], #[trigger] out->children@[k]))
                        && resized_from(children@[j], out->children@[j], target, axis, delta)
            }
        },
    }
}

/// `out` is `tree` in normal form: each child of a split put in normal form
/// first, then the split's children along its own axis inlined with their
/// ratios scaled by the child's and renormalized, and a split left with one
/// child replaced by that child.
pub open spec fn normalized_from<R: SplitRatio>(tree: SplitTree<R>, out: SplitTree<R>) -> bool
    decreases tree,
{
    match tree {
        SplitTree::Pane(_) => out == tree,
        SplitTree::Split { axis, children, ratios } => exists|normal_children: Seq<SplitTree<R>>|
            #[trigger] normal_children.len() == children@.len() && (forall|k: int|
                0 <= k < children@.len() ==> normalized_from(children@[k], #[trigger] normal_children[k])) && ({
                let flat = inlined_children(normal_children, axis);
                if flat.len() == 1 {
                    out == flat[0]
                } else {
                    &&& out is Split
                    &&& out->axis == axis
                    &&& out->children@ == flat
                    &&& out->ratios@ == renormalized(inlined_ratios(normal_children, ratios@, axis))
                }
            }),
    }
}

/// The sum of the weights, added left to right from zero.
pub fn total_weight<R: SplitRatio>(weights: &Vec<R>) -> (r: R)
    ensures
        r == weight_total(weights@),
{
    let mut sum = R::zero();
    let mut i: usize = 0;
    while i < weights.len()
        invariant
            i <= weights.len(),
            sum == weight_total(weights@.take(i as int)),
        decreases weights.len() - i,
    {
        proof {
            assert(weights@.take(i + 1).drop_last() =~= weights@.take(i as int));
        }
        sum = sum.plus(&weights[i]);
        i = i + 1;
    }
    proof {
        assert(weights@.take(weights.len() as int) =~= weights@);
    }
    sum
}

impl<R: SplitRatio> SplitTree<R> {
    /// Rescales the ratios so that they sum to one, each kept between five
    /// and ninety-five percent; ratios too small to divide by become equal
    /// shares.
    pub fn renormalize_ratios(ratios: &mut Vec<R>)
        ensures
            final(ratios)@ == renormalized(old(ratios)@),
    {
        if ratios.len() == 0 {
            return;
        }
        let ghost start = ratios@;
        let total = total_weight(ratios);
        let count = ratios.len();
        if total.is_negligible() {
            let equal = R::equal_share(count);
            let mut i: usize = 0;
            while i < count
                invariant
                    0 <= i <= count,
                    count == start.len(),
                    ratios@.len() == count,
                    equal == R::equal_part(count),
                    forall|k: int| 0 <= k < i ==> ratios@[k] == equal,
                decreases count - i,
            {
                ratios.set(i, equal);
                i = i + 1;
            }
            assert(ratios@ =~= renormalized(start));
            return;
        }
        let mut i: usize = 0;
        while i < count
            invariant
                0 <= i <= count,
                count == start.len(),
                ratios@.len() == count,
                total == weight_total(start),
                forall|k: int| 0 <= k < i ==> ratios@[k] == start[k].share(&total),
                forall|k: int| i <= k < count ==> ratios@[k] == start[k],
            decreases count - i,
        {
            let share = ratios[i].share_of(&total);
            ratios.set(i, share);
            i = i + 1;
        }
        assert(ratios@ =~= renormalized(start));
    }

    /// Inlines into this split the children of its child splits along the
    /// same axis, scaling their ratios by the child's own, then renormalizes.
    /// Children are paired with ratios as far as both go.
    fn flattened_same_axis(self, axis_to_flatten: SplitAxis) -> (r: SplitTree<R>)
        ensures
            self.aligned() ==> flattened_from(self, r, axis_to_flatten),
            self.aligned() ==> r.aligned(),
            self.aligned() ==> r.leaves() == self.leaves(),
            self is Pane ==> r == self,
            self is Split ==> r is Split && r->axis == self->axis,
            (self is Split && self->axis != axis_to_flatten) ==> r == self,
            (self is Split && self->axis == axis_to_flatten && self.aligned() && all_normal(self->children@))
                ==> all_normal_under(r->children@, axis_to_flatten),
    {
        match self {
            SplitTree::Pane(id) => SplitTree::Pane(id),
            SplitTree::Split { axis, children, ratios } => {
                if axis != axis_to_flatten {
                    return SplitTree::Split { axis, children, ratios };
                }
                let ghost old_children = children@;
                let ghost old_ratios = ratios@;
                let ghost aligned = self.aligned();
                let ghost normal = aligned && all_normal(old_children);
                proof {
                    lemma_all_aligned(old_children);
                    lemma_all_normal(old_children);
                    lemma_all_normal_under(Seq::<SplitTree<R>>::empty(), axis_to_flatten);
                }
                let count = if children.len() < ratios.len() { children.len() } else { ratios.len() };
                let mut rest_children = children;
                let mut rest_ratios = ratios;
                let mut flat: Vec<SplitTree<R>> = Vec::new();
                let mut flat_ratios: Vec<R> = Vec::new();
                let mut i: usize = 0;
                while i < count
                    invariant
                        0 <= i <= count,
                        count <= old_children.len(),
                        count <= old_ratios.len(),
                        aligned ==> count == old_children.len(),
                        aligned ==> forall|k: int| 0 <= k < old_children.len() ==> #[trigger] old_children[k].aligned(),
                        rest_children@ == old_children.skip(i as int),
                        rest_ratios@ == old_ratios.skip(i as int),
                        flat.len() == flat_ratios.len(),
                        aligned ==> all_aligned(flat@),
                        aligned ==> leaves_of(flat@) == leaves_of(old_children.take(i as int)),
                        normal ==> forall|k: int| 0 <= k < old_children.len() ==> #[trigger] old_children[k].is_normal(),
                        normal ==> all_normal_under(flat@, axis_to_flatten),
                        aligned ==> flat@ == inlined_children(old_children.take(i as int), axis_to_flatten),
                        aligned ==> flat_ratios@ == inlined_ratios(old_children.take(i as int), old_ratios, axis_to_flatten),
                    decreases count - i,
                {
                    proof {
                        lemma_leaves_of_around(old_children, i as int);
                    }
                    let child = rest_children.remove(0);
                    let ratio = rest_ratios.remove(0);
                    proof {
                        assert(child == old_children[i as int]);
                        assert(ratio == old_ratios[i as int]);
                    }
                    match child {
                        SplitTree::Split { axis: child_axis, children: grand, ratios: grand_ratios }
                            if child_axis == axis_to_flatten => {
                            let ghost grand_view = grand@;
                            let ghost start = flat@;
                            proof {
                                lemma_all_aligned(grand_view);
                                lemma_all_normal_under(grand_view, axis_to_flatten);
                                if normal {
                                    assert(old_children[i as int].is_normal());
                                    assert(all_normal_under(grand_view, axis_to_flatten));
                                }
                                if aligned {
                                    assert(old_children[i as int].aligned());
                                    assert(grand.len() == grand_ratios.len());
                                    assert(all_aligned(grand_view));
                                }
                            }
                            let inner = if grand.len() < grand_ratios.len() { grand.len() } else { grand_ratios.len() };
                            let mut rest_grand = grand;
                            let mut rest_grand_ratios = grand_ratios;
                            let ghost grand_ratio_view = rest_grand_ratios@;
                            let ghost start_ratios = flat_ratios@;
                            let mut j: usize = 0;
                            while j < inner
                                invariant
                                    0 <= j <= inner,
                                    inner <= grand_view.len(),
                                    inner <= grand_ratio_view.len(),
                                    aligned ==> inner == grand_view.len(),
                                    aligned ==> forall|k: int| 0 <= k < grand_view.len() ==> #[trigger] grand_view[k].aligned(),
                                    rest_grand@ == grand_view.skip(j as int),
                                    rest_grand_ratios@ == grand_ratio_view.skip(j as int),
                                    flat.len() == flat_ratios.len(),
                                    aligned ==> all_aligned(flat@),
                                    flat@ == start + grand_view.take(j as int),
                                    normal ==> forall|k: int| 0 <= k < grand_view.len() ==> #[trigger] fits_under(grand_view[k], axis_to_flatten),
                                    normal ==> all_normal_under(flat@, axis_to_flatten),
                                    ratio == old_ratios[i as int],
                                    flat_ratios@ == start_ratios + grand_ratio_view.take(j as int).map_values(|g: R| ratio.scaled(&g)),
                                decreases inner - j,
                            {
                                let grand_child = rest_grand.remove(0);
                                let grand_ratio = rest_grand_ratios.remove(0);
                                proof {
                                    assert(grand_child == grand_view[j as int]);
                                    lemma_all_aligned_push(flat@, grand_child);
                                    lemma_all_normal_under_push(flat@, grand_child, axis_to_flatten);
                                    assert(start + grand_view.take(j + 1) =~= (start + grand_view.take(j as int)).push(grand_child));
                                }
                                proof {
                                    assert(grand_ratio == grand_ratio_view[j as int]);
                                    assert(grand_ratio_view.take(j + 1).map_values(|g: R| ratio.scaled(&g)) =~= grand_ratio_view.take(
                                        j as int,
                                    ).map_values(|g: R| ratio.scaled(&g)).push(ratio.scaled(&grand_ratio)));
                                }
                                flat.push(grand_child);
                                flat_ratios.push(ratio.scaled_by(&grand_ratio));
                                j = j + 1;
                            }
                            proof {
                                if aligned {
                                    assert(grand_ratio_view.take(inner as int) =~= grand_ratio_view);
                                    assert(old_children.take(i + 1).drop_last() =~= old_children.take(i as int));
                                    assert(old_children.take(i + 1).last() == old_children[i as int]);
                                }
                            }
                            proof {
                                if aligned {
                                    assert(grand_view.take(inner as int) =~= grand_view);
                                    lemma_leaves_of_concat(start, grand_view);
                                }
                            }
                        },
                        other => {
                            proof {
                                lemma_all_aligned_push(flat@, other);
                                lemma_leaves_of_push(flat@, other);
                                lemma_all_normal_under_push(flat@, other, axis_to_flatten);
                                if normal {
                                    assert(old_children[i as int].is_normal());
                                    assert(!(other is Split && other->axis == axis_to_flatten));
                                    assert(fits_under(other, axis_to_flatten));
                                }
                            }
                            proof {
                                if aligned {
                                    assert(old_children.take(i + 1).drop_last() =~= old_children.take(i as int));
                                    assert(old_children.take(i + 1).last() == old_children[i as int]);
                                }
                            }
                            flat.push(other);
                            flat_ratios.push(ratio);
                        },
                    }
                    i = i + 1;
                }
                proof {
                    if aligned {
                        assert(old_children.take(count as int) =~= old_children);
                    }
                }
                SplitTree::renormalize_ratios(&mut flat_ratios);
                SplitTree::Split { axis, children: flat, ratios: flat_ratios }
            },
        }
    }

    /// Splits the first pane `target` (left to right) along `axis`, with
    /// `new_pane` after it; a split along the same axis as its parent is
    /// flattened one level into that child and the parent's ratios are
    /// renormalized. A tree without `target` comes back as it was.
    #[verifier::loop_isolation(false)]
    #[verifier::rlimit(40)]
    fn split_leaf_owned(self, target: PaneId, new_pane: PaneId, axis: SplitAxis) -> (r: (SplitTree<R>, bool))
        ensures
            r.1 == self.leaves().contains(target),
            !r.1 ==> r.0.leaves() == self.leaves() && self.same_shape(r.0),
            r.1 && self.aligned() ==> r.0.leaves() == inserted_after(self.leaves(), target, new_pane),
            self.aligned() ==> r.0.aligned(),
            r.1 && self.aligned() ==> split_from(self, r.0, target, new_pane, axis),
        decreases self,
    {
        match self {
            SplitTree::Pane(id) => {
                proof {
                    assert(self.leaves() =~= seq![id]);
                    assert(self.leaves()[0] == id);
                }
                if id == target {
                    let mut children: Vec<SplitTree<R>> = Vec::new();
                    children.push(SplitTree::Pane(target));
                    children.push(SplitTree::Pane(new_pane));
                    let mut ratios: Vec<R> = Vec::new();
                    ratios.push(R::half());
                    ratios.push(R::half());
                    proof {
                        lemma_leaves_of_single(children@[0]);
                        lemma_leaves_of_push(seq![children@[0]], children@[1]);
                        assert(children@ =~= seq![children@[0]].push(children@[1]));
                        assert(inserted_after(self.leaves(), target, new_pane) =~= seq![target, new_pane]);
                        lemma_all_aligned_push(seq![children@[0]], children@[1]);
                        lemma_all_aligned_push(Seq::<SplitTree<R>>::empty(), children@[0]);
                        assert(Seq::<SplitTree<R>>::empty().push(children@[0]) =~= seq![children@[0]]);
                        assert(children@ =~= seq![SplitTree::<R>::Pane(target), SplitTree::<R>::Pane(new_pane)]);
                        assert(ratios@ =~= seq![R::half_weight(), R::half_weight()]);
                    }
                    (SplitTree::Split { axis, children, ratios }, true)
                } else {
                    (SplitTree::Pane(id), false)
                }
            },
            SplitTree::Split { axis: existing_axis, mut children, mut ratios } => {
                let ghost old_children = children@;
                let ghost old_ratio_count = ratios.len();
                let ghost old_ratio_view = ratios@;
                let ghost aligned = self.aligned();
                proof {
                    lemma_all_aligned(old_children);
                    lemma_all_same_shape(old_children, old_children);
                }
                let mut i: usize = 0;
                while i < children.len()
                    invariant
                        0 <= i <= children.len(),
                        children.len() == old_children.len(),
                        forall|k: int| i <= k < children.len() ==> children@[k] == old_children[k],
                        forall|k: int| 0 <= k < i ==> #[trigger] children@[k].leaves() == old_children[k].leaves(),
                        forall|k: int| 0 <= k < i ==> #[trigger] old_children[k].same_shape(children@[k]),
                        forall|k: int| 0 <= k < i ==> (old_children[k].aligned() ==> #[trigger] children@[k].aligned()),
                        ratios.len() == old_ratio_count,
                        ratios@ == old_ratio_view,
                        !leaves_of(old_children.take(i as int)).contains(target),
                        forall|k: int| 0 <= k < i ==> !(#[trigger] old_children[k].leaves()).contains(target),
                    decreases children.len() - i,
                {
                    proof {
                        lemma_leaves_of_around(old_children, i as int);
                        lemma_concat_contains(leaves_of(old_children.take(i as int)), old_children[i as int].leaves(), target);
                    }
                    let ghost before = children@;
                    let child = children.remove(i);
                    let (grown, found) = child.split_leaf_owned(target, new_pane, axis);
                    let ghost grown_view = grown;
                    proof {
                        assert(child == old_children[i as int]);
                        if aligned {
                            assert(old_children[i as int].aligned());
                        }
                    }
                    if found {
                        let placed = if existing_axis == axis {
                            grown.flattened_same_axis(axis)
                        } else {
                            grown
                        };
                        children.insert(i, placed);
                        if existing_axis == axis {
                            SplitTree::renormalize_ratios(&mut ratios);
                        }
                        proof {
                            let a = leaves_of(old_children.take(i as int));
                            let b = old_children[i as int].leaves();
                            let c = leaves_of(old_children.skip(i + 1));
                            lemma_leaves_of_around(children@, i as int);
                            assert forall|k: int| 0 <= k < i implies #[trigger] children@.take(i as int)[k].leaves() == old_children.take(i as int)[k].leaves() by {
                                assert(children@[k] == before[k]);
                            }
                            lemma_leaves_of_pointwise(children@.take(i as int), old_children.take(i as int));
                            assert(children@.skip(i + 1) =~= old_children.skip(i + 1));
                            lemma_concat_contains(a, b, target);
                            lemma_concat_contains(a + b, c, target);
                            lemma_inserted_after_concat(a, b + c, target, new_pane);
                            lemma_inserted_after_concat(b, c, target, new_pane);
                            assert(a + b + c =~= a + (b + c));
                            assert(a + (inserted_after(b, target, new_pane) + c) =~= a + inserted_after(b, target, new_pane) + c);
                            assert(leaves_of(old_children) == a + b + c);
                            assert(self.leaves().contains(target));
                            lemma_all_aligned(children@);
                            if aligned {
                                assert forall|k: int| 0 <= k < children@.len() implies #[trigger] children@[k].aligned() by {
                                    if k < i {
                                        assert(children@[k] == before[k]);
                                    } else if k > i {
                                        assert(children@[k] == old_children[k]);
                                    }
                                }
                                assert(first_holding(old_children, target, i as int));
                                assert forall|k: int| 0 <= k < old_children.len() && k != i implies identical(
                                    old_children[k],
                                    #[trigger] children@[k],
                                ) by {
                                    if k < i {
                                        assert(children@[k] == before[k]);
                                    } else {
                                        assert(children@[k] == old_children[k]);
                                        lemma_same_shape_refl(old_children[k]);
                                    }
                                }
                                if existing_axis == axis {
                                    assert(split_from(old_children[i as int], grown_view, target, new_pane, axis));
                                    assert(flattened_from(grown_view, children@[i as int], axis));
                                    assert(ratios@ == renormalized(old_ratio_view));
                                } else {
                                    assert(split_from(old_children[i as int], children@[i as int], target, new_pane, axis));
                                    assert(ratios@ == old_ratio_view);
                                }
                                assert(children@.len() == old_children.len());
                                let result = SplitTree::<R>::Split { axis: existing_axis, children: children, ratios: ratios };
                                assert(result->children@ == children@);
                                assert(first_holding(old_children, target, i as int) && (forall|k: int|
                                    0 <= k < old_children.len() && k != i ==> identical(old_children[k], #[trigger] result->children@[k])));
                                assert(split_from(self, result, target, new_pane, axis));
                            }
                        }
                        return (SplitTree::Split { axis: existing_axis, children, ratios }, true);
                    }
                    children.insert(i, grown);
                    proof {
                        assert forall|k: int| 0 <= k < i + 1 implies #[trigger] children@[k].leaves() == old_children[k].leaves() by {
                            if k < i {
                                assert(children@[k] == before[k]);
                            }
                        }
                        assert forall|k: int| 0 <= k < i + 1 implies #[trigger] old_children[k].same_shape(children@[k]) by {
                            if k < i {
                                assert(children@[k] == before[k]);
                            }
                        }
                        assert forall|k: int| 0 <= k < i + 1 implies (old_children[k].aligned() ==> #[trigger] children@[k].aligned()) by {
                            if k < i {
                                assert(children@[k] == before[k]);
                            }
                        }
                        lemma_leaves_of_around(old_children, i as int);
                        lemma_concat_contains(leaves_of(old_children.take(i as int)), old_children[i as int].leaves(), target);
                    }
                    i = i + 1;
                }
                proof {
                    assert(old_children.take(children.len() as int) =~= old_children);
                    lemma_leaves_of_pointwise(children@, old_children);
                    lemma_all_same_shape(old_children, children@);
                    lemma_all_aligned(children@);
                }
                (SplitTree::Split { axis: existing_axis, children, ratios }, false)
            },
        }
    }

    /// Whether the tree is the single pane `pane_id`.
    fn is_pane(&self, pane_id: PaneId) -> (r: bool)
        ensures
            r == (*self matches SplitTree::Pane(id) && id == pane_id),
    {
        match self {
            SplitTree::Pane(id) => *id == pane_id,
            SplitTree::Split { .. } => false,
        }
    }

    /// The tree without pane `pane_id`: every leaf for it is dropped from
    /// its split, and each split that lost one renormalizes its ratios.
    #[verifier::loop_isolation(false)]
    #[verifier::rlimit(40)]
    fn removed_pane(self, pane_id: PaneId) -> (r: (SplitTree<R>, Result<(), MuxError>))
        requires
            self.aligned(),
        ensures
            r.0.aligned(),
            r.1 == (if self matches SplitTree::Pane(id) && id == pane_id {
                Err(MuxError::CannotRemoveRootPane)
            } else if self is Split && self.leaves().contains(pane_id) {
                Ok(())
            } else {
                Err(MuxError::PaneNotFound(pane_id))
            }),
            r.1 is Ok ==> r.0.leaves() == without(self.leaves(), pane_id),
            r.1 is Err ==> r.0.leaves() == self.leaves() && self.same_shape(r.0),
            self is Split ==> r.0 is Split && r.0->axis == self->axis,
        decreases self,
    {
        match self {
            SplitTree::Pane(id) => {
                if id == pane_id {
                    (SplitTree::Pane(id), Err(MuxError::CannotRemoveRootPane))
                } else {
                    proof {
                        assert(self.leaves() =~= seq![id]);
                        assert(!self.leaves().contains(pane_id)) by {
                            if self.leaves().contains(pane_id) {
                                let k = choose|k: int| 0 <= k < self.leaves().len() && self.leaves()[k] == pane_id;
                                assert(self.leaves()[k] == id);
                            }
                        }
                    }
                    (SplitTree::Pane(id), Err(MuxError::PaneNotFound(pane_id)))
                }
            },
            SplitTree::Split { axis, mut children, mut ratios } => {
                let ghost old_children = children@;
                let ghost old_ratios = ratios@;
                proof {
                    lemma_all_aligned(old_children);
                }
                let mut removed = false;
                let mut index: usize = 0;
                let ghost mut done: int = 0;
                while index < children.len()
                    invariant
                        0 <= index <= children.len(),
                        0 <= done <= old_children.len(),
                        index <= done,
                        children.len() == ratios.len(),
                        children@.skip(index as int) == old_children.skip(done),
                        ratios@.skip(index as int) == old_ratios.skip(done),
                        forall|k: int| 0 <= k < old_children.len() ==> #[trigger] old_children[k].aligned(),
                        forall|k: int| 0 <= k < index ==> #[trigger] children@[k].aligned(),
                        leaves_of(children@.take(index as int)) == without(leaves_of(old_children.take(done)), pane_id),
                        removed == leaves_of(old_children.take(done)).contains(pane_id),
                        !removed ==> index == done,
                        !removed ==> ratios@ == old_ratios,
                        !removed ==> forall|k: int| 0 <= k < index ==> #[trigger] old_children[k].same_shape(children@[k]),
                        !removed ==> forall|k: int| 0 <= k < index ==> #[trigger] children@[k].leaves() == old_children[k].leaves(),
                    decreases children.len() - index,
                {
                    let ghost before = children@;
                    let ghost before_ratios = ratios@;
                    proof {
                        assert(before[index as int] == old_children[done]) by {
                            assert(before.skip(index as int)[0] == old_children.skip(done)[0]);
                        }
                        lemma_leaves_of_around(old_children, done);
                        lemma_leaves_of_around(before, index as int);
                        lemma_concat_contains(leaves_of(old_children.take(done)), old_children[done].leaves(), pane_id);
                        lemma_without_concat(leaves_of(old_children.take(done)), old_children[done].leaves(), pane_id);
                    }
                    if children[index].is_pane(pane_id) {
                        children.remove(index);
                        ratios.remove(index);
                        removed = true;
                        proof {
                            assert(old_children[done].leaves() =~= seq![pane_id]);
                            assert(old_children[done].leaves()[0] == pane_id);
                            lemma_without_single(pane_id, pane_id);
                            assert(children@.take(index as int) =~= before.take(index as int));
                            assert(children@.skip(index as int) =~= before.skip(index + 1));
                            assert(ratios@.skip(index as int) =~= before_ratios.skip(index + 1));
                            assert(before.skip(index + 1) =~= old_children.skip(done + 1)) by {
                                assert(before.skip(index + 1) =~= before.skip(index as int).skip(1));
                                assert(old_children.skip(done + 1) =~= old_children.skip(done).skip(1));
                            }
                            assert(before_ratios.skip(index + 1) =~= old_ratios.skip(done + 1)) by {
                                assert(before_ratios.skip(index + 1) =~= before_ratios.skip(index as int).skip(1));
                                assert(old_ratios.skip(done + 1) =~= old_ratios.skip(done).skip(1));
                            }
                            assert(leaves_of(old_children.take(done)) + Seq::<PaneId>::empty() =~= leaves_of(old_children.take(done)));
                            assert(without(leaves_of(old_children.take(done)), pane_id) + Seq::<PaneId>::empty()
                                =~= without(leaves_of(old_children.take(done)), pane_id));
                            done = done + 1;
                        }
                    } else {
                        let child = children.remove(index);
                        let (rest, outcome) = child.removed_pane(pane_id);
                        children.insert(index, rest);
                        if outcome.is_ok() {
                            removed = true;
                        }
                        proof {
                            let old_child = old_children[done];
                            if outcome is Err {
                                if old_child is Split {
                                    assert(!old_child.leaves().contains(pane_id));
                                } else {
                                    assert(old_child.leaves() =~= seq![old_child->Pane_0]);
                                    assert(!old_child.leaves().contains(pane_id)) by {
                                        if old_child.leaves().contains(pane_id) {
                                            let k = choose|k: int| 0 <= k < old_child.leaves().len() && old_child.leaves()[k] == pane_id;
                                            assert(old_child.leaves()[k] == old_child->Pane_0);
                                        }
                                    }
                                }
                                lemma_without_absent(old_child.leaves(), pane_id);
                            }
                            lemma_leaves_of_around(children@, index as int);
                            assert(children@.take(index as int) =~= before.take(index as int));
                            assert(children@.skip(index + 1) =~= before.skip(index + 1));
                            assert(before.skip(index + 1) =~= old_children.skip(done + 1)) by {
                                assert(before.skip(index + 1) =~= before.skip(index as int).skip(1));
                                assert(old_children.skip(done + 1) =~= old_children.skip(done).skip(1));
                            }
                            assert(children@.skip(index + 1) =~= old_children.skip(done + 1));
                            assert(ratios@.skip(index + 1) =~= old_ratios.skip(done + 1)) by {
                                assert(ratios@.skip(index + 1) =~= ratios@.skip(index as int).skip(1));
                                assert(old_ratios.skip(done + 1) =~= old_ratios.skip(done).skip(1));
                            }
                            assert forall|k: int| 0 <= k < index + 1 implies #[trigger] children@[k].aligned() by {
                                if k < index {
                                    assert(children@[k] == before[k]);
                                }
                            }
                            if !removed {
                                assert forall|k: int| 0 <= k < index + 1 implies #[trigger] old_children[k].same_shape(children@[k]) by {
                                    if k < index {
                                        assert(children@[k] == before[k]);
                                    }
                                }
                                assert forall|k: int| 0 <= k < index + 1 implies #[trigger] children@[k].leaves() == old_children[k].leaves() by {
                                    if k < index {
                                        assert(children@[k] == before[k]);
                                    }
                                }
                            }
                            done = done + 1;
                        }
                        index = index + 1;
                    }
                }
                proof {
                    assert(old_children.skip(done).len() == 0);
                    assert(old_children.take(done) =~= old_children);
                    assert(children@.take(index as int) =~= children@);
                    lemma_all_aligned(children@);
                }
                if !removed {
                    proof {
                        lemma_all_same_shape(old_children, children@);
                        lemma_without_absent(leaves_of(old_children), pane_id);
                    }
                    return (SplitTree::Split { axis, children, ratios }, Err(MuxError::PaneNotFound(pane_id)));
                }
                SplitTree::renormalize_ratios(&mut ratios);
                (SplitTree::Split { axis, children, ratios }, Ok(()))
            },
        }
    }

    /// Removes pane `pane_id` from the tree. A tree that is that single pane
    /// is left alone.
    pub fn remove_pane(&mut self, pane_id: PaneId) -> (r: Result<(), MuxError>)
        requires
            old(self).aligned(),
        ensures
            final(self).aligned(),
            r == (if *old(self) matches SplitTree::Pane(id) && id == pane_id {
                Err(MuxError::CannotRemoveRootPane)
            } else if *old(self) is Split && old(self).leaves().contains(pane_id) {
                Ok(())
            } else {
                Err(MuxError::PaneNotFound(pane_id))
            }),
            r is Ok ==> final(self).leaves() == without(old(self).leaves(), pane_id),
            r is Err ==> final(self).leaves() == old(self).leaves() && old(self).same_shape(*final(self)),
    {
        let mut tree = SplitTree::Pane(pane_id);
        std::mem::swap(self, &mut tree);
        let (rest, outcome) = tree.removed_pane(pane_id);
        *self = rest;
        outcome
    }

    /// The tree with its children normalized first, then child splits along
    /// the same axis inlined, and a split left with one child replaced by
    /// that child.
    #[verifier::loop_isolation(false)]
    fn normalized(self) -> (r: SplitTree<R>)
        ensures
            self.aligned() ==> r.aligned() && r.leaves() == self.leaves() && r.is_normal(),
            self.aligned() ==> normalized_from(self, r),
        decreases self,
    {
        match self {
            SplitTree::Pane(id) => SplitTree::Pane(id),
            SplitTree::Split { axis, mut children, ratios } => {
                let ghost old_children = children@;
                let ghost aligned = self.aligned();
                proof {
                    lemma_all_aligned(old_children);
                }
                let mut i: usize = 0;
                while i < children.len()
                    invariant
                        0 <= i <= children.len(),
                        children.len() == old_children.len(),
                        forall|k: int| i <= k < children.len() ==> children@[k] == old_children[k],
                        aligned ==> forall|k: int| 0 <= k < i ==> #[trigger] children@[k].aligned(),
                        aligned ==> forall|k: int| 0 <= k < i ==> #[trigger] children@[k].leaves() == old_children[k].leaves(),
                        aligned ==> forall|k: int| 0 <= k < i ==> #[trigger] children@[k].is_normal(),
                        aligned ==> forall|k: int| 0 <= k < i ==> normalized_from(old_children[k], #[trigger] children@[k]),
                    decreases children.len() - i,
                {
                    let ghost before = children@;
                    let child = children.remove(i);
                    proof {
                        assert(child == old_children[i as int]);
                    }
                    children.insert(i, child.normalized());
                    proof {
                        if aligned {
                            assert(old_children[i as int].aligned());
                            assert forall|k: int| 0 <= k < i + 1 implies #[trigger] children@[k].aligned() by {
                                if k < i {
                                    assert(children@[k] == before[k]);
                                }
                            }
                            assert forall|k: int| 0 <= k < i + 1 implies #[trigger] children@[k].leaves() == old_children[k].leaves() by {
                                if k < i {
                                    assert(children@[k] == before[k]);
                                }
                            }
                            assert forall|k: int| 0 <= k < i + 1 implies #[trigger] children@[k].is_normal() by {
                                if k < i {
                                    assert(children@[k] == before[k]);
                                }
                            }
                            assert forall|k: int| 0 <= k < i + 1 implies normalized_from(old_children[k], #[trigger] children@[k]) by {
                                if k < i {
                                    assert(children@[k] == before[k]);
                                }
                            }
                        }
                    }
                    i = i + 1;
                }
                let ghost normalized_children = children@;
                proof {
                    if aligned {
                        lemma_leaves_of_pointwise(normalized_children, old_children);
                        lemma_all_aligned(normalized_children);
                        lemma_all_normal(normalized_children);
                    }
                }
                let ghost ratio_view = ratios@;
                let ghost gathered = SplitTree::<R>::Split { axis, children: children, ratios: ratios };
                proof {
                    if aligned {
                        assert(gathered.aligned());
                    }
                }
                let flat = SplitTree::Split { axis, children, ratios }.flattened_same_axis(axis);
                proof {
                    if aligned {
                        assert(flattened_from(gathered, flat, axis));
                        assert(normalized_children.len() == old_children.len());
                    }
                }
                match flat {
                    SplitTree::Split { axis: flat_axis, mut children, ratios } => {
                        proof {
                            lemma_all_aligned(children@);
                            lemma_all_normal_under(children@, axis);
                        }
                        if children.len() == 1 {
                            let only = children.remove(0);
                            proof {
                                if aligned {
                                    assert(only == flat->children@[0]);
                                    assert(flat->children@ =~= seq![only]);
                                    lemma_leaves_of_single(only);
                                    assert(fits_under(flat->children@[0], axis));
                                    assert(normalized_from(self, only));
                                }
                            }
                            only
                        } else {
                            proof {
                                if aligned {
                                    let result = SplitTree::<R>::Split { axis: flat_axis, children: children, ratios: ratios };
                                    assert(result->children@ == flat->children@);
                                    assert(normalized_from(self, result));
                                }
                            }
                            SplitTree::Split { axis: flat_axis, children, ratios }
                        }
                    },
                    SplitTree::Pane(id) => SplitTree::Pane(id),
                }
            },
        }
    }

    /// Moves weight toward the child of the nearest split along `axis` that
    /// holds `target`, from its neighbour on the side that `delta` points
    /// to; a split with no such neighbour passes the resize on to its
    /// children, left to right.
    #[verifier::loop_isolation(false)]
    #[verifier::rlimit(40)]
    fn resized(self, target: PaneId, axis: SplitAxis, delta: R) -> (r: (SplitTree<R>, Result<(), MuxError>))
        requires
            self.aligned(),
        ensures
            r.0.aligned(),
            r.0.leaves() == self.leaves(),
            r.1 is Err ==> r.1 == Err::<(), MuxError>(MuxError::PaneNotFound(target)) && self.same_shape(r.0),
            r.1 is Ok ==> self.leaves().contains(target),
            r.1 is Ok <==> self.resizable(target, axis, delta.forward()),
            r.1 is Ok ==> resized_from(self, r.0, target, axis, delta),
        decreases self,
    {
        match self {
            SplitTree::Pane(id) => (SplitTree::Pane(id), Err(MuxError::PaneNotFound(target))),
            SplitTree::Split { axis: split_axis, mut children, mut ratios } => {
                let ghost old_children = children@;
                let ghost old_ratios = ratios@;
                proof {
                    lemma_all_aligned(old_children);
                    lemma_all_same_shape(old_children, old_children);
                }
                let mut position: Option<usize> = None;
                let mut i: usize = 0;
                let mut searching = true;
                while searching && i < children.len()
                    invariant
                        0 <= i <= children.len(),
                        searching == position is None,
                        position is Some ==> first_holding(children@, target, position->0 as int),
                        position is None ==> forall|k: int| 0 <= k < i ==> !(#[trigger] children@[k].leaves()).contains(target),
                    decreases children.len() - i, (if searching { 1int } else { 0int }),
                {
                    if children[i].contains_pane(target) {
                        position = Some(i);
                        searching = false;
                    } else {
                        i = i + 1;
                    }
                }
                if let Some(index) = position {
                    if split_axis == axis && ratios.len() > 1 {
                        let neighbor = if delta.grows_forward() {
                            if index + 1 < ratios.len() { Some(index + 1) } else { None }
                        } else if index > 0 {
                            Some(index - 1)
                        } else {
                            None
                        };
                        if let Some(neighbor) = neighbor {
                            let applied = R::transfer(&delta, &ratios[neighbor]);
                            let grown = ratios[index].plus(&applied);
                            let shrunk = ratios[neighbor].minus(&applied);
                            ratios.set(index, grown);
                            ratios.set(neighbor, shrunk);
                            let ghost moved_ratios = ratios@;
                            SplitTree::renormalize_ratios(&mut ratios);
                            proof {
                                assert(children@ == old_children);
                                assert(first_holding(old_children, target, index as int));
                                assert(has_neighbour(index as int, old_ratios.len() as int, delta.forward()));
                                let chosen = choose|k: int| first_holding(old_children, target, k);
                                assert(chosen == index) by {
                                    if chosen < index {
                                        assert(!old_children[chosen].leaves().contains(target));
                                    } else if index < chosen {
                                        assert(!old_children[index as int].leaves().contains(target));
                                    }
                                }
                                assert(moved_ratios == old_ratios.update(index as int, old_ratios[index as int].added(&applied)).update(
                                    neighbor as int,
                                    old_ratios[neighbor as int].subtracted(&applied),
                                ));
                                let result = SplitTree::<R>::Split { axis: split_axis, children: children, ratios: ratios };
                                assert(result->children@ == children@);
                                assert(resized_from(self, result, target, axis, delta));
                                assert(self.resizable(target, axis, delta.forward()));
                                lemma_leaves_of_around(old_children, index as int);
                                lemma_concat_contains(leaves_of(old_children.take(index as int)), old_children[index as int].leaves(), target);
                                lemma_concat_contains(leaves_of(old_children.take(index as int)) + old_children[index as int].leaves(),
                                    leaves_of(old_children.skip(index + 1)), target);
                            }
                            return (SplitTree::Split { axis: split_axis, children, ratios }, Ok(()));
                        }
                    }
                }
                proof {
                    assert(children@ == old_children);
                    assert forall|index: int| #[trigger] first_holding(old_children, target, index) implies !(split_axis == axis
                        && ratios.len() > 1 && (if delta.forward() { index + 1 < ratios.len() } else { index > 0 })) by {
                        match position {
                            Some(p) => {
                                let p = p as int;
                                if p < index {
                                    assert(!old_children[p].leaves().contains(target));
                                } else if index < p {
                                    assert(!old_children[index].leaves().contains(target));
                                }
                            },
                            None => {
                                assert(!old_children[index].leaves().contains(target));
                            },
                        }
                    }
                }
                let mut j: usize = 0;
                while j < children.len()
                    invariant
                        0 <= j <= children.len(),
                        children.len() == old_children.len(),
                        ratios@ == old_ratios,
                        forall|k: int| 0 <= k < j ==> !(#[trigger] old_children[k]).resizable(target, axis, delta.forward()),
                        forall|k: int| j <= k < children.len() ==> children@[k] == old_children[k],
                        forall|k: int| 0 <= k < j ==> #[trigger] children@[k].leaves() == old_children[k].leaves(),
                        forall|k: int| 0 <= k < j ==> #[trigger] old_children[k].same_shape(children@[k]),
                        forall|k: int| 0 <= k < j ==> #[trigger] children@[k].aligned(),
                        !(split_axis == axis && old_ratios.len() > 1 && exists|index: int|
                            #[trigger] first_holding(old_children, target, index) && has_neighbour(
                                index,
                                old_ratios.len() as int,
                                delta.forward(),
                            )),
                    decreases children.len() - j,
                {
                    let ghost before = children@;
                    let child = children.remove(j);
                    proof {
                        assert(child == old_children[j as int]);
                    }
                    let (rest, outcome) = child.resized(target, axis, delta);
                    children.insert(j, rest);
                    proof {
                        assert forall|k: int| 0 <= k < j + 1 implies #[trigger] children@[k].leaves() == old_children[k].leaves() by {
                            if k < j {
                                assert(children@[k] == before[k]);
                            }
                        }
                        assert forall|k: int| 0 <= k < j + 1 implies #[trigger] children@[k].aligned() by {
                            if k < j {
                                assert(children@[k] == before[k]);
                            }
                        }
                    }
                    if outcome.is_ok() {
                        proof {
                            assert(old_children[j as int].resizable(target, axis, delta.forward()));
                            assert forall|k: int| 0 <= k < old_children.len() && k != j implies identical(
                                old_children[k],
                                #[trigger] children@[k],
                            ) by {
                                if k < j {
                                    assert(children@[k] == before[k]);
                                } else {
                                    assert(children@[k] == old_children[k]);
                                    lemma_same_shape_refl(old_children[k]);
                                }
                            }
                            lemma_any_resizable(old_children, target, axis, delta.forward());
                            let result = SplitTree::<R>::Split { axis: split_axis, children: children, ratios: ratios };
                            assert(result->children@ == children@);
                            assert(resized_from(old_children[j as int], children@[j as int], target, axis, delta));
                            assert(resized_from(self, result, target, axis, delta));
                            assert forall|k: int| 0 <= k < children@.len() implies #[trigger] children@[k].leaves() == old_children[k].leaves() by {
                                if k > j {
                                    assert(children@[k] == old_children[k]);
                                }
                            }
                            assert forall|k: int| 0 <= k < children@.len() implies #[trigger] children@[k].aligned() by {
                                if k > j {
                                    assert(children@[k] == old_children[k]);
                                }
                            }
                            lemma_leaves_of_pointwise(children@, old_children);
                            lemma_all_aligned(children@);
                            lemma_leaves_of_around(old_children, j as int);
                            lemma_concat_contains(leaves_of(old_children.take(j as int)), old_children[j as int].leaves(), target);
                            lemma_concat_contains(leaves_of(old_children.take(j as int)) + old_children[j as int].leaves(),
                                leaves_of(old_children.skip(j + 1)), target);
                        }
                        return (SplitTree::Split { axis: split_axis, children, ratios }, Ok(()));
                    }
                    proof {
                        assert forall|k: int| 0 <= k < j + 1 implies #[trigger] old_children[k].same_shape(children@[k]) by {
                            if k < j {
                                assert(children@[k] == before[k]);
                            }
                        }
                        assert(!old_children[j as int].resizable(target, axis, delta.forward()));
                    }
                    j = j + 1;
                }
                proof {
                    lemma_leaves_of_pointwise(children@, old_children);
                    lemma_all_aligned(children@);
                    lemma_all_same_shape(old_children, children@);
                    lemma_any_resizable(old_children, target, axis, delta.forward());
                }
                (SplitTree::Split { axis: split_axis, children, ratios }, Err(MuxError::PaneNotFound(target)))
            },
        }
    }

    /// Resizes the pane `target` along `axis` by `delta` (see [`Self::resized`]).
    pub fn resize_pane(&mut self, target: PaneId, axis: SplitAxis, delta: R) -> (r: Result<(), MuxError>)
        requires
            old(self).aligned(),
        ensures
            final(self).aligned(),
            final(self).leaves() == old(self).leaves(),
            r is Err ==> r == Err::<(), MuxError>(MuxError::PaneNotFound(target)) && old(self).same_shape(*final(self)),
            r is Ok ==> old(self).leaves().contains(target),
            r is Ok <==> old(self).resizable(target, axis, delta.forward()),
            r is Ok ==> resized_from(*old(self), *final(self), target, axis, delta),
    {
        let mut tree = SplitTree::Pane(target);
        std::mem::swap(self, &mut tree);
        let (rest, outcome) = tree.resized(target, axis, delta);
        *self = rest;
        outcome
    }

    /// Puts the tree in normal form: splits along the same axis as their
    /// parent are inlined into it, and a split with one child becomes that
    /// child. The panes keep their order.
    pub fn normalize(&mut self)
        ensures
            old(self).aligned() ==> final(self).aligned() && final(self).leaves() == old(self).leaves()
                && final(self).is_normal(),
            old(self).aligned() ==> normalized_from(*old(self), *final(self)),
    {
        let mut tree = SplitTree::Pane(PaneId(0));
        std::mem::swap(self, &mut tree);
        *self = tree.normalized();
    }

    /// Splits pane `target` along `axis` with `new_pane` after it.
    pub fn split_leaf(&mut self, target: PaneId, new_pane: PaneId, axis: SplitAxis) -> (r: Result<(), MuxError>)
        ensures
            r == (if old(self).leaves().contains(target) { Ok(()) } else { Err(MuxError::PaneNotFound(target)) }),
            r is Err ==> final(self).leaves() == old(self).leaves() && old(self).same_shape(*final(self)),
            r is Ok && old(self).aligned() ==> final(self).leaves() == inserted_after(old(self).leaves(), target, new_pane),
            old(self).aligned() ==> final(self).aligned(),
            r is Ok && old(self).aligned() ==> split_from(*old(self), *final(self), target, new_pane, axis),
    {
        let mut tree = SplitTree::Pane(target);
        std::mem::swap(self, &mut tree);
        let (grown, found) = tree.split_leaf_owned(target, new_pane, axis);
        *self = grown;
        if found {
            Ok(())
        } else {
            Err(MuxError::PaneNotFound(target))
        }
    }

    /// A copy of the tree.
    #[verifier::loop_isolation(false)]
    pub fn duplicate(&self) -> (r: SplitTree<R>)
        ensures
            r.leaves() == self.leaves(),
            self.same_shape(r),
            self.aligned() ==> r.aligned(),
        decreases self,
    {
        match self {
            SplitTree::Pane(id) => SplitTree::Pane(*id),
            SplitTree::Split { axis, children, ratios } => {
                let mut copies: Vec<SplitTree<R>> = Vec::new();
                let mut i: usize = 0;
                while i < children.len()
                    invariant
                        0 <= i <= children.len(),
                        copies.len() == i,
                        forall|k: int| 0 <= k < i ==> #[trigger] copies@[k].leaves() == children@[k].leaves(),
                        forall|k: int| 0 <= k < i ==> #[trigger] children@[k].same_shape(copies@[k]),
                        forall|k: int| 0 <= k < i ==> (children@[k].aligned() ==> #[trigger] copies@[k].aligned()),
                    decreases children.len() - i,
                {
                    let copy = children[i].duplicate();
                    copies.push(copy);
                    i = i + 1;
                }
                let mut weights: Vec<R> = Vec::new();
                let mut j: usize = 0;
                while j < ratios.len()
                    invariant
                        0 <= j <= ratios.len(),
                        weights@ == ratios@.take(j as int),
                    decreases ratios.len() - j,
                {
                    weights.push(ratios[j]);
                    j = j + 1;
                    proof {
                        assert(weights@ =~= ratios@.take(j as int));
                    }
                }
                proof {
                    assert(ratios@.take(j as int) =~= ratios@);
                    lemma_leaves_of_pointwise(copies@, children@);
                    lemma_all_same_shape(children@, copies@);
                    lemma_all_aligned(children@);
                    lemma_all_aligned(copies@);
                }
                SplitTree::Split { axis: *axis, children: copies, ratios: weights }
            },
        }
    }

    /// The first pane, left to right, if the tree has one.
    #[verifier::loop_isolation(false)]
    pub fn first_pane(&self) -> (r: Option<PaneId>)
        ensures
            r == (if self.leaves().len() > 0 { Some(self.leaves()[0]) } else { None::<PaneId> }),
        decreases self,
    {
        match self {
            SplitTree::Pane(id) => Some(*id),
            SplitTree::Split { children, .. } => {
                let mut i: usize = 0;
                while i < children.len()
                    invariant
                        0 <= i <= children.len(),
                        leaves_of(children@.take(i as int)).len() == 0,
                    decreases children.len() - i,
                {
                    proof {
                        lemma_leaves_of_around(children@, i as int);
                    }
                    let found = children[i].first_pane();
                    if found.is_some() {
                        return found;
                    }
                    i = i + 1;
                }
                proof {
                    assert(children@.take(children.len() as int) =~= children@);
                }
                None
            },
        }
    }

    /// Whether `pane_id` is one of the tree's panes.
    #[verifier::loop_isolation(false)]
    pub fn contains_pane(&self, pane_id: PaneId) -> (r: bool)
        ensures
            r == self.leaves().contains(pane_id),
        decreases self,
    {
        match self {
            SplitTree::Pane(id) => {
                proof {
                    assert(self.leaves()[0] == *id);
                }
                *id == pane_id
            },
            SplitTree::Split { children, .. } => {
                let mut i: usize = 0;
                while i < children.len()
                    invariant
                        0 <= i <= children.len(),
                        !leaves_of(children@.take(i as int)).contains(pane_id),
                    decreases children.len() - i,
                {
                    proof {
                        lemma_leaves_of_around(children@, i as int);
                    }
                    if children[i].contains_pane(pane_id) {
                        proof {
                            let k = choose|k: int| 0 <= k < children@[i as int].leaves().len()
                                && children@[i as int].leaves()[k] == pane_id;
                            let before = leaves_of(children@.take(i as int));
                            assert(leaves_of(children@)[before.len() + k] == pane_id);
                        }
                        return true;
                    }
                    i = i + 1;
                }
                proof {
                    assert(children@.take(children.len() as int) =~= children@);
                }
                false
            },
        }
    }

    /// The tree with pane `first` renamed to `second` and `second` to
    /// `first`, and whether it met each of the two.
    #[verifier::loop_isolation(false)]
    fn replaced_panes(self, first: PaneId, second: PaneId) -> (r: (SplitTree<R>, bool, bool))
        ensures
            r.0.leaves() == swapped_ids(self.leaves(), first, second),
            self.same_shape(r.0),
            self.aligned() ==> r.0.aligned(),
            r.1 == self.leaves().contains(first),
            r.2 == (first != second && self.leaves().contains(second)),
        decreases self,
    {
        match self {
            SplitTree::Pane(current) => {
                proof {
                    assert(self.leaves() =~= seq![current]);
                    assert(self.leaves()[0] == current);
                }
                let replacement = if current == first {
                    second
                } else if current == second {
                    first
                } else {
                    current
                };
                proof {
                    assert(swapped_ids(self.leaves(), first, second) =~= seq![replacement]);
                }
                (SplitTree::Pane(replacement), current == first, current != first && current == second)
            },
            SplitTree::Split { axis, mut children, ratios } => {
                let ghost old_children = children@;
                let mut found_first = false;
                let mut found_second = false;
                let mut i: usize = 0;
                while i < children.len()
                    invariant
                        0 <= i <= children.len(),
                        children.len() == old_children.len(),
                        forall|k: int| i <= k < children.len() ==> children@[k] == old_children[k],
                        forall|k: int| 0 <= k < i ==> #[trigger] old_children[k].same_shape(children@[k]),
                        forall|k: int| 0 <= k < i ==> (old_children[k].aligned() ==> #[trigger] children@[k].aligned()),
                        leaves_of(children@.take(i as int)) == swapped_ids(leaves_of(old_children.take(i as int)), first, second),
                        found_first == leaves_of(old_children.take(i as int)).contains(first),
                        found_second == (first != second && leaves_of(old_children.take(i as int)).contains(second)),
                    decreases children.len() - i,
                {
                    proof {
                        lemma_leaves_of_around(old_children, i as int);
                    }
                    let ghost before = children@;
                    let child = children.remove(i);
                    let (renamed, saw_first, saw_second) = child.replaced_panes(first, second);
                    children.insert(i, renamed);
                    found_first = found_first || saw_first;
                    found_second = found_second || saw_second;
                    proof {
                        lemma_leaves_of_around(children@, i as int);
                        assert(children@.take(i as int) =~= before.take(i as int));
                        let a = leaves_of(old_children.take(i as int));
                        let b = old_children[i as int].leaves();
                        assert(swapped_ids(a + b, first, second) =~= swapped_ids(a, first, second) + swapped_ids(b, first, second));
                        lemma_concat_contains(a, b, first);
                        lemma_concat_contains(a, b, second);
                    }
                    i = i + 1;
                }
                proof {
                    assert(children@.take(children.len() as int) =~= children@);
                    assert(old_children.take(children.len() as int) =~= old_children);
                }
                let ghost new_children = children@;
                let rebuilt = SplitTree::Split { axis, children, ratios };
                proof {
                    lemma_all_same_shape(old_children, new_children);
                    lemma_all_aligned(old_children);
                    lemma_all_aligned(new_children);
                }
                (rebuilt, found_first, found_second)
            },
        }
    }

    /// Trades the places of two panes. The renaming happens before the
    /// check, so a missing pane is reported after the other one was renamed.
    pub fn swap_panes(&mut self, first: PaneId, second: PaneId) -> (r: Result<(), MuxError>)
        ensures
            final(self).leaves() == swapped_ids(old(self).leaves(), first, second),
            old(self).same_shape(*final(self)),
            old(self).aligned() ==> final(self).aligned(),
            r == (if !old(self).leaves().contains(first) {
                Err(MuxError::PaneNotFound(first))
            } else if first == second || !old(self).leaves().contains(second) {
                Err(MuxError::PaneNotFound(second))
            } else {
                Ok(())
            }),
    {
        let mut tree = SplitTree::Pane(first);
        std::mem::swap(self, &mut tree);
        let (renamed, found_first, found_second) = tree.replaced_panes(first, second);
        *self = renamed;
        if found_first && found_second {
            Ok(())
        } else if !found_first {
            Err(MuxError::PaneNotFound(first))
        } else {
            Err(MuxError::PaneNotFound(second))
        }
    }

    /// Appends the tree's panes, left to right, to `output`.
    #[verifier::loop_isolation(false)]
    pub fn collect_panes(&self, output: &mut Vec<PaneId>)
        ensures
            final(output)@ == old(output)@ + self.leaves(),
        decreases self,
    {
        match self {
            SplitTree::Pane(pane_id) => {
                output.push(*pane_id);
            },
            SplitTree::Split { children, .. } => {
                let ghost start = output@;
                let mut i: usize = 0;
                while i < children.len()
                    invariant
                        0 <= i <= children.len(),
                        output@ == start + leaves_of(children@.take(i as int)),
                    decreases children.len() - i,
                {
                    proof {
                        lemma_leaves_of_around(children@, i as int);
                    }
                    children[i].collect_panes(output);
                    i = i + 1;
                }
                proof {
                    assert(children@.take(children.len() as int) =~= children@);
                }
            },
        }
    }
}

/// Closing the pane that a split added gives back the panes as they were,
/// in the same order.
pub proof fn lemma_close_undoes_split(ids: Seq<PaneId>, target: PaneId, new_pane: PaneId)
    requires
        !ids.contains(new_pane),
    ensures
        without(inserted_after(ids, target, new_pane), new_pane) == ids,
    decreases ids.len(),
{
    if ids.len() > 0 {
        assert(!ids.skip(1).contains(new_pane)) by {
            if ids.skip(1).contains(new_pane) {
                let k = choose|k: int| 0 <= k < ids.skip(1).len() && ids.skip(1)[k] == new_pane;
                assert(ids[k + 1] == new_pane);
            }
        }
        assert(ids[0] != new_pane);
        lemma_without_single(ids[0], new_pane);
        if ids[0] == target {
            lemma_without_absent(ids.skip(1), new_pane);
            lemma_without_single(new_pane, new_pane);
            lemma_without_concat(seq![target, new_pane], ids.skip(1), new_pane);
            lemma_without_concat(seq![target], seq![new_pane], new_pane);
            assert(seq![target, new_pane] =~= seq![target] + seq![new_pane]);
            assert(seq![target] + Seq::<PaneId>::empty() =~= seq![target]);
            assert(seq![target] + ids.skip(1) =~= ids);
        } else {
            lemma_close_undoes_split(ids.skip(1), target, new_pane);
            lemma_without_concat(seq![ids[0]], inserted_after(ids.skip(1), target, new_pane), new_pane);
            assert(seq![ids[0]] + ids.skip(1) =~= ids);
        }
    }
}

/// Swapping the same two panes twice puts every pane back.
pub proof fn lemma_swap_twice(ids: Seq<PaneId>, first: PaneId, second: PaneId)
    ensures
        swapped_ids(swapped_ids(ids, first, second), first, second) == ids,
{
    assert(swapped_ids(swapped_ids(ids, first, second), first, second) =~= ids);
}

/// A split inserts exactly one pane.
pub proof fn lemma_split_adds_one_pane(ids: Seq<PaneId>, target: PaneId, new_pane: PaneId)
    requires
        ids.contains(target),
    ensures
        inserted_after(ids, target, new_pane).len() == ids.len() + 1,
        inserted_after(ids, target, new_pane).contains(new_pane),
        inserted_after(ids, target, new_pane).contains(target),
    decreases ids.len(),
{
    if ids[0] == target {
        let r = seq![target, new_pane] + ids.skip(1);
        assert(r[1] == new_pane);
        assert(r[0] == target);
    } else {
        assert(ids.skip(1).contains(target)) by {
            let k = choose|k: int| 0 <= k < ids.len() && ids[k] == target;
            assert(ids.skip(1)[k - 1] == target);
        }
        lemma_split_adds_one_pane(ids.skip(1), target, new_pane);
        let rest = inserted_after(ids.skip(1), target, new_pane);
        let r = seq![ids[0]] + rest;
        let a = choose|k: int| 0 <= k < rest.len() && rest[k] == new_pane;
        let b = choose|k: int| 0 <= k < rest.len() && rest[k] == target;
        assert(r[a + 1] == new_pane);
        assert(r[b + 1] == target);
    }
}

} // verus!
