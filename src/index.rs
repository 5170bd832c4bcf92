//! A point index over a bounded region, with non-destructive range queries
//! and atomic query-and-remove ("pop").
//!
//! The index keeps its items in one sequence, in the order they were
//! inserted; that order is the order of every query and pop result, which
//! makes a tick's outcome a function of the state it starts from. Queries
//! scan the sequence, which is linear in the number of items.
//!
//! The index does not subdivide the region into quadrants. The `quadtree`
//! crate places its items by `glam` single-precision float points, which
//! this library, whose positions are fixed-point integers, cannot hand it;
//! and a tree's traversal order would no longer be the insertion order that
//! the contracts above are stated over.
use vstd::prelude::*;
use crate::entities::{Food, QTIndexMassItem, WeightedPoint, is_prey};
use crate::geometry::{Pos, Shape};

verus! {

/// An item that the index can hold: it stands at a point and has a mass.
pub trait Placed: Sized {
    spec fn at(&self) -> Pos;

    spec fn weight(&self) -> u64;

    fn pos(&self) -> (r: Pos)
        ensures
            r == self.at(),
    ;

    fn mass(&self) -> (r: u64)
        ensures
            r == self.weight(),
    ;
}

impl Placed for Food {
    open spec fn at(&self) -> Pos {
        self.pos
    }

    open spec fn weight(&self) -> u64 {
        self.mass
    }

    fn pos(&self) -> (r: Pos) {
        self.pos
    }

    fn mass(&self) -> (r: u64) {
        self.mass
    }
}

impl Placed for QTIndexMassItem {
    open spec fn at(&self) -> Pos {
        self.pos
    }

    open spec fn weight(&self) -> u64 {
        self.mass
    }

    fn pos(&self) -> (r: Pos) {
        self.pos
    }

    fn mass(&self) -> (r: u64) {
        self.mass
    }
}

/// The items of `s` that lie in `shape`, in order.
pub open spec fn inside<T: Placed>(s: Seq<T>, shape: Shape) -> Seq<T>
    decreases s.len(),
{
    if s.len() == 0 {
        Seq::empty()
    } else if shape.holds(s.last().at()) {
        inside(s.drop_last(), shape).push(s.last())
    } else {
        inside(s.drop_last(), shape)
    }
}

/// The items of `s` that lie outside `shape`, in order.
pub open spec fn outside<T: Placed>(s: Seq<T>, shape: Shape) -> Seq<T>
    decreases s.len(),
{
    if s.len() == 0 {
        Seq::empty()
    } else if shape.holds(s.last().at()) {
        outside(s.drop_last(), shape)
    } else {
        outside(s.drop_last(), shape).push(s.last())
    }
}

/// Position and mass of an item.
pub open spec fn point_of<T: Placed>(t: T) -> WeightedPoint {
    WeightedPoint { pos: t.at(), mass: t.weight() }
}

/// Position and mass of each item of `s` that lies in `shape`, in order.
pub open spec fn seen<T: Placed>(s: Seq<T>, shape: Shape) -> Seq<WeightedPoint>
    decreases s.len(),
{
    if s.len() == 0 {
        Seq::empty()
    } else if shape.holds(s.last().at()) {
        seen(s.drop_last(), shape).push(point_of(s.last()))
    } else {
        seen(s.drop_last(), shape)
    }
}

/// Every item of `s` stands at a point of the arena.
pub open spec fn all_placed<T: Placed>(s: Seq<T>) -> bool {
    forall|i: int| 0 <= i < s.len() ==> (#[trigger] s[i]).at().wf()
}

pub proof fn lemma_inside_outside_placed<T: Placed>(s: Seq<T>, shape: Shape)
    requires
        all_placed(s),
    ensures
        all_placed(inside(s, shape)),
        all_placed(outside(s, shape)),
        inside(s, shape).len() + outside(s, shape).len() == s.len(),
        forall|i: int| 0 <= i < inside(s, shape).len() ==> shape.holds(#[trigger] inside(s, shape)[i].at()),
        forall|i: int| 0 <= i < outside(s, shape).len() ==> !shape.holds(#[trigger] outside(s, shape)[i].at()),
    decreases s.len(),
{
    if s.len() > 0 {
        assert(all_placed(s.drop_last()));
        lemma_inside_outside_placed(s.drop_last(), shape);
    }
}

pub proof fn lemma_seen_placed<T: Placed>(s: Seq<T>, shape: Shape)
    requires
        all_placed(s),
    ensures
        crate::entities::points_wf(seen(s, shape)),
        seen(s, shape).len() <= s.len(),
    decreases s.len(),
{
    if s.len() > 0 {
        assert(all_placed(s.drop_last()));
        lemma_seen_placed(s.drop_last(), shape);
    }
}

proof fn lemma_push_contains<A>(p: Seq<A>, l: A, x: A)
    ensures
        p.push(l).contains(x) <==> (x == l || p.contains(x)),
{
    if p.push(l).contains(x) {
        let t = choose|t: int| 0 <= t < p.push(l).len() && p.push(l)[t] == x;
        if t < p.len() {
            assert(p[t] == x);
        }
    }
    if p.contains(x) {
        let t = choose|t: int| 0 <= t < p.len() && p[t] == x;
        assert(p.push(l)[t] == x);
    }
    if x == l {
        assert(p.push(l)[p.len() as int] == x);
    }
}

/// A pop loses nothing and keeps nothing it should not: every item inside
/// the shape is returned, every item outside it stays, and the two parts
/// hold exactly as many items as before.
pub proof fn lemma_pop_partitions<T: Placed>(s: Seq<T>, shape: Shape)
    ensures
        inside(s, shape).len() + outside(s, shape).len() == s.len(),
        forall|j: int| 0 <= j < s.len() && shape.holds(s[j].at())
            ==> inside(s, shape).contains(#[trigger] s[j]),
        forall|j: int| 0 <= j < s.len() && !shape.holds(s[j].at())
            ==> outside(s, shape).contains(#[trigger] s[j]),
        forall|x: T| #[trigger] outside(s, shape).contains(x) ==> s.contains(x) && !shape.holds(x.at()),
        forall|x: T| #[trigger] inside(s, shape).contains(x) ==> s.contains(x) && shape.holds(x.at()),
    decreases s.len(),
{
    if s.len() > 0 {
        let d = s.drop_last();
        let l = s.last();
        lemma_pop_partitions(d, shape);
        let p = inside(d, shape);
        let q = outside(d, shape);
        assert(s == d.push(l));
        assert forall|j: int| 0 <= j < s.len() && shape.holds(s[j].at())
            implies inside(s, shape).contains(#[trigger] s[j]) by {
            lemma_push_contains(p, l, s[j]);
            if j < d.len() {
                assert(s[j] == d[j]);
            }
        }
        assert forall|j: int| 0 <= j < s.len() && !shape.holds(s[j].at())
            implies outside(s, shape).contains(#[trigger] s[j]) by {
            lemma_push_contains(q, l, s[j]);
            if j < d.len() {
                assert(s[j] == d[j]);
            }
        }
        assert forall|x: T| #[trigger] outside(s, shape).contains(x)
            implies s.contains(x) && !shape.holds(x.at()) by {
            lemma_push_contains(q, l, x);
            lemma_push_contains(d, l, x);
        }
        assert forall|x: T| #[trigger] inside(s, shape).contains(x)
            implies s.contains(x) && shape.holds(x.at()) by {
            lemma_push_contains(p, l, x);
            lemma_push_contains(d, l, x);
        }
    }
}

/// A set of placed items in a bounded region.
pub struct SpatialIndex<T> {
    items: Vec<T>,
}

impl<T: Placed> View for SpatialIndex<T> {
    type V = Seq<T>;

    closed spec fn view(&self) -> Seq<T> {
        self.items@
    }
}

impl<T: Placed> SpatialIndex<T> {
    pub open spec fn wf(&self) -> bool {
        all_placed(self@)
    }

    /// An empty index.
    pub fn new() -> (r: Self)
        ensures
            r@ == Seq::<T>::empty(),
            r.wf(),
    {
        SpatialIndex { items: Vec::new() }
    }

    pub fn len(&self) -> (r: usize)
        ensures
            r == self@.len(),
    {
        self.items.len()
    }

    /// Adds one item.
    pub fn insert(&mut self, item: T)
        requires
            old(self).wf(),
            item.at().wf(),
        ensures
            final(self)@ == old(self)@.push(item),
            final(self).wf(),
    {
        self.items.push(item);
    }

    /// Adds every item of `items`, in order.
    pub fn insert_many(&mut self, items: Vec<T>)
        requires
            old(self).wf(),
            all_placed(items@),
        ensures
            final(self)@ == old(self)@ + items@,
            final(self).wf(),
    {
        let mut items = items;
        self.items.append(&mut items);
    }

    /// The items, in the order they were inserted.
    pub fn items(&self) -> (r: &Vec<T>)
        ensures
            r@ == self@,
    {
        &self.items
    }

    /// Position and mass of every item inside `shape`; the index is left as
    /// it is.
    pub fn query(&self, shape: &Shape) -> (r: Vec<WeightedPoint>)
        requires
            self.wf(),
            shape.wf(),
        ensures
            r@ == seen(self@, *shape),
    {
        let mut r: Vec<WeightedPoint> = Vec::new();
        let mut i: usize = 0;
        while i < self.items.len()
            invariant
                i <= self.items@.len(),
                all_placed(self.items@),
                shape.wf(),
                r@ == seen(self.items@.subrange(0, i as int), *shape),
            decreases self.items@.len() - i,
        {
            let it = &self.items[i];
            assert(self.items@.subrange(0, i + 1).drop_last() == self.items@.subrange(0, i as int));
            let p = it.pos();
            assert(p.wf());
            if shape.contains(p) {
                r.push(WeightedPoint { pos: p, mass: it.mass() });
            }
            i = i + 1;
        }
        assert(self.items@.subrange(0, self.items@.len() as int) == self.items@);
        r
    }

    /// Removes every item inside `shape` and returns them; no item is ever
    /// returned by two calls.
    pub fn pop(&mut self, shape: &Shape) -> (r: Vec<T>)
        requires
            old(self).wf(),
            shape.wf(),
        ensures
            r@ == inside(old(self)@, *shape),
            final(self)@ == outside(old(self)@, *shape),
            final(self).wf(),
    {
        let ghost orig = self.items@;
        let n = self.items.len();
        let mut rev: Vec<T> = Vec::new();
        while self.items.len() > 0
            invariant
                self.items@.len() + rev@.len() == n,
                n == orig.len(),
                self.items@ == orig.subrange(0, self.items@.len() as int),
                forall|j: int| 0 <= j < rev@.len() ==> #[trigger] rev@[j] == orig[n - 1 - j],
            decreases self.items@.len(),
        {
            let x = self.items.pop().unwrap();
            rev.push(x);
        }
        let mut kept: Vec<T> = Vec::new();
        let mut taken: Vec<T> = Vec::new();
        let mut k: usize = 0;
        while rev.len() > 0
            invariant
                n == orig.len(),
                k + rev@.len() == n,
                all_placed(orig),
                shape.wf(),
                forall|j: int| 0 <= j < rev@.len() ==> #[trigger] rev@[j] == orig[n - 1 - j],
                kept@ == outside(orig.subrange(0, k as int), *shape),
                taken@ == inside(orig.subrange(0, k as int), *shape),
            decreases rev@.len(),
        {
            let x = rev.pop().unwrap();
            assert(x == orig[k as int]);
            assert(orig.subrange(0, k + 1).drop_last() == orig.subrange(0, k as int));
            let p = x.pos();
            if shape.contains(p) {
                taken.push(x);
            } else {
                kept.push(x);
            }
            k = k + 1;
        }
        assert(orig.subrange(0, n as int) == orig);
        proof {
            lemma_inside_outside_placed(orig, *shape);
        }
        self.items = kept;
        taken
    }
}


/// Position and mass of each entry of `s` inside `shape`, but for the entry
/// of organism `me`.
pub open spec fn seen_others(s: Seq<QTIndexMassItem>, shape: Shape, me: usize) -> Seq<
    WeightedPoint,
>
    decreases s.len(),
{
    if s.len() == 0 {
        Seq::empty()
    } else if shape.holds(s.last().pos) && s.last().ix != me {
        seen_others(s.drop_last(), shape, me).push(point_of(s.last()))
    } else {
        seen_others(s.drop_last(), shape, me)
    }
}

/// Organism `me`, of the given mass, may eat the entry `e` inside `shape`:
/// `e` is another organism, and `mass > e.mass + eat_diff` holds strictly.
pub open spec fn edible(e: QTIndexMassItem, shape: Shape, me: usize, mass: u64, eat_diff: u64) -> bool {
    shape.holds(e.pos) && e.ix != me && is_prey(mass, e.mass, eat_diff)
}

/// The entries of `s` that `me` may eat, in order.
pub open spec fn prey_in(s: Seq<QTIndexMassItem>, shape: Shape, me: usize, mass: u64, eat_diff: u64) -> Seq<QTIndexMassItem>
    decreases s.len(),
{
    if s.len() == 0 {
        Seq::empty()
    } else if edible(s.last(), shape, me, mass, eat_diff) {
        prey_in(s.drop_last(), shape, me, mass, eat_diff).push(s.last())
    } else {
        prey_in(s.drop_last(), shape, me, mass, eat_diff)
    }
}

/// The entries of `s` that `me` may not eat, in order.
pub open spec fn spared(s: Seq<QTIndexMassItem>, shape: Shape, me: usize, mass: u64, eat_diff: u64) -> Seq<QTIndexMassItem>
    decreases s.len(),
{
    if s.len() == 0 {
        Seq::empty()
    } else if edible(s.last(), shape, me, mass, eat_diff) {
        spared(s.drop_last(), shape, me, mass, eat_diff)
    } else {
        spared(s.drop_last(), shape, me, mass, eat_diff).push(s.last())
    }
}

pub proof fn lemma_seen_others_placed(s: Seq<QTIndexMassItem>, shape: Shape, me: usize)
    requires
        all_placed(s),
    ensures
        crate::entities::points_wf(seen_others(s, shape, me)),
        seen_others(s, shape, me).len() <= s.len(),
    decreases s.len(),
{
    if s.len() > 0 {
        assert(all_placed(s.drop_last()));
        lemma_seen_others_placed(s.drop_last(), shape, me);
    }
}

pub proof fn lemma_spared_len(s: Seq<QTIndexMassItem>, shape: Shape, me: usize, mass: u64, eat_diff: u64)
    ensures
        spared(s, shape, me, mass, eat_diff).len() <= s.len(),
    decreases s.len(),
{
    if s.len() > 0 {
        lemma_spared_len(s.drop_last(), shape, me, mass, eat_diff);
    }
}

/// Eating is strictly gated: of the entries of `s`, organism `me` of the
/// given mass eats exactly those inside `shape`, other than its own, that
/// are lighter than `mass - eat_diff`; the others stay. An entry exactly
/// `eat_diff` lighter is not eaten.
pub proof fn lemma_eat_gate(s: Seq<QTIndexMassItem>, shape: Shape, me: usize, mass: u64, eat_diff: u64)
    ensures
        forall|x: QTIndexMassItem| #[trigger] prey_in(s, shape, me, mass, eat_diff).contains(x)
            ==> s.contains(x) && edible(x, shape, me, mass, eat_diff),
        forall|x: QTIndexMassItem| #[trigger] spared(s, shape, me, mass, eat_diff).contains(x)
            ==> s.contains(x) && !edible(x, shape, me, mass, eat_diff),
        forall|j: int| 0 <= j < s.len() && edible(s[j], shape, me, mass, eat_diff)
            ==> prey_in(s, shape, me, mass, eat_diff).contains(#[trigger] s[j]),
        forall|j: int| 0 <= j < s.len() && !edible(s[j], shape, me, mass, eat_diff)
            ==> spared(s, shape, me, mass, eat_diff).contains(#[trigger] s[j]),
        forall|x: QTIndexMassItem| mass as int == x.mass as int + eat_diff as int
            ==> !(#[trigger] edible(x, shape, me, mass, eat_diff)),
        forall|x: QTIndexMassItem| x.ix == me ==> !(#[trigger] edible(x, shape, me, mass, eat_diff)),
    decreases s.len(),
{
    if s.len() > 0 {
        let d = s.drop_last();
        let l = s.last();
        lemma_eat_gate(d, shape, me, mass, eat_diff);
        let p = prey_in(d, shape, me, mass, eat_diff);
        let q = spared(d, shape, me, mass, eat_diff);
        assert(s == d.push(l));
        assert forall|x: QTIndexMassItem| #[trigger] prey_in(s, shape, me, mass, eat_diff).contains(x)
            implies s.contains(x) && edible(x, shape, me, mass, eat_diff) by {
            lemma_push_contains(p, l, x);
            lemma_push_contains(d, l, x);
        }
        assert forall|x: QTIndexMassItem| #[trigger] spared(s, shape, me, mass, eat_diff).contains(x)
            implies s.contains(x) && !edible(x, shape, me, mass, eat_diff) by {
            lemma_push_contains(q, l, x);
            lemma_push_contains(d, l, x);
        }
        assert forall|j: int| 0 <= j < s.len() && edible(s[j], shape, me, mass, eat_diff)
            implies prey_in(s, shape, me, mass, eat_diff).contains(#[trigger] s[j]) by {
            lemma_push_contains(p, l, s[j]);
            if j < d.len() {
                assert(s[j] == d[j]);
            }
        }
        assert forall|j: int| 0 <= j < s.len() && !edible(s[j], shape, me, mass, eat_diff)
            implies spared(s, shape, me, mass, eat_diff).contains(#[trigger] s[j]) by {
            lemma_push_contains(q, l, s[j]);
            if j < d.len() {
                assert(s[j] == d[j]);
            }
        }
    }
}

impl SpatialIndex<QTIndexMassItem> {
    /// Position and mass of every organism inside `shape` but `me`.
    pub fn query_others(&self, shape: &Shape, me: usize) -> (r: Vec<WeightedPoint>)
        requires
            self.wf(),
            shape.wf(),
        ensures
            r@ == seen_others(self@, *shape, me),
    {
        let mut r: Vec<WeightedPoint> = Vec::new();
        let mut i: usize = 0;
        while i < self.items.len()
            invariant
                i <= self.items@.len(),
                all_placed(self.items@),
                shape.wf(),
                r@ == seen_others(self.items@.subrange(0, i as int), *shape, me),
            decreases self.items@.len() - i,
        {
            let it = self.items[i];
            assert(self.items@.subrange(0, i + 1).drop_last() == self.items@.subrange(0, i as int));
            assert(it.pos.wf());
            if shape.contains(it.pos) && it.ix != me {
                r.push(WeightedPoint { pos: it.pos, mass: it.mass });
            }
            i = i + 1;
        }
        assert(self.items@.subrange(0, self.items@.len() as int) == self.items@);
        r
    }

    /// Removes and returns every organism inside `shape` that `me`, of the
    /// given mass, may eat: not `me` itself, and lighter than
    /// `mass - eat_diff`.
    pub fn pop_prey(&mut self, shape: &Shape, me: usize, mass: u64, eat_diff: u64) -> (r: Vec<QTIndexMassItem>)
        requires
            old(self).wf(),
            shape.wf(),
        ensures
            r@ == prey_in(old(self)@, *shape, me, mass, eat_diff),
            final(self)@ == spared(old(self)@, *shape, me, mass, eat_diff),
            final(self).wf(),
    {
        let mut kept: Vec<QTIndexMassItem> = Vec::new();
        let mut taken: Vec<QTIndexMassItem> = Vec::new();
        let mut i: usize = 0;
        while i < self.items.len()
            invariant
                i <= self.items@.len(),
                all_placed(self.items@),
                shape.wf(),
                taken@ == prey_in(self.items@.subrange(0, i as int), *shape, me, mass, eat_diff),
                kept@ == spared(self.items@.subrange(0, i as int), *shape, me, mass, eat_diff),
                all_placed(kept@),
            decreases self.items@.len() - i,
        {
            let it = self.items[i];
            assert(self.items@.subrange(0, i + 1).drop_last() == self.items@.subrange(0, i as int));
            assert(it.pos.wf());
            if shape.contains(it.pos) && it.ix != me && mass as u128 > it.mass as u128
                + eat_diff as u128 {
                taken.push(it);
            } else {
                kept.push(it);
            }
            i = i + 1;
        }
        assert(self.items@.subrange(0, self.items@.len() as int) == self.items@);
        self.items = kept;
        taken
    }
}

} // verus!
