//! The simulation engine: one tick spawns food, orders the organisms by mass,
//! indexes them, lets each perceive, move and eat in turn, and removes the
//! eaten.
use vstd::prelude::*;
use crate::config::BiomeConfig;
use crate::entities::{Food, Frame, NPC, NPCKind, QTIndexMassItem, moved};
use crate::util::{random_cell, random_heading, is_hex_color};
use crate::geometry::{Pos, Shape, UNIT, is_direction};
use crate::index::{
    Placed, SpatialIndex, all_placed, inside, outside, seen, seen_others, prey_in, spared,
    lemma_seen_placed, lemma_seen_others_placed, lemma_eat_gate,
    edible,
};
use crate::invariants::{MAX_MASS, MAX_POPULATION};

verus! {

/// `a + b`, saturating at `MAX_MASS`.
pub open spec fn add_mass(a: int, b: int) -> u64 {
    if a + b > MAX_MASS {
        MAX_MASS
    } else {
        (a + b) as u64
    }
}

/// `m` plus the mass of every item of `s`, saturating at `MAX_MASS`.
pub open spec fn gain<T: Placed>(m: u64, s: Seq<T>) -> u64
    decreases s.len(),
{
    if s.len() == 0 {
        m
    } else {
        add_mass(gain(m, s.drop_last()) as int, s.last().weight() as int)
    }
}

/// Where an organism of mass `m` goes in a list ordered by mass, heaviest
/// first: after every organism at least as heavy.
pub open spec fn slot(s: Seq<NPC>, m: u64) -> nat
    decreases s.len(),
{
    if s.len() == 0 {
        0
    } else if s.last().mass >= m {
        s.len()
    } else {
        slot(s.drop_last(), m)
    }
}

/// `s` ordered by mass, heaviest first; organisms of equal mass keep their
/// order.
pub open spec fn by_mass(s: Seq<NPC>) -> Seq<NPC>
    decreases s.len(),
{
    if s.len() == 0 {
        Seq::empty()
    } else {
        let t = by_mass(s.drop_last());
        t.insert(slot(t, s.last().mass) as int, s.last())
    }
}

/// Heaviest first.
pub open spec fn heaviest_first(s: Seq<NPC>) -> bool {
    forall|a: int, b: int| 0 <= a < b < s.len() ==> s[a].mass >= s[b].mass
}

proof fn lemma_slot_splits(t: Seq<NPC>, m: u64)
    requires
        heaviest_first(t),
    ensures
        slot(t, m) <= t.len(),
        forall|k: int| 0 <= k < slot(t, m) ==> (#[trigger] t[k]).mass >= m,
        forall|k: int| slot(t, m) <= k < t.len() ==> (#[trigger] t[k]).mass < m,
    decreases t.len(),
{
    if t.len() > 0 {
        let d = t.drop_last();
        assert(heaviest_first(d));
        lemma_slot_splits(d, m);
        if t.last().mass >= m {
            assert forall|k: int| 0 <= k < t.len() implies (#[trigger] t[k]).mass >= m by {
                if k < t.len() - 1 {
                    assert(t[k].mass >= t[t.len() - 1].mass);
                }
            }
        } else {
            assert forall|k: int| 0 <= k < slot(t, m) implies (#[trigger] t[k]).mass >= m by {
                assert(t[k] == d[k]);
            }
            assert forall|k: int| slot(t, m) <= k < t.len() implies (#[trigger] t[k]).mass < m by {
                if k < t.len() - 1 {
                    assert(t[k] == d[k]);
                }
            }
        }
    }
}

/// Ordering by mass yields the same organisms, heaviest first.
pub proof fn lemma_by_mass_sorted(s: Seq<NPC>)
    ensures
        heaviest_first(by_mass(s)),
        by_mass(s).to_multiset() =~= s.to_multiset(),
        by_mass(s).len() == s.len(),
    decreases s.len(),
{
    if s.len() > 0 {
        let d = s.drop_last();
        let x = s.last();
        lemma_by_mass_sorted(d);
        let t = by_mass(d);
        lemma_slot_splits(t, x.mass);
        let k = slot(t, x.mass) as int;
        let r = t.insert(k, x);
        assert forall|a: int, b: int| 0 <= a < b < r.len() implies r[a].mass >= r[b].mass by {
            if b < k {
                assert(r[a] == t[a] && r[b] == t[b]);
            } else if b == k {
                assert(r[a] == t[a]);
            } else if a < k {
                assert(r[a] == t[a] && r[b] == t[b - 1]);
            } else if a == k {
                assert(r[b] == t[b - 1]);
            } else {
                assert(r[a] == t[a - 1] && r[b] == t[b - 1]);
            }
        }
        vstd::seq_lib::to_multiset_insert(t, k, x);
        d.to_multiset_ensures();
        assert(s == d.push(x));
        assert(by_mass(s) == r);
        assert(r.to_multiset() == t.to_multiset().insert(x));
        assert(s.to_multiset() =~= d.to_multiset().insert(x));
    } else {
        assert(s =~= Seq::<NPC>::empty());
    }
}

/// The organism index of a tick: each organism's position, mass and place in
/// the ordered list.
pub open spec fn entries(s: Seq<NPC>) -> Seq<QTIndexMassItem> {
    Seq::new(s.len(), |i: int| QTIndexMassItem { pos: s[i].pos, mass: s[i].mass, ix: i as usize })
}

/// `e` with the place of each entry of `s` marked.
pub open spec fn mark(e: Seq<bool>, s: Seq<QTIndexMassItem>) -> Seq<bool>
    decreases s.len(),
{
    if s.len() == 0 {
        e
    } else {
        mark(e, s.drop_last()).update(s.last().ix as int, true)
    }
}

/// The organisms of `s` whose place in `e` is not marked, in order.
pub open spec fn survivors(s: Seq<NPC>, e: Seq<bool>) -> Seq<NPC>
    decreases s.len(),
{
    if s.len() == 0 {
        Seq::empty()
    } else if e[s.len() - 1] {
        survivors(s.drop_last(), e)
    } else {
        survivors(s.drop_last(), e).push(s.last())
    }
}

/// The disc of radius `sqrt(mass)` around `center`.
pub open spec fn body_disc(center: Pos, mass: u64) -> Shape {
    Shape::Circle { center, radius_sq: (mass * UNIT * UNIT) as i64 }
}

/// The disc of radius `r` around `center`.
pub open spec fn disc(center: Pos, r: i64) -> Shape {
    Shape::Circle { center, radius_sq: (r * r) as i64 }
}

/// What one tick works on: the ordered organisms, the food, the organism
/// index and which organisms have been eaten.
pub struct TickState {
    pub npcs: Seq<NPC>,
    pub food: Seq<Food>,
    pub orgs: Seq<QTIndexMassItem>,
    pub eaten: Seq<bool>,
}

/// Organism `i` after it perceived and moved.
pub open spec fn moved_in(st: TickState, i: int, cfg: BiomeConfig) -> NPC {
    let npc = st.npcs[i];
    let food_seen = seen(st.food, disc(npc.pos, cfg.food_perception_radius));
    let npcs_seen = seen_others(st.orgs, disc(npc.pos, cfg.cell_perception_radius), i as usize);
    moved(npc, npcs_seen, food_seen, cfg)
}

/// Where organism `i` eats food: the disc of its radius after it moved.
pub open spec fn food_area_of(st: TickState, i: int, cfg: BiomeConfig) -> Shape {
    body_disc(moved_in(st, i, cfg).pos, moved_in(st, i, cfg).mass)
}

/// Mass of organism `i` once it has eaten the food under it.
pub open spec fn fed_mass(st: TickState, i: int, cfg: BiomeConfig) -> u64 {
    gain(moved_in(st, i, cfg).mass, inside(st.food, food_area_of(st, i, cfg)))
}

/// Where organism `i` hunts: the disc of its new radius, or the one it ate
/// food in.
pub open spec fn hunt_area(st: TickState, i: int, cfg: BiomeConfig) -> Shape {
    if cfg.grow_before_hunt {
        body_disc(moved_in(st, i, cfg).pos, fed_mass(st, i, cfg))
    } else {
        food_area_of(st, i, cfg)
    }
}

/// The organism entries that organism `i` eats.
pub open spec fn taken(st: TickState, i: int, cfg: BiomeConfig) -> Seq<QTIndexMassItem> {
    prey_in(st.orgs, hunt_area(st, i, cfg), i as usize, fed_mass(st, i, cfg), cfg.eat_diff)
}

/// Organism `i` acts, unless it was eaten: it perceives, moves, eats the food
/// under it, then eats the organisms under it that it may eat.
pub open spec fn act(st: TickState, i: int, cfg: BiomeConfig) -> TickState {
    if st.eaten[i] {
        st
    } else {
        let m = moved_in(st, i, cfg);
        TickState {
            npcs: st.npcs.update(i, NPC { mass: gain(fed_mass(st, i, cfg), taken(st, i, cfg)), ..m }),
            food: outside(st.food, food_area_of(st, i, cfg)),
            orgs: spared(st.orgs, hunt_area(st, i, cfg), i as usize, fed_mass(st, i, cfg), cfg.eat_diff),
            eaten: mark(st.eaten, taken(st, i, cfg)),
        }
    }
}

/// The first `k` organisms act in turn.
pub open spec fn run(st: TickState, k: nat, cfg: BiomeConfig) -> TickState
    decreases k,
{
    if k == 0 {
        st
    } else {
        act(run(st, (k - 1) as nat, cfg), k - 1, cfg)
    }
}

/// The state of a simulation.
pub struct BiomeState {
    pub config: BiomeConfig,
    pub npcs: Seq<NPC>,
    pub food: Seq<Food>,
    pub elapsed: u64,
}

/// A food pellet is due on ticks that are multiples of the spawn interval.
pub open spec fn spawn_due(elapsed: u64, cfg: BiomeConfig) -> bool {
    elapsed % (cfg.fps / cfg.food_spawn_rate) == 0
}

/// The state in which a tick's organisms start to act.
pub open spec fn start_of_tick(s: BiomeState, spawn: Option<Food>) -> TickState {
    let food = if spawn_due(s.elapsed, s.config) && spawn is Some {
        s.food.push(spawn->0)
    } else {
        s.food
    };
    let npcs = by_mass(s.npcs);
    TickState { npcs, food, orgs: entries(npcs), eaten: Seq::new(npcs.len(), |i: int| false) }
}

/// The state after the organisms of a tick have acted.
pub open spec fn resolved(s: BiomeState, spawn: Option<Food>) -> TickState {
    let st = start_of_tick(s, spawn);
    run(st, st.npcs.len(), s.config)
}

/// One tick, with `spawn` as the food pellet spawned if one is due. The
/// tick counter stops at `u64::MAX`.
pub open spec fn tick(s: BiomeState, spawn: Option<Food>) -> BiomeState {
    let st = resolved(s, spawn);
    BiomeState {
        config: s.config,
        npcs: survivors(st.npcs, st.eaten),
        food: st.food,
        elapsed: if s.elapsed < u64::MAX {
            (s.elapsed + 1) as u64
        } else {
            s.elapsed
        },
    }
}


pub open spec fn ixs_below(s: Seq<QTIndexMassItem>, n: nat) -> bool {
    forall|j: int| 0 <= j < s.len() ==> (#[trigger] s[j]).ix < n
}

pub open spec fn npcs_wf(s: Seq<NPC>) -> bool {
    forall|j: int| 0 <= j < s.len() ==> (#[trigger] s[j]).wf()
}

proof fn lemma_prey_spared_below(s: Seq<QTIndexMassItem>, shape: Shape, me: usize, mass: u64, eat_diff: u64, n: nat)
    requires
        ixs_below(s, n),
    ensures
        ixs_below(prey_in(s, shape, me, mass, eat_diff), n),
        ixs_below(spared(s, shape, me, mass, eat_diff), n),
    decreases s.len(),
{
    if s.len() > 0 {
        assert(ixs_below(s.drop_last(), n));
        lemma_prey_spared_below(s.drop_last(), shape, me, mass, eat_diff, n);
    }
}

proof fn lemma_slot_len(s: Seq<NPC>, m: u64)
    ensures
        slot(s, m) <= s.len(),
    decreases s.len(),
{
    if s.len() > 0 {
        lemma_slot_len(s.drop_last(), m);
    }
}

pub proof fn lemma_by_mass_len(s: Seq<NPC>)
    ensures
        by_mass(s).len() == s.len(),
    decreases s.len(),
{
    if s.len() > 0 {
        lemma_by_mass_len(s.drop_last());
        lemma_slot_len(by_mass(s.drop_last()), s.last().mass);
    }
}

proof fn lemma_mark_len(e: Seq<bool>, s: Seq<QTIndexMassItem>)
    requires
        ixs_below(s, e.len()),
    ensures
        mark(e, s).len() == e.len(),
    decreases s.len(),
{
    if s.len() > 0 {
        assert(ixs_below(s.drop_last(), e.len()));
        lemma_mark_len(e, s.drop_last());
    }
}

/// `m` plus the masses of `s`, saturating at `MAX_MASS`.
fn total<T: Placed>(m: u64, s: &Vec<T>) -> (r: u64)
    requires
        m <= MAX_MASS,
    ensures
        r == gain(m, s@),
        m <= r <= MAX_MASS,
{
    let mut acc = m;
    let mut i: usize = 0;
    while i < s.len()
        invariant
            i <= s@.len(),
            m <= acc <= MAX_MASS,
            acc == gain(m, s@.subrange(0, i as int)),
        decreases s@.len() - i,
    {
        assert(s@.subrange(0, i + 1).drop_last() == s@.subrange(0, i as int));
        let w = s[i].mass();
        let sum = acc as u128 + w as u128;
        acc = if sum > MAX_MASS as u128 {
            MAX_MASS
        } else {
            sum as u64
        };
        i = i + 1;
    }
    assert(s@.subrange(0, s@.len() as int) == s@);
    acc
}

/// The items of `v`, last first.
fn reversed<T>(v: Vec<T>) -> (r: Vec<T>)
    ensures
        r@.len() == v@.len(),
        forall|j: int| 0 <= j < v@.len() ==> #[trigger] r@[j] == v@[v@.len() - 1 - j],
{
    let mut v = v;
    let ghost orig = v@;
    let mut r: Vec<T> = Vec::new();
    while v.len() > 0
        invariant
            v@.len() + r@.len() == orig.len(),
            v@ == orig.subrange(0, v@.len() as int),
            forall|j: int| 0 <= j < r@.len() ==> #[trigger] r@[j] == orig[orig.len() - 1 - j],
        decreases v@.len(),
    {
        let x = v.pop().unwrap();
        r.push(x);
    }
    r
}

/// Orders organisms by mass, heaviest first, keeping the order of equals.
pub fn sort_by_mass(v: Vec<NPC>) -> (r: Vec<NPC>)
    ensures
        r@ == by_mass(v@),
        heaviest_first(r@),
        r@.to_multiset() == v@.to_multiset(),
        npcs_wf(v@) ==> npcs_wf(r@),
{
    proof {
        lemma_by_mass_sorted(v@);
    }
    let ghost orig = v@;
    let n = v.len();
    let mut rev = reversed(v);
    let mut sorted: Vec<NPC> = Vec::new();
    let mut k: usize = 0;
    while rev.len() > 0
        invariant
            n == orig.len(),
            k + rev@.len() == n,
            forall|j: int| 0 <= j < rev@.len() ==> #[trigger] rev@[j] == orig[n - 1 - j],
            sorted@ == by_mass(orig.subrange(0, k as int)),
            npcs_wf(orig) ==> npcs_wf(sorted@),
        decreases rev@.len(),
    {
        let x = rev.pop().unwrap();
        assert(x == orig[k as int]);
        assert(orig.subrange(0, k + 1).drop_last() == orig.subrange(0, k as int));
        let m = x.mass;
        let mut j = sorted.len();
        assert(sorted@.subrange(0, sorted@.len() as int) == sorted@);
        while j > 0 && sorted[j - 1].mass < m
            invariant
                j <= sorted@.len(),
                slot(sorted@, m) == slot(sorted@.subrange(0, j as int), m),
            decreases j,
        {
            assert(sorted@.subrange(0, j - 1) == sorted@.subrange(0, j as int).drop_last());
            j = j - 1;
        }
        assert(slot(sorted@.subrange(0, j as int), m) == j);
        assert(sorted@.subrange(0, sorted@.len() as int) == sorted@);
        proof {
            if npcs_wf(orig) {
                assert(x.wf());
            }
        }
        sorted.insert(j, x);
        k = k + 1;
    }
    assert(orig.subrange(0, n as int) == orig);
    sorted
}

/// The organism index entries of `npcs`.
fn index_entries(npcs: &Vec<NPC>) -> (r: Vec<QTIndexMassItem>)
    ensures
        r@ == entries(npcs@),
{
    let mut r: Vec<QTIndexMassItem> = Vec::new();
    let mut i: usize = 0;
    while i < npcs.len()
        invariant
            i <= npcs@.len(),
            r@ == entries(npcs@.subrange(0, i as int)),
        decreases npcs@.len() - i,
    {
        r.push(QTIndexMassItem::new(npcs[i].pos, npcs[i].mass, i));
        i = i + 1;
        assert(r@ =~= entries(npcs@.subrange(0, i as int)));
    }
    assert(npcs@.subrange(0, npcs@.len() as int) == npcs@);
    r
}

/// Marks the place of each entry of `prey` in `eaten`.
fn mark_eaten(eaten: &mut Vec<bool>, prey: &Vec<QTIndexMassItem>)
    requires
        ixs_below(prey@, old(eaten)@.len()),
    ensures
        final(eaten)@ == mark(old(eaten)@, prey@),
{
    let ghost e0 = eaten@;
    let mut i: usize = 0;
    while i < prey.len()
        invariant
            i <= prey@.len(),
            ixs_below(prey@, e0.len()),
            eaten@ == mark(e0, prey@.subrange(0, i as int)),
            eaten@.len() == e0.len(),
        decreases prey@.len() - i,
    {
        assert(prey@.subrange(0, i + 1).drop_last() == prey@.subrange(0, i as int));
        let ix = prey[i].ix;
        assert(prey@[i as int].ix < e0.len());
        eaten.set(ix, true);
        i = i + 1;
    }
    assert(prey@.subrange(0, prey@.len() as int) == prey@);
}

/// The organisms whose place in `eaten` is not marked, in order.
fn cull(npcs: Vec<NPC>, eaten: &Vec<bool>) -> (r: Vec<NPC>)
    requires
        eaten@.len() == npcs@.len(),
    ensures
        r@ == survivors(npcs@, eaten@),
        npcs_wf(npcs@) ==> npcs_wf(r@),
        r@.len() <= npcs@.len(),
{
    let ghost orig = npcs@;
    let n = npcs.len();
    let mut rev = reversed(npcs);
    let mut kept: Vec<NPC> = Vec::new();
    let mut k: usize = 0;
    while rev.len() > 0
        invariant
            n == orig.len(),
            eaten@.len() == n,
            k + rev@.len() == n,
            forall|j: int| 0 <= j < rev@.len() ==> #[trigger] rev@[j] == orig[n - 1 - j],
            kept@ == survivors(orig.subrange(0, k as int), eaten@),
            npcs_wf(orig) ==> npcs_wf(kept@),
            kept@.len() <= k,
        decreases rev@.len(),
    {
        let x = rev.pop().unwrap();
        assert(x == orig[k as int]);
        assert(orig.subrange(0, k + 1).drop_last() == orig.subrange(0, k as int));
        if !eaten[k] {
            kept.push(x);
        }
        k = k + 1;
    }
    assert(orig.subrange(0, n as int) == orig);
    kept
}


/// The disc of radius `sqrt(mass)` around `center`.
fn body_area(center: Pos, mass: u64) -> (r: Shape)
    requires
        mass <= MAX_MASS,
    ensures
        r == body_disc(center, mass),
{
    assert(mass * 1_000_000 <= 0x4000_0000_0000_0000) by (nonlinear_arith)
        requires
            mass <= MAX_MASS,
    ;
    Shape::Circle { center, radius_sq: (mass * 1_000_000) as i64 }
}

fn all_false(n: usize) -> (r: Vec<bool>)
    ensures
        r@ == Seq::new(n as nat, |i: int| false),
{
    let mut r: Vec<bool> = Vec::new();
    let mut i: usize = 0;
    while i < n
        invariant
            i <= n,
            r@ == Seq::new(i as nat, |j: int| false),
        decreases n - i,
    {
        r.push(false);
        i = i + 1;
        assert(r@ =~= Seq::new(i as nat, |j: int| false));
    }
    r
}

/// A food pellet at a random place of the arena, with a random mass of the
/// configured range.
pub fn spawn_food(cfg: &BiomeConfig) -> (r: Food)
    requires
        cfg.wf(),
    ensures
        r.wf(),
        0 <= r.pos.x < cfg.size,
        0 <= r.pos.y < cfg.size,
        cfg.food_mass_min <= r.mass <= cfg.food_mass_max,
        is_hex_color(r.color@),
{
    let (pos, mass, color) = random_cell(cfg.food_mass_min, cfg.food_mass_max, cfg.size);
    Food::new(pos, mass, color)
}

/// A predator-aware organism at a random place of the arena, with a random
/// mass of the configured range and a random heading.
pub fn spawn_npc(cfg: &BiomeConfig) -> (r: NPC)
    requires
        cfg.wf(),
    ensures
        r.wf(),
        0 <= r.pos.x < cfg.size,
        0 <= r.pos.y < cfg.size,
        cfg.npc_mass_min <= r.mass <= cfg.npc_mass_max,
        r.kind is Advanced,
        is_direction(r.kind.heading()),
        is_hex_color(r.color@),
{
    let (pos, mass, color) = random_cell(cfg.npc_mass_min, cfg.npc_mass_max, cfg.size);
    let dir = random_heading();
    NPC::new(pos, mass, color, NPCKind::Advanced { dir })
}

/// What organism `me`, standing at `pos`, perceives: the food within the
/// food-perception radius and the other organisms within the
/// cell-perception radius.
pub fn get_perceived_frame(
    food: &SpatialIndex<Food>,
    orgs: &SpatialIndex<QTIndexMassItem>,
    pos: Pos,
    me: usize,
    cfg: &BiomeConfig,
) -> (r: Frame)
    requires
        food.wf(),
        orgs.wf(),
        orgs@.len() <= MAX_POPULATION,
        pos.wf(),
        cfg.wf(),
    ensures
        r.food@ == seen(food@, disc(pos, cfg.food_perception_radius)),
        r.npcs@ == seen_others(orgs@, disc(pos, cfg.cell_perception_radius), me),
        r.wf(),
{
    let food_seen = food.query(&Shape::circle(pos, cfg.food_perception_radius));
    let npcs_seen = orgs.query_others(&Shape::circle(pos, cfg.cell_perception_radius), me);
    proof {
        lemma_seen_placed(food@, disc(pos, cfg.food_perception_radius));
        lemma_seen_others_placed(orgs@, disc(pos, cfg.cell_perception_radius), me);
    }
    Frame::new(npcs_seen, food_seen)
}

/// How long to wait after a tick that took `spent_ms` of its `budget_ms`:
/// the time left, or nothing when the tick overran, so that the next tick
/// starts at once and no backlog builds up.
pub fn frame_pause(budget_ms: u64, spent_ms: u64) -> (r: Option<u64>)
    ensures
        spent_ms <= budget_ms ==> r == Some((budget_ms - spent_ms) as u64),
        spent_ms > budget_ms ==> r is None,
{
    if spent_ms <= budget_ms {
        Some(budget_ms - spent_ms)
    } else {
        None
    }
}

/// A pellet that `cfg` could spawn: inside the arena, short of its far
/// walls, with a mass of the configured range and a hex colour.
pub open spec fn spawnable_food(f: Food, cfg: BiomeConfig) -> bool {
    &&& f.wf()
    &&& 0 <= f.pos.x < cfg.size
    &&& 0 <= f.pos.y < cfg.size
    &&& cfg.food_mass_min <= f.mass <= cfg.food_mass_max
    &&& is_hex_color(f.color@)
}

/// An organism that `cfg` could spawn: inside the arena, with a mass of the
/// configured range, predator-aware, heading along a unit direction, with a
/// hex colour; like a pellet it starts short of the far walls.
pub open spec fn spawnable_npc(n: NPC, cfg: BiomeConfig) -> bool {
    &&& n.wf()
    &&& 0 <= n.pos.x < cfg.size
    &&& 0 <= n.pos.y < cfg.size
    &&& cfg.npc_mass_min <= n.mass <= cfg.npc_mass_max
    &&& n.kind is Advanced
    &&& is_direction(n.kind.heading())
    &&& is_hex_color(n.color@)
}

/// A simulation: its parameters, its organisms, the food index and the
/// number of ticks run.
pub struct Microbiome {
    config: BiomeConfig,
    npcs: Vec<NPC>,
    food: SpatialIndex<Food>,
    elapsed: u64,
}

impl View for Microbiome {
    type V = BiomeState;

    closed spec fn view(&self) -> BiomeState {
        BiomeState { config: self.config, npcs: self.npcs@, food: self.food@, elapsed: self.elapsed }
    }
}

/// Every pellet lies in the arena with a positive mass up to `MAX_MASS`.
pub open spec fn foods_wf(s: Seq<Food>) -> bool {
    forall|j: int| 0 <= j < s.len() ==> (#[trigger] s[j]).wf()
}

proof fn lemma_foods_placed(s: Seq<Food>)
    requires
        foods_wf(s),
    ensures
        all_placed(s),
{
    assert forall|j: int| 0 <= j < s.len() implies (#[trigger] s[j]).at().wf() by {
        assert(s[j].wf());
    }
}

proof fn lemma_outside_foods_wf(s: Seq<Food>, shape: Shape)
    requires
        foods_wf(s),
    ensures
        foods_wf(outside(s, shape)),
    decreases s.len(),
{
    if s.len() > 0 {
        assert(foods_wf(s.drop_last()));
        lemma_outside_foods_wf(s.drop_last(), shape);
    }
}

pub open spec fn state_wf(s: BiomeState) -> bool {
    &&& s.config.wf()
    &&& s.npcs.len() <= MAX_POPULATION
    &&& npcs_wf(s.npcs)
    &&& foods_wf(s.food)
}

impl Microbiome {
    pub open spec fn wf(&self) -> bool {
        state_wf(self@)
    }

    /// A simulation with the configured numbers of organisms and food
    /// pellets, placed at random.
    pub fn new(config: BiomeConfig) -> (r: Self)
        requires
            config.wf(),
        ensures
            r.wf(),
            r@.config == config,
            r@.npcs.len() == config.initial_npcs,
            r@.food.len() == config.initial_food,
            r@.elapsed == 0,
            forall|j: int| 0 <= j < r@.npcs.len() ==> spawnable_npc(#[trigger] r@.npcs[j], config),
            forall|j: int| 0 <= j < r@.food.len() ==> spawnable_food(#[trigger] r@.food[j], config),
    {
        let mut food: SpatialIndex<Food> = SpatialIndex::new();
        let mut i: usize = 0;
        while i < config.initial_food
            invariant
                config.wf(),
                i <= config.initial_food,
                food.wf(),
                food@.len() == i,
                forall|k: int| 0 <= k < food@.len() ==> spawnable_food(#[trigger] food@[k], config),
            decreases config.initial_food - i,
        {
            let f = spawn_food(&config);
            food.insert(f);
            i = i + 1;
        }
        let mut npcs: Vec<NPC> = Vec::new();
        let mut j: usize = 0;
        while j < config.initial_npcs
            invariant
                config.wf(),
                j <= config.initial_npcs,
                npcs_wf(npcs@),
                npcs@.len() == j,
                forall|k: int| 0 <= k < npcs@.len() ==> spawnable_npc(#[trigger] npcs@[k], config),
            decreases config.initial_npcs - j,
        {
            let o = spawn_npc(&config);
            npcs.push(o);
            j = j + 1;
        }
        Microbiome { config, npcs, food, elapsed: 0 }
    }

    /// Runs one tick, spawning a random food pellet if one is due.
    pub fn step(&mut self)
        requires
            old(self).wf(),
        ensures
            final(self).wf(),
            spawn_due(old(self)@.elapsed, old(self)@.config) ==> exists|f: Food|
                spawnable_food(f, old(self)@.config) && final(self)@ == tick(old(self)@, Some(f)),
            !spawn_due(old(self)@.elapsed, old(self)@.config) ==> final(self)@ == tick(
                old(self)@,
                None,
            ),
    {
        let ghost s0 = self@;
        if self.spawn_due() {
            let f = spawn_food(&self.config);
            let ghost g = f;
            self.advance(Some(f));
            assert(spawnable_food(g, s0.config) && self@ == tick(s0, Some(g)));
        } else {
            self.advance(None);
        }
    }

    /// A simulation made of the given parts.
    pub fn from_parts(config: BiomeConfig, npcs: Vec<NPC>, food: Vec<Food>, elapsed: u64) -> (r: Self)
        requires
            config.wf(),
            npcs@.len() <= MAX_POPULATION,
            npcs_wf(npcs@),
            foods_wf(food@),
        ensures
            r@ == (BiomeState { config, npcs: npcs@, food: food@, elapsed }),
            r.wf(),
    {
        proof {
            lemma_foods_placed(food@);
        }
        let mut index = SpatialIndex::new();
        index.insert_many(food);
        Microbiome { config, npcs, food: index, elapsed }
    }

    pub fn config(&self) -> (r: BiomeConfig)
        ensures
            r == self@.config,
    {
        self.config
    }

    /// The organisms, heaviest first as of the last tick.
    pub fn npcs(&self) -> (r: &Vec<NPC>)
        ensures
            r@ == self@.npcs,
    {
        &self.npcs
    }

    /// The food pellets, in the order they were spawned.
    pub fn food(&self) -> (r: &Vec<Food>)
        ensures
            r@ == self@.food,
    {
        self.food.items()
    }

    /// Ticks run so far.
    pub fn elapsed(&self) -> (r: u64)
        ensures
            r == self@.elapsed,
    {
        self.elapsed
    }

    /// Whether this tick spawns a food pellet.
    pub fn spawn_due(&self) -> (r: bool)
        requires
            self.wf(),
        ensures
            r == spawn_due(self@.elapsed, self@.config),
    {
        self.elapsed % self.config.spawn_interval() == 0
    }

    /// Runs one tick; `spawn` is the pellet added if one is due.
    pub fn advance(&mut self, spawn: Option<Food>)
        requires
            old(self).wf(),
            spawn matches Some(f) ==> f.wf(),
        ensures
            final(self)@ == tick(old(self)@, spawn),
            final(self).wf(),
    {
        let ghost s0 = self@;
        let ghost st0 = start_of_tick(s0, spawn);
        let cfg = self.config;
        if self.spawn_due() {
            match spawn {
                Some(f) => {
                    self.food.insert(f);
                    assert(foods_wf(self.food@)) by {
                        assert(self.food@.last().wf());
                    }
                },
                None => {},
            }
        }
        let mut taken: Vec<NPC> = Vec::new();
        std::mem::swap(&mut taken, &mut self.npcs);
        let mut npcs = sort_by_mass(taken);
        let n = npcs.len();
        let mut orgs: SpatialIndex<QTIndexMassItem> = SpatialIndex::new();
        let ents = index_entries(&npcs);
        assert(all_placed(ents@)) by {
            assert forall|j: int| 0 <= j < ents@.len() implies (#[trigger] ents@[j]).at().wf() by {
                assert(npcs@[j].wf());
            }
        }
        orgs.insert_many(ents);
        let mut eaten = all_false(n);
        assert(orgs@ =~= st0.orgs);
        proof {
            lemma_by_mass_len(s0.npcs);
        }
        let mut i: usize = 0;
        while i < n
            invariant
                cfg == s0.config,
                cfg.wf(),
                n == npcs@.len(),
                n <= MAX_POPULATION,
                i <= n,
                eaten@.len() == n,
                npcs_wf(npcs@),
                foods_wf(self.food@),
                all_placed(self.food@),
                all_placed(orgs@),
                orgs@.len() <= n,
                ixs_below(orgs@, n as nat),
                self.config == cfg,
                self.elapsed == s0.elapsed,
                st0.npcs.len() == n,
                (TickState { npcs: npcs@, food: self.food@, orgs: orgs@, eaten: eaten@ }) == run(st0, i as nat, cfg),
            decreases n - i,
        {
            if !eaten[i] {
                let pos = npcs[i].pos;
                assert(npcs@[i as int].wf());
                let frame = get_perceived_frame(&self.food, &orgs, pos, i, &cfg);
                npcs[i].step(&frame, &cfg);
                let p = npcs[i].pos;
                let m = npcs[i].mass;
                let food_area = body_area(p, m);
                proof {
                    lemma_outside_foods_wf(self.food@, food_area);
                }
                let eaten_food = self.food.pop(&food_area);
                let m2 = total(m, &eaten_food);
                let hunt = if cfg.grow_before_hunt {
                    body_area(p, m2)
                } else {
                    food_area
                };
                proof {
                    lemma_prey_spared_below(orgs@, hunt, i, m2, cfg.eat_diff, n as nat);
                }
                let prey = orgs.pop_prey(&hunt, i, m2, cfg.eat_diff);
                let m3 = total(m2, &prey);
                npcs[i].mass = m3;
                mark_eaten(&mut eaten, &prey);
                proof {
                    lemma_mark_len(run(st0, i as nat, cfg).eaten, prey@);
                    assert(act(run(st0, i as nat, cfg), i as int, cfg).npcs =~= npcs@);
                }
                assert(npcs_wf(npcs@)) by {
                    assert(npcs@[i as int].wf());
                }
                assert(orgs@.len() <= n) by {
                    crate::index::lemma_spared_len(run(st0, i as nat, cfg).orgs, hunt, i, m2, cfg.eat_diff);
                }
            }
            i = i + 1;
        }
        let survivors = cull(npcs, &eaten);
        self.npcs = survivors;
        if self.elapsed < u64::MAX {
            self.elapsed = self.elapsed + 1;
        }
    }
}


pub open spec fn masses_bounded(s: Seq<NPC>) -> bool {
    forall|j: int| 0 <= j < s.len() ==> (#[trigger] s[j]).mass <= MAX_MASS
}

proof fn lemma_gain_grows<T: Placed>(m: u64, s: Seq<T>)
    requires
        m <= MAX_MASS,
    ensures
        m <= gain(m, s) <= MAX_MASS,
    decreases s.len(),
{
    if s.len() > 0 {
        lemma_gain_grows(m, s.drop_last());
    }
}

proof fn lemma_run_grows(st: TickState, k: nat, cfg: BiomeConfig)
    requires
        k <= st.npcs.len(),
        masses_bounded(st.npcs),
    ensures
        run(st, k, cfg).npcs.len() == st.npcs.len(),
        masses_bounded(run(st, k, cfg).npcs),
        forall|j: int| 0 <= j < st.npcs.len() ==> #[trigger] run(st, k, cfg).npcs[j].mass >= st.npcs[j].mass,
    decreases k,
{
    if k > 0 {
        lemma_run_grows(st, (k - 1) as nat, cfg);
        let prev = run(st, (k - 1) as nat, cfg);
        let i = k - 1;
        if !prev.eaten[i] {
            let m = moved_in(prev, i, cfg);
            lemma_gain_grows(m.mass, inside(prev.food, food_area_of(prev, i, cfg)));
            lemma_gain_grows(fed_mass(prev, i, cfg), taken(prev, i, cfg));
        }
    }
}

proof fn lemma_insert_bounded(t: Seq<NPC>, k: int, x: NPC)
    requires
        masses_bounded(t),
        x.mass <= MAX_MASS,
        0 <= k <= t.len(),
    ensures
        masses_bounded(t.insert(k, x)),
{
    assert forall|j: int| 0 <= j < t.insert(k, x).len() implies (#[trigger] t.insert(k, x)[j]).mass <= MAX_MASS by {
        if j < k {
        } else if j == k {
        } else {
            assert(t.insert(k, x)[j] == t[j - 1]);
        }
    }
}

proof fn lemma_by_mass_bounded(s: Seq<NPC>)
    requires
        masses_bounded(s),
    ensures
        masses_bounded(by_mass(s)),
    decreases s.len(),
{
    if s.len() > 0 {
        assert(masses_bounded(s.drop_last()));
        lemma_by_mass_bounded(s.drop_last());
        lemma_slot_len(by_mass(s.drop_last()), s.last().mass);
        lemma_insert_bounded(by_mass(s.drop_last()), slot(by_mass(s.drop_last()), s.last().mass) as int, s.last());
    }
}

/// No organism loses mass in a tick: after the organisms have acted, each
/// one, in the order by mass, is at least as heavy as it was when the tick
/// began. The tick's survivors are these organisms but the eaten ones.
pub proof fn lemma_mass_never_decreases(s: BiomeState, spawn: Option<Food>)
    requires
        state_wf(s),
    ensures
        resolved(s, spawn).npcs.len() == start_of_tick(s, spawn).npcs.len(),
        forall|j: int| 0 <= j < start_of_tick(s, spawn).npcs.len() ==>
            #[trigger] resolved(s, spawn).npcs[j].mass >= start_of_tick(s, spawn).npcs[j].mass,
        tick(s, spawn).npcs == survivors(resolved(s, spawn).npcs, resolved(s, spawn).eaten),
{
    let st0 = start_of_tick(s, spawn);
    assert(masses_bounded(s.npcs)) by {
        assert forall|j: int| 0 <= j < s.npcs.len() implies (#[trigger] s.npcs[j]).mass <= MAX_MASS by {
            assert(s.npcs[j].wf());
        }
    }
    lemma_by_mass_bounded(s.npcs);
    lemma_run_grows(st0, st0.npcs.len(), s.config);
}

/// Without a spawn due, a tick depends on the state alone: two runs from
/// equal states reach equal states, whatever pellet each was offered.
pub proof fn lemma_tick_deterministic(s1: BiomeState, s2: BiomeState, a: Option<Food>, b: Option<Food>)
    requires
        s1 == s2,
        !spawn_due(s1.elapsed, s1.config),
    ensures
        tick(s1, a) == tick(s2, b),
        resolved(s1, a) == resolved(s2, b),
{
}


/// The organism entries that organism `k`, in the order by mass, eats in the
/// tick; none if it was eaten before its turn.
pub open spec fn eaten_by(s: BiomeState, spawn: Option<Food>, k: int) -> Seq<QTIndexMassItem> {
    let st = run(start_of_tick(s, spawn), k as nat, s.config);
    if st.eaten[k] {
        Seq::empty()
    } else {
        taken(st, k, s.config)
    }
}

proof fn lemma_orgs_shrink(st: TickState, k1: nat, k2: nat, cfg: BiomeConfig)
    requires
        k1 <= k2,
    ensures
        forall|x: QTIndexMassItem| #[trigger] run(st, k2, cfg).orgs.contains(x) ==> run(st, k1, cfg).orgs.contains(x),
    decreases k2,
{
    if k2 > k1 {
        lemma_orgs_shrink(st, k1, (k2 - 1) as nat, cfg);
        let prev = run(st, (k2 - 1) as nat, cfg);
        let i = k2 - 1;
        lemma_eat_gate(prev.orgs, hunt_area(prev, i, cfg), i as usize, fed_mass(prev, i, cfg), cfg.eat_diff);
        assert forall|x: QTIndexMassItem| #[trigger] run(st, k2, cfg).orgs.contains(x) implies run(st, k1, cfg).orgs.contains(x) by {
            assert(prev.orgs.contains(x));
        }
    }
}

/// No organism is eaten twice in a tick, and none eats itself: the entries
/// that two different organisms eat never name the same organism, and no
/// organism eats its own entry.
pub proof fn lemma_eaten_once(s: BiomeState, spawn: Option<Food>, k1: int, k2: int)
    requires
        state_wf(s),
        0 <= k1 < k2 < s.npcs.len(),
    ensures
        forall|x: QTIndexMassItem, y: QTIndexMassItem|
            #[trigger] eaten_by(s, spawn, k1).contains(x) && #[trigger] eaten_by(s, spawn, k2).contains(y)
            ==> x.ix != y.ix,
        forall|x: QTIndexMassItem| #[trigger] eaten_by(s, spawn, k1).contains(x) ==> x.ix != k1,
        forall|y: QTIndexMassItem| #[trigger] eaten_by(s, spawn, k2).contains(y) ==> y.ix != k2,
{
    let cfg = s.config;
    let st0 = start_of_tick(s, spawn);
    lemma_by_mass_len(s.npcs);
    let n = st0.npcs.len();
    let a = run(st0, k1 as nat, cfg);
    let b = run(st0, k2 as nat, cfg);
    let ha = hunt_area(a, k1, cfg);
    let fa = fed_mass(a, k1, cfg);
    let hb = hunt_area(b, k2, cfg);
    let fb = fed_mass(b, k2, cfg);
    lemma_eat_gate(a.orgs, ha, k1 as usize, fa, cfg.eat_diff);
    lemma_eat_gate(b.orgs, hb, k2 as usize, fb, cfg.eat_diff);
    lemma_orgs_shrink(st0, (k1 + 1) as nat, k2 as nat, cfg);
    lemma_orgs_shrink(st0, 0, k1 as nat, cfg);
    lemma_orgs_shrink(st0, 0, k2 as nat, cfg);
    assert forall|x: QTIndexMassItem, y: QTIndexMassItem|
        #[trigger] eaten_by(s, spawn, k1).contains(x) && #[trigger] eaten_by(s, spawn, k2).contains(y)
        implies x.ix != y.ix by {
        assert(!a.eaten[k1]);
        assert(!b.eaten[k2]);
        assert(a.orgs.contains(x));
        assert(b.orgs.contains(y));
        assert(run(st0, (k1 + 1) as nat, cfg).orgs.contains(y));
        assert(run(st0, (k1 + 1) as nat, cfg).orgs == spared(a.orgs, ha, k1 as usize, fa, cfg.eat_diff));
        assert(!edible(y, ha, k1 as usize, fa, cfg.eat_diff));
        assert(st0.orgs.contains(x));
        assert(st0.orgs.contains(y));
        let tx = choose|t: int| 0 <= t < st0.orgs.len() && st0.orgs[t] == x;
        let ty = choose|t: int| 0 <= t < st0.orgs.len() && st0.orgs[t] == y;
        if x.ix == y.ix {
            assert(tx == ty);
        }
    }
}

} // verus!
