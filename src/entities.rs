//! Food pellets and organisms, what an organism perceives, and how it picks
//! its heading and moves.
use vstd::prelude::*;
use crate::config::BiomeConfig;
use crate::geometry::{
    Pos, Vec2, UNIT, MAX_COORD, dist2, distance_sq, normalize, unit_vector, scale_div,
    scale_div_exec, restricted, restrict_cell_to_bounds, lemma_restricted_bounds, is_direction,
    lemma_direction_flip,
};
use crate::invariants::{MAX_MASS, MAX_POPULATION, radius, radius_of, speed, speed_of};

verus! {

/// A position with a mass: what an organism perceives of another body.
#[derive(Clone, Copy, Debug, PartialEq, Eq, Structural)]
pub struct WeightedPoint {
    pub pos: Pos,
    pub mass: u64,
}

impl WeightedPoint {
    pub fn new(pos: Pos, mass: u64) -> (r: Self)
        ensures
            r == (WeightedPoint { pos, mass }),
    {
        WeightedPoint { pos, mass }
    }
}

/// An organism's entry in the per-tick organism index: where it stood, its
/// mass, and its place in the organism list.
#[derive(Clone, Copy, Debug, PartialEq, Eq, Structural)]
pub struct QTIndexMassItem {
    pub pos: Pos,
    pub mass: u64,
    pub ix: usize,
}

impl QTIndexMassItem {
    pub fn new(pos: Pos, mass: u64, ix: usize) -> (r: Self)
        ensures
            r == (QTIndexMassItem { pos, mass, ix }),
    {
        QTIndexMassItem { pos, mass, ix }
    }
}

/// What one organism perceives in one tick: nearby organisms and food.
#[derive(Clone, Debug)]
pub struct Frame {
    pub npcs: Vec<WeightedPoint>,
    pub food: Vec<WeightedPoint>,
}

pub open spec fn points_wf(s: Seq<WeightedPoint>) -> bool {
    forall|i: int| 0 <= i < s.len() ==> (#[trigger] s[i]).pos.wf()
}

impl Frame {
    pub fn new(npcs: Vec<WeightedPoint>, food: Vec<WeightedPoint>) -> (r: Self)
        ensures
            r.npcs@ == npcs@,
            r.food@ == food@,
    {
        Frame { npcs, food }
    }

    pub open spec fn wf(&self) -> bool {
        &&& self.npcs@.len() <= MAX_POPULATION
        &&& points_wf(self.npcs@)
        &&& points_wf(self.food@)
    }
}

/// A food pellet.
#[derive(Clone, Debug)]
pub struct Food {
    pub pos: Pos,
    pub mass: u64,
    pub color: String,
}

impl Food {
    pub fn new(pos: Pos, mass: u64, color: String) -> (r: Self)
        ensures
            r.pos == pos,
            r.mass == mass,
            r.color@ == color@,
    {
        Food { pos, mass, color }
    }

    pub open spec fn wf(&self) -> bool {
        self.pos.wf() && 1 <= self.mass <= MAX_MASS
    }

    /// Radius in sub-units, derived from the mass.
    pub fn radius(&self) -> (r: i64)
        requires
            self.wf(),
        ensures
            r == radius_of(self.mass as nat),
            0 <= r <= MAX_COORD,
    {
        radius(self.mass)
    }
}

/// How an organism steers.
#[derive(Clone, Copy, Debug, PartialEq, Eq, Structural)]
pub enum NPCKind {
    /// Goes straight, turning back when about to touch a wall.
    Linear { dir: Vec2 },
    /// Flees predators, chases prey, else goes for the nearest food.
    Advanced { dir: Vec2 },
}

impl NPCKind {
    pub open spec fn heading(self) -> Vec2 {
        match self {
            NPCKind::Linear { dir } => dir,
            NPCKind::Advanced { dir } => dir,
        }
    }
}

/// An organism.
#[derive(Clone, Debug)]
pub struct NPC {
    pub pos: Pos,
    pub mass: u64,
    pub color: String,
    pub kind: NPCKind,
}

/// `other` is heavy enough to eat a body of mass `me`.
pub open spec fn is_predator(me: u64, other: u64, eat_diff: u64) -> bool {
    other as int > me as int + eat_diff as int
}

/// A body of mass `me` is heavy enough to eat `other`.
pub open spec fn is_prey(me: u64, other: u64, eat_diff: u64) -> bool {
    me as int > other as int + eat_diff as int
}

/// Sum of the offsets from `me` to each predator in `s`, and their number.
pub open spec fn threat(s: Seq<WeightedPoint>, me: Pos, mass: u64, eat_diff: u64) -> (
    int,
    int,
    nat,
)
    decreases s.len(),
{
    if s.len() == 0 {
        (0, 0, 0)
    } else {
        let (x, y, c) = threat(s.drop_last(), me, mass, eat_diff);
        let p = s.last();
        if is_predator(mass, p.mass, eat_diff) {
            (x + p.pos.x - me.x, y + p.pos.y - me.y, c + 1)
        } else {
            (x, y, c)
        }
    }
}

/// The heaviest prey in `s`, the first one among equals.
pub open spec fn best_prey(s: Seq<WeightedPoint>, mass: u64, eat_diff: u64) -> Option<
    WeightedPoint,
>
    decreases s.len(),
{
    if s.len() == 0 {
        None
    } else {
        let best = best_prey(s.drop_last(), mass, eat_diff);
        let p = s.last();
        if is_prey(mass, p.mass, eat_diff) && (best is None || p.mass > best->0.mass) {
            Some(p)
        } else {
            best
        }
    }
}

/// The body of `s` nearest to `me`, the first one among equals.
pub open spec fn nearest(s: Seq<WeightedPoint>, me: Pos) -> Option<WeightedPoint>
    decreases s.len(),
{
    if s.len() == 0 {
        None
    } else {
        let best = nearest(s.drop_last(), me);
        let p = s.last();
        if best is None || dist2(me, p.pos) < dist2(me, best->0.pos) {
            Some(p)
        } else {
            best
        }
    }
}

/// The direction of `(x, y)`, or `prev` for the zero vector.
pub open spec fn toward_or(x: int, y: int, prev: Vec2) -> Vec2 {
    match unit_vector(x, y) {
        Some(v) => v,
        None => prev,
    }
}

/// The heading of a predator-aware organism: away from the predators'
/// summed offsets, else toward the heaviest prey, else toward the nearest
/// food, else straight on.
pub open spec fn advanced_heading(
    prev: Vec2,
    me: Pos,
    mass: u64,
    npcs: Seq<WeightedPoint>,
    food: Seq<WeightedPoint>,
    eat_diff: u64,
) -> Vec2 {
    let (x, y, c) = threat(npcs, me, mass, eat_diff);
    if c > 0 {
        toward_or(-x, -y, prev)
    } else if best_prey(npcs, mass, eat_diff) is Some {
        let p = best_prey(npcs, mass, eat_diff)->0;
        toward_or(p.pos.x - me.x, p.pos.y - me.y, prev)
    } else if nearest(food, me) is Some {
        let f = nearest(food, me)->0;
        toward_or(f.pos.x - me.x, f.pos.y - me.y, prev)
    } else {
        prev
    }
}

pub open spec fn abs(v: int) -> int {
    if v < 0 {
        -v
    } else {
        v
    }
}

/// One component of a wall-bouncing heading: pointed back inward when the
/// next position would come within `limit` of a wall.
pub open spec fn bounce_axis(d: int, p: int, speed: int, limit: int, size: int) -> int {
    let next = p + scale_div(d, speed, UNIT as int);
    if next <= limit {
        abs(d)
    } else if next >= size - limit {
        -abs(d)
    } else {
        d
    }
}

/// The heading an organism takes this tick.
pub open spec fn heading_of(npc: NPC, npcs: Seq<WeightedPoint>, food: Seq<WeightedPoint>, cfg: BiomeConfig) -> Vec2 {
    let sp = speed_of(npc.mass as nat, cfg.base_speed as nat, cfg.speed_ref_mass as nat) as int;
    let limit = radius_of(npc.mass as nat) * 9 / 10;
    match npc.kind {
        NPCKind::Linear { dir } => Vec2 {
            x: bounce_axis(dir.x as int, npc.pos.x as int, sp, limit as int, cfg.size as int) as i64,
            y: bounce_axis(dir.y as int, npc.pos.y as int, sp, limit as int, cfg.size as int) as i64,
        },
        NPCKind::Advanced { dir } => advanced_heading(dir, npc.pos, npc.mass, npcs, food, cfg.eat_diff),
    }
}

/// The kind with its heading replaced.
pub open spec fn with_heading(kind: NPCKind, dir: Vec2) -> NPCKind {
    match kind {
        NPCKind::Linear { .. } => NPCKind::Linear { dir },
        NPCKind::Advanced { .. } => NPCKind::Advanced { dir },
    }
}

/// The organism after one movement: it takes its heading, moves by its speed
/// along it, and is clamped inside the arena.
pub open spec fn moved(npc: NPC, npcs: Seq<WeightedPoint>, food: Seq<WeightedPoint>, cfg: BiomeConfig) -> NPC {
    let d = heading_of(npc, npcs, food, cfg);
    let sp = speed_of(npc.mass as nat, cfg.base_speed as nat, cfg.speed_ref_mass as nat) as int;
    NPC {
        pos: restricted(
            npc.pos.x + scale_div(d.x as int, sp, UNIT as int),
            npc.pos.y + scale_div(d.y as int, sp, UNIT as int),
            radius_of(npc.mass as nat) as int,
            cfg.size as int,
        ),
        kind: with_heading(npc.kind, d),
        ..npc
    }
}

/// Sum of the offsets to every predator, and their number.
fn predator_offsets(npcs: &Vec<WeightedPoint>, me: Pos, mass: u64, eat_diff: u64) -> (r: (i64, i64, usize))
    requires
        npcs@.len() <= MAX_POPULATION,
        points_wf(npcs@),
        me.wf(),
    ensures
        (r.0 as int, r.1 as int, r.2 as nat) == threat(npcs@, me, mass, eat_diff),
        -crate::geometry::MAX_OFFSET_SUM <= r.0 <= crate::geometry::MAX_OFFSET_SUM,
        -crate::geometry::MAX_OFFSET_SUM <= r.1 <= crate::geometry::MAX_OFFSET_SUM,
{
    let mut x: i64 = 0;
    let mut y: i64 = 0;
    let mut c: usize = 0;
    let mut i: usize = 0;
    while i < npcs.len()
        invariant
            i <= npcs@.len() <= MAX_POPULATION,
            points_wf(npcs@),
            me.wf(),
            (x as int, y as int, c as nat) == threat(npcs@.subrange(0, i as int), me, mass, eat_diff),
            -(i * MAX_COORD) <= x <= i * MAX_COORD,
            -(i * MAX_COORD) <= y <= i * MAX_COORD,
            c <= i,
        decreases npcs@.len() - i,
    {
        let p = npcs[i];
        assert(npcs@.subrange(0, i + 1).drop_last() == npcs@.subrange(0, i as int));
        assert(p.pos.wf());
        assert((i + 1) * MAX_COORD <= crate::geometry::MAX_OFFSET_SUM) by (nonlinear_arith)
            requires
                i < MAX_POPULATION,
        ;
        assert((i + 1) * MAX_COORD == i * MAX_COORD + MAX_COORD) by (nonlinear_arith);
        if p.mass as u128 > mass as u128 + eat_diff as u128 {
            x = x + (p.pos.x - me.x);
            y = y + (p.pos.y - me.y);
            c = c + 1;
        }
        i = i + 1;
    }
    assert(npcs@.subrange(0, npcs@.len() as int) == npcs@);
    proof {
        assert(npcs@.len() * MAX_COORD <= crate::geometry::MAX_OFFSET_SUM) by (nonlinear_arith)
            requires
                npcs@.len() <= MAX_POPULATION,
        ;
    }
    (x, y, c)
}

/// The heaviest prey, the first one among equals.
fn heaviest_prey(npcs: &Vec<WeightedPoint>, mass: u64, eat_diff: u64) -> (r: Option<WeightedPoint>)
    ensures
        r == best_prey(npcs@, mass, eat_diff),
{
    let mut best: Option<WeightedPoint> = None;
    let mut i: usize = 0;
    while i < npcs.len()
        invariant
            i <= npcs@.len(),
            best == best_prey(npcs@.subrange(0, i as int), mass, eat_diff),
        decreases npcs@.len() - i,
    {
        let p = npcs[i];
        assert(npcs@.subrange(0, i + 1).drop_last() == npcs@.subrange(0, i as int));
        if mass as u128 > p.mass as u128 + eat_diff as u128 {
            match best {
                None => {
                    best = Some(p);
                },
                Some(b) => {
                    if p.mass > b.mass {
                        best = Some(p);
                    }
                },
            }
        }
        i = i + 1;
    }
    assert(npcs@.subrange(0, npcs@.len() as int) == npcs@);
    best
}

/// The nearest body, the first one among equals.
fn nearest_to(s: &Vec<WeightedPoint>, me: Pos) -> (r: Option<WeightedPoint>)
    requires
        points_wf(s@),
        me.wf(),
    ensures
        r == nearest(s@, me),
        r matches Some(p) ==> p.pos.wf(),
{
    let mut best: Option<WeightedPoint> = None;
    let mut best_d: i64 = 0;
    let mut i: usize = 0;
    while i < s.len()
        invariant
            i <= s@.len(),
            points_wf(s@),
            me.wf(),
            best == nearest(s@.subrange(0, i as int), me),
            best matches Some(b) ==> b.pos.wf() && best_d == dist2(me, b.pos),
        decreases s@.len() - i,
    {
        let p = s[i];
        assert(s@.subrange(0, i + 1).drop_last() == s@.subrange(0, i as int));
        assert(p.pos.wf());
        let d = distance_sq(me, p.pos);
        match best {
            None => {
                best = Some(p);
                best_d = d;
            },
            Some(_) => {
                if d < best_d {
                    best = Some(p);
                    best_d = d;
                }
            },
        }
        i = i + 1;
    }
    assert(s@.subrange(0, s@.len() as int) == s@);
    best
}

/// The direction of `(x, y)`, or `prev` for the zero vector.
fn toward(x: i64, y: i64, prev: Vec2) -> (r: Vec2)
    requires
        -crate::geometry::MAX_OFFSET_SUM <= x <= crate::geometry::MAX_OFFSET_SUM,
        -crate::geometry::MAX_OFFSET_SUM <= y <= crate::geometry::MAX_OFFSET_SUM,
        prev.wf(),
    ensures
        r == toward_or(x as int, y as int, prev),
        r.wf(),
{
    match normalize(x, y) {
        Some(v) => v,
        None => prev,
    }
}

/// The heading of a predator-aware organism.
pub fn choose_heading(prev: Vec2, me: Pos, mass: u64, frame: &Frame, eat_diff: u64) -> (r: Vec2)
    requires
        prev.wf(),
        me.wf(),
        frame.wf(),
    ensures
        r == advanced_heading(prev, me, mass, frame.npcs@, frame.food@, eat_diff),
        r.wf(),
{
    let (x, y, c) = predator_offsets(&frame.npcs, me, mass, eat_diff);
    if c > 0 {
        return toward(-x, -y, prev);
    }
    match heaviest_prey(&frame.npcs, mass, eat_diff) {
        Some(p) => {
            assert(p.pos.wf()) by {
                lemma_best_prey_in(frame.npcs@, mass, eat_diff);
            }
            toward(p.pos.x - me.x, p.pos.y - me.y, prev)
        },
        None => match nearest_to(&frame.food, me) {
            Some(f) => toward(f.pos.x - me.x, f.pos.y - me.y, prev),
            None => prev,
        },
    }
}

proof fn lemma_best_prey_in(s: Seq<WeightedPoint>, mass: u64, eat_diff: u64)
    requires
        points_wf(s),
    ensures
        best_prey(s, mass, eat_diff) matches Some(p) ==> p.pos.wf(),
    decreases s.len(),
{
    if s.len() > 0 {
        assert(points_wf(s.drop_last()));
        lemma_best_prey_in(s.drop_last(), mass, eat_diff);
    }
}


fn bounce(d: i64, p: i64, speed: i64, limit: i64, size: i64) -> (r: i64)
    requires
        -UNIT <= d <= UNIT,
        0 <= p <= MAX_COORD,
        0 <= speed <= MAX_COORD,
    ensures
        r == bounce_axis(d as int, p as int, speed as int, limit as int, size as int),
        -UNIT <= r <= UNIT,
{
    let step = scale_div_exec(d as i128, speed as i128, UNIT as i128);
    let next = p as i128 + step;
    let a = if d < 0 {
        -d
    } else {
        d
    };
    if next <= limit as i128 {
        a
    } else if next >= size as i128 - limit as i128 {
        -a
    } else {
        d
    }
}

impl NPC {
    pub fn new(pos: Pos, mass: u64, color: String, kind: NPCKind) -> (r: Self)
        ensures
            r.pos == pos,
            r.mass == mass,
            r.color@ == color@,
            r.kind == kind,
    {
        NPC { pos, mass, color, kind }
    }

    pub open spec fn wf(&self) -> bool {
        &&& self.pos.wf()
        &&& 1 <= self.mass <= MAX_MASS
        &&& self.kind.heading().wf()
    }

    /// Radius in sub-units, derived from the mass.
    pub fn radius(&self) -> (r: i64)
        requires
            self.wf(),
        ensures
            r == radius_of(self.mass as nat),
            0 <= r <= MAX_COORD,
    {
        radius(self.mass)
    }

    /// Distance covered in one tick, in sub-units.
    pub fn speed(&self, cfg: &BiomeConfig) -> (r: i64)
        requires
            self.wf(),
            cfg.wf(),
        ensures
            r == speed_of(self.mass as nat, cfg.base_speed as nat, cfg.speed_ref_mass as nat),
            0 <= r <= cfg.base_speed,
    {
        speed(self.mass, cfg.base_speed, cfg.speed_ref_mass)
    }

    /// Takes this tick's heading from the frame, moves along it by the
    /// organism's speed and clamps the organism inside the arena.
    pub fn step(&mut self, frame: &Frame, cfg: &BiomeConfig)
        requires
            old(self).wf(),
            frame.wf(),
            cfg.wf(),
        ensures
            *final(self) == moved(*old(self), frame.npcs@, frame.food@, *cfg),
            final(self).wf(),
            final(self).mass == old(self).mass,
            is_direction(old(self).kind.heading()) ==> is_direction(final(self).kind.heading()),
            0 <= final(self).pos.x <= cfg.size,
            0 <= final(self).pos.y <= cfg.size,
            2 * radius_of(old(self).mass as nat) <= cfg.size ==> {
                let r = radius_of(old(self).mass as nat) as int;
                &&& r <= final(self).pos.x <= cfg.size - r
                &&& r <= final(self).pos.y <= cfg.size - r
            },
    {
        proof {
            if is_direction(self.kind.heading()) {
                lemma_heading_stays_direction(*self, frame.npcs@, frame.food@, *cfg);
            }
        }
        let sp = self.speed(cfg);
        let rad = self.radius();
        let dir = match self.kind {
            NPCKind::Linear { dir } => {
                let limit = rad * 9 / 10;
                Vec2 {
                    x: bounce(dir.x, self.pos.x, sp, limit, cfg.size),
                    y: bounce(dir.y, self.pos.y, sp, limit, cfg.size),
                }
            },
            NPCKind::Advanced { dir } => choose_heading(dir, self.pos, self.mass, frame, cfg.eat_diff),
        };
        let dx = scale_div_exec(dir.x as i128, sp as i128, UNIT as i128);
        let dy = scale_div_exec(dir.y as i128, sp as i128, UNIT as i128);
        let pos = restrict_cell_to_bounds(
            self.pos.x + dx as i64,
            self.pos.y + dy as i64,
            rad,
            cfg.size,
        );
        self.pos = pos;
        self.kind = match self.kind {
            NPCKind::Linear { .. } => NPCKind::Linear { dir },
            NPCKind::Advanced { .. } => NPCKind::Advanced { dir },
        };
    }
}


proof fn lemma_toward_or_direction(x: int, y: int, prev: Vec2)
    requires
        is_direction(prev),
    ensures
        is_direction(toward_or(x, y, prev)),
{
    if !(x == 0 && y == 0) {
        assert(unit_vector(x, y) == Some(toward_or(x, y, prev)));
    }
}

/// An organism whose heading is a unit direction keeps a unit direction:
/// the predator-aware policy takes the direction of a non-zero offset or the
/// previous heading, and a wall bounce only reverses components.
pub proof fn lemma_heading_stays_direction(npc: NPC, npcs: Seq<WeightedPoint>, food: Seq<WeightedPoint>, cfg: BiomeConfig)
    requires
        is_direction(npc.kind.heading()),
        npc.kind.heading().wf(),
    ensures
        is_direction(heading_of(npc, npcs, food, cfg)),
{
    match npc.kind {
        NPCKind::Linear { dir } => {
            lemma_direction_flip(dir);
            let fx = Vec2 { x: (-dir.x) as i64, y: dir.y };
            lemma_direction_flip(fx);
            let sp = speed_of(npc.mass as nat, cfg.base_speed as nat, cfg.speed_ref_mass as nat) as int;
            let limit = radius_of(npc.mass as nat) * 9 / 10;
            let bx = bounce_axis(dir.x as int, npc.pos.x as int, sp, limit as int, cfg.size as int);
            let by = bounce_axis(dir.y as int, npc.pos.y as int, sp, limit as int, cfg.size as int);
            assert(bx == dir.x || bx == -dir.x);
            assert(by == dir.y || by == -dir.y);
        },
        NPCKind::Advanced { dir } => {
            let (x, y, c) = threat(npcs, npc.pos, npc.mass, cfg.eat_diff);
            lemma_toward_or_direction(-x, -y, dir);
            if best_prey(npcs, npc.mass, cfg.eat_diff) is Some {
                let p = best_prey(npcs, npc.mass, cfg.eat_diff)->0;
                lemma_toward_or_direction(p.pos.x - npc.pos.x, p.pos.y - npc.pos.y, dir);
            }
            if nearest(food, npc.pos) is Some {
                let f = nearest(food, npc.pos)->0;
                lemma_toward_or_direction(f.pos.x - npc.pos.x, f.pos.y - npc.pos.y, dir);
            }
        },
    }
}

/// After moving, an organism lies in the arena, and when it fits in the
/// arena its whole body does: `radius <= x <= size - radius`, and likewise
/// for `y`.
pub proof fn lemma_moved_in_arena(npc: NPC, npcs: Seq<WeightedPoint>, food: Seq<WeightedPoint>, cfg: BiomeConfig)
    requires
        cfg.wf(),
    ensures
        0 <= moved(npc, npcs, food, cfg).pos.x <= cfg.size,
        0 <= moved(npc, npcs, food, cfg).pos.y <= cfg.size,
        moved(npc, npcs, food, cfg).mass == npc.mass,
        2 * radius_of(npc.mass as nat) <= cfg.size ==> {
            let r = radius_of(npc.mass as nat) as int;
            let p = moved(npc, npcs, food, cfg).pos;
            r <= p.x <= cfg.size - r && r <= p.y <= cfg.size - r
        },
{
    let d = heading_of(npc, npcs, food, cfg);
    let sp = speed_of(npc.mass as nat, cfg.base_speed as nat, cfg.speed_ref_mass as nat) as int;
    lemma_restricted_bounds(
        npc.pos.x + scale_div(d.x as int, sp, UNIT as int),
        npc.pos.y + scale_div(d.y as int, sp, UNIT as int),
        radius_of(npc.mass as nat) as int,
        cfg.size as int,
    );
}

} // verus!
