//! Default constants of the simulation and the formulas that derive a
//! body's radius and speed from its mass.
use vstd::prelude::*;
use crate::geometry::{UNIT, isqrt, sqrt_floor, lemma_sqrt_monotonic, lemma_sqrt_floor, is_sqrt};

verus! {

/// Default size of the arena, in sub-units.
pub const SIZE: i64 = 500 * UNIT;

/// Default base speed of cells, in sub-units per tick; it decreases with mass.
pub const BASE_SPEED: i64 = 4 * UNIT;

/// Mass at which a cell moves at half its base speed.
pub const SPEED_REF_MASS: u64 = 50;

/// Default perception radius of cells for other cells, in sub-units.
pub const CELL_PERCEPTION_RADIUS: i64 = 200 * UNIT;

/// Default perception radius of cells for food, in sub-units.
pub const FOOD_PERCEPTION_RADIUS: i64 = 50 * UNIT;

/// How much heavier a cell must be to eat another.
pub const EAT_DIFF: u64 = 5;

/// Ticks per second.
pub const FPS: u64 = 30;

/// Duration of one tick, in milliseconds.
pub const FRAME_DURATION: u64 = 1000 / FPS;

/// Number of cells spawned initially.
pub const INITIAL_NUM_NPCS: usize = 10;

/// Number of food pellets to start with.
pub const INITIAL_FOOD_SUPPLY: usize = 20;

/// Food pellets spawned per second.
pub const FOOD_SPAWN_RATE: u64 = 10;

/// Ceiling of any mass. Sums of masses saturate there rather than overflow;
/// at the default growth rates no simulation comes near it.
pub const MAX_MASS: u64 = 0x100_0000_0000;

/// Largest number of cells a simulation may hold.
pub const MAX_POPULATION: usize = 0x4_0000;

/// Radius in sub-units of a body of the given mass: `sqrt(mass)` length
/// units, rounded down to the sub-unit.
pub open spec fn radius_of(mass: nat) -> nat {
    sqrt_floor(mass * (UNIT as nat) * (UNIT as nat))
}

/// Speed in sub-units per tick: `base / (sqrt(mass / ref) + 1)`, that is
/// `base * sqrt(ref) / (sqrt(mass) + sqrt(ref))`, on fixed-point roots,
/// rounded down but never below one sub-unit when the base speed is positive.
pub open spec fn speed_of(mass: nat, base: nat, ref_mass: nat) -> nat {
    let q = (base * radius_of(ref_mass)) / (radius_of(mass) + radius_of(ref_mass));
    if q == 0 && base > 0 {
        1
    } else {
        q
    }
}

/// The radius is the exact square root of the mass, rounded down to the
/// sub-unit; equal masses have equal radii, and a heavier body is never
/// smaller.
pub proof fn lemma_radius_is_root(m: nat, n: nat)
    ensures
        is_sqrt(m * (UNIT as nat) * (UNIT as nat), radius_of(m)),
        m == n ==> radius_of(m) == radius_of(n),
        m <= n ==> radius_of(m) <= radius_of(n),
{
    lemma_sqrt_floor(m * (UNIT as nat) * (UNIT as nat));
    if m <= n {
        assert(m * (UNIT as nat) * (UNIT as nat) <= n * (UNIT as nat) * (UNIT as nat))
            by (nonlinear_arith)
            requires
                m <= n,
        ;
        lemma_sqrt_monotonic(m * (UNIT as nat) * (UNIT as nat), n * (UNIT as nat) * (UNIT as nat));
    }
}

/// Calculate radius from mass.
pub fn radius(mass: u64) -> (r: i64)
    requires
        mass <= MAX_MASS,
    ensures
        r == radius_of(mass as nat),
        0 <= r <= 0x4000_0000,
{
    let m = mass as u128;
    let uu: u128 = 1_000_000;
    assert(m * uu <= 0x1000_0000_0000_0000) by (nonlinear_arith)
        requires
            m <= 0x100_0000_0000,
            uu == 1_000_000,
    ;
    let n = m * uu;
    assert(n == mass * (UNIT as nat) * (UNIT as nat)) by (nonlinear_arith)
        requires
            n == m * uu,
            uu == 1_000_000,
            m == mass,
            UNIT == 1000,
    ;
    let r = isqrt(n);
    proof {
        lemma_sqrt_floor(n as nat);
        if r > 0x4000_0000 {
            assert(r * r > 0x1000_0000_0000_0000) by (nonlinear_arith)
                requires
                    r > 0x4000_0000,
            ;
        }
    }
    r as i64
}

/// Calculate speed from mass.
pub fn speed(mass: u64, base: i64, ref_mass: u64) -> (r: i64)
    requires
        mass <= MAX_MASS,
        1 <= ref_mass <= MAX_MASS,
        0 <= base <= 0x4000_0000,
    ensures
        r == speed_of(mass as nat, base as nat, ref_mass as nat),
        0 <= r <= base,
        base > 0 ==> r > 0,
{
    let rm = radius(mass);
    let rr = radius(ref_mass);
    proof {
        lemma_radius_is_root(1, ref_mass as nat);
        lemma_sqrt_floor(1000000);
        assert(is_sqrt(1000000, 1000)) by (nonlinear_arith);
        crate::geometry::lemma_sqrt_unique(1000000, 1000, sqrt_floor(1000000));
        assert(1 * (UNIT as nat) * (UNIT as nat) == 1000000);
        assert(rr >= 1000);
    }
    let b = base as u128;
    let rr2 = rr as u128;
    assert(b * rr2 <= 0x1000_0000_0000_0000) by (nonlinear_arith)
        requires
            0 <= b <= 0x4000_0000,
            0 <= rr2 <= 0x4000_0000,
    ;
    let num = b * rr2;
    let den = (rm + rr) as u128;
    let q = num / den;
    assert(q <= b) by (nonlinear_arith)
        requires
            q == num / den,
            num == b * rr2,
            den == rm + rr2,
            rm >= 0,
            rr2 >= 1000,
    ;
    if q == 0 && base > 0 {
        1
    } else {
        q as i64
    }
}

/// Mass lost by a body per tick. Decay is not part of the current design:
/// this hook loses nothing.
pub fn mass_decay(mass: u64) -> (r: u64)
    ensures
        r == 0,
{
    0
}

} // verus!
