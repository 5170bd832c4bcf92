//! Random placement of new bodies, through `rand` and `random_color`.
use vstd::prelude::*;
use rand::Rng;
use random_color::RandomColor;
use crate::geometry::{Pos, Vec2, UNIT, MAX_COORD, normalize, is_direction, lemma_x_axis_direction};

verus! {

/// Relies on `rand::Rng::gen_range` over `rand::thread_rng()`: a value of the
/// closed range `[lo, hi]`, which must not be empty.
#[verifier::external_body]
fn uniform(lo: u64, hi: u64) -> (r: u64)
    requires
        lo <= hi,
    ensures
        lo <= r <= hi,
{
    rand::thread_rng().gen_range(lo..=hi)
}

/// Relies on `random_color::RandomColor::to_hex`, which formats the colour
/// as `#` followed by two lower-case hex digits for each of red, green and
/// blue.
#[verifier::external_body]
fn hex_color() -> (r: String)
    ensures
        is_hex_color(r@),
{
    RandomColor::new().to_hex()
}

pub open spec fn is_hex_digit(c: char) -> bool {
    ('0' <= c && c <= '9') || ('a' <= c && c <= 'f')
}

/// `#rrggbb` with lower-case hex digits.
pub open spec fn is_hex_color(s: Seq<char>) -> bool {
    &&& s.len() == 7
    &&& s[0] == '#'
    &&& forall|i: int| 1 <= i < 7 ==> is_hex_digit(#[trigger] s[i])
}

/// Generate a random hex color.
pub fn random_color() -> (r: String)
    ensures
        is_hex_color(r@),
{
    hex_color()
}

/// Generate a random position in `[0, size)²`, a random mass in
/// `[mass_min, mass_max]` and a random colour.
pub fn random_cell(mass_min: u64, mass_max: u64, size: i64) -> (r: (Pos, u64, String))
    requires
        mass_min <= mass_max,
        0 < size <= MAX_COORD,
    ensures
        0 <= r.0.x < size,
        0 <= r.0.y < size,
        r.0.wf(),
        mass_min <= r.1 <= mass_max,
        is_hex_color(r.2@),
{
    let mass = uniform(mass_min, mass_max);
    let x = uniform(0, (size - 1) as u64) as i64;
    let y = uniform(0, (size - 1) as u64) as i64;
    let color = random_color();
    (Pos { x, y }, mass, color)
}

/// A random direction of length `UNIT`: the direction of a vector drawn
/// uniformly from `[-UNIT, UNIT]²`, or the x axis if that vector is zero.
pub fn random_heading() -> (r: Vec2)
    ensures
        r.wf(),
        is_direction(r),
{
    let dx = uniform(0, 2 * UNIT as u64) as i64 - UNIT;
    let dy = uniform(0, 2 * UNIT as u64) as i64 - UNIT;
    match normalize(dx, dy) {
        Some(v) => {
            assert(!(dx == 0 && dy == 0));
            assert(is_direction(v));
            v
        },
        None => {
            proof {
                lemma_x_axis_direction();
            }
            Vec2 { x: UNIT, y: 0 }
        },
    }
}

} // verus!
