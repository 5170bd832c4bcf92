//! Configuration: the simulation's parameters with their validation, and the
//! relay server's addresses.
use vstd::prelude::*;
use vstd::string::*;
use crate::geometry::MAX_COORD;
use crate::invariants::{
    BASE_SPEED, CELL_PERCEPTION_RADIUS, EAT_DIFF, FOOD_PERCEPTION_RADIUS, FOOD_SPAWN_RATE, FPS,
    INITIAL_FOOD_SUPPLY, INITIAL_NUM_NPCS, MAX_MASS, MAX_POPULATION, SIZE, SPEED_REF_MASS,
};

verus! {

/// Parameters of a simulation. Lengths are in sub-units, speeds in sub-units
/// per tick, masses in mass units.
#[derive(Clone, Copy, Debug, PartialEq, Eq, Structural)]
pub struct BiomeConfig {
    /// Side of the square arena `[0, size]²`.
    pub size: i64,
    /// Ticks per second.
    pub fps: u64,
    pub initial_npcs: usize,
    pub initial_food: usize,
    /// Food pellets spawned per second.
    pub food_spawn_rate: u64,
    pub food_perception_radius: i64,
    pub cell_perception_radius: i64,
    /// How much heavier a cell must be to eat another.
    pub eat_diff: u64,
    pub base_speed: i64,
    /// Mass at which a cell moves at half its base speed.
    pub speed_ref_mass: u64,
    pub food_mass_min: u64,
    pub food_mass_max: u64,
    pub npc_mass_min: u64,
    pub npc_mass_max: u64,
    /// Whether an organism that has just eaten food hunts other organisms
    /// with the radius of its new mass (else with the radius it moved with).
    pub grow_before_hunt: bool,
}

/// Why a configuration was refused.
#[derive(Clone, Copy, Debug, PartialEq, Eq, Structural)]
pub enum ConfigError {
    /// The arena size is not positive, or too large.
    InvalidSize,
    /// The tick rate is zero.
    ZeroTickRate,
    /// The food spawn rate is zero or above the tick rate.
    InvalidSpawnRate,
    /// A mass range is empty, starts at zero or goes beyond `MAX_MASS`.
    InvalidMassRange,
    /// A perception radius, the base speed or the reference mass is out of
    /// range.
    InvalidParameter,
    /// More cells than `MAX_POPULATION`.
    TooManyOrganisms,
}

pub open spec fn size_ok(c: BiomeConfig) -> bool {
    0 < c.size <= MAX_COORD
}

pub open spec fn spawn_ok(c: BiomeConfig) -> bool {
    0 < c.food_spawn_rate <= c.fps
}

pub open spec fn masses_ok(c: BiomeConfig) -> bool {
    &&& 1 <= c.food_mass_min <= c.food_mass_max <= MAX_MASS
    &&& 1 <= c.npc_mass_min <= c.npc_mass_max <= MAX_MASS
}

pub open spec fn parameters_ok(c: BiomeConfig) -> bool {
    &&& 0 <= c.food_perception_radius <= MAX_COORD
    &&& 0 <= c.cell_perception_radius <= MAX_COORD
    &&& 0 <= c.base_speed <= MAX_COORD
    &&& 1 <= c.speed_ref_mass <= MAX_MASS
    &&& c.eat_diff <= MAX_MASS
}

impl BiomeConfig {
    /// A configuration on which a simulation can run.
    pub open spec fn wf(self) -> bool {
        &&& size_ok(self)
        &&& self.fps > 0
        &&& spawn_ok(self)
        &&& masses_ok(self)
        &&& parameters_ok(self)
        &&& self.initial_npcs <= MAX_POPULATION
    }

    /// The default parameters.
    pub fn standard() -> (r: BiomeConfig)
        ensures
            r.wf(),
            r == (BiomeConfig {
                size: SIZE,
                fps: FPS,
                initial_npcs: INITIAL_NUM_NPCS,
                initial_food: INITIAL_FOOD_SUPPLY,
                food_spawn_rate: FOOD_SPAWN_RATE,
                food_perception_radius: FOOD_PERCEPTION_RADIUS,
                cell_perception_radius: CELL_PERCEPTION_RADIUS,
                eat_diff: EAT_DIFF,
                base_speed: BASE_SPEED,
                speed_ref_mass: SPEED_REF_MASS,
                food_mass_min: 1,
                food_mass_max: 3,
                npc_mass_min: 20,
                npc_mass_max: 30,
                grow_before_hunt: true,
            }),
    {
        BiomeConfig {
            size: SIZE,
            fps: FPS,
            initial_npcs: INITIAL_NUM_NPCS,
            initial_food: INITIAL_FOOD_SUPPLY,
            food_spawn_rate: FOOD_SPAWN_RATE,
            food_perception_radius: FOOD_PERCEPTION_RADIUS,
            cell_perception_radius: CELL_PERCEPTION_RADIUS,
            eat_diff: EAT_DIFF,
            base_speed: BASE_SPEED,
            speed_ref_mass: SPEED_REF_MASS,
            food_mass_min: 1,
            food_mass_max: 3,
            npc_mass_min: 20,
            npc_mass_max: 30,
            grow_before_hunt: true,
        }
    }

    /// Checks the configuration once, before any tick runs; the first rule
    /// broken, in the order of the error variants, is reported.
    pub fn validate(&self) -> (r: Result<(), ConfigError>)
        ensures
            r is Ok <==> self.wf(),
            r == Err::<(), ConfigError>(ConfigError::InvalidSize) <==> !size_ok(*self),
            r == Err::<(), ConfigError>(ConfigError::ZeroTickRate) <==> size_ok(*self)
                && self.fps == 0,
            r == Err::<(), ConfigError>(ConfigError::InvalidSpawnRate) <==> size_ok(*self)
                && self.fps > 0 && !spawn_ok(*self),
            r == Err::<(), ConfigError>(ConfigError::InvalidMassRange) <==> size_ok(*self)
                && self.fps > 0 && spawn_ok(*self) && !masses_ok(*self),
            r == Err::<(), ConfigError>(ConfigError::InvalidParameter) <==> size_ok(*self)
                && self.fps > 0 && spawn_ok(*self) && masses_ok(*self) && !parameters_ok(*self),
            r == Err::<(), ConfigError>(ConfigError::TooManyOrganisms) <==> size_ok(*self)
                && self.fps > 0 && spawn_ok(*self) && masses_ok(*self) && parameters_ok(*self)
                && self.initial_npcs > MAX_POPULATION,
    {
        if !(0 < self.size && self.size <= MAX_COORD) {
            return Err(ConfigError::InvalidSize);
        }
        if self.fps == 0 {
            return Err(ConfigError::ZeroTickRate);
        }
        if !(0 < self.food_spawn_rate && self.food_spawn_rate <= self.fps) {
            return Err(ConfigError::InvalidSpawnRate);
        }
        if !(1 <= self.food_mass_min && self.food_mass_min <= self.food_mass_max
            && self.food_mass_max <= MAX_MASS && 1 <= self.npc_mass_min && self.npc_mass_min
            <= self.npc_mass_max && self.npc_mass_max <= MAX_MASS) {
            return Err(ConfigError::InvalidMassRange);
        }
        if !(0 <= self.food_perception_radius && self.food_perception_radius <= MAX_COORD && 0
            <= self.cell_perception_radius && self.cell_perception_radius <= MAX_COORD && 0
            <= self.base_speed && self.base_speed <= MAX_COORD && 1 <= self.speed_ref_mass
            && self.speed_ref_mass <= MAX_MASS && self.eat_diff <= MAX_MASS) {
            return Err(ConfigError::InvalidParameter);
        }
        if self.initial_npcs > MAX_POPULATION {
            return Err(ConfigError::TooManyOrganisms);
        }
        Ok(())
    }

    /// Ticks between two food spawns.
    pub fn spawn_interval(&self) -> (r: u64)
        requires
            self.wf(),
        ensures
            r == self.fps / self.food_spawn_rate,
            r >= 1,
    {
        assert(self.fps / self.food_spawn_rate >= 1) by (nonlinear_arith)
            requires
                0 < self.food_spawn_rate <= self.fps,
        ;
        self.fps / self.food_spawn_rate
    }
}

/// Addresses of the relay server.
#[derive(Debug, Clone)]
pub struct Config {
    pub host: String,
    pub port: String,
    pub static_path: String,
    pub sub_at: String,
}

impl Config {
    pub fn new(host: String, port: String, static_path: String, sub_at: String) -> (r: Config)
        ensures
            r.host@ == host@,
            r.port@ == port@,
            r.static_path@ == static_path@,
            r.sub_at@ == sub_at@,
    {
        Config { host, port, static_path, sub_at }
    }

    /// The address to listen on: `host:port`.
    pub fn listen_addr(&self) -> (r: String)
        ensures
            r@ == self.host@ + seq![':'] + self.port@,
    {
        let colon = ":";
        proof {
            reveal_strlit(":");
        }
        let mut r = self.host.clone();
        r.append(colon);
        r.append(self.port.as_str());
        r
    }
}

} // verus!
