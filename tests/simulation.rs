use microbiome::biome::{get_perceived_frame, spawn_food};
use microbiome::config::{BiomeConfig, Config, ConfigError};
use microbiome::entities::{Food, Frame, NPCKind, QTIndexMassItem, WeightedPoint, NPC};
use microbiome::geometry::{isqrt, normalize, restrict_cell_to_bounds, Pos, Shape, Vec2};
use microbiome::index::SpatialIndex;
use microbiome::invariants::{mass_decay, radius, speed, SIZE};
use microbiome::util::{random_cell, random_color, random_heading};
use microbiome::biome::frame_pause;
use microbiome::invariants::MAX_MASS;
use microbiome::Microbiome;

fn advanced(x: i64, y: i64, mass: u64, dir: Vec2) -> NPC {
    NPC::new(Pos::new(x, y), mass, String::from("#ffffff"), NPCKind::Advanced { dir })
}

fn food(x: i64, y: i64, mass: u64) -> Food {
    Food::new(Pos::new(x, y), mass, String::from("#00ff00"))
}

fn heading(npc: &NPC) -> Vec2 {
    match npc.kind {
        NPCKind::Linear { dir } => dir,
        NPCKind::Advanced { dir } => dir,
    }
}

/// A simulation one tick past a spawn, so that the next tick spawns nothing.
fn biome(npcs: Vec<NPC>, food: Vec<Food>) -> Microbiome {
    Microbiome::from_parts(BiomeConfig::standard(), npcs, food, 1)
}

#[test]
fn scenario_a_organism_eats_nearby_food() {
    let right = Vec2 { x: 1000, y: 0 };
    let mut mb = biome(
        vec![advanced(250_000, 250_000, 100, right)],
        vec![food(255_000, 250_000, 2)],
    );
    assert!(!mb.spawn_due());
    mb.advance(None);
    assert_eq!(mb.npcs().len(), 1);
    assert_eq!(mb.npcs()[0].mass, 102);
    assert!(mb.food().is_empty());
    assert_eq!(mb.elapsed(), 2);
}

#[test]
fn scenario_b_heavier_organism_eats_lighter_one() {
    let up = Vec2 { x: 0, y: 1000 };
    let mut mb = biome(
        vec![advanced(252_000, 250_000, 10, up), advanced(250_000, 250_000, 50, up)],
        vec![],
    );
    mb.advance(None);
    assert_eq!(mb.npcs().len(), 1);
    assert_eq!(mb.npcs()[0].mass, 60);
}

#[test]
fn scenario_c_flees_predator_rather_than_food() {
    let up = Vec2 { x: 0, y: 1000 };
    let mut mb = biome(
        vec![advanced(250_000, 250_000, 10, up), advanced(350_000, 250_000, 50, up)],
        vec![food(260_000, 250_000, 1)],
    );
    mb.advance(None);
    assert_eq!(mb.npcs().len(), 2);
    let small = &mb.npcs()[1];
    assert_eq!(small.mass, 10);
    assert_eq!(heading(small), Vec2 { x: -1000, y: 0 });
    assert!(small.pos.x < 250_000);
    assert_eq!(mb.food().len(), 1);
}

#[test]
fn scenario_c_choose_heading_flees() {
    let frame = Frame::new(
        vec![WeightedPoint::new(Pos::new(350_000, 250_000), 50)],
        vec![WeightedPoint::new(Pos::new(260_000, 250_000), 1)],
    );
    let dir = microbiome::entities::choose_heading(
        Vec2 { x: 0, y: 1000 },
        Pos::new(250_000, 250_000),
        10,
        &frame,
        5,
    );
    assert_eq!(dir, Vec2 { x: -1000, y: 0 });
}

#[test]
fn scenario_d_straight_line_then_clamped() {
    let dir = Vec2 { x: 600, y: 800 };
    let mut mb = biome(vec![advanced(100_000, 100_000, 25, dir)], vec![]);
    mb.advance(None);
    let o = &mb.npcs()[0];
    assert_eq!(heading(o), dir);
    assert_eq!(o.pos, Pos::new(101_405, 101_874));

    let right = Vec2 { x: 1000, y: 0 };
    let mut mb = biome(vec![advanced(494_000, 250_000, 25, right)], vec![]);
    mb.advance(None);
    assert_eq!(mb.npcs()[0].pos, Pos::new(495_000, 250_000));
    assert_eq!(heading(&mb.npcs()[0]), right);
    mb.advance(None);
    assert_eq!(mb.npcs()[0].pos, Pos::new(495_000, 250_000));
}

#[test]
fn equal_margin_does_not_permit_eating() {
    let up = Vec2 { x: 0, y: 1000 };
    let mut mb = biome(
        vec![advanced(250_000, 250_000, 15, up), advanced(251_000, 250_000, 10, up)],
        vec![],
    );
    mb.advance(None);
    assert_eq!(mb.npcs().len(), 2);
    assert_eq!(mb.npcs()[0].mass, 15);
    assert_eq!(mb.npcs()[1].mass, 10);

    let mut mb = biome(
        vec![advanced(250_000, 250_000, 16, up), advanced(251_000, 250_000, 10, up)],
        vec![],
    );
    mb.advance(None);
    assert_eq!(mb.npcs().len(), 1);
    assert_eq!(mb.npcs()[0].mass, 26);
}

#[test]
fn each_organism_is_eaten_once() {
    let up = Vec2 { x: 0, y: 1000 };
    let mut mb = biome(
        vec![
            advanced(250_000, 250_000, 100, up),
            advanced(250_000, 253_000, 97, up),
            advanced(252_000, 251_000, 3, up),
        ],
        vec![],
    );
    mb.advance(None);
    let total: u64 = mb.npcs().iter().map(|n| n.mass).sum();
    assert_eq!(total, 200);
    assert_eq!(mb.npcs().len(), 2);
    assert_eq!(mb.npcs()[0].mass, 103);
    assert_eq!(mb.npcs()[1].mass, 97);
}

#[test]
fn organisms_are_ordered_heaviest_first() {
    let up = Vec2 { x: 0, y: 1000 };
    let mut mb = biome(
        vec![
            advanced(50_000, 50_000, 20, up),
            advanced(450_000, 50_000, 30, up),
            advanced(50_000, 450_000, 25, up),
        ],
        vec![],
    );
    mb.advance(None);
    let masses: Vec<u64> = mb.npcs().iter().map(|n| n.mass).collect();
    assert_eq!(masses, vec![30, 25, 20]);
}

#[test]
fn tick_is_deterministic_without_spawn() {
    let make = || {
        biome(
            vec![
                advanced(100_000, 120_000, 30, Vec2 { x: 1000, y: 0 }),
                advanced(130_000, 100_000, 20, Vec2 { x: 0, y: -1000 }),
                advanced(300_000, 300_000, 22, Vec2 { x: 600, y: 800 }),
            ],
            vec![food(110_000, 120_000, 2), food(310_000, 300_000, 3)],
        )
    };
    let mut a = make();
    let mut b = make();
    for _ in 0..2 {
        a.advance(None);
        b.advance(None);
    }
    assert_eq!(a.npcs().len(), b.npcs().len());
    for (x, y) in a.npcs().iter().zip(b.npcs().iter()) {
        assert_eq!(x.pos, y.pos);
        assert_eq!(x.mass, y.mass);
        assert_eq!(x.kind, y.kind);
    }
    assert_eq!(a.food().len(), b.food().len());
}

#[test]
fn mass_never_decreases() {
    let mut mb = Microbiome::new(BiomeConfig::standard());
    for _ in 0..30 {
        let before: Vec<u64> = mb.npcs().iter().map(|n| n.mass).collect();
        let min_before = before.iter().copied().min().unwrap_or(0);
        mb.step();
        for n in mb.npcs() {
            assert!(n.mass >= min_before);
        }
    }
    assert_eq!(mb.elapsed(), 30);
}

#[test]
fn spawn_adds_pellet_when_due() {
    let mut mb = Microbiome::from_parts(BiomeConfig::standard(), vec![], vec![], 0);
    assert!(mb.spawn_due());
    mb.advance(Some(food(10_000, 10_000, 2)));
    assert_eq!(mb.food().len(), 1);
    mb.advance(Some(food(20_000, 10_000, 2)));
    assert_eq!(mb.food().len(), 1);
    mb.step();
    mb.step();
    assert_eq!(mb.food().len(), 2);
}

#[test]
fn empty_biome_ticks() {
    let mut mb = biome(vec![], vec![]);
    mb.advance(None);
    assert!(mb.npcs().is_empty());
    assert!(mb.food().is_empty());
}

#[test]
fn new_biome_has_configured_population() {
    let cfg = BiomeConfig::standard();
    let mb = Microbiome::new(cfg);
    assert_eq!(mb.npcs().len(), cfg.initial_npcs);
    assert_eq!(mb.food().len(), cfg.initial_food);
    for n in mb.npcs() {
        assert!(n.mass >= 20 && n.mass <= 30);
        assert!(n.pos.x >= 0 && n.pos.x <= SIZE);
    }
}

#[test]
fn linear_kind_bounces_off_walls() {
    let cfg = BiomeConfig::standard();
    let mut o = NPC::new(
        Pos::new(2_000, 250_000),
        25,
        String::from("#123456"),
        NPCKind::Linear { dir: Vec2 { x: -1000, y: 0 } },
    );
    o.step(&Frame::new(vec![], vec![]), &cfg);
    assert_eq!(o.kind, NPCKind::Linear { dir: Vec2 { x: 1000, y: 0 } });
    assert_eq!(o.pos, Pos::new(5_000, 250_000));
}

#[test]
fn radius_is_square_root_of_mass() {
    assert_eq!(radius(100), 10_000);
    assert_eq!(radius(2), 1_414);
    assert_eq!(radius(1), 1_000);
    assert_eq!(radius(50), radius(50));
    assert_eq!(isqrt(0), 0);
    assert_eq!(isqrt(99), 9);
    assert_eq!(isqrt(100), 10);
    let o = advanced(0, 0, 49, Vec2 { x: 1000, y: 0 });
    assert_eq!(o.radius(), 7_000);
    assert_eq!(food(0, 0, 4).radius(), 2_000);
}

#[test]
fn speed_decreases_with_mass() {
    assert_eq!(speed(50, 4_000, 50), 2_000);
    assert_eq!(speed(100, 4_000, 50), 1_656);
    assert_eq!(speed(25, 4_000, 50), 2_343);
    assert!(speed(200, 4_000, 50) < speed(100, 4_000, 50));
    assert_eq!(mass_decay(10), 0);
}

#[test]
fn normalize_scales_to_unit() {
    assert_eq!(normalize(3, 4), Some(Vec2 { x: 600, y: 800 }));
    assert_eq!(normalize(-5, 0), Some(Vec2 { x: -1000, y: 0 }));
    assert_eq!(normalize(0, 0), None);
}

#[test]
fn restrict_clamps_to_body_margin() {
    assert_eq!(restrict_cell_to_bounds(-10, 600_000, 5_000, 500_000), Pos::new(5_000, 495_000));
    assert_eq!(restrict_cell_to_bounds(100, 100, 300_000, 500_000), Pos::new(250_000, 250_000));
}

#[test]
fn index_query_is_read_only_and_pop_removes() {
    let mut idx: SpatialIndex<Food> = SpatialIndex::new();
    idx.insert(food(0, 0, 1));
    idx.insert_many(vec![food(3_000, 4_000, 2), food(10_000, 0, 3)]);
    let disc = Shape::circle(Pos::new(0, 0), 5_000);
    let seen = idx.query(&disc);
    assert_eq!(seen.len(), 2);
    assert_eq!(seen[1], WeightedPoint::new(Pos::new(3_000, 4_000), 2));
    assert_eq!(idx.len(), 3);
    let taken = idx.pop(&disc);
    assert_eq!(taken.len(), 2);
    assert_eq!(idx.len(), 1);
    assert!(idx.pop(&disc).is_empty());
    let rect = Shape::Rect { min: Pos::new(9_000, -1), max: Pos::new(11_000, 1) };
    assert_eq!(idx.query(&rect).len(), 1);
    assert!(idx.query(&Shape::circle(Pos::new(400_000, 400_000), 10)).is_empty());
}

#[test]
fn validate_reports_each_error() {
    let ok = BiomeConfig::standard();
    assert_eq!(ok.validate(), Ok(()));
    let mut c = ok;
    c.size = 0;
    assert_eq!(c.validate(), Err(ConfigError::InvalidSize));
    let mut c = ok;
    c.fps = 0;
    assert_eq!(c.validate(), Err(ConfigError::ZeroTickRate));
    let mut c = ok;
    c.food_spawn_rate = 0;
    assert_eq!(c.validate(), Err(ConfigError::InvalidSpawnRate));
    let mut c = ok;
    c.npc_mass_min = 40;
    assert_eq!(c.validate(), Err(ConfigError::InvalidMassRange));
    let mut c = ok;
    c.cell_perception_radius = -1;
    assert_eq!(c.validate(), Err(ConfigError::InvalidParameter));
    let mut c = ok;
    c.initial_npcs = 10_000_000;
    assert_eq!(c.validate(), Err(ConfigError::TooManyOrganisms));
    assert_eq!(ok.spawn_interval(), 3);
}

#[test]
fn random_values_respect_ranges() {
    let c = random_color();
    assert_eq!(c.len(), 7);
    assert!(c.starts_with('#'));
    assert!(c[1..].chars().all(|ch| ch.is_ascii_hexdigit() && !ch.is_ascii_uppercase()));
    let (pos, mass, color) = random_cell(20, 30, 500_000);
    assert!((20..=30).contains(&mass));
    assert!(pos.x >= 0 && pos.x <= 500_000 && pos.y >= 0 && pos.y <= 500_000);
    assert_eq!(color.len(), 7);
    let f = spawn_food(&BiomeConfig::standard());
    assert!((1..=3).contains(&f.mass));
}

#[test]
fn listen_addr_joins_host_and_port() {
    let c = Config::new(
        String::from("0.0.0.0"),
        String::from("8080"),
        String::from("ui"),
        String::from("tcp://127.0.0.1:5556"),
    );
    assert_eq!(c.listen_addr(), "0.0.0.0:8080");
}

#[test]
fn perception_excludes_self_and_far_bodies() {
    let cfg = BiomeConfig::standard();
    let mut food_index: SpatialIndex<Food> = SpatialIndex::new();
    food_index.insert_many(vec![food(100_000, 120_000, 1), food(100_000, 200_000, 2)]);
    let mut orgs: SpatialIndex<QTIndexMassItem> = SpatialIndex::new();
    orgs.insert_many(vec![
        QTIndexMassItem::new(Pos::new(100_000, 100_000), 20, 0),
        QTIndexMassItem::new(Pos::new(250_000, 100_000), 30, 1),
        QTIndexMassItem::new(Pos::new(400_000, 100_000), 40, 2),
    ]);
    let frame = get_perceived_frame(&food_index, &orgs, Pos::new(100_000, 100_000), 0, &cfg);
    assert_eq!(frame.food, vec![WeightedPoint::new(Pos::new(100_000, 120_000), 1)]);
    assert_eq!(frame.npcs, vec![WeightedPoint::new(Pos::new(250_000, 100_000), 30)]);
}

#[test]
fn random_cell_draws_vary() {
    let mut masses = Vec::new();
    let mut xs = Vec::new();
    for _ in 0..64 {
        let (pos, mass, _) = random_cell(0, 1_000_000, 500_000);
        masses.push(mass);
        xs.push(pos.x);
    }
    assert!(masses.iter().any(|&m| m != 0 && m != 1_000_000));
    assert!(xs.iter().any(|&x| x != 0 && x != 500_000));
    let first = random_color();
    assert!((0..64).any(|_| random_color() != first));
}

#[test]
fn speed_stays_positive_for_heaviest_mass() {
    assert_eq!(speed(MAX_MASS, 4_000, 50), 1);
    assert!(speed(1_000_000, 4_000, 50) > 0);
    assert_eq!(speed(MAX_MASS, 0, 50), 0);
}

#[test]
fn random_heading_is_unit_length() {
    for _ in 0..64 {
        let h = random_heading();
        let len2 = h.x * h.x + h.y * h.y;
        assert!(len2 <= 1_002_001 && len2 >= 996_000, "{h:?}");
    }
}

#[test]
fn new_biome_draws_within_configured_ranges() {
    let cfg = BiomeConfig::standard();
    let mb = Microbiome::new(cfg);
    for f in mb.food() {
        assert!((1..=3).contains(&f.mass));
        assert!(f.pos.x >= 0 && f.pos.x <= cfg.size && f.pos.y >= 0 && f.pos.y <= cfg.size);
    }
    for n in mb.npcs() {
        assert!(matches!(n.kind, NPCKind::Advanced { .. }));
        assert!(n.pos.y >= 0 && n.pos.y <= cfg.size);
    }
}

#[test]
fn standard_config_values() {
    let c = BiomeConfig::standard();
    assert_eq!(c.size, 500_000);
    assert_eq!(c.fps, 30);
    assert_eq!(c.initial_npcs, 10);
    assert_eq!(c.initial_food, 20);
    assert_eq!((c.food_mass_min, c.food_mass_max), (1, 3));
    assert_eq!((c.npc_mass_min, c.npc_mass_max), (20, 30));
    assert!(c.grow_before_hunt);
}

#[test]
fn frame_pause_waits_for_rest_of_budget() {
    assert_eq!(frame_pause(33, 10), Some(23));
    assert_eq!(frame_pause(33, 33), Some(0));
    assert_eq!(frame_pause(33, 40), None);
}

#[test]
fn normalize_short_vectors_accurately() {
    assert_eq!(normalize(1, 1), Some(Vec2 { x: 707, y: 707 }));
    assert_eq!(normalize(1, 0), Some(Vec2 { x: 1000, y: 0 }));
    assert_eq!(normalize(0, -2), Some(Vec2 { x: 0, y: -1000 }));
}

#[test]
fn random_positions_stay_short_of_far_wall() {
    for _ in 0..32 {
        let (pos, _, _) = random_cell(1, 1, 1);
        assert_eq!(pos, Pos::new(0, 0));
        let (pos, _, _) = random_cell(1, 3, 2);
        assert!(pos.x < 2 && pos.y < 2);
    }
    let cfg = BiomeConfig::standard();
    let mb = Microbiome::new(cfg);
    for n in mb.npcs() {
        assert!(n.pos.x < cfg.size && n.pos.y < cfg.size);
        assert_eq!(n.color.len(), 7);
    }
    for f in mb.food() {
        assert!(f.pos.x < cfg.size && f.pos.y < cfg.size);
    }
}
