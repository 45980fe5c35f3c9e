use forest_gen::map::grid::cells;
use forest_gen::map::trees::generators::{noise_coordinate, Generator};
use forest_gen::map::trees::{Config, Placement, TreeBuilderBuilder};
use forest_gen::map::{plant, WorldBuilder};
use noise::{NoiseFn, Perlin};

/// Perlin noise as a field of scalars, read where the library says.
struct PerlinField(Perlin);

impl Generator for PerlinField {
    fn compute(&self, x: i32, z: i32) -> i64 {
        let point = [
            noise_coordinate(x) as f64 / 1_000_000.0,
            noise_coordinate(z) as f64 / 1_000_000.0,
        ];
        (self.0.get(point) * 1_000_000.0).floor() as i64
    }
}

/// The size of the tree at a cell, computed in floating point all the way.
fn size_in_floating_point(perlin: &Perlin, x: i32, z: i32, scale: f64) -> f64 {
    perlin.get([(x + 50) as f64 / 20.1, (z + 50) as f64 / 20.1]) * scale
}

/// Whether rounding to scalars may move `size` over the threshold or over
/// the edge between two levels.
fn is_on_an_edge(size: f64) -> bool {
    (size - size.round()).abs() < 0.001
}

fn level_at(placements: &[Placement], x: i32, z: i32) -> Option<u32> {
    placements
        .iter()
        .find(|p| p.position.x == x as i64 * 1_000_000 && p.position.z == z as i64 * 1_000_000)
        .map(|p| p.level)
}

#[test]
fn noise_is_read_inside_its_first_five_units() {
    for v in -50..50 {
        let at = noise_coordinate(v);
        assert!(0 <= at && at < 5_000_000);
        let exact = (v + 50) as f64 / 20.1;
        assert!((at as f64 / 1_000_000.0 - exact).abs() < 0.000_001);
    }
}

#[test]
fn noise_world_agrees_with_floating_point() {
    let perlin = Perlin::new();
    let mut commands = Vec::new();
    let mut meshes = Vec::new();
    let mut materials = Vec::new();
    let result = WorldBuilder::new(100, 100, PerlinField(perlin), 8).build(
        &mut commands,
        &mut meshes,
        &mut materials,
    );
    assert_eq!(result, Ok(()));
    let mut compared = 0;
    for (x, z) in cells(100, 100) {
        let size = size_in_floating_point(&perlin, x, z, 8.0);
        if is_on_an_edge(size) {
            continue;
        }
        let expected = if size > 2.0 { Some(size as u32) } else { None };
        assert_eq!(level_at(&commands, x, z), expected);
        compared += 1;
    }
    assert!(compared > 2400);
    assert!(!commands.is_empty());
    assert!(commands.len() < 2500);
}

#[test]
fn noise_forest_of_twenty_sizes_scaled_by_eight() {
    let perlin = Perlin::new();
    let field = PerlinField(perlin);
    let mut meshes = Vec::new();
    let mut materials = Vec::new();
    let trees = TreeBuilderBuilder::new()
        .with_config(Config { tile_height: 10_000_000, ..Config::default() })
        .with_levels(20)
        .build(&mut meshes, &mut materials)
        .unwrap();
    assert_eq!(meshes.len(), 42);
    let mut commands = Vec::new();
    for (x, z) in cells(100, 100) {
        assert_eq!(plant(&trees, x, z, field.compute(x, z), 8, &mut commands), Ok(()));
    }
    for p in &commands {
        assert!(2 <= p.level && p.level < 8);
        assert_eq!(meshes[p.foliage.mesh].height, 800_000 + 410_000 * p.level as i64);
    }
    for (x, z) in cells(100, 100) {
        let size = size_in_floating_point(&perlin, x, z, 8.0);
        if !is_on_an_edge(size) {
            let expected = if size > 2.0 { Some(size as u32) } else { None };
            assert_eq!(level_at(&commands, x, z), expected);
        }
    }
}
