use forest_gen::map::trees::generators::{
    noise_coordinate, CraterGenerator, DonutGenerator, Generator, WaveGenerator,
};
use forest_gen::scalar::{distance, UNIT};

#[test]
fn crater_is_zero_at_the_origin() {
    assert_eq!(CraterGenerator::new(100, 100, 8).compute(0, 0), 0);
    assert_eq!(CraterGenerator::new(1, 0, 8).compute(0, 0), 0);
    assert_eq!(CraterGenerator::new(-7, 3, 0).compute(0, 0), 0);
    assert_eq!(CraterGenerator::new(i32::MIN, i32::MAX, -1).compute(0, 0), 0);
}

#[test]
fn crater_is_a_half_at_the_corner_of_the_walk() {
    let g = CraterGenerator::new(100, 100, 8);
    assert_eq!(g.compute(50, 50), 500_000);
    assert_eq!(g.compute(-50, -50), 500_000);
    assert_eq!(g.compute(-50, 50), 500_000);
}

#[test]
fn crater_is_one_as_far_out_as_the_map_is_wide() {
    assert_eq!(CraterGenerator::new(100, 100, 8).compute(100, 100), UNIT);
    assert_eq!(CraterGenerator::new(100, 100, 8).compute(-100, 100), UNIT);
    assert_eq!(CraterGenerator::new(3, 4, 8).compute(3, 4), UNIT);
    assert_eq!(CraterGenerator::new(3, 4, 8).compute(5, 0), UNIT);
    assert_eq!(CraterGenerator::new(0, 9, 8).compute(0, 9), UNIT);
    assert_eq!(CraterGenerator::new(i32::MIN, i32::MIN, 8).compute(i32::MIN, i32::MIN), UNIT);
}

#[test]
fn crater_rounds_down() {
    let g = CraterGenerator::new(100, 100, 8);
    assert_eq!(g.compute(3, 4), 35_355);
    assert_eq!(g.compute(-50, 48), 490_102);
    assert_eq!(CraterGenerator::new(7, 0, 8).compute(1, 0), 142_857);
    assert_eq!(CraterGenerator::new(3, 4, 8).compute(1, 0), 200_000);
    assert_eq!(CraterGenerator::new(3, 4, 8).compute(0, 2), 400_000);
}

#[test]
fn crater_rises_outwards() {
    let g = CraterGenerator::new(100, 100, 8);
    let mut last = 0;
    for x in 0..200 {
        let v = g.compute(x, 0);
        assert!(last <= v);
        assert_eq!(v, g.compute(-x, 0));
        assert_eq!(v, g.compute(0, x));
        last = v;
    }
}

#[test]
fn crater_ignores_its_levels() {
    let a = CraterGenerator::new(100, 60, 8);
    let b = CraterGenerator::new(100, 60, -3);
    for (x, z) in [(0, 0), (5, 9), (-40, 22)] {
        assert_eq!(a.compute(x, z), b.compute(x, z));
    }
}

#[test]
fn crater_over_a_map_of_no_extent() {
    let g = CraterGenerator::new(0, 0, 8);
    assert_eq!(g.compute(0, 0), 0);
    assert_eq!(g.compute(1, 0), i64::MAX);
    assert_eq!(g.compute(-3, 9), i64::MAX);
}

#[test]
fn crater_takes_the_farthest_cells() {
    assert_eq!(CraterGenerator::new(i32::MAX, i32::MAX, 8).compute(i32::MIN, i32::MIN), 1_000_000);
    assert_eq!(CraterGenerator::new(i32::MIN, i32::MIN, 8).compute(i32::MAX, i32::MAX), 999_999);
    assert_eq!(CraterGenerator::new(1, 0, 8).compute(i32::MIN, i32::MIN), 3_037_000_499_976_049);
}

#[test]
fn donut_is_one_on_the_ridge() {
    let g = DonutGenerator::new(100, 100, 10_000_000);
    assert_eq!(g.compute(10, 0), UNIT);
    assert_eq!(g.compute(0, -10), UNIT);
    assert_eq!(g.compute(6, 8), UNIT);
    assert_eq!(g.compute(-8, 6), UNIT);
}

#[test]
fn donut_is_one_within_three_of_the_ridge() {
    let g = DonutGenerator::new(100, 100, 10_000_000);
    assert_eq!(g.compute(7, 0), UNIT);
    assert_eq!(g.compute(8, 0), UNIT);
    assert_eq!(g.compute(12, 0), UNIT);
    assert_eq!(g.compute(13, 0), UNIT);
    assert_eq!(DonutGenerator::new(100, 100, 0).compute(3, 0), UNIT);
    assert_eq!(DonutGenerator::new(100, 100, 0).compute(2, 2), UNIT);
    assert_eq!(DonutGenerator::new(100, 100, 1).compute(3, 0), UNIT);
    assert_eq!(DonutGenerator::new(100, 100, -1).compute(3, 0), 999_999);
}

#[test]
fn donut_falls_off_on_both_sides() {
    let g = DonutGenerator::new(100, 100, 10_000_000);
    let along: Vec<i64> = (0..16).map(|i| g.compute(2 * i, 0)).collect();
    assert_eq!(
        along,
        vec![
            300_000, 375_000, 500_000, 750_000, 1_000_000, 1_000_000, 1_000_000, 750_000,
            500_000, 375_000, 300_000, 250_000, 214_285, 187_500, 166_666, 150_000
        ]
    );
    assert_eq!(g.compute(14, 0), 750_000);
    assert_eq!(g.compute(6, 0), 750_000);
    assert_eq!(g.compute(1, 1), 349_414);
}

#[test]
fn donut_never_rises_away_from_the_ridge() {
    let radius = 20_000_000;
    let g = DonutGenerator::new(100, 100, radius);
    let mut cells: Vec<(i64, i64)> = Vec::new();
    for x in -50..50 {
        for z in -50..50 {
            cells.push(((distance(x, z) - radius).abs(), g.compute(x, z)));
        }
    }
    cells.sort();
    let mut i = 1;
    while i < cells.len() {
        assert!(cells[i - 1].1 >= cells[i].1);
        i += 1;
    }
    for (gap, value) in cells {
        assert!(value <= UNIT);
        assert_eq!(value == UNIT, gap <= 3 * UNIT);
    }
}

#[test]
fn donut_is_above_zero_up_to_three_million_from_the_ridge() {
    let g = DonutGenerator::new(0, 0, 0);
    assert_eq!(g.compute(2_999_999, 0), 1);
    assert_eq!(g.compute(3_000_000, 0), 1);
    assert_eq!(g.compute(3_000_001, 0), 0);
    assert_eq!(g.compute(1_500_000, 0), 2);
    let far = DonutGenerator::new(0, 0, -3_000_000_000_000);
    assert_eq!(far.compute(0, 0), 1);
    assert_eq!(far.compute(1, 0), 0);
    let near = DonutGenerator::new(100, 100, 20_000_000);
    for x in -50..50 {
        for z in -50..50 {
            assert!(0 < near.compute(x, z));
        }
    }
}

#[test]
fn donut_with_a_ridge_between_cells() {
    let g = DonutGenerator::new(100, 100, 10_500_000);
    assert_eq!(g.compute(14, 0), 857_142);
    assert_eq!(g.compute(7, 0), 857_142);
    assert_eq!(DonutGenerator::new(100, 100, -5_000_000).compute(0, 0), 600_000);
}

#[test]
fn donut_takes_the_farthest_ridges_and_cells() {
    assert_eq!(DonutGenerator::new(100, 100, i64::MAX).compute(0, 0), 0);
    assert_eq!(DonutGenerator::new(100, 100, i64::MIN).compute(i32::MIN, i32::MIN), 0);
    assert_eq!(DonutGenerator::new(0, 0, 0).compute(i32::MAX, i32::MIN), 0);
    assert_eq!(DonutGenerator::new(0, 0, 3_037_000_499_976_049).compute(i32::MIN, i32::MIN), UNIT);
}

#[test]
fn wave_phase_is_distance_times_frequency() {
    assert_eq!(WaveGenerator::new(100, 100, 8, 500_000).phase(3, 4), 2_500_000);
    assert_eq!(WaveGenerator::new(100, 100, 8, 1_000_000).phase(3, 4), 5_000_000);
    assert_eq!(WaveGenerator::new(100, 100, 8, 333_333).phase(2, 0), 666_666);
    assert_eq!(WaveGenerator::new(100, 100, 8, 500_000).phase(0, 0), 0);
    assert_eq!(WaveGenerator::new(100, 100, 8, 0).phase(9, 9), 0);
}

#[test]
fn wave_phase_rounds_down_below_zero_too() {
    assert_eq!(WaveGenerator::new(100, 100, 8, -300_000).phase(1, 1), -424_264);
    assert_eq!(WaveGenerator::new(100, 100, 8, 1).phase(1, 1), 1);
    assert_eq!(WaveGenerator::new(100, 100, 8, -1).phase(1, 1), -2);
}

#[test]
fn wave_phase_takes_the_farthest_cells() {
    assert_eq!(
        WaveGenerator::new(0, 0, 0, i64::MIN).phase(i32::MIN, i32::MIN),
        -28_011_385_487_393_063_572_629_195_265
    );
    assert_eq!(
        WaveGenerator::new(0, 0, 0, i64::MAX).phase(i32::MIN, i32::MIN),
        28_011_385_487_393_063_569_592_194_764
    );
}

#[test]
fn noise_coordinate_moves_and_scales() {
    assert_eq!(noise_coordinate(-50), 0);
    assert_eq!(noise_coordinate(0), 2_487_562);
    assert_eq!(noise_coordinate(1), 2_537_313);
    assert_eq!(noise_coordinate(49), 4_925_373);
    assert_eq!(noise_coordinate(50), 4_975_124);
    assert_eq!(noise_coordinate(-49), 49_751);
}

#[test]
fn noise_coordinate_rounds_down_below_zero_too() {
    assert_eq!(noise_coordinate(-51), -49_752);
    assert_eq!(noise_coordinate(-52), -99_503);
}

#[test]
fn noise_coordinate_takes_the_farthest_cells() {
    assert_eq!(noise_coordinate(i32::MAX), 106_839_984_925_373);
    assert_eq!(noise_coordinate(i32::MIN), -106_839_980_000_000);
}

fn as_float(scalar: i64) -> f64 {
    scalar as f64 / 1_000_000.0
}

#[test]
fn crater_agrees_with_floating_point() {
    for (width, depth) in [(100, 100), (60, 80), (7, 300)] {
        let g = CraterGenerator::new(width, depth, 8);
        let max = ((width * width + depth * depth) as f64).sqrt();
        for x in -50..50 {
            for z in -50..50 {
                let exact = ((x * x + z * z) as f64).sqrt() / max;
                let got = as_float(g.compute(x, z));
                assert!(got <= exact + 1e-12 && exact - got < 0.000_001);
            }
        }
    }
}

#[test]
fn donut_agrees_with_floating_point() {
    for radius in [0i64, 10_000_000, 17_500_000, 20_000_000, -4_000_000] {
        let g = DonutGenerator::new(100, 100, radius);
        for x in -50..50 {
            for z in -50..50 {
                let val = ((x * x + z * z) as f64).sqrt();
                let exact = 1.0 / ((val - as_float(radius)).abs() / 3.0).max(1.0);
                let got = as_float(g.compute(x, z));
                assert!((exact - got).abs() < 0.000_002);
            }
        }
    }
}

#[test]
fn wave_phase_agrees_with_floating_point() {
    for frequency in [500_000i64, 100_000, -250_000, 3_000_000] {
        let g = WaveGenerator::new(100, 100, 8, frequency);
        for x in -50..50 {
            for z in -50..50 {
                let exact = ((x * x + z * z) as f64).sqrt() * as_float(frequency);
                let got = g.phase(x, z) as f64 / 1_000_000.0;
                assert!((exact - got).abs() < 0.000_005);
            }
        }
    }
}

#[test]
fn crater_is_above_zero_from_a_millionth_of_the_diagonal() {
    let g = CraterGenerator::new(1_000_000, 0, 8);
    assert_eq!(g.compute(0, 0), 0);
    assert_eq!(g.compute(1, 0), 1);
    assert_eq!(g.compute(0, -2), 2);
    let wide = CraterGenerator::new(2_000_000, 0, 8);
    assert_eq!(wide.compute(1, 0), 0);
    assert_eq!(wide.compute(1, 1), 0);
    assert_eq!(wide.compute(2, 0), 1);
    let small = CraterGenerator::new(100, 100, 8);
    for x in -50..50 {
        for z in -50..50 {
            assert_eq!(small.compute(x, z) == 0, x == 0 && z == 0);
        }
    }
}
