use emerge::fixed::integer_sqrt;
use emerge::physics::{
    calculate_electrostatic_forces_between_nodes, calculate_spring_forces_between_nodes,
    is_in_range, Config,
};
use emerge::vector::{Force, Position};

fn at(x: i64, y: i64) -> Position {
    Position { x, y }
}

#[test]
fn spring_forces_1() {
    let config = Config::standard();
    let force = calculate_spring_forces_between_nodes(&config, &at(0, 0), &at(300_000, 0));
    assert_eq!(force, Force { x: -200_000, y: 0 });
}

#[test]
fn spring_forces_2() {
    let config = Config::standard();
    let force = calculate_spring_forces_between_nodes(&config, &at(0, 300_000), &at(0, 0));
    assert_eq!(force, Force { x: 0, y: 200_000 });
}

#[test]
fn spring_forces_3() {
    let config = Config::standard();
    let force = calculate_spring_forces_between_nodes(&config, &at(0, 0), &at(300_000, 300_000));
    assert_eq!(force, Force { x: -229_289, y: -229_289 });
}

#[test]
fn electrostatic_forces_1() {
    let config = Config::standard();
    let force = calculate_electrostatic_forces_between_nodes(&config, &at(0, 0), &at(10_000, 0));
    assert_eq!(force, Force { x: 200_000, y: 0 });
}

#[test]
fn spring_at_rest_length_exerts_no_force() {
    let config = Config::standard();
    let force = calculate_spring_forces_between_nodes(&config, &at(0, 0), &at(100_000, 0));
    assert_eq!(force, Force { x: 0, y: 0 });
    let force = calculate_spring_forces_between_nodes(&config, &at(-7_000, 40_000), &at(-7_000, -60_000));
    assert_eq!(force, Force { x: 0, y: 0 });
}

#[test]
fn spring_force_scales_with_the_spring_constant() {
    for k in [0i64, 1, 500, 1_000, 2_500, 100_000] {
        let config = Config { spring_constant: k, ..Config::standard() };
        let force = calculate_spring_forces_between_nodes(&config, &at(0, 0), &at(300_000, 0));
        assert_eq!(force, Force { x: -200 * (k as i128), y: 0 });
    }
}

#[test]
fn compressed_spring_pushes_the_ends_apart() {
    let config = Config::standard();
    let force = calculate_spring_forces_between_nodes(&config, &at(0, 0), &at(40_000, 0));
    assert_eq!(force, Force { x: 60_000, y: 0 });
}

#[test]
fn spring_force_is_opposite_on_the_other_end() {
    let config = Config::standard();
    let a = at(12_345, -6_789);
    let b = at(-222_222, 91_919);
    let on_b = calculate_spring_forces_between_nodes(&config, &a, &b);
    let on_a = calculate_spring_forces_between_nodes(&config, &b, &a);
    assert_eq!(on_a, Force { x: -on_b.x, y: -on_b.y });
    assert_ne!(on_a, Force { x: 0, y: 0 });
}

#[test]
fn electrostatic_force_is_the_constant_over_the_squared_distance() {
    for c in [0i64, 1_000, 20_000_000, 35_000_000, 1_000_000_000_000] {
        let config = Config { electrostatic_constant: c, ..Config::standard() };
        let force =
            calculate_electrostatic_forces_between_nodes(&config, &at(0, 0), &at(10_000, 0));
        assert_eq!(force, Force { x: (c as i128) / 100, y: 0 });
        let back =
            calculate_electrostatic_forces_between_nodes(&config, &at(10_000, 0), &at(0, 0));
        assert_eq!(back, Force { x: -(c as i128) / 100, y: 0 });
    }
}

#[test]
fn electrostatic_force_along_a_diagonal() {
    let config = Config::standard();
    let force =
        calculate_electrostatic_forces_between_nodes(&config, &at(0, 0), &at(30_000, 40_000));
    assert_eq!(force, Force { x: 4_800, y: 6_400 });
}

#[test]
fn coincident_nodes_exert_no_force() {
    let config = Config::standard();
    let p = at(5_000, 5_000);
    assert_eq!(calculate_spring_forces_between_nodes(&config, &p, &p), Force { x: 0, y: 0 });
    assert_eq!(
        calculate_electrostatic_forces_between_nodes(&config, &p, &p),
        Force { x: 0, y: 0 }
    );
}

#[test]
fn range_ends_at_the_cutoff() {
    let config = Config::standard();
    assert!(is_in_range(&config, &at(0, 0), &at(99_999, 0)));
    assert!(!is_in_range(&config, &at(0, 0), &at(100_000, 0)));
    assert!(!is_in_range(&config, &at(0, 0), &at(0, -250_000)));
    assert!(is_in_range(&config, &at(0, 0), &at(60_000, 79_999)));
    assert!(!is_in_range(&config, &at(0, 0), &at(60_000, 80_000)));
    assert!(is_in_range(&config, &at(3, 3), &at(3, 3)));
}

#[test]
fn forces_at_the_corners_of_the_world_are_computed() {
    let config = Config {
        dt: 10_000,
        spring_constant: 100_000,
        rest_length: 0,
        electrostatic_constant: 1_000_000_000_000,
        repulsion_cutoff: 3_000_000_000_000,
    };
    assert!(config.is_valid());
    let low = at(-1_000_000_000_000, -1_000_000_000_000);
    let high = at(1_000_000_000_000, 1_000_000_000_000);
    let force = calculate_spring_forces_between_nodes(&config, &low, &high);
    assert_eq!(force, Force { x: -200_000_000_000_000, y: -200_000_000_000_000 });
    assert!(is_in_range(&config, &low, &high));
    let near = calculate_electrostatic_forces_between_nodes(&config, &low, &at(-999_999_999_999, -1_000_000_000_000));
    assert_eq!(near, Force { x: 1_000_000_000_000_000_000, y: 0 });
}

#[test]
fn standard_configuration_is_valid() {
    let config = Config::standard();
    assert!(config.is_valid());
    assert_eq!(config.dt, 100);
    assert_eq!(config.spring_constant, 1_000);
    assert_eq!(config.rest_length, 100_000);
    assert_eq!(config.electrostatic_constant, 20_000_000);
    assert_eq!(config.repulsion_cutoff, 100_000);
}

#[test]
fn configuration_limits_are_checked() {
    let good = Config::standard();
    assert!(!Config { dt: 0, ..good }.is_valid());
    assert!(!Config { dt: 10_001, ..good }.is_valid());
    assert!(Config { dt: 10_000, ..good }.is_valid());
    assert!(!Config { spring_constant: -1, ..good }.is_valid());
    assert!(!Config { spring_constant: 100_001, ..good }.is_valid());
    assert!(!Config { rest_length: -1, ..good }.is_valid());
    assert!(!Config { rest_length: 3_000_000_000_001, ..good }.is_valid());
    assert!(!Config { electrostatic_constant: -1, ..good }.is_valid());
    assert!(!Config { electrostatic_constant: 1_000_000_000_001, ..good }.is_valid());
    assert!(!Config { repulsion_cutoff: -1, ..good }.is_valid());
    assert!(Config { repulsion_cutoff: 0, ..good }.is_valid());
}

#[test]
fn integer_square_roots() {
    assert_eq!(integer_sqrt(0), 0);
    assert_eq!(integer_sqrt(1), 1);
    assert_eq!(integer_sqrt(2), 1);
    assert_eq!(integer_sqrt(3), 1);
    assert_eq!(integer_sqrt(4), 2);
    assert_eq!(integer_sqrt(99), 9);
    assert_eq!(integer_sqrt(100), 10);
    assert_eq!(integer_sqrt(180_000_000_000), 424_264);
    assert_eq!(integer_sqrt(u128::MAX), u64::MAX as u128);
    assert_eq!(integer_sqrt((u64::MAX as u128) * (u64::MAX as u128) - 1), u64::MAX as u128 - 1);
}

#[test]
fn positions_know_whether_they_are_in_the_world() {
    assert!(at(0, 0).is_in_world());
    assert!(at(1_000_000_000_000, -1_000_000_000_000).is_in_world());
    assert!(!at(1_000_000_000_001, 0).is_in_world());
    assert!(!at(0, -1_000_000_000_001).is_in_world());
}
