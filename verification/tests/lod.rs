use cad_optimizer::lod::{count_levels, plan_lod_levels, LodLevel};
use cad_optimizer::optimizer::CADOptimizer;
use cad_optimizer::scalar::{Operation, Scalar};

fn s(x: f32) -> Scalar {
    Scalar::from_bits(x.to_bits())
}

fn f(x: Scalar) -> f32 {
    f32::from_bits(x.to_bits())
}

fn arithmetic(op: Operation, a: Scalar, b: Scalar) -> Scalar {
    let (x, y) = (f(a), f(b));
    s(match op {
        Operation::Add => x + y,
        Operation::Subtract => x - y,
        Operation::Multiply => x * y,
        Operation::Divide => x / y,
        Operation::SquareRoot => x.sqrt(),
    })
}

fn pairs(levels: &[LodLevel]) -> Vec<(f32, f32)> {
    levels.iter().map(|l| (f(l.distance), f(l.detail_ratio))).collect()
}

fn strictly_ordered(levels: &[LodLevel]) -> bool {
    let p = pairs(levels);
    (1..p.len()).all(|i| p[i - 1].0 < p[i].0 && p[i - 1].1 > p[i].1)
}

#[test]
fn complex_mesh_gets_four_levels() {
    let levels = CADOptimizer::new().calculate_lod_levels(200_000, &arithmetic);
    assert_eq!(levels.len(), 4);
    assert!(strictly_ordered(&levels));
    assert_eq!(pairs(&levels), vec![(50.0, 1.0), (100.0, 0.75), (150.0, 0.5), (200.0, 0.25)]);
}

#[test]
fn simple_mesh_gets_two_levels() {
    let levels = CADOptimizer::new().calculate_lod_levels(500, &arithmetic);
    assert_eq!(levels.len(), 2);
    assert!(strictly_ordered(&levels));
    assert_eq!(pairs(&levels), vec![(50.0, 1.0), (100.0, 0.5)]);
}

#[test]
fn middling_mesh_gets_three_levels() {
    let levels = plan_lod_levels(50_000, s(0.0), &arithmetic);
    assert_eq!(levels.len(), 3);
    assert!(strictly_ordered(&levels));
    assert_eq!(
        pairs(&levels),
        vec![
            (50.0, 1.0),
            (100.0, 1.0 - 1.0f32 / 3.0f32),
            (150.0, 1.0 - 2.0f32 / 3.0f32),
        ]
    );
}

#[test]
fn level_count_changes_above_the_thresholds() {
    assert_eq!(count_levels(0), 2);
    assert_eq!(count_levels(10_000), 2);
    assert_eq!(count_levels(10_001), 3);
    assert_eq!(count_levels(100_000), 3);
    assert_eq!(count_levels(100_001), 4);
    assert_eq!(count_levels(u32::MAX), 4);
    assert_eq!(plan_lod_levels(10_000, s(0.0), &arithmetic).len(), 2);
    assert_eq!(plan_lod_levels(10_001, s(0.0), &arithmetic).len(), 3);
    assert_eq!(plan_lod_levels(100_000, s(0.0), &arithmetic).len(), 3);
    assert_eq!(plan_lod_levels(100_001, s(0.0), &arithmetic).len(), 4);
}

#[test]
fn bias_spreads_the_distances() {
    let levels = plan_lod_levels(200_000, s(0.5), &arithmetic);
    assert_eq!(pairs(&levels), vec![(75.0, 1.0), (150.0, 0.75), (225.0, 0.5), (300.0, 0.25)]);
    let levels = plan_lod_levels(500, s(0.1), &arithmetic);
    assert_eq!(
        pairs(&levels),
        vec![(50.0 * (1.0 + 0.1f32), 1.0), (100.0 * (1.0 + 0.1f32), 0.5)]
    );
    assert!(strictly_ordered(&levels));
}

#[test]
fn levels_read_the_bias_of_the_settings() {
    let mut optimizer = CADOptimizer::new();
    let mut settings = optimizer.get_settings();
    settings.lod_bias = s(1.0);
    optimizer.configure(Ok(settings)).unwrap();
    let levels = optimizer.calculate_lod_levels(20_000, &arithmetic);
    let distances: Vec<f32> = levels.iter().map(|l| f(l.distance)).collect();
    assert_eq!(distances, vec![100.0, 200.0, 300.0]);
    assert_eq!(optimizer.get_settings(), settings);
}
