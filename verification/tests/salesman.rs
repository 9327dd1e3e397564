use genetic::entropy::StepEntropy;
use genetic::genomes;
use genetic::layout::LocationLayout;
use genetic::layout::TourMap;
use genetic::world::World;
use genetic::world::WorldSettings;
use genetic::GaError;
use genetic::Probability;

fn dist(a: (u8, u8), b: (u8, u8)) -> f32 {
    (genetic::genomes::distance_squared(a, b) as f32).sqrt()
}

#[test]
fn test_select() {
    let population = vec![
        1, 2, 3, 4, 5, 6, 7, 8, 9, 10, 11, 12, 13, 14, 15, 16, 17, 18, 19, 20, 21, 22, 23, 24, 25,
    ];
    let fitnesses: Vec<u64> = vec![0, 1, 0, 0, 1];
    let mut rng = StepEntropy::new(0, 1000);

    let result = genomes::select(&population, &fitnesses, &mut rng).unwrap();

    assert_eq!(result, vec![6, 7, 8, 9, 10, 21, 22, 23, 24, 25]);
}

#[test]
fn test_crossover() {
    let mut rng = StepEntropy::new(1, 2);
    let result = genomes::crossover(&vec![6, 2, 1, 4, 5, 3], &vec![5, 3, 1, 2, 4, 6], &mut rng);

    assert_eq!(result, vec![5, 2, 1, 4, 3, 6]);
}

#[test]
fn test_crossover_at_start() {
    let mut rng = StepEntropy::new(0, 3);
    let result = genomes::crossover(&vec![6, 2, 1, 4, 5, 3], &vec![5, 3, 1, 2, 4, 6], &mut rng);

    assert_eq!(result, vec![6, 2, 1, 5, 3, 4]);
}

#[test]
fn test_crossover_at_end() {
    let mut rng = StepEntropy::new(2, 2);
    let result = genomes::crossover(&vec![6, 2, 1, 4, 5, 3], &vec![5, 3, 1, 2, 4, 6], &mut rng);

    assert_eq!(result, vec![2, 6, 1, 4, 5, 3]);
}

#[test]
fn test_mutate() {
    let mut rng = StepEntropy::new(1, 2);
    let mut genome: Vec<u8> = vec![1, 2, 3, 4, 5, 6];

    genomes::mutate(&mut genome, &mut rng);

    assert_eq!(genome, vec![1, 4, 3, 2, 5, 6]);
}

#[test]
fn test_fitness() {
    let genome: Vec<u8> = vec![0, 2, 1, 3];
    let mut rng = StepEntropy::new(7, 13);
    let map = TourMap::new(50, 50, 4, LocationLayout::Random, &mut rng);

    let tour = genomes::scaled_distance(map.coords(0), map.coords(2))
        + genomes::scaled_distance(map.coords(2), map.coords(1))
        + genomes::scaled_distance(map.coords(1), map.coords(3))
        + genomes::scaled_distance(map.coords(3), map.coords(0));
    let expected = if tour == 0 {
        genetic::genomes::FITNESS_SCALE
    } else {
        genetic::genomes::FITNESS_SCALE / tour
    };

    assert_eq!(genomes::fitness(&genome, &map), expected);
}

#[test]
fn test_distance_same_point() {
    let point = (5, 5);
    assert_eq!(dist(point, point), 0.0);
}

#[test]
fn test_distance_horizontal() {
    let point_a = (0, 0);
    let point_b = (5, 0);
    assert_eq!(dist(point_a, point_b), 5.0);
}

#[test]
fn test_distance_vertical() {
    let point_a = (0, 0);
    let point_b = (0, 5);
    assert_eq!(dist(point_a, point_b), 5.0);
}

#[test]
fn test_distance_diagonal() {
    let point_a = (0, 0);
    let point_b = (3, 4);
    assert_eq!(dist(point_a, point_b), 5.0); // 3-4-5 triangle
}

#[test]
fn test_distance_max_values() {
    let point_a = (0, 0);
    let point_b = (u8::MAX, u8::MAX);
    let expected_distance = ((u8::MAX as f32) * (u8::MAX as f32) * 2.0).sqrt();
    assert_eq!(dist(point_a, point_b), expected_distance);
}

#[test]
fn test_distance_max_x() {
    let point_a = (u8::MAX, 0);
    let point_b = (0, 0);
    assert_eq!(dist(point_a, point_b), u8::MAX as f32);
}

#[test]
fn test_distance_max_y() {
    let point_a = (0, u8::MAX);
    let point_b = (0, 0);
    assert_eq!(dist(point_a, point_b), u8::MAX as f32);
}

#[test]
fn test_distance_mixed() {
    let point_a = (2, 3);
    let point_b = (8, 6);
    let expected_distance = ((((8 - 2) as i32).pow(2) + ((6 - 3) as i32).pow(2)) as f32).sqrt();
    assert_eq!(dist(point_a, point_b), expected_distance);
}

#[test]
fn test_distance_wraparound() {
    let point_a = (255, 1);
    let point_b = (0, 1);
    assert_eq!(dist(point_a, point_b), 255.0);
}

#[test]
fn tick_works() {
    let mut rng = StepEntropy::new(42, 7919);
    let mut world = World::new(
        &WorldSettings::new(
            255,
            255,
            255,
            2000,
            LocationLayout::Circle,
            Probability::new(300000).unwrap(),
            Probability::new(10000).unwrap(),
        ),
        &mut rng,
    );

    world.tick(&mut rng);
}

#[test]
fn select_fails_without_two_positive_fitnesses() {
    let population = vec![1, 2, 3, 4, 5, 6];
    let fitnesses: Vec<u64> = vec![0, 7, 0];
    let mut rng = StepEntropy::new(0, 1);

    let result = genomes::select(&population, &fitnesses, &mut rng);

    assert_eq!(result, Err(GaError::InsufficientDiversity));
}

#[test]
fn crossover_child_is_permutation() {
    let mut rng = StepEntropy::new(12345, 67891);
    let mut a = genomes::generate(40, &mut rng);
    let mut b = genomes::generate(40, &mut rng);
    for _ in 0..50 {
        let child = genomes::crossover(&a, &b, &mut rng);
        let mut sorted = child.clone();
        sorted.sort();
        let identity: Vec<u8> = (0..40).collect();
        assert_eq!(sorted, identity);
        a = b;
        b = child;
    }
}

#[test]
fn mutate_twice_with_same_draws_is_involution() {
    let original: Vec<u8> = vec![4, 0, 3, 1, 2, 5];
    let mut genome = original.clone();

    let mut rng = StepEntropy::new(1, 2);
    genomes::mutate(&mut genome, &mut rng);
    assert_ne!(genome, original);

    let mut rng_again = StepEntropy::new(1, 2);
    genomes::mutate(&mut genome, &mut rng_again);
    assert_eq!(genome, original);
}

#[test]
fn generate_yields_permutation() {
    let mut rng = StepEntropy::new(99, 31);
    let genome = genomes::generate(10, &mut rng);
    let mut sorted = genome.clone();
    sorted.sort();
    let identity: Vec<u8> = (0..10).collect();
    assert_eq!(sorted, identity);
}

#[test]
fn circle_layout_hits_the_cardinal_points() {
    let mut rng = StepEntropy::new(0, 0);
    let map = TourMap::new(100, 100, 4, LocationLayout::Circle, &mut rng);
    assert_eq!(map.locations().clone(), vec![50, 90, 90, 50, 50, 10, 10, 50]);
}

#[test]
fn world_tick_preserves_population_shape() {
    let mut rng = StepEntropy::new(5, 17);
    let mut world = World::new(
        &WorldSettings::new(
            40,
            30,
            12,
            6,
            LocationLayout::Random,
            Probability::new(500000).unwrap(),
            Probability::new(200000).unwrap(),
        ),
        &mut rng,
    );
    world.tick(&mut rng);
    world.tick(&mut rng);

    assert_eq!(world.population_size(), 6);
    let identity: Vec<u8> = (0..12).collect();
    for genome in world.population() {
        let mut sorted = genome.clone();
        sorted.sort();
        assert_eq!(sorted, identity);
    }
    let best = world.fittest();
    assert!(best.fitness >= 1);
    assert_eq!(best.data.len(), 12);
}

#[test]
fn probability_above_one_is_invalid() {
    assert_eq!(Probability::new(1000001), Err(GaError::InvalidConfiguration));
    assert!(Probability::new(1000000).is_ok());
}
