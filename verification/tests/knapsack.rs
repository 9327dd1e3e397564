use genetic::entropy::StepEntropy;
use genetic::items;
use genetic::items::Item;
use genetic::knapsack;
use genetic::knapsack::Run;
use genetic::population;
use genetic::GaError;
use genetic::Probability;

#[test]
fn fitness_is_zero_when_weight_exceeds_capacity() {
    let items = vec![Item { weight: 3, value: 100 }, Item { weight: 4, value: 100 }];
    let chromosone: Vec<u8> = vec![1, 1];

    assert_eq!(knapsack::fitness(&chromosone, &items, 0), 0);
    assert_eq!(knapsack::fitness(&chromosone, &items, 6), 0);
}

#[test]
fn fitness_sums_selected_values_within_capacity() {
    let items = vec![
        Item { weight: 3, value: 10 },
        Item { weight: 4, value: 20 },
        Item { weight: 5, value: 40 },
    ];

    assert_eq!(knapsack::fitness(&vec![1, 0, 1], &items, 8), 50);
    assert_eq!(knapsack::fitness(&vec![1, 1, 1], &items, 12), 70);
    assert_eq!(knapsack::fitness(&vec![0, 0, 0], &items, 0), 0);
}

#[test]
fn crossover_with_rate_zero_returns_exact_clones() {
    let rate = Probability::new(0).unwrap();
    let a: Vec<u8> = vec![1, 0, 1, 1, 0];
    let b: Vec<u8> = vec![0, 1, 0, 0, 1];
    let mut rng = StepEntropy::new(0, 1);

    for _ in 0..20 {
        let (c1, c2) = knapsack::crossover(&a, &b, rate, &mut rng);
        assert_eq!(c1, a);
        assert_eq!(c2, b);
    }
}

#[test]
fn crossover_splices_at_the_drawn_cut() {
    let rate = Probability::new(1000000).unwrap();
    let a: Vec<u8> = vec![1, 1, 0, 0];
    let b: Vec<u8> = vec![0, 0, 1, 1];
    // the first draw decides the (certain) crossover, the second is the
    // cut: 7 % 4 == 3
    let mut rng = StepEntropy::new(2, 5);

    let (c1, c2) = knapsack::crossover(&a, &b, rate, &mut rng);

    assert_eq!(c1, vec![1, 1, 0, 1]);
    assert_eq!(c2, vec![0, 0, 1, 0]);
}

#[test]
fn mutate_with_rate_zero_changes_nothing() {
    let rate = Probability::new(0).unwrap();
    let mut chromosone: Vec<u8> = vec![1, 0, 1];
    let mut rng = StepEntropy::new(3, 11);

    knapsack::mutate(&mut chromosone, rate, &mut rng);

    assert_eq!(chromosone, vec![1, 0, 1]);
}

#[test]
fn mutate_with_rate_one_toggles_every_gene() {
    let rate = Probability::new(1000000).unwrap();
    let mut chromosone: Vec<u8> = vec![1, 0, 1, 0];
    let mut rng = StepEntropy::new(3, 11);

    knapsack::mutate(&mut chromosone, rate, &mut rng);

    assert_eq!(chromosone, vec![0, 1, 0, 1]);
}

#[test]
fn select_fails_with_at_most_one_positive_fitness() {
    let population = vec![vec![1, 0], vec![0, 1], vec![1, 1]];
    let mut rng = StepEntropy::new(0, 1);

    let r = knapsack::select(&population, &vec![0, 0, 0], &mut rng);
    assert!(matches!(r, Err(GaError::InsufficientDiversity)));

    let r = knapsack::select(&population, &vec![0, 9, 0], &mut rng);
    assert!(matches!(r, Err(GaError::InsufficientDiversity)));
}

#[test]
fn select_returns_two_distinct_positive_parents() {
    let population = vec![vec![1, 0], vec![0, 1], vec![1, 1]];
    let mut rng = StepEntropy::new(0, 1000);

    let (first, second) = knapsack::select(&population, &vec![0, 5, 5], &mut rng).unwrap();

    assert_ne!(first, second);
    assert!(first == population[1] || first == population[2]);
    assert!(second == population[1] || second == population[2]);
}

#[test]
fn run_rejects_invalid_configuration() {
    let mut rng = StepEntropy::new(0, 1);
    let cx = Probability::new(300000).unwrap();
    let mu = Probability::new(10000).unwrap();

    let r = Run::new(vec![], 10, 1, cx, mu, &mut rng);
    assert!(matches!(r, Err(GaError::InvalidConfiguration)));
    assert!(Run::new(vec![], 10, 2, cx, mu, &mut rng).is_ok());
}

#[test]
fn run_with_no_items_reports_zero_fitness_every_generation() {
    let mut rng = StepEntropy::new(8, 3);
    let cx = Probability::new(300000).unwrap();
    let mu = Probability::new(10000).unwrap();
    let mut run = Run::new(vec![], 12345, 4, cx, mu, &mut rng).unwrap();

    for _ in 0..5 {
        run.tick(&mut rng);
    }

    assert_eq!(run.best_fitness_history().clone(), vec![0, 0, 0, 0, 0]);
    let (genome, fitness) = run.fittest();
    assert_eq!(genome.len(), 0);
    assert_eq!(fitness, 0);
}

#[test]
fn run_history_records_the_best_of_each_generation() {
    let mut rng = StepEntropy::new(1, 104729);
    let cx = Probability::new(600000).unwrap();
    let mu = Probability::new(50000).unwrap();
    let items = vec![
        Item { weight: 2, value: 9 },
        Item { weight: 3, value: 4 },
        Item { weight: 5, value: 11 },
        Item { weight: 4, value: 6 },
    ];
    let mut run = Run::new(items, 9, 8, cx, mu, &mut rng).unwrap();

    let best_before = *run.fitnesses.iter().max().unwrap();
    run.tick(&mut rng);
    run.tick(&mut rng);

    assert_eq!(run.best_fitness_history().len(), 2);
    assert_eq!(run.best_fitness_history()[0], best_before);
    let (_, best_fitness) = run.fittest();
    assert_eq!(best_fitness, *run.fitnesses.iter().max().unwrap());
}

#[test]
fn generated_items_stay_in_range() {
    let mut rng = StepEntropy::new(77, 101);
    let items = items::generate(30, &mut rng);

    assert_eq!(items.len(), 30);
    for item in &items {
        assert!(item.weight >= 2 && item.weight < 32);
        assert!(item.value >= 2 && item.value < 32);
    }
}

#[test]
fn generated_population_is_binary() {
    let mut rng = StepEntropy::new(6, 29);
    let population = population::generate(10, 7, &mut rng);

    assert_eq!(population.len(), 10);
    for chromosone in &population {
        assert_eq!(chromosone.len(), 7);
        for gene in chromosone {
            assert!(*gene <= 1);
        }
    }
}
