use std::cell::RefCell;
use std::sync::atomic::{AtomicUsize, Ordering};

use localsearch::optim::tabu_search::{append_move, find_accepted_solution};
use localsearch::optim::asa::AnnealingState;
use localsearch::optim::{
    AdaptiveSimulatedAnnealingOptimizer, EpsilonGreedyOptimizer, GenericLocalSearchOptimizer,
    HillClimbingOptimizer, LocalSearchOptimizer, ParallelTemperingOptimizer,
    PopulationAnnealingOptimizer, TabuList, TabuSearchOptimizer,
};
use localsearch::utils::RingBuffer;
use localsearch::callback::silent;
use localsearch::{AcceptanceRatio, Duration, LocalsearchError, OptModel, OptProgress, Probability};

/// Scores go down by one per trial until they reach the floor, and up by
/// one from there on; every call is counted.
struct Staircase {
    floor: i64,
    calls: AtomicUsize,
}

impl Staircase {
    fn new(floor: i64) -> Self {
        Self { floor, calls: AtomicUsize::new(0) }
    }
}

impl OptModel for Staircase {
    type SolutionType = Vec<i64>;
    type TransitionType = u64;
    type ScoreType = i64;

    fn generate_random_solution<R: rand::Rng>(
        &self,
        _rng: &mut R,
    ) -> Result<(Vec<i64>, i64), LocalsearchError> {
        Ok((vec![100], 100))
    }

    fn generate_trial_solution<R: rand::Rng>(
        &self,
        current_solution: Vec<i64>,
        current_score: i64,
        _rng: &mut R,
    ) -> (Vec<i64>, u64, i64) {
        self.calls.fetch_add(1, Ordering::SeqCst);
        let score = if current_score > self.floor { current_score - 1 } else { current_score + 1 };
        let mut solution = current_solution;
        solution.push(score);
        (solution, score as u64, score)
    }
}

fn iterations_seen<O: LocalSearchOptimizer<Staircase>>(
    optimizer: &O,
    model: &Staircase,
    start: i64,
    n_iter: usize,
) -> (Vec<(usize, i64, AcceptanceRatio)>, (Vec<i64>, i64)) {
    let seen = RefCell::new(Vec::new());
    let result = optimizer.optimize(
        model,
        vec![start],
        start,
        n_iter,
        Duration::from_secs(10),
        &|progress: OptProgress<Vec<i64>, i64>| {
            seen.borrow_mut().push((progress.iter, progress.score, progress.acceptance_ratio));
        },
    );
    (seen.into_inner(), result)
}

#[test]
fn search_without_improvement_stops_when_patience_is_exhausted() {
    for patience in 1usize..8 {
        // the model never improves: iteration `patience - 1` is the last
        let model = Staircase::new(50);
        let optimizer = HillClimbingOptimizer::new(patience, 1);
        let (seen, result) = iterations_seen(&optimizer, &model, 50, 1000);
        assert_eq!(model.calls.load(Ordering::SeqCst), patience);
        assert_eq!(seen.len(), patience - 1);
        assert_eq!(result, (vec![50], 50));
    }
}

#[test]
fn search_that_improves_once_stops_at_iteration_patience() {
    for patience in 1usize..8 {
        // iteration 0 improves, none after it: iteration `patience` is the last
        let model = Staircase::new(49);
        let optimizer = HillClimbingOptimizer::new(patience, 1);
        let (seen, result) = iterations_seen(&optimizer, &model, 50, 1000);
        assert_eq!(model.calls.load(Ordering::SeqCst), patience + 1);
        let iterations: Vec<usize> = seen.iter().map(|entry| entry.0).collect();
        assert_eq!(iterations, (0..patience).collect::<Vec<_>>());
        assert_eq!(result, (vec![50, 49], 49));
    }
}

#[test]
fn search_stops_after_the_iteration_budget() {
    let model = Staircase::new(0);
    let optimizer = HillClimbingOptimizer::new(1000, 3);
    let (seen, result) = iterations_seen(&optimizer, &model, 50, 20);
    assert_eq!(seen.len(), 20);
    assert_eq!(model.calls.load(Ordering::SeqCst), 60);
    assert_eq!(result.1, 30);
    assert_eq!(result.0.len(), 21);
    // every iteration improved and was accepted
    for (k, entry) in seen.iter().enumerate() {
        assert_eq!(*entry, (k, 49 - k as i64, AcceptanceRatio { accepted: k + 1, samples: k + 1 }));
    }
}

#[test]
fn search_with_no_time_does_nothing() {
    let model = Staircase::new(0);
    let seen = RefCell::new(0);
    let optimizer = HillClimbingOptimizer::new(1000, 3);
    let result = optimizer.optimize(
        &model,
        vec![50],
        50,
        1000,
        Duration::ZERO,
        &|_progress: OptProgress<Vec<i64>, i64>| {
            *seen.borrow_mut() += 1;
        },
    );
    assert_eq!(result, (vec![50], 50));
    assert_eq!(seen.into_inner(), 0);
    assert_eq!(model.calls.load(Ordering::SeqCst), 0);
}

#[test]
fn hill_climbing_follows_epsilon_greedy_at_zero() {
    let model = Staircase::new(40);
    let hill = iterations_seen(&HillClimbingOptimizer::new(5, 1), &model, 50, 1000);
    let greedy = iterations_seen(
        &EpsilonGreedyOptimizer::new(5, 1, usize::MAX, Probability::never()),
        &model,
        50,
        1000,
    );
    assert_eq!(hill, greedy);
    assert_eq!(hill.1 .1, 40);
    // ten improving iterations, then four stagnant ones before the last
    assert_eq!(hill.0.len(), 14);
}

#[test]
fn same_trials_give_the_same_trajectory() {
    let model = Staircase::new(45);
    let optimizer = EpsilonGreedyOptimizer::new(6, 1, 3, Probability::always());
    let one = iterations_seen(&optimizer, &model, 50, 200);
    let other = iterations_seen(&optimizer, &model, 50, 200);
    assert_eq!(one, other);
}

#[test]
fn acceptance_ratio_is_taken_over_the_last_hundred_iterations() {
    // 120 improving iterations are all accepted, the stagnant ones after them never
    let model = Staircase::new(0);
    let optimizer = HillClimbingOptimizer::new(60, 1);
    let (seen, _) = iterations_seen(&optimizer, &model, 120, 1000);
    assert_eq!(seen[99].2, AcceptanceRatio { accepted: 100, samples: 100 });
    assert_eq!(seen[119].2, AcceptanceRatio { accepted: 100, samples: 100 });
    assert_eq!(seen[120].2, AcceptanceRatio { accepted: 99, samples: 100 });
    assert_eq!(seen[170].2, AcceptanceRatio { accepted: 49, samples: 100 });
}

#[test]
fn generic_step_reports_best_and_last() {
    let model = Staircase::new(47);
    let optimizer = GenericLocalSearchOptimizer::new(
        1000,
        2,
        usize::MAX,
        |_current: i64, _trial: i64| Probability::always(),
    );
    let result = optimizer.step(
        &model,
        vec![50],
        50,
        5,
        Duration::from_secs(10),
        &|_progress: OptProgress<Vec<i64>, i64>| {},
    );
    // 49, 48, 47, then up to 48 and down to 47 again
    assert_eq!(result.best_score, 47);
    assert_eq!(result.best_solution, vec![50, 49, 48, 47]);
    assert_eq!(result.last_score, 47);
    assert_eq!(result.last_solution, vec![50, 49, 48, 47, 48, 47]);
    assert_eq!(
        result.acceptance_counter.acceptance_ratio(),
        AcceptanceRatio { accepted: 5, samples: 5 }
    );
    assert_eq!(model.calls.load(Ordering::SeqCst), 10);
}

#[test]
fn generic_step_rejects_what_the_probability_does_not_admit() {
    let model = Staircase::new(48);
    let optimizer = GenericLocalSearchOptimizer::new(
        1000,
        1,
        usize::MAX,
        |_current: i64, _trial: i64| Probability::never(),
    );
    let result = optimizer.step(
        &model,
        vec![50],
        50,
        6,
        Duration::from_secs(10),
        &|_progress: OptProgress<Vec<i64>, i64>| {},
    );
    assert_eq!(result.best_score, 48);
    assert_eq!(result.last_score, 48);
    assert_eq!(result.last_solution, vec![50, 49, 48]);
    assert_eq!(
        result.acceptance_counter.acceptance_ratio(),
        AcceptanceRatio { accepted: 2, samples: 6 }
    );
}

/// Every run proposes trials with the scores 9, 8, 7, ... in the order of
/// the calls, with the score as the move.
struct Countdown {
    next: AtomicUsize,
}

impl OptModel for Countdown {
    type SolutionType = usize;
    type TransitionType = usize;
    type ScoreType = usize;

    fn generate_random_solution<R: rand::Rng>(
        &self,
        _rng: &mut R,
    ) -> Result<(usize, usize), LocalsearchError> {
        Err(LocalsearchError::RandomGenerationError)
    }

    fn generate_trial_solution<R: rand::Rng>(
        &self,
        _current_solution: usize,
        _current_score: usize,
        _rng: &mut R,
    ) -> (usize, usize, usize) {
        let score = 9 - self.next.fetch_add(1, Ordering::SeqCst) % 10;
        (score, score, score)
    }

    fn preprocess_solution(
        &self,
        current_solution: usize,
        current_score: usize,
    ) -> Result<(usize, usize), LocalsearchError> {
        if current_score > 1000 {
            Err(LocalsearchError::PreprocessError)
        } else {
            Ok((current_solution + 1, current_score + 1))
        }
    }

    fn postprocess_solution(&self, current_solution: usize, current_score: usize) -> (usize, usize) {
        (current_solution * 2, current_score)
    }
}

#[derive(Default)]
struct ExactTabuList {
    buff: Option<RingBuffer<usize>>,
}

impl TabuList for ExactTabuList {
    type Item = usize;

    fn set_size(&mut self, n: usize) {
        self.buff = Some(RingBuffer::new(n));
    }

    fn contains(&self, transition: &usize) -> bool {
        match &self.buff {
            Some(buff) => buff.iter().any(|held| held == transition),
            None => false,
        }
    }

    fn append(&mut self, transition: usize) {
        if let Some(buff) = &mut self.buff {
            buff.append(transition);
        }
    }
}

fn tabu_list(size: usize, moves: &[usize]) -> ExactTabuList {
    let mut list = ExactTabuList::default();
    list.set_size(size);
    for held in moves {
        list.append(*held);
    }
    list
}

#[test]
fn first_candidate_that_is_not_tabu_is_accepted() {
    let list = tabu_list(3, &[1, 2]);
    let samples = vec![(10, 1, 5), (20, 2, 6), (30, 3, 7), (40, 4, 8)];
    assert_eq!(find_accepted_solution::<Countdown, _>(samples, &list, 0), Some((30, 3, 7)));
}

#[test]
fn aspiration_overrides_the_tabu_list() {
    let list = tabu_list(3, &[1, 2]);
    let samples = vec![(10, 1, 5), (20, 2, 6), (30, 3, 7)];
    // the first candidate is tabu, but better than the best score of 6
    assert_eq!(find_accepted_solution::<Countdown, _>(samples, &list, 6), Some((10, 1, 5)));
    let samples = vec![(10, 1, 5), (20, 2, 6), (30, 3, 7)];
    // a score equal to the best is no aspiration
    assert_eq!(find_accepted_solution::<Countdown, _>(samples, &list, 5), Some((30, 3, 7)));
}

#[test]
fn no_candidate_is_accepted_where_all_are_tabu() {
    let list = tabu_list(3, &[1, 2, 3]);
    let samples = vec![(10, 1, 5), (20, 2, 6), (30, 3, 7)];
    assert_eq!(find_accepted_solution::<Countdown, _>(samples, &list, 5), None);
    assert_eq!(find_accepted_solution::<Countdown, _>(vec![], &list, 5), None);
}

#[test]
fn tabu_move_is_rejected_until_it_is_evicted() {
    let mut list = tabu_list(2, &[]);
    list.append(7);
    let offer = |list: &ExactTabuList| find_accepted_solution::<Countdown, _>(vec![(1, 7, 50)], list, 10);
    assert_eq!(offer(&list), None);
    list.append(8);
    // still in the list: one other move followed, the list holds two
    assert_eq!(offer(&list), None);
    list.append(9);
    // evicted by the second move that followed
    assert_eq!(offer(&list), Some((1, 7, 50)));
}

#[test]
fn tabu_search_takes_the_best_of_the_sorted_trials() {
    // the calls propose 9, 8, 7 in some order of places: the best is 7
    let model = Countdown { next: AtomicUsize::new(0) };
    let optimizer = TabuSearchOptimizer::<ExactTabuList>::new(10, 3, 10, 5);
    let (solution, score, list) = optimizer.optimize_with_tabu_list(
        &model,
        100,
        100,
        1,
        Duration::from_secs(10),
        &|_progress: OptProgress<usize, usize>| {},
        tabu_list(5, &[]),
    );
    assert_eq!((solution, score), (7, 7));
    // the accepted move went into the list
    assert!(list.contains(&7));
    assert!(!list.contains(&8));
}

#[test]
fn tabu_search_passes_over_tabu_moves() {
    // 9, 8 and 7 are proposed; 7 and 8 are tabu and no better than the best
    let model = Countdown { next: AtomicUsize::new(0) };
    let optimizer = TabuSearchOptimizer::<ExactTabuList>::new(10, 3, 10, 5);
    let seen = RefCell::new(Vec::new());
    let (solution, score, list) = optimizer.optimize_with_tabu_list(
        &model,
        5,
        5,
        1,
        Duration::from_secs(10),
        &|progress: OptProgress<usize, usize>| {
            seen.borrow_mut().push((progress.iter, progress.acceptance_ratio, progress.score));
        },
        tabu_list(5, &[7, 8]),
    );
    // the best stays, the search moved on to 9
    assert_eq!((solution, score), (5, 5));
    assert!(list.contains(&9));
    assert_eq!(seen.into_inner(), vec![(0, AcceptanceRatio { accepted: 1, samples: 1 }, 5)]);
}

#[test]
fn tabu_search_without_candidates_stagnates() {
    let model = Countdown { next: AtomicUsize::new(0) };
    let optimizer = TabuSearchOptimizer::<ExactTabuList>::new(4, 0, 10, 5);
    let seen = RefCell::new(Vec::new());
    let result = optimizer.optimize(
        &model,
        5,
        5,
        100,
        Duration::from_secs(10),
        &|progress: OptProgress<usize, usize>| {
            seen.borrow_mut().push((progress.iter, progress.acceptance_ratio));
        },
    );
    assert_eq!(result, (5, 5));
    assert_eq!(
        seen.into_inner(),
        vec![
            (0, AcceptanceRatio { accepted: 0, samples: 1 }),
            (1, AcceptanceRatio { accepted: 0, samples: 2 }),
            (2, AcceptanceRatio { accepted: 0, samples: 3 }),
        ]
    );
}

#[test]
fn run_passes_on_the_failure_to_generate_a_solution() {
    let model = Countdown { next: AtomicUsize::new(0) };
    let optimizer = HillClimbingOptimizer::new(10, 1);
    assert_eq!(
        optimizer.run(&model, None, 10, Duration::from_secs(10)),
        Err(LocalsearchError::RandomGenerationError)
    );
}

#[test]
fn run_passes_on_the_failure_to_preprocess() {
    let model = Countdown { next: AtomicUsize::new(0) };
    let optimizer = HillClimbingOptimizer::new(10, 1);
    assert_eq!(
        optimizer.run(&model, Some((0, 2000)), 10, Duration::from_secs(10)),
        Err(LocalsearchError::PreprocessError)
    );
}

#[test]
fn run_preprocesses_optimizes_and_postprocesses() {
    let model = Countdown { next: AtomicUsize::new(0) };
    // preprocessing makes (3, 3) of (2, 2); the trials 9, 8 and 7 do not improve on it
    let impatient = HillClimbingOptimizer::new(3, 1);
    assert_eq!(impatient.run(&model, Some((2, 2)), 10, Duration::from_secs(10)), Ok((6, 3)));
    // from (50, 50) the search finds its way down to 0
    let model = Countdown { next: AtomicUsize::new(0) };
    let optimizer = HillClimbingOptimizer::new(10, 1);
    let seen = RefCell::new(0);
    let result = optimizer.run_with_callback(
        &model,
        Some((49, 49)),
        100,
        Duration::from_secs(10),
        &|_progress: OptProgress<usize, usize>| {
            *seen.borrow_mut() += 1;
        },
    );
    assert_eq!(result, Ok((0, 0)));
    assert!(seen.into_inner() >= 10);
}

fn ladder(scores: &[i64]) -> Vec<(usize, i64)> {
    scores.iter().copied().enumerate().collect()
}

fn tempering(
    exchange: Probability,
    return_iter: usize,
) -> ParallelTemperingOptimizer<
    i64,
    impl Fn(usize, i64, i64) -> Probability,
    impl Fn(usize, i64, i64) -> Probability,
> {
    ParallelTemperingOptimizer::new(
        50,
        2,
        return_iter,
        4,
        |_replica: usize, _current: i64, _trial: i64| Probability::never(),
        move |_lower: usize, _lower_score: i64, _upper_score: i64| exchange,
        5,
    )
}

#[test]
fn certain_exchanges_carry_the_lowest_replica_to_the_top() {
    let mut replicas = ladder(&[10, 20, 30, 40]);
    tempering(Probability::always(), 10).exchange_pass(&mut replicas);
    assert_eq!(replicas, vec![(1, 20), (2, 30), (3, 40), (0, 10)]);
}

#[test]
fn impossible_exchanges_leave_the_ladder_alone() {
    let mut replicas = ladder(&[10, 20, 30, 40]);
    tempering(Probability::never(), 10).exchange_pass(&mut replicas);
    assert_eq!(replicas, ladder(&[10, 20, 30, 40]));
    let mut single = ladder(&[10]);
    tempering(Probability::always(), 10).exchange_pass(&mut single);
    assert_eq!(single, ladder(&[10]));
}

#[test]
fn exchange_is_decided_on_the_scores_as_they_stand() {
    // a pair trades places exactly if the upper score is the lower one
    let optimizer = ParallelTemperingOptimizer::new(
        50,
        2,
        10,
        4,
        |_replica: usize, _current: i64, _trial: i64| Probability::never(),
        |_lower: usize, lower_score: i64, upper_score: i64| {
            if upper_score < lower_score {
                Probability::always()
            } else {
                Probability::never()
            }
        },
        5,
    );
    let mut replicas = ladder(&[30, 10, 20, 40]);
    optimizer.exchange_pass(&mut replicas);
    assert_eq!(replicas, vec![(1, 10), (2, 20), (0, 30), (3, 40)]);
}

#[test]
fn exchange_is_accepted_as_often_as_its_probability_says() {
    // the replica-exchange criterion for the two scores and inverse temperatures
    let (beta_low, beta_high) = (0.5f64, 2.0f64);
    let (energy_low, energy_high) = (3i64, 4i64);
    let p_swap = ((beta_high - beta_low) * (energy_high - energy_low) as f64 * -1.0).exp();
    let threshold = (p_swap * 9007199254740992.0).ceil() as u64;
    let optimizer = ParallelTemperingOptimizer::new(
        50,
        2,
        10,
        2,
        |_replica: usize, _current: i64, _trial: i64| Probability::never(),
        move |_lower: usize, _lower_score: i64, _upper_score: i64| {
            Probability::from_threshold(threshold)
        },
        5,
    );
    let rounds = 20000;
    let mut exchanged = 0;
    for _ in 0..rounds {
        let mut replicas = ladder(&[energy_low, energy_high]);
        optimizer.exchange_pass(&mut replicas);
        if replicas[0].0 == 1 {
            exchanged += 1;
        }
    }
    let expected = p_swap * rounds as f64;
    // six standard deviations of the binomial
    let tolerance = 6.0 * (rounds as f64 * p_swap * (1.0 - p_swap)).sqrt();
    assert!((exchanged as f64 - expected).abs() < tolerance);
}

#[test]
fn parallel_tempering_tracks_the_best_of_all_replicas() {
    let model = Staircase::new(30);
    let optimizer = tempering(Probability::always(), 0);
    let (seen, result) = iterations_seen(&optimizer, &model, 50, 40);
    // the rounds of five steps take every replica down by five
    assert_eq!(result.1, 30);
    let iterations: Vec<usize> = seen.iter().map(|entry| entry.0).collect();
    assert_eq!(iterations, vec![5, 10, 15, 20, 25, 30, 35, 40]);
    let scores: Vec<i64> = seen.iter().map(|entry| entry.1).collect();
    assert_eq!(scores, vec![45, 40, 35, 30, 30, 30, 30, 30]);
}

#[test]
fn parallel_tempering_gives_up_after_patience_iterations() {
    // no round improves: patience 12 is exhausted after three rounds of five
    let model = Staircase::new(50);
    let optimizer = ParallelTemperingOptimizer::new(
        12,
        1,
        100,
        3,
        |_replica: usize, _current: i64, _trial: i64| Probability::always(),
        |_lower: usize, _lower_score: i64, _upper_score: i64| Probability::never(),
        5,
    );
    let (seen, result) = iterations_seen(&optimizer, &model, 50, 1000);
    assert_eq!(result, (vec![50], 50));
    let iterations: Vec<usize> = seen.iter().map(|entry| entry.0).collect();
    assert_eq!(iterations, vec![5, 10]);
}

#[test]
fn population_annealing_resamples_by_the_picks() {
    let model = Staircase::new(0);
    let rounds = AtomicUsize::new(0);
    let optimizer = PopulationAnnealingOptimizer::new(
        1000,
        1,
        usize::MAX,
        |_round: usize, _current: i64, _trial: i64| Probability::never(),
        |round: usize, scores: &Vec<i64>| {
            assert_eq!(round, rounds.fetch_add(1, Ordering::SeqCst));
            // every member went down by four in the round
            assert_eq!(scores.len(), 3);
            vec![0; scores.len()]
        },
        4,
        3,
    );
    let (seen, result) = iterations_seen(&optimizer, &model, 50, 12);
    // the first population is one step below the start; three rounds of four steps follow
    assert_eq!(result.1, 37);
    assert_eq!(rounds.load(Ordering::SeqCst), 3);
    let iterations: Vec<usize> = seen.iter().map(|entry| entry.0).collect();
    assert_eq!(iterations, vec![4, 8, 12]);
    let scores: Vec<i64> = seen.iter().map(|entry| entry.1).collect();
    assert_eq!(scores, vec![45, 41, 37]);
}

#[test]
fn population_annealing_keeps_the_population_on_picks_that_name_no_member() {
    let model = Staircase::new(0);
    let optimizer = PopulationAnnealingOptimizer::new(
        1000,
        1,
        usize::MAX,
        |_round: usize, _current: i64, _trial: i64| Probability::never(),
        |_round: usize, scores: &Vec<i64>| vec![scores.len(); scores.len()],
        4,
        3,
    );
    let (_, result) = iterations_seen(&optimizer, &model, 50, 12);
    assert_eq!(result.1, 37);
}

#[test]
fn population_annealing_counts_the_round_of_an_improvement_as_stagnant() {
    // the first round improves, and still its four iterations use up the patience of four
    let model = Staircase::new(0);
    let optimizer = PopulationAnnealingOptimizer::new(
        4,
        1,
        usize::MAX,
        |_round: usize, _current: i64, _trial: i64| Probability::never(),
        |_round: usize, scores: &Vec<i64>| (0..scores.len()).collect(),
        4,
        2,
    );
    let (seen, result) = iterations_seen(&optimizer, &model, 50, 1000);
    assert_eq!(seen.len(), 0);
    assert_eq!(result.1, 45);
}

#[test]
fn population_annealing_gives_up_after_patience_iterations() {
    // no round improves: the patience of nine is used up by three rounds of four
    let model = Staircase::new(60);
    let optimizer = PopulationAnnealingOptimizer::new(
        9,
        1,
        usize::MAX,
        |_round: usize, _current: i64, _trial: i64| Probability::never(),
        |_round: usize, scores: &Vec<i64>| (0..scores.len()).collect(),
        4,
        2,
    );
    let (seen, result) = iterations_seen(&optimizer, &model, 50, 1000);
    assert_eq!(result, (vec![50], 50));
    let iterations: Vec<usize> = seen.iter().map(|entry| entry.0).collect();
    assert_eq!(iterations, vec![4, 8]);
}

#[test]
fn annealing_state_starts_over_at_multiples_of_the_interval() {
    let mut state = AnnealingState::new("a", 10);
    assert_eq!(state.schedule_place(), 0);
    state.advance("b", 20, true, 100, 2);
    // one stagnant iteration: the schedule has not moved from its first place yet
    assert_eq!(*state.current_solution(), "b");
    assert_eq!(state.schedule_place(), 0);
    state.advance("c", 30, true, 100, 2);
    // second stagnant iteration: back to the best and to the start of the schedule
    assert_eq!(*state.current_solution(), "a");
    assert_eq!(state.current_score(), 10);
    assert_eq!(state.schedule_place(), 0);
    assert!(state.gives_up(2));
    state.advance("d", 40, true, 100, 2);
    state.advance("e", 50, false, 100, 2);
    // fourth stagnant iteration: the rejected trial did not move the search, the multiple did
    assert_eq!(*state.current_solution(), "a");
    assert!(state.gives_up(4));
    assert_eq!(*state.best(), "a");
    assert_eq!(state.best_score(), 10);
}

#[test]
fn annealing_state_moves_along_its_schedule() {
    let mut state = AnnealingState::new("a", 10);
    for (step, place) in [(1, 0), (2, 1), (3, 2), (4, 3)] {
        state.advance("b", 10 - step, true, 100, 50);
        assert_eq!(state.schedule_place(), place);
        assert!(state.gives_up(0));
    }
    assert_eq!(state.best_score(), 6);
}

#[test]
fn annealing_state_returns_at_return_iter_without_starting_over() {
    let mut state = AnnealingState::new("a", 10);
    state.advance("b", 20, true, 2, 50);
    state.advance("c", 30, true, 2, 50);
    assert_eq!(*state.current_solution(), "a");
    assert_eq!(state.schedule_place(), 1);
    state.advance("d", 40, true, 2, 50);
    state.advance("e", 50, true, 2, 50);
    // the return happens at a stagnation of two only
    assert_eq!(*state.current_solution(), "e");
    assert_eq!(state.into_best(), ("a", 10));
}

#[test]
fn annealing_state_counts_only_accepted_improvements() {
    let mut state = AnnealingState::new("a", 10);
    state.advance("b", 5, false, 100, 50);
    assert_eq!(state.best_score(), 10);
    assert!(state.gives_up(1));
    // a trial as good as the best is no improvement
    state.advance("c", 10, true, 100, 50);
    assert_eq!(*state.best(), "a");
    assert!(state.gives_up(2));
    state.advance("d", 9, true, 100, 50);
    assert_eq!(state.into_best(), ("d", 9));
}

#[test]
fn reannealing_search_asks_the_schedule_at_the_right_places() {
    // the model goes down to 48 and then up and down around it
    let model = Staircase::new(48);
    let places = std::sync::Mutex::new(Vec::new());
    let optimizer = AdaptiveSimulatedAnnealingOptimizer::new(
        5,
        1,
        100,
        |place: usize, current: i64, trial: i64| {
            places.lock().unwrap().push((place, current, trial));
            Probability::never()
        },
        3,
    );
    let (seen, result) = iterations_seen(&optimizer, &model, 50, 1000);
    assert_eq!(result, (vec![50, 49, 48], 48));
    // two improvements, then the trial 49 is refused five times
    assert_eq!(seen.len(), 6);
    assert_eq!(seen[5].2, AcceptanceRatio { accepted: 2, samples: 6 });
    assert_eq!(
        places.into_inner().unwrap(),
        // the third stagnant iteration starts the schedule over
        vec![(1, 48, 49), (2, 48, 49), (3, 48, 49), (0, 48, 49), (0, 48, 49)]
    );
}

#[test]
fn population_annealing_sends_a_member_back_to_the_best() {
    // no trial improves; accepting them all takes every member up by four a round
    let model = Staircase::new(60);
    let seen_scores = std::sync::Mutex::new(Vec::new());
    let optimizer = PopulationAnnealingOptimizer::new(
        1000,
        1,
        4,
        |_round: usize, _current: i64, _trial: i64| Probability::always(),
        |_round: usize, scores: &Vec<i64>| {
            let mut sorted = scores.clone();
            sorted.sort();
            seen_scores.lock().unwrap().push(sorted);
            (0..scores.len()).collect()
        },
        4,
        3,
    );
    let (_, result) = iterations_seen(&optimizer, &model, 50, 8);
    assert_eq!(result, (vec![50], 50));
    assert_eq!(
        seen_scores.into_inner().unwrap(),
        // after the first round one member, chosen at random, starts again from the best
        vec![vec![55, 55, 55], vec![54, 59, 59]]
    );
}

#[test]
fn model_without_hooks_hands_the_solution_on_as_it_is() {
    let model = Staircase::new(0);
    assert_eq!(model.preprocess_solution(vec![7, 8], 9), Ok((vec![7, 8], 9)));
    assert_eq!(model.postprocess_solution(vec![7, 8], 9), (vec![7, 8], 9));
    // a run without iterations returns the given solution
    let optimizer = HillClimbingOptimizer::new(10, 1);
    assert_eq!(
        optimizer.run(&model, Some((vec![50], 50)), 0, Duration::from_secs(10)),
        Ok((vec![50], 50))
    );
    // with no solution given, it returns the one that the model generates
    assert_eq!(optimizer.run(&model, None, 0, Duration::from_secs(10)), Ok((vec![100], 100)));
}

#[test]
fn appended_move_is_held_by_the_list() {
    let mut list = tabu_list(2, &[]);
    append_move(&mut list, 4);
    assert!(list.contains(&4));
    append_move(&mut list, 5);
    append_move(&mut list, 6);
    assert!(!list.contains(&4));
    assert!(list.contains(&5) && list.contains(&6));
}

/// Every trial is one better than the current solution, with the score as the move.
struct Descent;

impl OptModel for Descent {
    type SolutionType = usize;
    type TransitionType = usize;
    type ScoreType = usize;

    fn generate_random_solution<R: rand::Rng>(
        &self,
        _rng: &mut R,
    ) -> Result<(usize, usize), LocalsearchError> {
        Ok((50, 50))
    }

    fn generate_trial_solution<R: rand::Rng>(
        &self,
        _current_solution: usize,
        current_score: usize,
        _rng: &mut R,
    ) -> (usize, usize, usize) {
        (current_score - 1, current_score - 1, current_score - 1)
    }
}

#[test]
fn tabu_search_returns_the_list_with_the_accepted_moves_in_order() {
    let optimizer = TabuSearchOptimizer::<ExactTabuList>::new(10, 2, 10, 5);
    let (solution, score, list) = optimizer.optimize_with_tabu_list(
        &Descent,
        20,
        20,
        5,
        Duration::from_secs(10),
        &silent::<usize, usize>,
        tabu_list(3, &[100, 101]),
    );
    assert_eq!((solution, score), (15, 15));
    // five moves were accepted and appended: the list of three holds the last three
    let held: Vec<usize> = list.buff.unwrap().iter().copied().collect();
    assert_eq!(held, vec![17, 16, 15]);
}

#[test]
fn population_annealing_starts_from_the_best_of_its_first_population() {
    // every trial improves, and no iteration is made: the best of the first population comes back
    let optimizer = PopulationAnnealingOptimizer::new(
        10,
        1,
        usize::MAX,
        |_round: usize, _current: usize, _trial: usize| Probability::never(),
        |_round: usize, scores: &Vec<usize>| (0..scores.len()).collect(),
        4,
        3,
    );
    let result =
        optimizer.optimize(&Descent, 20, 20, 0, Duration::from_secs(10), &silent::<usize, usize>);
    assert_eq!(result, (19, 19));
}

#[test]
fn run_returns_what_postprocessing_makes_of_what_optimize_returned() {
    // preprocessing adds one, the search goes down to zero, postprocessing doubles the solution
    let model = Countdown { next: AtomicUsize::new(0) };
    let optimizer = HillClimbingOptimizer::new(10, 1);
    assert_eq!(optimizer.run(&model, Some((4, 4)), 100, Duration::from_secs(10)), Ok((0, 0)));
    let model = Countdown { next: AtomicUsize::new(3) };
    // the trials 6, 5, 4 follow: the first that is better than the prepared 7 is 6
    let short = HillClimbingOptimizer::new(1, 1);
    assert_eq!(short.run(&model, Some((6, 6)), 2, Duration::from_secs(10)), Ok((10, 5)));
}

#[test]
fn handles_to_an_optimizer_optimize_as_the_optimizer_does() {
    let model = Staircase::new(45);
    let optimizer = HillClimbingOptimizer::new(3, 1);
    let direct = iterations_seen(&optimizer, &model, 50, 100);
    assert_eq!(iterations_seen(&&optimizer, &model, 50, 100), direct);
    assert_eq!(iterations_seen(&Box::new(optimizer), &model, 50, 100), direct);
    assert_eq!(iterations_seen(&std::rc::Rc::new(optimizer), &model, 50, 100), direct);
    assert_eq!(iterations_seen(&std::sync::Arc::new(optimizer), &model, 50, 100), direct);
    assert_eq!(direct.1, (vec![50, 49, 48, 47, 46, 45], 45));
}

#[test]
fn searches_with_no_time_make_no_iteration() {
    let none = Duration::ZERO;
    let quiet = silent::<Vec<i64>, i64>;
    let model = Staircase::new(0);
    let tabu = TabuSearchOptimizer::<StepTabuList>::new(10, 2, 10, 5);
    assert_eq!(tabu.optimize(&model, vec![50], 50, 100, none, &quiet), (vec![50], 50));
    let ladder = tempering(Probability::always(), 10);
    assert_eq!(ladder.optimize(&model, vec![50], 50, 100, none, &quiet), (vec![50], 50));
    let reannealing = AdaptiveSimulatedAnnealingOptimizer::new(
        10,
        2,
        10,
        |_place: usize, _current: i64, _trial: i64| Probability::never(),
        3,
    );
    assert_eq!(reannealing.optimize(&model, vec![50], 50, 100, none, &quiet), (vec![50], 50));
    assert_eq!(model.calls.load(Ordering::SeqCst), 0);
    // population annealing has made its first population by then, and took the best of it
    let population = PopulationAnnealingOptimizer::new(
        10,
        1,
        usize::MAX,
        |_round: usize, _current: i64, _trial: i64| Probability::never(),
        |_round: usize, scores: &Vec<i64>| (0..scores.len()).collect(),
        4,
        3,
    );
    assert_eq!(population.optimize(&model, vec![50], 50, 100, none, &quiet), (vec![50, 49], 49));
    assert_eq!(model.calls.load(Ordering::SeqCst), 3);
}

#[derive(Default)]
struct StepTabuList {
    buff: Option<RingBuffer<u64>>,
}

impl TabuList for StepTabuList {
    type Item = u64;

    fn set_size(&mut self, n: usize) {
        self.buff = Some(RingBuffer::new(n));
    }

    fn contains(&self, transition: &u64) -> bool {
        match &self.buff {
            Some(buff) => buff.iter().any(|held| held == transition),
            None => false,
        }
    }

    fn append(&mut self, transition: u64) {
        if let Some(buff) = &mut self.buff {
            buff.append(transition);
        }
    }
}

#[test]
fn tabu_search_starts_from_a_default_list_of_the_given_size() {
    // the trials 49, 48, ... improve and are taken; with a list of size zero nothing is ever tabu
    let model = Staircase::new(47);
    let optimizer = TabuSearchOptimizer::<StepTabuList>::new(100, 1, 100, 0);
    let (seen, result) = iterations_seen(&optimizer, &model, 50, 7);
    // at the floor the search is offered 48 and 47 in turn, and takes both each time
    assert_eq!(result.1, 47);
    assert_eq!(seen.len(), 7);
    assert_eq!(seen[6].2, AcceptanceRatio { accepted: 7, samples: 7 });
    // with a list of size two the move 48 is tabu when it is offered again: nothing is taken
    let model = Staircase::new(47);
    let optimizer = TabuSearchOptimizer::<StepTabuList>::new(100, 1, 100, 2);
    let (seen, _) = iterations_seen(&optimizer, &model, 50, 7);
    assert_eq!(seen[3].2, AcceptanceRatio { accepted: 3, samples: 4 });
}
