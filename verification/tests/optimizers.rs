use std::cell::RefCell;

use localsearch::optim::population_annealing::resampled;
use localsearch::optim::{
    EpsilonGreedyOptimizer, HillClimbingOptimizer, LocalSearchOptimizer,
    ParallelTemperingOptimizer, PopulationAnnealingOptimizer, RandomSearchOptimizer, TabuList,
    TabuSearchOptimizer,
};
use localsearch::utils::RingBuffer;
use localsearch::{Duration, LocalsearchError, OptModel, OptProgress, Probability};
use ordered_float::NotNan;
use rand::distr::weighted::WeightedIndex;
use rand::distr::Distribution;
use rand::Rng;

type SolutionType = Vec<f64>;
type TransitionType = (usize, f64, f64);
type ScoreType = NotNan<f64>;

const RESOLUTION: f64 = 9007199254740992.0;

/// The probability on the grid that admits exactly the draws below `p`.
fn probability(p: f64) -> Probability {
    let scaled = (p * RESOLUTION).ceil();
    if scaled.is_nan() || scaled <= 0.0 {
        Probability::never()
    } else if scaled >= RESOLUTION {
        Probability::always()
    } else {
        Probability::from_threshold(scaled as u64)
    }
}

fn metropolis(beta: f64, current: ScoreType, trial: ScoreType) -> Probability {
    let ds = trial - current;
    if ds.into_inner() <= 0.0 {
        probability(1.0)
    } else {
        probability((-beta * ds.into_inner()).exp())
    }
}

#[derive(Clone)]
struct QuadraticModel {
    k: usize,
    centers: Vec<f64>,
    low: f64,
    high: f64,
}

impl QuadraticModel {
    fn new(k: usize, centers: Vec<f64>, value_range: (f64, f64)) -> Self {
        let (low, high) = value_range;
        Self { k, centers, low, high }
    }

    fn evaluate_solution(&self, solution: &SolutionType) -> ScoreType {
        let score = (0..self.k).map(|i| (solution[i] - self.centers[i]).powf(2.0)).sum();
        NotNan::new(score).unwrap()
    }
}

impl OptModel for QuadraticModel {
    type SolutionType = SolutionType;
    type TransitionType = TransitionType;
    type ScoreType = NotNan<f64>;

    fn generate_random_solution<R: rand::Rng>(
        &self,
        rng: &mut R,
    ) -> Result<(Self::SolutionType, Self::ScoreType), LocalsearchError> {
        let solution = (0..self.k).map(|_| rng.random_range(self.low..self.high)).collect::<Vec<_>>();
        let score = self.evaluate_solution(&solution);
        Ok((solution, score))
    }

    fn generate_trial_solution<R: rand::Rng>(
        &self,
        current_solution: Self::SolutionType,
        _current_score: Self::ScoreType,
        rng: &mut R,
    ) -> (Self::SolutionType, Self::TransitionType, NotNan<f64>) {
        let k = rng.random_range(0..self.k);
        let v = rng.random_range(self.low..self.high);
        let mut new_solution = current_solution.clone();
        new_solution[k] = v;
        let score = self.evaluate_solution(&new_solution);
        (new_solution, (k, current_solution[k], v), score)
    }
}

fn assert_close(expected: f64, actual: f64, epsilon: f64) {
    assert!((expected - actual).abs() <= epsilon, "{} is not within {} of {}", actual, epsilon, expected);
}

#[test]
fn test_hill_climbing() {
    let model = QuadraticModel::new(3, vec![2.0, 0.0, -3.5], (-10.0, 10.0));
    let opt = HillClimbingOptimizer::new(1000, 10);
    let (final_state, final_score) =
        opt.run(&model, None, 10000, Duration::from_secs(10)).unwrap();
    assert_close(2.0, final_state[0], 0.01);
    assert_close(0.0, final_state[1], 0.01);
    assert_close(-3.5, final_state[2], 0.01);
    assert_close(0.0, final_score.into_inner(), 0.01);
}

#[test]
fn test_epsilon_greedy_test() {
    let model = QuadraticModel::new(3, vec![2.0, 0.0, -3.5], (-10.0, 10.0));
    let opt = EpsilonGreedyOptimizer::new(1000, 10, 200, probability(0.1));
    let (final_solution, final_score) =
        opt.run(&model, None, 10000, Duration::from_secs(10)).unwrap();
    assert_close(2.0, final_solution[0], 0.05);
    assert_close(0.0, final_solution[1], 0.05);
    assert_close(-3.5, final_solution[2], 0.05);
    assert_close(0.0, final_score.into_inner(), 0.05);
}

fn check_converges<O: LocalSearchOptimizer<QuadraticModel>>(opt: &O, model: &QuadraticModel) {
    let (final_solution, final_score) =
        opt.run(model, None, 10000, Duration::from_secs(10)).unwrap();
    assert_close(2.0, final_solution[0], 0.05);
    assert_close(0.0, final_solution[1], 0.05);
    assert_close(-3.5, final_solution[2], 0.05);
    assert_close(0.0, final_score.into_inner(), 0.05);
}

#[test]
fn test_trait_object_test() {
    let model = QuadraticModel::new(3, vec![2.0, 0.0, -3.5], (-10.0, 10.0));
    check_converges(&HillClimbingOptimizer::new(1000, 10), &model);
    check_converges(&EpsilonGreedyOptimizer::new(1000, 10, 200, probability(0.1)), &model);
}

#[derive(Debug)]
struct MyTabuList {
    buff: RingBuffer<TransitionType>,
}

impl MyTabuList {
    fn new(size: usize) -> Self {
        let buff = RingBuffer::new(size);
        Self { buff }
    }
}

impl Default for MyTabuList {
    fn default() -> Self {
        Self::new(10)
    }
}

impl TabuList for MyTabuList {
    type Item = TransitionType;

    fn set_size(&mut self, n: usize) {
        self.buff = RingBuffer::new(n);
    }

    fn contains(&self, transition: &TransitionType) -> bool {
        let (k1, _, x) = *transition;
        self.buff.iter().any(|&(k2, y, _)| (k1 == k2) && (x - y).abs() < 0.005)
    }

    fn append(&mut self, transition: TransitionType) {
        self.buff.append(transition);
    }
}

#[test]
fn test_tabu_search_test() {
    let model = QuadraticModel::new(3, vec![2.0, 0.0, -3.5], (-10.0, 10.0));
    let opt = TabuSearchOptimizer::<MyTabuList>::new(1000, 25, 5, 10);
    let (final_solution, final_score) =
        opt.run(&model, None, 10000, Duration::from_secs(10)).unwrap();
    assert_close(2.0, final_solution[0], 0.1);
    assert_close(0.0, final_solution[1], 0.1);
    assert_close(-3.5, final_solution[2], 0.1);
    assert_close(0.0, final_score.into_inner(), 0.05);
}

fn geometric_betas(n_replicas: usize, beta_min: f64, beta_max: f64) -> Vec<f64> {
    let mut betas = Vec::with_capacity(n_replicas);
    if n_replicas == 1 {
        betas.push(beta_min);
    } else {
        let ratio = (beta_max / beta_min).powf(1.0 / (n_replicas as f64 - 1.0));
        let mut b = beta_min;
        for _ in 0..n_replicas {
            betas.push(b);
            b *= ratio;
        }
    }
    betas
}

#[test]
fn test_parallel_tempering_basic() {
    let model = QuadraticModel::new(3, vec![0.1, -0.2, 0.3], (-1.0, 1.0));
    let mut rng = rand::rng();
    let (init_sol, init_score) = model.generate_random_solution(&mut rng).unwrap();

    let betas = geometric_betas(6, 1e-2, 1e2);
    let ladder = betas.clone();
    let pt = ParallelTemperingOptimizer::new(
        50, // patience
        10, // n_trials
        10, // return_iter
        6,  // n_replicas
        move |replica: usize, current: ScoreType, trial: ScoreType| {
            metropolis(betas[replica], current, trial)
        },
        move |lower: usize, lower_score: ScoreType, upper_score: ScoreType| {
            let exponent =
                (ladder[lower + 1] - ladder[lower]) * (upper_score - lower_score).into_inner();
            probability(exponent.exp())
        },
        5, // update_frequency
    );

    let (_best_solution, best_score) =
        pt.run(&model, Some((init_sol, init_score)), 200, Duration::from_secs(1)).unwrap();

    assert!(best_score.into_inner().is_finite());
    assert!(best_score <= init_score);
}

fn tune_temperature(model: &QuadraticModel, n_warmup: usize, target_prob: f64) -> f64 {
    let mut rng = rand::rng();
    let (current_solution, current_score) = model.generate_random_solution(&mut rng).unwrap();
    let energy_diffs: Vec<f64> = (0..n_warmup)
        .filter_map(|_| {
            let (_, _, trial_score) =
                model.generate_trial_solution(current_solution.clone(), current_score, &mut rng);
            let ds = trial_score - current_score;
            if ds.into_inner() > 0.0 {
                Some(ds.into_inner())
            } else {
                None
            }
        })
        .collect();
    if energy_diffs.is_empty() {
        1.0
    } else {
        let average = energy_diffs.iter().sum::<f64>() / energy_diffs.len() as f64;
        let ln_prob = target_prob.ln().clamp(-100.0, -0.01);
        -ln_prob / average.clamp(0.01, 100.0)
    }
}

fn boltzmann_picks(temperature: f64, scores: &Vec<ScoreType>) -> Vec<usize> {
    let mut weights = Vec::new();
    for score in scores {
        weights.push((-score.into_inner() / temperature).exp().max(1e-8));
    }
    let weight_sum: f64 = weights.iter().sum();
    for w in &mut weights {
        *w /= weight_sum;
    }
    let sampler = WeightedIndex::new(&weights).unwrap();
    let mut rng = rand::rng();
    (0..scores.len()).map(|_| sampler.sample(&mut rng)).collect()
}

#[test]
fn resampling_follows_the_boltzmann_weights() {
    let temperature = 1.0;
    let members: Vec<(usize, ScoreType)> =
        (0..3).map(|place| (place, NotNan::new(place as f64).unwrap())).collect();
    let scores: Vec<ScoreType> = members.iter().map(|member| member.1).collect();
    let rounds = 10000;
    let mut counts = [0usize; 3];
    for _ in 0..rounds {
        let picks = boltzmann_picks(temperature, &scores);
        for (solution, score) in resampled(&members, &picks) {
            assert_eq!(score, members[solution].1);
            counts[solution] += 1;
        }
    }
    let weights: Vec<f64> = scores.iter().map(|score| (-score.into_inner() / temperature).exp()).collect();
    let total: f64 = weights.iter().sum();
    let draws = (3 * rounds) as f64;
    for place in 0..3 {
        let share = weights[place] / total;
        // six standard deviations of the binomial
        let tolerance = 6.0 * (draws * share * (1.0 - share)).sqrt();
        assert!((counts[place] as f64 - draws * share).abs() < tolerance);
    }
}

#[test]
fn test_population_annealing_test() {
    let model = QuadraticModel::new(3, vec![2.0, 0.0, -3.5], (-10.0, 10.0));
    let update_frequency = 100;
    let initial_temperature = tune_temperature(&model, 1000, 0.8);
    let cooling_rate = (1e-2 / initial_temperature).powf(1.0 / (5000 / update_frequency) as f64);
    let opt = PopulationAnnealingOptimizer::new(
        10000,
        10,
        1000,
        move |round: usize, current: ScoreType, trial: ScoreType| {
            metropolis(initial_temperature * cooling_rate.powi(round as i32), current, trial)
        },
        move |round: usize, scores: &Vec<ScoreType>| {
            boltzmann_picks(initial_temperature * cooling_rate.powi(round as i32 + 1), scores)
        },
        update_frequency,
        32,
    );
    let (final_solution, final_score) =
        opt.run(&model, None, 5000, Duration::from_secs(10)).unwrap();
    assert_close(2.0, final_solution[0], 0.05);
    assert_close(0.0, final_solution[1], 0.05);
    assert_close(-3.5, final_solution[2], 0.05);
    assert_close(0.0, final_score.into_inner(), 0.05);
}

// A simple model to check that population annealing works: flip one of ten bits
#[derive(Clone)]
struct SimpleTestModel {
    size: usize,
}

impl SimpleTestModel {
    fn new(size: usize) -> Self {
        Self { size }
    }
}

impl OptModel for SimpleTestModel {
    type SolutionType = Vec<bool>;
    type ScoreType = NotNan<f64>;
    type TransitionType = usize; // Position to flip

    fn generate_random_solution<R: rand::Rng>(
        &self,
        rng: &mut R,
    ) -> Result<(Self::SolutionType, Self::ScoreType), LocalsearchError> {
        let mut solution = Vec::with_capacity(self.size);
        for _ in 0..self.size {
            solution.push(rng.random::<bool>());
        }
        let score = solution.iter().map(|&x| if x { -1.0 } else { 1.0 }).sum();
        Ok((solution, NotNan::new(score).unwrap()))
    }

    fn generate_trial_solution<R: rand::Rng>(
        &self,
        mut current_solution: Self::SolutionType,
        _current_score: Self::ScoreType,
        rng: &mut R,
    ) -> (Self::SolutionType, Self::TransitionType, Self::ScoreType) {
        let pos = rng.random_range(0..self.size);
        current_solution[pos] = !current_solution[pos];
        let score = current_solution.iter().map(|&x| if x { -1.0 } else { 1.0 }).sum();
        (current_solution, pos, NotNan::new(score).unwrap())
    }
}

#[test]
fn test_population_annealing_optimizer() {
    let model = SimpleTestModel::new(10);
    let (initial_solution, initial_score) =
        model.generate_random_solution(&mut rand::rng()).unwrap();

    let initial_temperature = 10.0;
    let cooling_rate: f64 = 1.0;
    let optimizer = PopulationAnnealingOptimizer::new(
        10,
        5,
        5,
        move |round: usize, current: ScoreType, trial: ScoreType| {
            metropolis(initial_temperature * cooling_rate.powi(round as i32), current, trial)
        },
        move |round: usize, scores: &Vec<ScoreType>| {
            boltzmann_picks(initial_temperature * cooling_rate.powi(round as i32 + 1), scores)
        },
        4,
        10,
    );

    let (solution, score) = optimizer.optimize(
        &model,
        initial_solution,
        initial_score,
        100,
        std::time::Duration::from_secs(10),
        &|_progress: OptProgress<Vec<bool>, ScoreType>| {}, // Empty callback
    );

    // Basic validation
    assert_eq!(solution.len(), 10);
    // The score should be a NotNan<f64>
    assert!(score.into_inner() <= 10.0); // Maximum possible score is 10 if all are false
}

#[test]
fn random_search_keeps_the_best_it_meets() {
    let model = QuadraticModel::new(3, vec![2.0, 0.0, -3.5], (-10.0, 10.0));
    let mut rng = rand::rng();
    let (solution, score) = model.generate_random_solution(&mut rng).unwrap();
    let seen = RefCell::new(Vec::new());
    let opt = RandomSearchOptimizer::new(50);
    let (best_solution, best_score) = opt.optimize(
        &model,
        solution,
        score,
        500,
        Duration::from_secs(10),
        &|progress: OptProgress<SolutionType, ScoreType>| {
            seen.borrow_mut().push(progress.score);
        },
    );
    assert!(best_score <= score);
    assert_eq!(model.evaluate_solution(&best_solution), best_score);
    // the best score reported to the callback never gets worse
    let seen = seen.into_inner();
    for pair in seen.windows(2) {
        assert!(pair[1] <= pair[0]);
    }
    for reported in seen {
        assert!(best_score <= reported);
    }
}
