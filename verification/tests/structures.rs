use localsearch::optim::bookkeeping::SearchState;
use localsearch::optim::generic::best_trial;
use localsearch::optim::population_annealing::{
    check_picks, members_of, repopulate, resampled, scores_of,
};
use localsearch::optim::rounds::{best_result, send_back, take_in_round, RoundKeeper};
use localsearch::optim::schedule::{cooling_steps, is_optional_update_step, is_update_step};
use localsearch::optim::{StepResult, TargetAccScheduleMode};
use localsearch::probability::{draw_of, random_index, uniform_draw, RESOLUTION};
use localsearch::utils::RingBuffer;
use localsearch::{AcceptanceCounter, AcceptanceRatio, LocalsearchError, OptProgress, Probability};

fn contents(buffer: &RingBuffer<u32>) -> Vec<u32> {
    buffer.iter().copied().collect()
}

#[test]
fn ring_buffer_keeps_order_while_filling() {
    let mut buffer = RingBuffer::new(3);
    assert_eq!(contents(&buffer), Vec::<u32>::new());
    buffer.append(7);
    buffer.append(8);
    assert_eq!(contents(&buffer), vec![7, 8]);
    buffer.append(9);
    assert_eq!(contents(&buffer), vec![7, 8, 9]);
}

#[test]
fn ring_buffer_evicts_the_oldest_first() {
    let mut buffer = RingBuffer::new(3);
    for item in 1..=5 {
        buffer.append(item);
    }
    assert_eq!(contents(&buffer), vec![3, 4, 5]);
    buffer.append(6);
    assert_eq!(contents(&buffer), vec![4, 5, 6]);
}

#[test]
fn ring_buffer_of_capacity_one_holds_the_last_item() {
    let mut buffer = RingBuffer::new(1);
    buffer.append(1);
    buffer.append(2);
    assert_eq!(contents(&buffer), vec![2]);
}

#[test]
fn ring_buffer_of_capacity_zero_stays_empty() {
    let mut buffer = RingBuffer::new(0);
    buffer.append(1);
    buffer.append(2);
    buffer.append(3);
    assert_eq!(contents(&buffer), Vec::<u32>::new());
}

#[test]
fn appended_item_stays_until_capacity_others_follow() {
    for capacity in 1usize..6 {
        let mut buffer = RingBuffer::new(capacity);
        buffer.append(99);
        buffer.append(100);
        buffer.append(0);
        for others in 1..=capacity + 2 {
            // `0` was followed by `others - 1` other items so far
            assert_eq!(contents(&buffer).contains(&0), others - 1 < capacity);
            buffer.append(others as u32);
        }
    }
}

#[test]
fn probability_grid_has_two_to_the_fifty_three_points() {
    assert_eq!(RESOLUTION, 1u64 << 53);
    assert_eq!(Probability::always().admitted_draws(), 1u64 << 53);
    assert_eq!(Probability::never().admitted_draws(), 0);
}

#[test]
fn probability_threshold_saturates_at_certainty() {
    assert_eq!(Probability::from_threshold(5).admitted_draws(), 5);
    assert_eq!(Probability::from_threshold(RESOLUTION).admitted_draws(), RESOLUTION);
    assert_eq!(Probability::from_threshold(RESOLUTION + 1).admitted_draws(), RESOLUTION);
    assert_eq!(Probability::from_threshold(u64::MAX), Probability::always());
}

#[test]
fn probability_admits_the_draws_below_its_threshold() {
    let p = Probability::from_threshold(10);
    assert!(p.admits(0));
    assert!(p.admits(9));
    assert!(!p.admits(10));
    assert!(!p.admits(RESOLUTION - 1));
    assert!(!Probability::never().admits(0));
    assert!(Probability::always().admits(RESOLUTION - 1));
    assert!(Probability::always().is_certain());
    assert!(!Probability::from_threshold(RESOLUTION - 1).is_certain());
    assert!(!Probability::never().is_certain());
}

#[test]
fn draw_is_the_upper_fifty_three_bits_of_the_word() {
    assert_eq!(draw_of(0), 0);
    assert_eq!(draw_of(2047), 0);
    assert_eq!(draw_of(2048), 1);
    assert_eq!(draw_of(1u64 << 63), RESOLUTION / 2);
    assert_eq!(draw_of(u64::MAX), RESOLUTION - 1);
}

#[test]
fn uniform_draws_stay_on_the_grid_and_vary() {
    let first = uniform_draw();
    let mut varied = false;
    let mut upper_half = 0;
    for _ in 0..2000 {
        let draw = uniform_draw();
        assert!(draw < RESOLUTION);
        varied = varied || draw != first;
        if draw >= RESOLUTION / 2 {
            upper_half += 1;
        }
    }
    assert!(varied);
    // half of the draws, give or take, lie in the upper half
    assert!(upper_half > 700 && upper_half < 1300);
}

#[test]
fn random_places_stay_below_their_bound_and_vary() {
    assert_eq!(random_index(1), 0);
    let mut met = [false; 4];
    for _ in 0..400 {
        let place = random_index(4);
        assert!(place < 4);
        met[place] = true;
    }
    assert_eq!(met, [true; 4]);
}

#[test]
fn half_probability_admits_half_of_the_draws() {
    let p = Probability::from_threshold(RESOLUTION / 2);
    let mut admitted = 0;
    for _ in 0..4000 {
        if p.admits(uniform_draw()) {
            admitted += 1;
        }
    }
    assert!(admitted > 1600 && admitted < 2400);
}

#[test]
fn search_state_starts_with_best_equal_to_current() {
    let state = SearchState::new("a", 10);
    assert_eq!(*state.current_solution(), "a");
    assert_eq!(state.current_score(), 10);
    assert_eq!(*state.best(), "a");
    assert_eq!(state.best_score(), 10);
    assert!(!state.gives_up(1));
    assert!(state.gives_up(0));
    assert_eq!(
        state.acceptance_counter().acceptance_ratio(),
        AcceptanceRatio { accepted: 0, samples: 0 }
    );
}

#[test]
fn improving_trial_replaces_best_and_clears_stagnation() {
    let mut state = SearchState::new("a", 10);
    state.advance("b", 12, false, 100);
    state.advance("c", 11, false, 100);
    assert!(state.gives_up(2));
    state.advance("d", 9, true, 100);
    assert_eq!(*state.best(), "d");
    assert_eq!(state.best_score(), 9);
    assert_eq!(*state.current_solution(), "d");
    assert_eq!(state.current_score(), 9);
    assert!(state.gives_up(0));
    assert_eq!(
        state.acceptance_counter().acceptance_ratio(),
        AcceptanceRatio { accepted: 1, samples: 3 }
    );
}

#[test]
fn accepted_worse_trial_moves_current_but_not_best() {
    let mut state = SearchState::new("a", 10);
    state.advance("b", 15, true, 100);
    assert_eq!(*state.current_solution(), "b");
    assert_eq!(state.current_score(), 15);
    assert_eq!(*state.best(), "a");
    assert_eq!(state.best_score(), 10);
    assert!(state.gives_up(1));
    // a trial that equals the best score is no improvement
    state.advance("c", 10, true, 100);
    assert_eq!(*state.best(), "a");
    assert_eq!(*state.current_solution(), "c");
    assert!(state.gives_up(2));
}

#[test]
fn rejected_improvement_of_the_best_is_still_remembered() {
    let mut state = SearchState::new("a", 10);
    state.advance("b", 5, false, 100);
    assert_eq!(*state.best(), "b");
    assert_eq!(state.best_score(), 5);
    assert_eq!(*state.current_solution(), "a");
    assert_eq!(state.current_score(), 10);
}

#[test]
fn search_returns_to_best_after_return_iter_stagnant_iterations() {
    let mut state = SearchState::new("a", 10);
    state.advance("b", 20, true, 3);
    state.advance("c", 30, true, 3);
    assert_eq!(*state.current_solution(), "c");
    state.advance("d", 40, true, 3);
    // third stagnant iteration: back to the best
    assert_eq!(*state.current_solution(), "a");
    assert_eq!(state.current_score(), 10);
    assert_eq!(*state.best(), "a");
    // the return counter starts again, the patience counter goes on
    assert!(state.gives_up(3));
    state.advance("e", 50, true, 3);
    state.advance("f", 60, true, 3);
    assert_eq!(*state.current_solution(), "f");
    state.advance("g", 70, true, 3);
    assert_eq!(*state.current_solution(), "a");
    assert!(state.gives_up(6));
}

#[test]
fn stagnating_without_a_trial_counts_and_returns() {
    let mut state = SearchState::new("a", 10);
    state.advance("b", 20, true, 2);
    assert_eq!(*state.current_solution(), "b");
    state.stagnate(2);
    assert_eq!(*state.current_solution(), "a");
    assert_eq!(state.current_score(), 10);
    assert!(state.gives_up(2));
    state.stagnate(2);
    assert!(state.gives_up(3));
}

#[test]
fn search_state_sums_up_into_a_result() {
    let mut state = SearchState::new(vec![1], 10);
    state.advance(vec![2], 4, true, 100);
    state.advance(vec![3], 6, true, 100);
    state.advance(vec![4], 8, false, 100);
    let result = state.into_result();
    assert_eq!(result.best_solution, vec![2]);
    assert_eq!(result.best_score, 4);
    assert_eq!(result.last_solution, vec![3]);
    assert_eq!(result.last_score, 6);
    assert_eq!(
        result.acceptance_counter.acceptance_ratio(),
        AcceptanceRatio { accepted: 2, samples: 3 }
    );
    let at_best = SearchState::new(vec![9], 1).into_result();
    assert_eq!(at_best.best_solution, vec![9]);
    assert_eq!(at_best.last_solution, vec![9]);
}

#[test]
fn best_trial_is_the_first_of_the_minima() {
    assert_eq!(best_trial(&vec![("a", 0u8, 5), ("b", 0, 3), ("c", 0, 4)]), 1);
    assert_eq!(best_trial(&vec![("a", 0u8, 2), ("b", 0, 2), ("c", 0, 2)]), 0);
    assert_eq!(best_trial(&vec![("a", 0u8, 9), ("b", 0, 1), ("c", 0, 1)]), 1);
    assert_eq!(best_trial(&vec![("a", 0u8, 9)]), 0);
}

fn step_result(best: i64, last: i64, outcomes: &[bool]) -> StepResult<i64, i64> {
    let mut acceptance_counter = AcceptanceCounter::new(100);
    for outcome in outcomes {
        acceptance_counter.enqueue(*outcome);
    }
    StepResult {
        best_solution: best,
        best_score: best,
        last_solution: last,
        last_score: last,
        acceptance_counter,
    }
}

#[test]
fn best_result_is_the_first_of_the_minima() {
    let results =
        vec![step_result(5, 6, &[]), step_result(2, 9, &[]), step_result(2, 2, &[])];
    assert_eq!(best_result(&results), 1);
}

#[test]
fn round_is_taken_apart_in_order() {
    let results = vec![
        step_result(5, 6, &[true, false]),
        step_result(2, 9, &[true, true, true]),
        step_result(3, 3, &[false]),
    ];
    let (states, best, ratio) = take_in_round(results, 1);
    assert_eq!(states, vec![(6, 6), (9, 9), (3, 3)]);
    assert_eq!(best, 2);
    assert_eq!(ratio, AcceptanceRatio { accepted: 4, samples: 6 });
}

#[test]
fn picks_must_name_a_member_for_each_place() {
    assert!(check_picks(&vec![0, 2, 2], 3));
    assert!(check_picks(&vec![], 0));
    assert!(!check_picks(&vec![0, 3, 2], 3));
    assert!(!check_picks(&vec![0, 1], 3));
    assert!(!check_picks(&vec![0, 1, 2, 0], 3));
}

#[test]
fn resampling_copies_the_picked_members() {
    let members = vec![("a".to_string(), 3), ("b".to_string(), 1), ("c".to_string(), 2)];
    let population = resampled(&members, &vec![1, 1, 0]);
    assert_eq!(
        population,
        vec![("b".to_string(), 1), ("b".to_string(), 1), ("a".to_string(), 3)]
    );
    assert_eq!(scores_of(&population), vec![1, 1, 3]);
    assert_eq!(resampled(&members, &vec![]), vec![]);
}

#[test]
fn trials_become_members() {
    let trials = vec![("a", 'x', 3), ("b", 'y', 1)];
    assert_eq!(members_of(trials), vec![("a", 3), ("b", 1)]);
}

#[test]
fn update_steps_are_the_positive_multiples() {
    assert!(!is_update_step(0, 5));
    assert!(!is_update_step(4, 5));
    assert!(is_update_step(5, 5));
    assert!(is_update_step(10, 5));
    assert!(is_update_step(3, 1));
    assert!(is_optional_update_step(0, 5));
    assert!(is_optional_update_step(10, 5));
    assert!(!is_optional_update_step(11, 5));
    assert!(!is_optional_update_step(0, 0));
    assert!(!is_optional_update_step(7, 0));
}

#[test]
fn cooling_is_spread_over_the_updates() {
    assert_eq!(cooling_steps(5000, 100), 50);
    assert_eq!(cooling_steps(99, 100), 0);
    assert_eq!(cooling_steps(7, 2), 3);
}

#[test]
fn schedule_mode_defaults_to_cosine() {
    assert_eq!(TargetAccScheduleMode::default(), TargetAccScheduleMode::Cosine);
}

#[test]
fn errors_describe_themselves() {
    assert_eq!(
        LocalsearchError::RandomGenerationError.message(),
        "Failed to generate random solution"
    );
    assert_eq!(LocalsearchError::PreprocessError.message(), "Preprocessing failed");
}

#[test]
fn progress_holds_what_it_is_given() {
    let state = vec![1, 2];
    let ratio = AcceptanceRatio { accepted: 1, samples: 4 };
    let progress = OptProgress::new(3, ratio, &state, 7);
    assert_eq!(progress.iter, 3);
    assert_eq!(progress.acceptance_ratio, ratio);
    assert_eq!(*progress.state, vec![1, 2]);
    assert_eq!(progress.score, 7);
}

#[test]
fn round_keeper_keeps_the_best_and_counts_stagnant_rounds() {
    let mut keeper = RoundKeeper::new("a", 10);
    assert_eq!((*keeper.best(), keeper.best_score(), keeper.iter()), ("a", 10, 0));
    // a round that does not improve adds its iterations to the stagnation
    assert!(!keeper.observe("b", 10, 5, 12, false));
    assert_eq!((*keeper.best(), keeper.best_score(), keeper.iter()), ("a", 10, 5));
    assert!(keeper.gives_up(5));
    assert!(!keeper.gives_up(6));
    assert!(!keeper.observe("c", 11, 5, 12, false));
    assert!(keeper.gives_up(10));
    // the third stagnant round reaches the return stagnation of twelve
    assert!(keeper.observe("d", 12, 5, 12, false));
    assert!(keeper.gives_up(15));
    // the return counter has started again
    assert!(!keeper.observe("e", 12, 5, 12, false));
    assert!(keeper.gives_up(20));
    // an improving round takes the best and clears the stagnation
    assert!(!keeper.observe("f", 9, 5, 12, false));
    assert_eq!((*keeper.best(), keeper.best_score(), keeper.iter()), ("f", 9, 25));
    assert!(keeper.gives_up(0));
    assert!(!keeper.gives_up(1));
    assert_eq!(keeper.into_best(), ("f", 9));
}

#[test]
fn round_keeper_can_count_an_improving_round_as_stagnant() {
    let mut keeper = RoundKeeper::new("a", 10);
    assert!(!keeper.observe("b", 9, 4, 8, true));
    assert_eq!((*keeper.best(), keeper.best_score()), ("b", 9));
    assert!(keeper.gives_up(4));
    assert!(!keeper.gives_up(5));
    // a second improving round leaves the stagnation at its own iterations
    assert!(!keeper.observe("c", 8, 4, 8, true));
    assert!(keeper.gives_up(4));
    assert!(!keeper.gives_up(5));
    assert!(keeper.observe("d", 8, 4, 8, true));
    assert!(keeper.gives_up(8));
}

#[test]
fn round_keeper_saturates_its_counters() {
    let mut keeper = RoundKeeper::new("a", 10);
    assert!(!keeper.observe("b", 10, usize::MAX - 1, usize::MAX, false));
    assert!(keeper.observe("c", 10, 5, usize::MAX, false));
    assert_eq!(keeper.iter(), usize::MAX);
    assert!(keeper.gives_up(usize::MAX));
}

#[test]
fn one_member_is_sent_back_to_the_best() {
    for _ in 0..20 {
        let mut members = vec![("a".to_string(), 5), ("b".to_string(), 6), ("c".to_string(), 7)];
        send_back(&mut members, &"best".to_string(), 1);
        let back: Vec<usize> =
            (0..3).filter(|place| members[*place] == ("best".to_string(), 1)).collect();
        assert_eq!(back.len(), 1);
        let kept = [("a".to_string(), 5), ("b".to_string(), 6), ("c".to_string(), 7)];
        for place in 0..3 {
            if place != back[0] {
                assert_eq!(members[place], kept[place]);
            }
        }
    }
}

#[test]
fn population_is_made_of_the_picked_members() {
    let members = || vec![("a", 3), ("b", 1), ("c", 2)];
    let by_round = |round: usize, scores: &Vec<i32>| {
        assert_eq!(*scores, vec![3, 1, 2]);
        vec![round; scores.len()]
    };
    assert_eq!(repopulate(&by_round, 1, members()), vec![("b", 1), ("b", 1), ("b", 1)]);
    assert_eq!(repopulate(&by_round, 2, members()), vec![("c", 2), ("c", 2), ("c", 2)]);
    // picks that name no member, or not one for each place, leave the members as they are
    assert_eq!(repopulate(&by_round, 3, members()), members());
    let too_few = |_round: usize, _scores: &Vec<i32>| vec![0];
    assert_eq!(repopulate(&too_few, 0, members()), members());
}
