use tsp_solver::distance::MAX_NODES;
use tsp_solver::phase::{Phase, DEFAULT_BUDGET_MS, FIRST_ANNEAL_MS};
use tsp_solver::solver::Solver;

fn instance(points: &[[i32; 2]]) -> [[i32; 2]; MAX_NODES] {
    let mut nodes = [[0i32; 2]; MAX_NODES];
    for (i, p) in points.iter().enumerate() {
        nodes[i] = *p;
    }
    nodes
}

fn is_closed_tour(path: &Vec<usize>, n: usize) -> bool {
    if path.len() != n + 1 || path[0] != 0 || path[n] != 0 {
        return false;
    }
    let mut seen = vec![false; n];
    for &p in &path[..n] {
        if p >= n || seen[p] {
            return false;
        }
        seen[p] = true;
    }
    true
}

fn scattered(n: usize) -> [[i32; 2]; MAX_NODES] {
    let mut nodes = [[0i32; 2]; MAX_NODES];
    let mut state: u64 = 12345;
    for node in nodes.iter_mut().take(n) {
        state = state.wrapping_mul(6364136223846793005).wrapping_add(1442695040888963407);
        let x = ((state >> 33) % 1000) as i32;
        state = state.wrapping_mul(6364136223846793005).wrapping_add(1442695040888963407);
        let y = ((state >> 33) % 1000) as i32;
        *node = [x, y];
    }
    nodes
}

#[test]
fn single_point_tour() {
    let mut solver = Solver::new(instance(&[[5, 5]]), 1).unwrap();
    solver.solve();
    assert_eq!(solver.path(), &vec![0, 0]);
    assert_eq!(solver.score(), 0);
}

#[test]
fn two_point_tour() {
    let mut solver = Solver::new(instance(&[[0, 0], [3, 4]]), 2).unwrap();
    solver.solve();
    assert_eq!(solver.path(), &vec![0, 1, 0]);
    assert_eq!(solver.score(), 10000);
    assert_eq!(solver.score() as f64 / 1000.0, 10.0);
}

#[test]
fn unit_square_tour_is_optimal() {
    let mut solver = Solver::new(instance(&[[0, 0], [1, 0], [1, 1], [0, 1]]), 4).unwrap();
    solver.solve();
    assert!(is_closed_tour(solver.path(), 4));
    assert_eq!(solver.score(), 4000);
    assert_eq!(solver.score() as f64 / 1000.0, 4.0);
}

#[test]
fn greedy_walks_to_the_nearest_and_lowest_index_wins_ties() {
    let nodes = instance(&[[0, 0], [10, 0], [-10, 0], [0, 3], [0, -3]]);
    let mut solver = Solver::new(nodes, 5).unwrap();
    solver.set_initial_path();
    assert_eq!(solver.path(), &vec![0, 3, 4, 1, 2, 0]);
    assert_eq!(solver.score(), 3000 + 6000 + 10440 + 20000 + 10000);
    assert_eq!(solver.score(), solver.get_distance(solver.path()));
}

#[test]
fn two_opt_removes_a_crossing() {
    let nodes = instance(&[[0, 0], [10, 10], [10, 0], [0, 10]]);
    let mut solver = Solver::new(nodes, 4).unwrap();
    solver.set_initial_path();
    solver.reverse_segment(1, 3);
    assert_eq!(solver.path(), &vec![0, 1, 2, 3, 0]);
    assert_eq!(solver.score(), 48284);
    assert_eq!(solver.reversal_change(1, 3), -8284);
    solver.run_two_opt();
    assert_eq!(solver.path(), &vec![0, 2, 1, 3, 0]);
    assert_eq!(solver.score(), 40000);
    assert!(!solver.two_opt_sweep());
}

#[test]
fn reverse_segment_tracks_the_length() {
    let mut solver = Solver::new(scattered(12), 12).unwrap();
    solver.set_initial_path();
    let before = solver.score() as i64;
    let change = solver.reversal_change(2, 7);
    solver.reverse_segment(2, 7);
    assert_eq!(solver.score() as i64, before + change);
    assert_eq!(solver.score(), solver.get_distance(solver.path()));
    assert!(is_closed_tour(solver.path(), 12));
}

#[test]
fn exchange_segments_tracks_the_length() {
    let mut solver = Solver::new(scattered(12), 12).unwrap();
    solver.set_initial_path();
    let before = solver.score() as i64;
    let old_path = solver.path().clone();
    let change = solver.exchange_change(2, 5, 9);
    solver.exchange_segments(2, 5, 9);
    assert_eq!(solver.score() as i64, before + change);
    assert_eq!(solver.score(), solver.get_distance(solver.path()));
    assert!(is_closed_tour(solver.path(), 12));
    assert_eq!(&solver.path()[2..6], &old_path[5..9]);
    assert_eq!(&solver.path()[6..9], &old_path[2..5]);
}

#[test]
fn two_opt_reaches_a_local_optimum() {
    let mut solver = Solver::new(scattered(40), 40).unwrap();
    solver.set_initial_path();
    let built = solver.score();
    solver.run_two_opt();
    assert!(solver.score() <= built);
    assert_eq!(solver.score(), solver.get_distance(solver.path()));
    assert!(is_closed_tour(solver.path(), 40));
    for i in 1..40 {
        for j in (i + 1)..=40 {
            assert!(solver.reversal_change(i, j) >= -10);
        }
    }
}

#[test]
fn three_opt_never_lengthens_and_tracks_the_length() {
    let mut solver = Solver::new(scattered(30), 30).unwrap();
    solver.set_initial_path();
    let built = solver.score();
    solver.run_three_opt();
    assert!(solver.score() <= built);
    assert_eq!(solver.score(), solver.get_distance(solver.path()));
    assert!(is_closed_tour(solver.path(), 30));
}

#[test]
fn three_opt_move_takes_the_first_shortening_move() {
    let nodes = instance(&[[0, 0], [2, 0], [1, 0], [3, 0], [4, 0], [5, 0], [6, 0]]);
    let mut solver = Solver::new(nodes, 7).unwrap();
    solver.set_initial_path();
    assert_eq!(solver.path(), &vec![0, 2, 1, 3, 4, 5, 6, 0]);
    assert_eq!(solver.score(), 12000);
    solver.three_opt_move(1, 3, 5);
    assert_eq!(solver.path(), &vec![0, 2, 1, 3, 4, 5, 6, 0]);
    assert_eq!(solver.score(), 12000);
    solver.reverse_segment(1, 3);
    assert_eq!(solver.path(), &vec![0, 1, 2, 3, 4, 5, 6, 0]);
    assert_eq!(solver.score(), 14000);
    solver.three_opt_move(1, 3, 5);
    assert_eq!(solver.path(), &vec![0, 2, 1, 3, 4, 5, 6, 0]);
    assert_eq!(solver.score(), 12000);
}

#[test]
fn three_opt_move_prefers_the_whole_reversal_to_the_exchange() {
    let nodes = instance(&[[0, 0], [2, 0], [1, 0], [3, 0], [4, 0], [5, 0], [6, 0]]);
    let mut solver = Solver::new(nodes, 7).unwrap();
    solver.set_initial_path();
    solver.exchange_segments(1, 3, 5);
    assert_eq!(solver.path(), &vec![0, 3, 4, 2, 1, 5, 6, 0]);
    assert_eq!(solver.score(), 18000);
    assert_eq!(solver.reversal_change(1, 3), 0);
    assert_eq!(solver.reversal_change(3, 5), 0);
    assert_eq!(solver.reversal_change(1, 5), -2000);
    assert_eq!(solver.exchange_change(1, 3, 5), -6000);
    solver.three_opt_move(1, 3, 5);
    assert_eq!(solver.path(), &vec![0, 1, 2, 4, 3, 5, 6, 0]);
    assert_eq!(solver.score(), 16000);
}

#[test]
fn three_opt_move_reverses_the_second_segment() {
    let nodes = instance(&[[0, 0], [2, 0], [1, 0], [3, 0], [4, 0], [5, 0], [6, 0]]);
    let mut solver = Solver::new(nodes, 7).unwrap();
    solver.set_initial_path();
    solver.reverse_segment(3, 5);
    assert_eq!(solver.path(), &vec![0, 2, 1, 4, 3, 5, 6, 0]);
    assert_eq!(solver.score(), 14000);
    solver.three_opt_move(1, 3, 5);
    assert_eq!(solver.path(), &vec![0, 2, 1, 3, 4, 5, 6, 0]);
    assert_eq!(solver.score(), 12000);
}

#[test]
fn three_opt_on_small_instances_changes_nothing() {
    for n in 1..6usize {
        let mut solver = Solver::new(scattered(n), n).unwrap();
        solver.set_initial_path();
        let before = solver.path().clone();
        solver.run_three_opt();
        assert_eq!(solver.path(), &before);
    }
}

#[test]
fn solve_is_never_worse_than_the_greedy_tour() {
    for n in [1usize, 2, 3, 5, 8, 13, 21, 34, 55] {
        let nodes = scattered(n);
        let mut greedy = Solver::new(nodes, n).unwrap();
        greedy.set_initial_path();
        let mut solver = Solver::new(nodes, n).unwrap();
        solver.solve();
        assert!(solver.score() <= greedy.score());
        assert_eq!(solver.score(), solver.get_distance(solver.path()));
        assert!(is_closed_tour(solver.path(), n));
    }
}

#[test]
fn commit_takes_only_a_strictly_shorter_tour() {
    let nodes = instance(&[[0, 0], [10, 10], [10, 0], [0, 10]]);
    let mut solver = Solver::new(nodes, 4).unwrap();
    solver.set_initial_path();
    assert_eq!(solver.path(), &vec![0, 2, 1, 3, 0]);
    assert_eq!(solver.score(), 40000);
    assert!(!solver.commit(&vec![0, 3, 1, 2, 0], 40000));
    assert_eq!(solver.path(), &vec![0, 2, 1, 3, 0]);
    assert!(!solver.commit(&vec![0, 1, 2, 3, 0], 48284));
    assert_eq!(solver.score(), 40000);
}

#[test]
fn phases_follow_in_order() {
    assert_eq!(Phase::Construct.next(), Phase::AnnealFirst);
    assert_eq!(Phase::AnnealFirst.next(), Phase::TwoOpt);
    assert_eq!(Phase::TwoOpt.next(), Phase::ThreeOpt);
    assert_eq!(Phase::ThreeOpt.next(), Phase::AnnealSecond);
    assert_eq!(Phase::AnnealSecond.next(), Phase::Done);
    assert_eq!(Phase::Done.next(), Phase::Done);
}

#[test]
fn timed_phases_and_deadlines() {
    assert!(Phase::AnnealFirst.is_timed());
    assert!(Phase::AnnealSecond.is_timed());
    assert!(!Phase::Construct.is_timed());
    assert!(!Phase::TwoOpt.is_timed());
    assert!(!Phase::ThreeOpt.is_timed());
    assert!(!Phase::Done.is_timed());
    assert_eq!(DEFAULT_BUDGET_MS, 4950);
    assert_eq!(Phase::AnnealFirst.deadline(DEFAULT_BUDGET_MS), FIRST_ANNEAL_MS);
    assert_eq!(Phase::AnnealFirst.deadline(400), 400);
    assert_eq!(Phase::AnnealSecond.deadline(4950), 4950);
    assert_eq!(Phase::TwoOpt.deadline(4950), 4950);
}

#[test]
fn advance_keeps_a_timed_phase_until_its_deadline() {
    assert_eq!(Phase::AnnealFirst.advance(999, 4950), Phase::AnnealFirst);
    assert_eq!(Phase::AnnealFirst.advance(1000, 4950), Phase::TwoOpt);
    assert_eq!(Phase::AnnealSecond.advance(4949, 4950), Phase::AnnealSecond);
    assert_eq!(Phase::AnnealSecond.advance(4950, 4950), Phase::Done);
    assert_eq!(Phase::Construct.advance(0, 4950), Phase::AnnealFirst);
    assert_eq!(Phase::TwoOpt.advance(0, 4950), Phase::ThreeOpt);
    assert_eq!(Phase::Done.advance(0, 4950), Phase::Done);
}

#[test]
fn run_phase_does_the_untimed_work() {
    let nodes = scattered(20);
    let mut by_phase = Solver::new(nodes, 20).unwrap();
    let mut phase = Phase::Construct;
    while phase != Phase::Done {
        by_phase.run_phase(phase);
        phase = phase.next();
    }
    let mut whole = Solver::new(nodes, 20).unwrap();
    whole.solve();
    assert_eq!(by_phase.path(), whole.path());
    assert_eq!(by_phase.score(), whole.score());
}

#[test]
fn rows_make_up_the_sweep_and_the_pass() {
    let nodes = scattered(25);
    let mut by_rows = Solver::new(nodes, 25).unwrap();
    by_rows.set_initial_path();
    let mut whole = Solver::new(nodes, 25).unwrap();
    whole.set_initial_path();
    let mut any = false;
    for i in 1..25 {
        if by_rows.two_opt_row(i) {
            any = true;
        }
    }
    assert_eq!(whole.two_opt_sweep(), any);
    assert_eq!(by_rows.path(), whole.path());
    assert_eq!(by_rows.score(), whole.score());
    let mut i = 1;
    while i + 3 < 25 {
        by_rows.three_opt_row(i);
        i += 1;
    }
    whole.run_three_opt();
    assert_eq!(by_rows.path(), whole.path());
    assert_eq!(by_rows.score(), whole.score());
    assert_eq!(whole.score(), whole.get_distance(whole.path()));
}

#[test]
fn two_opt_leaves_an_optimal_tour_alone() {
    let mut solver = Solver::new(instance(&[[0, 0], [1, 0], [1, 1], [0, 1]]), 4).unwrap();
    solver.set_initial_path();
    let before = solver.path().clone();
    solver.run_two_opt();
    assert_eq!(solver.path(), &before);
    assert_eq!(solver.score(), 4000);
}

#[test]
fn two_opt_ignores_gains_within_the_threshold() {
    let nodes = instance(&[[0, 0], [1000, 1], [1000, 0], [0, 1]]);
    let mut solver = Solver::new(nodes, 4).unwrap();
    solver.set_initial_path();
    assert_eq!(solver.path(), &vec![0, 3, 1, 2, 0]);
    let before = solver.score();
    assert!(!solver.two_opt_sweep());
    assert_eq!(solver.score(), before);
}

#[test]
fn three_opt_to_optimum_ends_where_a_pass_changes_nothing() {
    let nodes = scattered(30);
    let mut once = Solver::new(nodes, 30).unwrap();
    once.set_initial_path();
    once.run_three_opt();
    let mut repeated = Solver::new(nodes, 30).unwrap();
    repeated.set_initial_path();
    repeated.run_three_opt_to_optimum();
    assert!(repeated.score() <= once.score());
    assert_eq!(repeated.score(), repeated.get_distance(repeated.path()));
    assert!(is_closed_tour(repeated.path(), 30));
    let settled = repeated.path().clone();
    assert!(!repeated.three_opt_sweep());
    assert_eq!(repeated.path(), &settled);
}

#[test]
fn three_opt_sweep_reports_its_moves() {
    let nodes = instance(&[[0, 0], [2, 0], [1, 0], [3, 0], [4, 0], [5, 0], [6, 0]]);
    let mut solver = Solver::new(nodes, 7).unwrap();
    solver.set_initial_path();
    assert!(!solver.three_opt_sweep());
    assert_eq!(solver.path(), &vec![0, 2, 1, 3, 4, 5, 6, 0]);
    solver.reverse_segment(1, 3);
    assert!(solver.three_opt_sweep());
    assert_eq!(solver.path(), &vec![0, 2, 1, 3, 4, 5, 6, 0]);
    assert_eq!(solver.score(), 12000);
}

#[test]
fn distances_agree_with_floating_point_roots() {
    let nodes = scattered(20);
    let solver = Solver::new(nodes, 20).unwrap();
    for i in 0..20 {
        for j in 0..20 {
            let dx = (nodes[i][0] - nodes[j][0]) as f64;
            let dy = (nodes[i][1] - nodes[j][1]) as f64;
            let exact = (dx * dx + dy * dy).sqrt();
            let held = solver.distance(i, j) as f64 / 1000.0;
            assert!(held <= exact + 1e-9);
            assert!(exact - held < 0.001 + 1e-9);
        }
    }
}
