use tsp_solver::distance::{floor_sqrt, point_distance, DistanceTable, DISTANCE_SCALE, MAX_NODES};
use tsp_solver::solver::{Solver, SolverError};

fn instance(points: &[[i32; 2]]) -> [[i32; 2]; MAX_NODES] {
    let mut nodes = [[0i32; 2]; MAX_NODES];
    for (i, p) in points.iter().enumerate() {
        nodes[i] = *p;
    }
    nodes
}

#[test]
fn floor_sqrt_exact_values() {
    assert_eq!(floor_sqrt(0), 0);
    assert_eq!(floor_sqrt(1), 1);
    assert_eq!(floor_sqrt(3), 1);
    assert_eq!(floor_sqrt(4), 2);
    assert_eq!(floor_sqrt(24), 4);
    assert_eq!(floor_sqrt(25), 5);
    assert_eq!(floor_sqrt(2_000_000), 1414);
    assert_eq!(floor_sqrt(999_999_999_999), 999_999);
    assert_eq!(floor_sqrt(1_000_000_000_000), 1_000_000);
}

#[test]
fn point_distance_is_scaled_euclidean() {
    assert_eq!(point_distance(&[0, 0], &[3, 4]), 5 * DISTANCE_SCALE);
    assert_eq!(point_distance(&[3, 4], &[0, 0]), 5000);
    assert_eq!(point_distance(&[0, 0], &[1, 1]), 1414);
    assert_eq!(point_distance(&[7, -2], &[7, -2]), 0);
    assert_eq!(point_distance(&[-1, 0], &[1, 0]), 2000);
}

#[test]
fn point_distance_of_extreme_coordinates() {
    let d = point_distance(&[i32::MIN, i32::MIN], &[i32::MAX, i32::MAX]);
    let exact = (2.0f64).sqrt() * 4294967295.0 * 1000.0;
    assert!((d as f64 - exact).abs() < 2.0);
    assert_eq!(point_distance(&[i32::MIN, 0], &[i32::MAX, 0]), 4_294_967_295_000);
}

#[test]
fn table_is_symmetric_with_zero_diagonal() {
    let nodes = instance(&[[0, 0], [3, 4], [-5, 12], [100, -7], [2, 2]]);
    let table = DistanceTable::build(&nodes, 5);
    assert_eq!(table.len(), 5);
    for i in 0..5 {
        assert_eq!(table.get(i, i), 0);
        for j in 0..5 {
            assert_eq!(table.get(i, j), table.get(j, i));
            assert_eq!(table.get(i, j), point_distance(&nodes[i], &nodes[j]));
        }
    }
    assert_eq!(table.get(0, 1), 5000);
    assert_eq!(table.get(0, 2), 13000);
}

#[test]
fn new_rejects_an_instance_over_capacity() {
    let nodes = [[0i32; 2]; MAX_NODES];
    assert!(matches!(Solver::new(nodes, MAX_NODES + 1), Err(SolverError::CapacityExceeded)));
    assert!(Solver::new(nodes, MAX_NODES).is_ok());
}

#[test]
fn new_solver_has_table_and_no_tour() {
    let nodes = instance(&[[0, 0], [3, 4], [6, 8]]);
    let solver = Solver::new(nodes, 3).unwrap();
    assert_eq!(solver.len(), 3);
    assert_eq!(solver.path(), &vec![0, 0, 0, 0]);
    assert_eq!(solver.score(), 0);
    assert_eq!(solver.distance(0, 2), 10000);
    assert_eq!(solver.distance(2, 1), 5000);
    assert_eq!(solver.get_distance(&vec![0, 1, 2, 0]), 20000);
    assert_eq!(solver.get_distance(&vec![]), 0);
    assert_eq!(solver.get_distance(&vec![1]), 0);
}
