use decision_support::clustering::ClusteringSolver;
use decision_support::engine::{LinkageRecord, MergeEngine};
use decision_support::errors::ClusterError;
use decision_support::matrix::DistanceMatrix;
use decision_support::objects::Object;
use decision_support::serializer::serialize_linkage;

fn euclid(a: &[f64], b: &[f64]) -> f64 {
    a.iter()
        .zip(b.iter())
        .map(|(x, y)| (x - y) * (x - y))
        .sum::<f64>()
        .sqrt()
}

/// Strictly-upper-triangular dissimilarity keys for the given points, using
/// the order-preserving bit encoding of the non-negative Euclidean distance.
fn upper_keys(points: &[Vec<f64>]) -> Vec<Vec<u64>> {
    let n = points.len();
    let mut upper: Vec<Vec<u64>> = Vec::new();
    for i in 0..n {
        let mut row: Vec<u64> = Vec::new();
        for j in (i + 1)..n {
            row.push(euclid(&points[i], &points[j]).to_bits());
        }
        upper.push(row);
    }
    upper
}

fn run_points(points: &[Vec<f64>]) -> Vec<LinkageRecord> {
    let matrix = DistanceMatrix::build(&upper_keys(points));
    MergeEngine::run(&matrix)
}

fn render_records(records: &Vec<LinkageRecord>) -> String {
    let dist_text: Vec<String> = records
        .iter()
        .map(|r| format!("{:.6}", f64::from_bits(r.dist)))
        .collect();
    serialize_linkage(records, &dist_text)
}

#[test]
fn validate_accepts_consistent_objects() {
    let objects = vec![
        Object { id: String::from("a"), features: vec![1, 2, 3] },
        Object { id: String::from("b"), features: vec![4, 5, 6] },
    ];
    assert!(ClusteringSolver::validate(&objects).is_ok());
}

#[test]
fn validate_rejects_empty_input() {
    let objects: Vec<Object> = Vec::new();
    assert_eq!(
        ClusteringSolver::validate(&objects),
        Err(ClusterError::InvalidInput)
    );
}

#[test]
fn validate_rejects_mismatched_feature_lengths() {
    // one object with three features, another with two
    let objects = vec![
        Object {
            id: String::from("a"),
            features: vec![1.0f64.to_bits(), 2.0f64.to_bits(), 3.0f64.to_bits()],
        },
        Object {
            id: String::from("b"),
            features: vec![1.0f64.to_bits(), 2.0f64.to_bits()],
        },
    ];
    assert_eq!(
        ClusteringSolver::validate(&objects),
        Err(ClusterError::InvalidInput)
    );
}

#[test]
fn single_object_yields_zero_records_and_zero_matrix() {
    let upper: Vec<Vec<u64>> = vec![vec![]];
    let matrix = DistanceMatrix::build(&upper);
    assert_eq!(matrix.dim(), 1);
    assert_eq!(matrix.get(0, 0), 0);
    let records = MergeEngine::run(&matrix);
    assert_eq!(records.len(), 0);
    assert_eq!(render_records(&records), "");
}

#[test]
fn matrix_is_symmetric_with_zero_diagonal() {
    let upper: Vec<Vec<u64>> = vec![vec![7, 2, 9], vec![4, 5], vec![1], vec![]];
    let matrix = DistanceMatrix::build(&upper);
    assert_eq!(matrix.dim(), 4);
    for i in 0..4 {
        assert_eq!(matrix.get(i, i), 0);
        for j in 0..4 {
            assert_eq!(matrix.get(i, j), matrix.get(j, i));
        }
    }
    assert_eq!(matrix.get(0, 1), 7);
    assert_eq!(matrix.get(0, 2), 2);
    assert_eq!(matrix.get(0, 3), 9);
    assert_eq!(matrix.get(1, 2), 4);
    assert_eq!(matrix.get(1, 3), 5);
    assert_eq!(matrix.get(2, 3), 1);
}

#[test]
fn four_point_scenario_merges_in_order() {
    // A=(0,0), B=(0,1), C=(5,5), D=(5,6): A-B and C-D are both at distance
    // 1.0; the tie-break picks A-B first since it is enumerated first, then
    // C-D, and the final merge joins the two pairs at the single-linkage
    // distance min over cross pairs = |B-C| = sqrt(41).
    let points = vec![
        vec![0.0, 0.0],
        vec![0.0, 1.0],
        vec![5.0, 5.0],
        vec![5.0, 6.0],
    ];
    let records = run_points(&points);
    assert_eq!(records.len(), 3);

    assert_eq!(records[0].id1, 0);
    assert_eq!(records[0].id2, 1);
    assert_eq!(records[0].dist, 1.0f64.to_bits());
    assert_eq!(records[0].size, 2);

    assert_eq!(records[1].id1, 2);
    assert_eq!(records[1].id2, 3);
    assert_eq!(records[1].dist, 1.0f64.to_bits());
    assert_eq!(records[1].size, 2);

    assert_eq!(records[2].id1, 4);
    assert_eq!(records[2].id2, 5);
    assert_eq!(records[2].dist, 41.0f64.sqrt().to_bits());
    assert_eq!(records[2].size, 4);

    assert_eq!(
        render_records(&records),
        "0 1 1.000000 2\n2 3 1.000000 2\n4 5 6.403124 4\n"
    );
}

#[test]
fn repeated_runs_give_identical_output() {
    let points = vec![
        vec![1.5, -2.0, 0.25],
        vec![0.0, 4.0, 1.0],
        vec![-3.0, 0.5, 2.0],
        vec![1.5, -2.0, 0.3],
        vec![2.25, 8.0, -1.0],
    ];
    let first = render_records(&run_points(&points));
    let second = render_records(&run_points(&points));
    assert_eq!(first, second);
    assert!(!first.is_empty());
}

/// Reconstruct the member set of a cluster identifier from the records, by
/// the identifier convention: below `n` a singleton, `n + k` the union of
/// what record `k` merged.
fn members(records: &[LinkageRecord], n: usize, id: usize) -> Vec<usize> {
    if id < n {
        vec![id]
    } else {
        let r = &records[id - n];
        let mut out = members(records, n, r.id1);
        out.extend(members(records, n, r.id2));
        out
    }
}

#[test]
fn records_satisfy_count_id_size_and_distance_invariants() {
    let n = 6;
    let points = vec![
        vec![0.0, 0.0],
        vec![10.0, 0.0],
        vec![0.2, 0.1],
        vec![9.5, 0.5],
        vec![-4.0, 7.0],
        vec![10.1, -0.2],
    ];
    let matrix = DistanceMatrix::build(&upper_keys(&points));
    let records = MergeEngine::run(&matrix);

    // exactly n - 1 records
    assert_eq!(records.len(), n - 1);

    for (k, r) in records.iter().enumerate() {
        // identifiers of record k name clusters created before merge k
        assert!(r.id1 < n + k);
        assert!(r.id2 < n + k);
        assert!(r.id1 <= 2 * n - 2 && r.id2 <= 2 * n - 2);

        // the size field counts the members of the merged cluster
        let left = members(&records, n, r.id1);
        let right = members(&records, n, r.id2);
        assert_eq!(r.size, left.len() + right.len());
        assert!(2 <= r.size && r.size <= n);

        // the distance is the true minimum pairwise distance between the
        // two merged member sets, recomputed from the matrix
        let mut brute = u64::MAX;
        for &a in &left {
            for &b in &right {
                brute = brute.min(matrix.get(a, b));
            }
        }
        assert_eq!(r.dist, brute);
    }

    // the final record covers all n objects, and the final cluster holds
    // every object exactly once
    assert_eq!(records[n - 2].size, n);
    let mut pool = members(&records, n, 2 * n - 2);
    pool.sort();
    assert_eq!(pool, (0..n).collect::<Vec<usize>>());
}

#[test]
fn serializer_renders_multi_digit_fields_exactly() {
    let records = vec![
        LinkageRecord { id1: 10, id2: 123, dist: 0, size: 42 },
        LinkageRecord { id1: 0, id2: 7, dist: 0, size: 2 },
    ];
    let dist_text = vec![String::from("12.500000"), String::from("0.000000")];
    let out = serialize_linkage(&records, &dist_text);
    assert_eq!(out, "10 123 12.500000 42\n0 7 0.000000 2\n");
}

#[test]
fn error_messages_describe_the_variants() {
    assert_eq!(
        ClusterError::InvalidInput.message(),
        "invalid input: no objects, or feature lengths differ"
    );
    assert_eq!(
        ClusterError::ExternalProcessFailure.message(),
        "external render process failed"
    );
}
