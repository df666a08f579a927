//! Masked attention over double-precision scalars.
use bruce_core::arith::{Arithmetic, Eps, Term, Test};
use bruce_core::error::BruceError;
use bruce_core::mask::{
    causal_pairs, chunk_len, coverage, fold_parallel, fold_sequential, masked_attention,
    window_pairs, PAIR_PARALLEL_THRESHOLD,
};
use bruce_core::matrix::Matrix;
use ndarray::ArrayView1;

fn term(t: Term<f64>) -> f64 {
    match t {
        Term::Add(a, b) => a + b,
        Term::Sub(a, b) => a - b,
        Term::Mul(a, b) => a * b,
        Term::Div(a, b) => a / b,
        Term::Max(a, b) => a.max(b),
        Term::Exp(a) => a.exp(),
        Term::Count(n) => n as f64,
    }
}

fn test(t: Test<f64>) -> bool {
    match t {
        Test::Greater(a, b) => a > b,
        Test::Equal(a, b) => a == b,
        Test::Finite(a) => a.is_finite(),
    }
}

fn inner(a: &[f64], b: &[f64]) -> f64 {
    ArrayView1::from(a).dot(&ArrayView1::from(b))
}

type Doubles =
    Arithmetic<f64, fn(Term<f64>) -> f64, fn(Test<f64>) -> bool, fn(&[f64], &[f64]) -> f64>;

fn doubles() -> Doubles {
    Arithmetic::new(0.0, 1.0, -0.5, f64::INFINITY, f64::NEG_INFINITY, term, test, inner)
}

fn matrix(rows: &[Vec<f64>], ncols: usize) -> Matrix<f64> {
    match Matrix::from_rows(ncols, rows.to_vec()) {
        Some(m) => m,
        None => panic!("ragged rows"),
    }
}

/// Masked attention as a plain list of rows.
fn attend(
    q: &[Vec<f64>],
    k: &[Vec<f64>],
    v: &[Vec<f64>],
    pairs: &[(usize, usize)],
    eps: Eps<f64>,
) -> (Vec<Vec<f64>>, Vec<bool>) {
    let (qm, km, vm) = (
        matrix(q, q[0].len()),
        matrix(k, k[0].len()),
        matrix(v, v[0].len()),
    );
    let (out, covered) = masked_attention(&qm, &km, &vm, pairs, eps, &doubles()).unwrap();
    let rows = (0..out.nrows()).map(|i| out.row(i).to_vec()).collect();
    (rows, covered)
}

/// Deterministic pseudo-random matrix.
fn pseudo(n: usize, d: usize, seed: u64) -> Vec<Vec<f64>> {
    let mut state = seed;
    (0..n)
        .map(|_| {
            (0..d)
                .map(|_| {
                    state ^= state << 13;
                    state ^= state >> 7;
                    state ^= state << 17;
                    ((state >> 11) as f64) / ((1u64 << 53) as f64) - 0.5
                })
                .collect()
        })
        .collect()
}

/// Weights of a softmax: uniform over the argmax set at zero temperature, plain at infinity.
fn softmax_eps(scores: &[f64], eps: Eps<f64>) -> Vec<f64> {
    let m = scores.iter().fold(f64::NEG_INFINITY, |a, b| a.max(*b));
    let raw: Vec<f64> = match eps {
        Eps::Zero => scores.iter().map(|s| if *s == m { 1.0 } else { 0.0 }).collect(),
        Eps::Finite(e) => scores.iter().map(|s| ((s - m) / e).exp()).collect(),
        Eps::Inf => vec![1.0; scores.len()],
    };
    let z: f64 = raw.iter().sum();
    raw.iter().map(|w| w / z).collect()
}

/// Brute-force reference: per row, gather the masked records and weight them directly.
fn brute(
    q: &[Vec<f64>],
    k: &[Vec<f64>],
    v: &[Vec<f64>],
    pairs: &[(usize, usize)],
    eps: Eps<f64>,
) -> Vec<Vec<f64>> {
    let d_v = v[0].len();
    (0..q.len())
        .map(|i| {
            let js: Vec<usize> = pairs.iter().filter(|p| p.0 == i).map(|p| p.1).collect();
            let mut row = vec![0.0; d_v];
            if !js.is_empty() {
                let scores: Vec<f64> = js.iter().map(|j| inner(&q[i], &k[*j])).collect();
                let weights = softmax_eps(&scores, eps);
                for (idx, j) in js.iter().enumerate() {
                    for c in 0..d_v {
                        row[c] += weights[idx] * v[*j][c];
                    }
                }
            }
            row
        })
        .collect()
}

/// Parent of each node of a chain.
fn chain_tree(n: usize) -> Vec<Option<usize>> {
    (0..n).map(|i| if i == 0 { None } else { Some(i - 1) }).collect()
}

/// Every node attends to itself and its ancestors.
fn tree_causal_attention(
    q: &[Vec<f64>],
    k: &[Vec<f64>],
    v: &[Vec<f64>],
    parent: &[Option<usize>],
    eps: Eps<f64>,
) -> Vec<Vec<f64>> {
    let mut pairs: Vec<(usize, usize)> = Vec::new();
    for i in 0..parent.len() {
        let mut node = Some(i);
        while let Some(j) = node {
            pairs.push((i, j));
            node = parent[j];
        }
    }
    brute(q, k, v, &pairs, eps)
}

/// A fixed permutation: stride through the indices by a step coprime to the length.
fn shuffled(xs: &[(usize, usize)]) -> Vec<(usize, usize)> {
    let n = xs.len();
    let mut step = (n / 2) | 1;
    while n % step == 0 && step < n {
        step += 2;
    }
    (0..n).map(|t| xs[(t * step + 3) % n]).collect()
}

fn assert_close(a: &[Vec<f64>], b: &[Vec<f64>]) {
    assert_eq!(a.len(), b.len());
    for (x, y) in a.iter().zip(b.iter()) {
        assert_eq!(x.len(), y.len());
        for (p, q) in x.iter().zip(y.iter()) {
            assert!((p - q).abs() <= 1e-12, "{p} is not {q}");
        }
    }
}

#[test]
fn causal_pairs_match_chain_tree_attention() {
    let n = 24;
    let q = pseudo(n, 6, 1);
    let k = pseudo(n, 6, 2);
    let v = pseudo(n, 3, 3);
    for eps in [Eps::Finite(1.0), Eps::Finite(0.37)] {
        let (out, covered) = attend(&q, &k, &v, &causal_pairs(n), eps);
        let reference = tree_causal_attention(&q, &k, &v, &chain_tree(n), eps);
        assert!(covered.iter().all(|&c| c));
        assert_close(&out, &reference);
    }
}

#[test]
fn order_invariance_under_shuffle() {
    let n = 32;
    let q = pseudo(n, 5, 7);
    let k = pseudo(n, 5, 8);
    let v = pseudo(n, 4, 9);
    let pairs = window_pairs(n, 6);
    let perm = shuffled(&pairs);
    assert_ne!(pairs, perm);
    for eps in [Eps::Zero, Eps::Finite(0.5), Eps::Finite(1.0), Eps::Inf] {
        let (a, _) = attend(&q, &k, &v, &pairs, eps);
        let (b, _) = attend(&q, &k, &v, &perm, eps);
        assert_close(&a, &b);
    }
}

#[test]
fn window_mask_matches_brute_force() {
    let n = 20;
    let q = pseudo(n, 4, 11);
    let k = pseudo(n, 4, 12);
    let v = pseudo(n, 2, 13);
    let pairs = window_pairs(n, 3);
    for eps in [Eps::Zero, Eps::Finite(0.8), Eps::Inf] {
        let (out, _) = attend(&q, &k, &v, &pairs, eps);
        assert_close(&out, &brute(&q, &k, &v, &pairs, eps));
    }
}

#[test]
fn tropical_ties_take_uniform_argmax_mean() {
    let q = vec![vec![1.0, 0.0]];
    let k = vec![vec![2.0, 0.0], vec![2.0, 0.0], vec![0.0, 5.0]];
    let v = vec![vec![10.0], vec![30.0], vec![999.0]];
    let pairs = vec![(0, 0), (0, 1), (0, 2)];
    let (out, covered) = attend(&q, &k, &v, &pairs, Eps::Zero);
    assert!(covered[0]);
    assert!((out[0][0] - 20.0).abs() <= 1e-12);
}

#[test]
fn eps_inf_is_plain_mean() {
    let q = vec![vec![1.0], vec![1.0]];
    let k = vec![vec![100.0], vec![-3.0], vec![5.0]];
    let v = vec![vec![3.0], vec![6.0], vec![9.0]];
    let pairs = vec![(0, 0), (0, 1), (0, 2), (1, 2)];
    let (out, _) = attend(&q, &k, &v, &pairs, Eps::Inf);
    assert!((out[0][0] - 6.0).abs() <= 1e-12);
    assert!((out[1][0] - 9.0).abs() <= 1e-12);
}

#[test]
fn uncovered_rows_are_flagged() {
    let q = pseudo(3, 2, 21);
    let k = pseudo(2, 2, 22);
    let v = pseudo(2, 2, 23);
    let pairs = vec![(0, 0), (2, 1)];
    let (out, covered) = attend(&q, &k, &v, &pairs, Eps::Finite(1.0));
    assert_eq!(covered, vec![true, false, true]);
    assert_eq!(out[1][0], 0.0);
    assert_eq!(out[1][1], 0.0);
}

#[test]
fn parallel_fold_equals_sequential_fold() {
    let n = 48;
    let q = matrix(&pseudo(n, 4, 31), 4);
    let k = matrix(&pseudo(n, 4, 32), 4);
    let v = matrix(&pseudo(n, 3, 33), 3);
    let pairs = causal_pairs(n);
    let ar = doubles();
    for eps in [Eps::Zero, Eps::Finite(0.9), Eps::Inf] {
        let seq = fold_sequential(&q, &k, &v, &pairs, eps, &ar);
        let par = fold_parallel(&q, &k, &v, &pairs, eps, &ar);
        assert_eq!(seq.len(), par.len());
        for (a, b) in seq.iter().zip(par.iter()) {
            match (a.finalize(&ar), b.finalize(&ar)) {
                (Some(x), Some(y)) => {
                    for (xc, yc) in x.iter().zip(y.iter()) {
                        assert!((xc - yc).abs() <= 1e-12);
                    }
                }
                (None, None) => {}
                _ => panic!("coverage mismatch between folds"),
            }
        }
    }
}

fn refused(
    q: &[Vec<f64>],
    k: &[Vec<f64>],
    v: &[Vec<f64>],
    pairs: &[(usize, usize)],
) -> BruceError {
    let (qm, km, vm) = (
        matrix(q, q[0].len()),
        matrix(k, k[0].len()),
        matrix(v, v[0].len()),
    );
    match masked_attention(&qm, &km, &vm, pairs, Eps::Finite(1.0), &doubles()) {
        Ok(_) => panic!("accepted"),
        Err(e) => e,
    }
}

#[test]
fn rejects_out_of_range_pairs() {
    let q = pseudo(2, 2, 41);
    let k = pseudo(2, 2, 42);
    let v = pseudo(2, 2, 43);
    let qm = matrix(&q, 2);
    let km = matrix(&k, 2);
    let vm = matrix(&v, 2);
    let r = masked_attention(&qm, &km, &vm, &[(0, 5)], Eps::Finite(1.0), &doubles());
    assert!(r.is_err());
}

#[test]
fn range_error_names_the_first_bad_pair() {
    let q = pseudo(2, 2, 41);
    let k = pseudo(12, 2, 42);
    let v = pseudo(12, 2, 43);
    match refused(&q, &k, &v, &[(1, 11), (0, 105), (7, 0)]) {
        BruceError::InvalidArgument(text) => {
            assert_eq!(text, "mask pair (0, 105) out of range for N_q = 2, N_k = 12")
        }
        e => panic!("{e:?}"),
    }
    match refused(&q, &k, &v, &[(2, 0)]) {
        BruceError::InvalidArgument(text) => {
            assert_eq!(text, "mask pair (2, 0) out of range for N_q = 2, N_k = 12")
        }
        e => panic!("{e:?}"),
    }
}

#[test]
fn shapes_are_checked_before_pairs() {
    let q = pseudo(2, 2, 41);
    let k = pseudo(3, 4, 42);
    let v = pseudo(5, 2, 43);
    assert!(matches!(
        refused(&q, &k, &v, &[(9, 9)]),
        BruceError::DimensionMismatch { expected: 3, got: 5 }
    ));
    let v = pseudo(3, 2, 43);
    assert!(matches!(
        refused(&q, &k, &v, &[(9, 9)]),
        BruceError::DimensionMismatch { expected: 2, got: 4 }
    ));
}

#[test]
fn softmax_weights_are_exponential() {
    let q = vec![vec![1.0]];
    let k = vec![vec![0.0], vec![3.0f64.ln()]];
    let v = vec![vec![0.0], vec![4.0]];
    let (out, _) = attend(&q, &k, &v, &[(0, 0), (0, 1)], Eps::Finite(1.0));
    assert!((out[0][0] - 3.0).abs() <= 1e-12);
    let k = vec![vec![0.0], vec![9.0f64.ln()]];
    let (out, _) = attend(&q, &k, &v, &[(0, 0), (0, 1)], Eps::Finite(2.0));
    assert!((out[0][0] - 3.0).abs() <= 1e-12);
}

#[test]
fn a_pair_that_occurs_twice_counts_twice() {
    let q = vec![vec![1.0]];
    let k = vec![vec![1.0], vec![1.0]];
    let v = vec![vec![3.0], vec![9.0]];
    for eps in [Eps::Zero, Eps::Finite(1.0), Eps::Inf] {
        let (out, _) = attend(&q, &k, &v, &[(0, 0), (0, 1), (0, 0)], eps);
        assert_eq!(out[0][0], 5.0);
    }
}

#[test]
fn an_empty_mask_covers_nothing() {
    let q = pseudo(3, 2, 1);
    let k = pseudo(2, 2, 2);
    let v = pseudo(2, 4, 3);
    for eps in [Eps::Zero, Eps::Finite(1.0), Eps::Inf] {
        let (out, covered) = attend(&q, &k, &v, &[], eps);
        assert_eq!(covered, vec![false; 3]);
        assert_eq!(out, vec![vec![0.0; 4]; 3]);
    }
}

#[test]
fn a_row_with_scores_that_are_not_numbers_is_covered() {
    let q = vec![vec![f64::NAN], vec![1.0]];
    let k = vec![vec![1.0]];
    let v = vec![vec![7.0]];
    let (out, covered) = attend(&q, &k, &v, &[(0, 0)], Eps::Zero);
    assert_eq!(covered, vec![true, false]);
    assert_eq!(out[0][0], 0.0);
}

#[test]
fn long_streams_take_the_parallel_path() {
    let n = 260;
    let pairs = causal_pairs(n);
    assert_eq!(pairs.len(), 33930);
    assert!(pairs.len() >= PAIR_PARALLEL_THRESHOLD);
    let q = pseudo(n, 3, 51);
    let k = pseudo(n, 3, 52);
    let v = pseudo(n, 2, 53);
    for eps in [Eps::Zero, Eps::Finite(0.7), Eps::Inf] {
        let (out, covered) = attend(&q, &k, &v, &pairs, eps);
        assert!(covered.iter().all(|&c| c));
        assert_close(&out, &brute(&q, &k, &v, &pairs, eps));
        let (other, _) = attend(&q, &k, &v, &shuffled(&pairs), eps);
        assert_close(&out, &other);
    }
}

#[test]
fn merging_two_parts_is_folding_the_whole() {
    let q = matrix(&pseudo(3, 2, 61), 2);
    let k = matrix(&pseudo(5, 2, 62), 2);
    let v = matrix(&pseudo(5, 2, 63), 2);
    let ar = doubles();
    let left = vec![(0, 0), (1, 3), (0, 4)];
    let right = vec![(1, 1), (0, 2), (1, 2)];
    let whole: Vec<(usize, usize)> = left.iter().chain(right.iter()).copied().collect();
    for eps in [Eps::Zero, Eps::Finite(0.3), Eps::Inf] {
        let mut a = fold_sequential(&q, &k, &v, &left, eps, &ar);
        let b = fold_sequential(&q, &k, &v, &right, eps, &ar);
        let all = fold_sequential(&q, &k, &v, &whole, eps, &ar);
        for i in 0..3 {
            a[i].merge(&b[i], eps, &ar);
            match (a[i].finalize(&ar), all[i].finalize(&ar)) {
                (Some(x), Some(y)) => assert_close(&[x], &[y]),
                (None, None) => assert_eq!(i, 2),
                _ => panic!("coverage mismatch"),
            }
        }
    }
}

#[test]
fn accumulator_holds_the_closed_form() {
    let q = matrix(&[vec![1.0]], 1);
    let k = matrix(&[vec![0.0], vec![2.0], vec![2.0]], 1);
    let v = matrix(&[vec![1.0], vec![10.0], vec![20.0]], 1);
    let ar = doubles();
    let pairs = vec![(0, 0), (0, 1), (0, 2)];
    let zero = &fold_sequential(&q, &k, &v, &pairs, Eps::Zero, &ar)[0];
    assert_eq!((zero.mu, zero.z, zero.u[0]), (2.0, 2.0, 30.0));
    let inf = &fold_sequential(&q, &k, &v, &pairs, Eps::Inf, &ar)[0];
    assert_eq!((inf.mu, inf.z, inf.u[0]), (f64::NEG_INFINITY, 3.0, 31.0));
    let one = &fold_sequential(&q, &k, &v, &pairs, Eps::Finite(1.0), &ar)[0];
    let w = (-2.0f64).exp();
    assert_eq!(one.mu, 2.0);
    assert!((one.z - (2.0 + w)).abs() <= 1e-12);
    assert!((one.u[0] - (30.0 + w)).abs() <= 1e-12);
}

#[test]
fn generators_enumerate_their_masks() {
    assert_eq!(causal_pairs(0), vec![]);
    assert_eq!(causal_pairs(3), vec![(0, 0), (1, 0), (1, 1), (2, 0), (2, 1), (2, 2)]);
    assert_eq!(window_pairs(4, 1), vec![(0, 0), (1, 0), (1, 1), (2, 1), (2, 2), (3, 2), (3, 3)]);
    assert_eq!(window_pairs(3, 0), vec![(0, 0), (1, 1), (2, 2)]);
    assert_eq!(window_pairs(0, 9), vec![]);
    assert_eq!(window_pairs(5, 4), causal_pairs(5));
    assert_eq!(window_pairs(5, usize::MAX), causal_pairs(5));
    assert_eq!(causal_pairs(20).len(), 20 * 21 / 2);
    assert!(window_pairs(20, 3).len() <= 20 * 4);
}

#[test]
fn chunks_are_rounded_up() {
    assert_eq!(chunk_len(10, 4), 3);
    assert_eq!(chunk_len(12, 4), 3);
    assert_eq!(chunk_len(3, 8), 1);
    assert_eq!(chunk_len(7, 0), 7);
    assert_eq!(chunk_len(0, 3), 0);
}

#[test]
fn coverage_is_mention() {
    assert_eq!(coverage(4, &[(1, 0), (3, 2), (1, 1)]), vec![false, true, false, true]);
}

#[test]
fn ragged_rows_make_no_matrix() {
    assert!(Matrix::from_rows(2, vec![vec![1.0, 2.0], vec![3.0]]).is_none());
    let m = matrix(&[vec![1.0, 2.0], vec![3.0, 4.0]], 2);
    assert_eq!((m.nrows(), m.ncols(), m.at(1, 0)), (2, 2, 3.0));
}

#[test]
fn unmentioned_rows_stay_zero_on_long_streams() {
    let n = 260;
    let q = pseudo(n + 1, 3, 71);
    let k = pseudo(n, 3, 72);
    let v = pseudo(n, 2, 73);
    let pairs = causal_pairs(n);
    assert!(pairs.len() >= PAIR_PARALLEL_THRESHOLD);
    let (out, covered) = attend(&q, &k, &v, &pairs, Eps::Finite(1.0));
    assert!(!covered[n]);
    assert_eq!(out[n], vec![0.0, 0.0]);
    assert!(covered[..n].iter().all(|&c| c));
}

#[test]
fn the_normaliser_lies_between_one_and_the_number_of_records() {
    let q = matrix(&pseudo(6, 3, 81), 3);
    let k = matrix(&pseudo(9, 3, 82), 3);
    let v = matrix(&pseudo(9, 2, 83), 2);
    let ar = doubles();
    let pairs: Vec<(usize, usize)> =
        (0..6).flat_map(|i| (0..=i + 3).map(move |j| (i, j))).collect();
    for eps in [Eps::Zero, Eps::Finite(0.2), Eps::Finite(5.0), Eps::Inf] {
        for (i, acc) in fold_sequential(&q, &k, &v, &pairs, eps, &ar).iter().enumerate() {
            assert!(1.0 - 1e-12 <= acc.z && acc.z <= (i + 4) as f64 + 1e-12);
            assert_eq!(acc.u.len(), 2);
        }
    }
}

#[test]
fn output_rows_lie_between_the_values() {
    let n = 12;
    let q = pseudo(n, 3, 91);
    let k = pseudo(n, 3, 92);
    let v = pseudo(n, 2, 93);
    for eps in [Eps::Zero, Eps::Finite(0.1), Eps::Finite(2.0), Eps::Inf] {
        let (out, _) = attend(&q, &k, &v, &causal_pairs(n), eps);
        for i in 0..n {
            for c in 0..2 {
                let lo = (0..=i).map(|j| v[j][c]).fold(f64::INFINITY, f64::min);
                let hi = (0..=i).map(|j| v[j][c]).fold(f64::NEG_INFINITY, f64::max);
                assert!(lo - 1e-12 <= out[i][c] && out[i][c] <= hi + 1e-12);
            }
        }
    }
}

#[test]
fn merging_commutes_to_the_last_bit() {
    let q = matrix(&pseudo(2, 2, 101), 2);
    let k = matrix(&pseudo(8, 2, 102), 2);
    let v = matrix(&pseudo(8, 3, 103), 3);
    let ar = doubles();
    let bits = |acc: &bruce_core::accum::RowAcc<f64>| {
        let u: Vec<u64> = acc.u.iter().map(|x| x.to_bits()).collect();
        (acc.mu.to_bits(), acc.z.to_bits(), u)
    };
    for eps in [Eps::Zero, Eps::Finite(0.3), Eps::Inf] {
        let pairs = [(0, 0), (0, 3), (0, 5)];
        let a = fold_sequential(&q, &k, &v, &pairs, eps, &ar);
        let mut ab = fold_sequential(&q, &k, &v, &pairs, eps, &ar);
        let others = [(0, 1), (0, 2), (0, 7)];
        let b = fold_sequential(&q, &k, &v, &others, eps, &ar);
        let mut ba = fold_sequential(&q, &k, &v, &others, eps, &ar);
        ab[0].merge(&b[0], eps, &ar);
        ba[0].merge(&a[0], eps, &ar);
        assert_eq!(bits(&ab[0]), bits(&ba[0]));
        // Row 1 is fresh on both sides.
        let before = bits(&ab[0]);
        let fresh = &b[1];
        ab[0].merge(fresh, eps, &ar);
        assert_eq!(bits(&ab[0]), before);
        ba[1].merge(&ab[0], eps, &ar);
        assert_eq!(bits(&ba[1]), before);
    }
}

#[test]
fn a_causal_row_attends_to_the_rows_up_to_it() {
    let n = 7;
    let q = pseudo(n, 2, 111);
    let k = pseudo(n, 2, 112);
    let v = pseudo(n, 2, 113);
    let (all, _) = attend(&q, &k, &v, &causal_pairs(n), Eps::Finite(0.5));
    for i in 0..n {
        let row: Vec<(usize, usize)> = (0..=i).map(|j| (i, j)).collect();
        let (one, _) = attend(&q, &k, &v, &row, Eps::Finite(0.5));
        assert_eq!(all[i], one[i]);
        let wide: Vec<(usize, usize)> = (i.saturating_sub(2)..=i).map(|j| (i, j)).collect();
        let (window, _) = attend(&q, &k, &v, &window_pairs(n, 2), Eps::Finite(0.5));
        let (part, _) = attend(&q, &k, &v, &wide, Eps::Finite(0.5));
        assert_eq!(window[i], part[i]);
    }
}
