//! The key/value memory over double-precision scalars.
use bruce_core::arith::{Arithmetic, Eps, Sim, Term, Test};
use bruce_core::error::{decimal_text, BruceError};
use bruce_core::memory::KvMemory;
use bruce_core::outside::stamp;
use ndarray::ArrayView1;
use std::time::{SystemTime, UNIX_EPOCH};

fn term(t: Term<f64>) -> f64 {
    match t {
        Term::Add(a, b) => a + b,
        Term::Sub(a, b) => a - b,
        Term::Mul(a, b) => a * b,
        Term::Div(a, b) => a / b,
        Term::Max(a, b) => a.max(b),
        Term::Exp(a) => a.exp(),
        Term::Count(n) => n as f64,
    }
}

fn test(t: Test<f64>) -> bool {
    match t {
        Test::Greater(a, b) => a > b,
        Test::Equal(a, b) => a == b,
        Test::Finite(a) => a.is_finite(),
    }
}

fn inner(a: &[f64], b: &[f64]) -> f64 {
    ArrayView1::from(a).dot(&ArrayView1::from(b))
}

type Doubles =
    Arithmetic<f64, fn(Term<f64>) -> f64, fn(Test<f64>) -> bool, fn(&[f64], &[f64]) -> f64>;

fn doubles() -> Doubles {
    Arithmetic::new(0.0, 1.0, -0.5, f64::INFINITY, f64::NEG_INFINITY, term, test, inner)
}

fn now() -> f64 {
    SystemTime::now().duration_since(UNIX_EPOCH).unwrap().as_secs_f64()
}

#[test]
fn write_then_read_exact() {
    let mut m = KvMemory::new(2, 2);
    let k = vec![1.0, 0.0];
    let v = vec![3.25, 2.75];
    m.write("t1", &k, &v, "alice").unwrap();
    let (kk, vv) = m.read_exact("t1").unwrap();
    assert_eq!(kk, &k);
    assert_eq!(vv, &v);
}

#[test]
fn delete_is_owner_enforced() {
    let mut m = KvMemory::new(2, 2);
    m.write("x", &[1.0, 0.0], &[1.0, 0.0], "alice").unwrap();
    let err = m.delete("x", "mallory").unwrap_err();
    assert!(matches!(err, BruceError::PermissionDenied(_, _, _)));
    m.delete("x", "alice").unwrap();
    assert!(m.read_exact("x").is_none());
}

#[test]
fn snapshot_alive_excludes_deleted() {
    let mut m = KvMemory::new(2, 1);
    for i in 0..5 {
        m.write(&format!("k{i}"), &[i as f64, 0.0], &[i as f64 * 10.0], "alice").unwrap();
    }
    m.delete("k2", "alice").unwrap();
    let (ids, k, v) = m.snapshot_alive();
    assert_eq!(ids.len(), 4);
    assert_eq!(k.nrows(), 4);
    assert_eq!(v.nrows(), 4);
    assert!(!ids.contains(&"k2".to_string()));
}

#[test]
fn audit_log_records_ops() {
    let mut m = KvMemory::new(1, 1);
    let k = vec![1.0];
    let v = vec![1.0];
    m.write("a", &k, &v, "alice").unwrap();
    m.write("b", &k, &v, "bob").unwrap();
    m.delete("a", "alice").unwrap();
    let log = m.audit_log();
    assert_eq!(log.len(), 3);
    assert_eq!(log[0].op, "insert");
    assert_eq!(log[1].op, "insert");
    assert_eq!(log[2].op, "delete");
}

#[test]
fn entries_name_the_caller_and_the_time() {
    let mut m = KvMemory::new(1, 1);
    let before = now();
    m.write("a", &[1.0], &[2.0], "alice").unwrap();
    m.delete("a", "alice").unwrap();
    let after = now();
    for entry in m.audit_log() {
        assert_eq!(entry.fact_id, "a");
        assert_eq!(entry.owner, "alice");
        let at = f64::from_bits(entry.at);
        assert!(before <= at && at <= after);
    }
}

#[test]
fn clock_readings_become_seconds() {
    assert_eq!(stamp(Some((1, 500_000_000))), 1.5f64.to_bits());
    assert_eq!(stamp(Some((1_700_000_000, 0))), 1_700_000_000.0f64.to_bits());
    assert_eq!(stamp(None), 0.0f64.to_bits());
}

#[test]
fn dimensions_are_checked_first() {
    let mut m = KvMemory::new(2, 3);
    m.write_at("a", &[1.0, 2.0], &[1.0, 2.0, 3.0], "alice", 1).unwrap();
    let e = m.write_at("a", &[1.0], &[1.0], "mallory", 2).unwrap_err();
    assert!(matches!(e, BruceError::DimensionMismatch { expected: 2, got: 1 }));
    let e = m.write_at("a", &[1.0, 2.0], &[1.0], "mallory", 2).unwrap_err();
    assert!(matches!(e, BruceError::DimensionMismatch { expected: 3, got: 1 }));
    assert_eq!(m.audit_log().len(), 1);
}

#[test]
fn only_the_owner_overwrites_a_live_row() {
    let mut m = KvMemory::new(1, 1);
    m.write_at("a", &[1.0], &[10.0], "alice", 1).unwrap();
    match m.write_at("a", &[2.0], &[20.0], "mallory", 2).unwrap_err() {
        BruceError::PermissionDenied(id, owner, caller) => {
            assert_eq!((id.as_str(), owner.as_str(), caller.as_str()), ("a", "alice", "mallory"));
        }
        e => panic!("{e:?}"),
    }
    assert_eq!(m.read_exact("a").unwrap().1, &vec![10.0]);
    m.write_at("a", &[2.0], &[20.0], "alice", 3).unwrap();
    assert_eq!(m.read_exact("a").unwrap().1, &vec![20.0]);
    let ops: Vec<&str> = m.audit_log().iter().map(|e| e.op.as_str()).collect();
    assert_eq!(ops, vec!["insert", "update"]);
    assert_eq!(m.audit_log()[1].at, 3);
}

#[test]
fn a_deleted_row_can_be_taken_over() {
    let mut m = KvMemory::new(1, 1);
    m.write_at("a", &[1.0], &[10.0], "alice", 1).unwrap();
    m.write_at("b", &[2.0], &[20.0], "bob", 2).unwrap();
    m.delete_at("a", "alice", 3).unwrap();
    m.write_at("a", &[3.0], &[30.0], "carol", 4).unwrap();
    assert_eq!(m.audit_log()[3].op, "update");
    assert!(m.delete_at("a", "alice", 5).is_err());
    let (ids, k, _) = m.snapshot_alive();
    assert_eq!(ids, vec!["a".to_string(), "b".to_string()]);
    assert_eq!(k.row(0), &[3.0]);
}

#[test]
fn missing_rows_are_not_found() {
    let mut m: KvMemory<f64> = KvMemory::new(1, 1);
    assert!(m.read_exact("a").is_none());
    match m.delete_at("a", "alice", 1).unwrap_err() {
        BruceError::KeyNotFound(id) => assert_eq!(id, "a"),
        e => panic!("{e:?}"),
    }
    m.write_at("a", &[1.0], &[1.0], "alice", 2).unwrap();
    m.delete_at("a", "alice", 3).unwrap();
    match m.delete_at("a", "alice", 4).unwrap_err() {
        BruceError::KeyNotFound(id) => assert_eq!(id, "a"),
        e => panic!("{e:?}"),
    }
    match m.delete_at("a", "mallory", 5).unwrap_err() {
        BruceError::PermissionDenied(_, owner, _) => assert_eq!(owner, "alice"),
        e => panic!("{e:?}"),
    }
    assert_eq!(m.audit_log().len(), 2);
}

#[test]
fn rows_are_counted() {
    let mut m = KvMemory::new(1, 1);
    assert_eq!((m.len_total(), m.len_alive()), (0, 0));
    for id in ["a", "b", "c"] {
        m.write_at(id, &[1.0], &[1.0], "alice", 1).unwrap();
    }
    m.write_at("b", &[2.0], &[2.0], "alice", 2).unwrap();
    assert_eq!((m.len_total(), m.len_alive()), (3, 3));
    m.delete_at("b", "alice", 3).unwrap();
    assert_eq!((m.len_total(), m.len_alive()), (3, 2));
    assert_eq!(m.snapshot_alive().0, vec!["a".to_string(), "c".to_string()]);
    m.write_at("b", &[3.0], &[3.0], "bob", 4).unwrap();
    assert_eq!((m.len_total(), m.len_alive()), (3, 3));
    assert_eq!(m.snapshot_alive().0, vec!["a".to_string(), "b".to_string(), "c".to_string()]);
}

fn pair() -> KvMemory<f64> {
    let mut m = KvMemory::new(1, 1);
    m.write_at("a", &[0.0], &[0.0], "alice", 1).unwrap();
    m.write_at("b", &[3.0f64.ln()], &[4.0], "alice", 2).unwrap();
    m
}

#[test]
fn dot_query_is_a_softmax_mean() {
    let m = pair();
    let ar = doubles();
    let out = m.attention_query(&[1.0], Eps::Finite(1.0), Sim::Dot, &ar).unwrap();
    assert!((out[0] - 3.0).abs() <= 1e-12);
    let out = m.attention_query(&[2.0], Eps::Finite(2.0), Sim::Dot, &ar).unwrap();
    assert!((out[0] - 3.0).abs() <= 1e-12);
    let out = m.attention_query(&[1.0], Eps::Zero, Sim::Dot, &ar).unwrap();
    assert_eq!(out, vec![4.0]);
    let out = m.attention_query(&[1.0], Eps::Inf, Sim::Dot, &ar).unwrap();
    assert_eq!(out, vec![2.0]);
}

#[test]
fn tropical_query_averages_ties() {
    let mut m = KvMemory::new(1, 2);
    m.write_at("a", &[1.0], &[1.0, 2.0], "alice", 1).unwrap();
    m.write_at("b", &[1.0], &[3.0, 6.0], "alice", 2).unwrap();
    m.write_at("c", &[0.5], &[100.0, 100.0], "alice", 3).unwrap();
    let out = m.attention_query(&[1.0], Eps::Zero, Sim::Dot, &doubles()).unwrap();
    assert_eq!(out, vec![2.0, 4.0]);
}

#[test]
fn distance_query_weighs_by_half_the_squared_distance() {
    let mut m = KvMemory::new(2, 1);
    m.write_at("a", &[0.0, 0.0], &[0.0], "alice", 1).unwrap();
    m.write_at("b", &[1.0, 1.0], &[1.0], "alice", 2).unwrap();
    let out = m.attention_query(&[0.0, 0.0], Eps::Finite(1.0), Sim::NegSquared, &doubles());
    let w = (-1.0f64).exp();
    assert!((out.unwrap()[0] - w / (1.0 + w)).abs() <= 1e-12);
    let out = m.attention_query(&[1.0, 0.9], Eps::Zero, Sim::NegSquared, &doubles());
    assert_eq!(out.unwrap(), vec![1.0]);
}

#[test]
fn indicator_query_is_exact_lookup() {
    let m = pair();
    let ar = doubles();
    let out = m.attention_query(&[0.0], Eps::Zero, Sim::Indicator, &ar).unwrap();
    assert_eq!(out, vec![0.0]);
    let key = [3.0f64.ln()];
    let out = m.attention_query(&key, Eps::Zero, Sim::Indicator, &ar).unwrap();
    assert_eq!(out, vec![4.0]);
    let out = m.attention_query(&key, Eps::Finite(1.0), Sim::Indicator, &ar).unwrap();
    assert_eq!(out, vec![4.0]);
    let out = m.attention_query(&[7.0], Eps::Zero, Sim::Indicator, &ar).unwrap();
    assert_eq!(out, vec![0.0]);
    let out = m.attention_query(&[7.0], Eps::Finite(1.0), Sim::Indicator, &ar).unwrap();
    assert!(out[0].is_nan());
}

#[test]
fn queries_without_rows_or_of_the_wrong_length_have_no_answer() {
    let mut m = pair();
    let ar = doubles();
    assert!(m.attention_query(&[1.0, 2.0], Eps::Zero, Sim::Dot, &ar).is_none());
    m.delete_at("a", "alice", 3).unwrap();
    m.delete_at("b", "alice", 4).unwrap();
    assert!(m.attention_query(&[1.0], Eps::Zero, Sim::Dot, &ar).is_none());
    let empty: KvMemory<f64> = KvMemory::new(1, 1);
    assert!(empty.attention_query(&[1.0], Eps::Zero, Sim::Dot, &ar).is_none());
}

#[test]
fn a_deleted_row_leaves_no_trace() {
    let ar = doubles();
    let mut never = KvMemory::new(2, 1);
    let mut once = KvMemory::new(2, 1);
    for i in 0..6 {
        let key = [(i as f64).sin(), (i as f64).cos()];
        let id = format!("k{i}");
        if i != 3 {
            never.write_at(&id, &key, &[i as f64], "alice", 1).unwrap();
        }
        once.write_at(&id, &key, &[i as f64], "alice", 1).unwrap();
    }
    once.delete_at("k3", "alice", 2).unwrap();
    for sim in [Sim::Dot, Sim::NegSquared, Sim::Indicator] {
        for eps in [Eps::Zero, Eps::Finite(0.4), Eps::Inf] {
            let a = never.attention_query(&[0.3, -0.2], eps, sim, &ar).unwrap();
            let b = once.attention_query(&[0.3, -0.2], eps, sim, &ar).unwrap();
            assert_eq!(a[0].to_bits(), b[0].to_bits());
        }
    }
}

#[test]
fn query_is_a_masked_row_of_the_snapshot() {
    let ar = doubles();
    let mut m = KvMemory::new(2, 2);
    for i in 0..7 {
        let t = i as f64;
        m.write_at(&format!("k{i}"), &[t.sin(), t.cos()], &[t, -t], "alice", 1).unwrap();
    }
    m.delete_at("k4", "alice", 2).unwrap();
    let (ids, k, v) = m.snapshot_alive();
    let x = vec![0.5, 0.25];
    let q = bruce_core::matrix::Matrix::from_rows(2, vec![x.clone()]).unwrap();
    let pairs: Vec<(usize, usize)> = (0..ids.len()).map(|j| (0, j)).collect();
    for eps in [Eps::Zero, Eps::Finite(0.6), Eps::Inf] {
        let (out, _) =
            bruce_core::mask::masked_attention(&q, &k, &v, &pairs, eps, &ar).unwrap();
        let direct = m.attention_query(&x, eps, Sim::Dot, &ar).unwrap();
        for c in 0..2 {
            assert!((out.at(0, c) - direct[c]).abs() <= 1e-12);
        }
    }
}

#[test]
fn numbers_are_written_in_decimal() {
    for n in [0, 7, 10, 105, 1_000_000, usize::MAX] {
        assert_eq!(decimal_text(n), n.to_string());
    }
}

#[test]
fn the_log_only_grows() {
    let mut m = KvMemory::new(1, 1);
    let mut seen: Vec<(String, String, String, u64)> = Vec::new();
    for step in 0..12u64 {
        let id = format!("k{}", step % 3);
        let owner = if step % 4 == 3 { "bob" } else { "alice" };
        let done = if step % 5 == 4 {
            m.delete_at(&id, owner, step).is_ok()
        } else {
            m.write_at(&id, &[step as f64], &[1.0], owner, step).is_ok()
        };
        let log: Vec<(String, String, String, u64)> = m
            .audit_log()
            .iter()
            .map(|e| (e.op.clone(), e.fact_id.clone(), e.owner.clone(), e.at))
            .collect();
        assert_eq!(log.len(), seen.len() + usize::from(done));
        assert_eq!(log[..seen.len()], seen[..]);
        seen = log;
    }
    assert_eq!(m.ids(), &vec!["k0".to_string(), "k1".to_string(), "k2".to_string()]);
}

#[test]
fn the_log_tells_the_state_of_every_row() {
    let mut m = KvMemory::new(1, 1);
    m.write_at("a", &[1.0], &[1.0], "alice", 1).unwrap();
    m.write_at("b", &[1.0], &[1.0], "bob", 2).unwrap();
    m.write_at("c", &[1.0], &[1.0], "carol", 3).unwrap();
    m.delete_at("a", "alice", 4).unwrap();
    m.delete_at("c", "carol", 5).unwrap();
    m.write_at("a", &[2.0], &[2.0], "dave", 6).unwrap();
    for id in ["a", "b", "c", "d"] {
        let last = m.audit_log().iter().filter(|e| e.fact_id == id).last();
        let live = last.map(|e| e.op != "delete").unwrap_or(false);
        assert_eq!(m.read_exact(id).is_some(), live);
    }
    assert!(matches!(m.delete_at("a", "alice", 7), Err(BruceError::PermissionDenied(_, _, _))));
    assert!(m.delete_at("a", "dave", 8).is_ok());
}

#[test]
fn the_order_of_the_rows_does_not_matter() {
    let ar = doubles();
    let mut forward = KvMemory::new(2, 1);
    let mut backward = KvMemory::new(2, 1);
    for i in 0..9 {
        let (a, b) = (i as f64, (8 - i) as f64);
        forward.write_at(&format!("k{i}"), &[a.sin(), a.cos()], &[a], "x", 1).unwrap();
        backward.write_at(&format!("k{i}"), &[b.sin(), b.cos()], &[b], "x", 1).unwrap();
    }
    for eps in [Eps::Zero, Eps::Finite(0.3), Eps::Inf] {
        let a = forward.attention_query(&[0.4, 0.1], eps, Sim::Dot, &ar).unwrap();
        let b = backward.attention_query(&[0.4, 0.1], eps, Sim::Dot, &ar).unwrap();
        assert!((a[0] - b[0]).abs() <= 1e-12);
    }
}

#[test]
fn shifting_all_scores_changes_nothing() {
    let ar = doubles();
    let mut near = KvMemory::new(2, 1);
    let mut far = KvMemory::new(2, 1);
    for (id, s, v) in [("a", 0.0, 0.0), ("b", 1.0, 1.0), ("c", 2.0, 5.0)] {
        near.write_at(id, &[s, 0.0], &[v], "x", 1).unwrap();
        far.write_at(id, &[s, 2048.0], &[v], "x", 1).unwrap();
    }
    let a = near.attention_query(&[1.0, 1.0], Eps::Finite(1.0), Sim::Dot, &ar).unwrap();
    let b = far.attention_query(&[1.0, 1.0], Eps::Finite(1.0), Sim::Dot, &ar).unwrap();
    assert!((a[0] - b[0]).abs() <= 1e-12);
    let w: Vec<f64> = [0.0f64, 1.0, 2.0].iter().map(|s| s.exp()).collect();
    let plain = (w[1] + 5.0 * w[2]) / (w[0] + w[1] + w[2]);
    assert!((a[0] - plain).abs() <= 1e-12);
}

#[test]
fn the_log_tells_times_and_insertion_order() {
    let mut m = KvMemory::new(1, 1);
    m.write_at("b", &[1.0], &[1.0], "bob", 1).unwrap();
    m.write_at("a", &[1.0], &[1.0], "alice", 2).unwrap();
    m.write_at("b", &[2.0], &[2.0], "bob", 3).unwrap();
    m.delete_at("b", "bob", 4).unwrap();
    m.delete_at("a", "alice", 5).unwrap();
    m.write_at("a", &[3.0], &[3.0], "carol", 6).unwrap();
    m.write_at("c", &[4.0], &[4.0], "carol", 7).unwrap();
    let inserted: Vec<String> = m
        .audit_log()
        .iter()
        .filter(|e| e.op == "insert")
        .map(|e| e.fact_id.clone())
        .collect();
    assert_eq!(m.ids(), &inserted);
    let times = m.to_batch().written_at.unwrap();
    for (id, at) in m.ids().iter().zip(times.iter()) {
        let last = m.audit_log().iter().filter(|e| &e.fact_id == id && e.op != "delete").last();
        assert_eq!(last.map(|e| e.at), Some(*at));
    }
    assert_eq!(times, vec![3, 6, 7]);
}

#[test]
fn answers_lie_between_the_values() {
    let ar = doubles();
    let mut m = KvMemory::new(2, 1);
    for i in 0..8 {
        let t = i as f64;
        m.write_at(&format!("k{i}"), &[t.sin(), t.cos()], &[t - 3.0], "x", 1).unwrap();
    }
    for sim in [Sim::Dot, Sim::NegSquared] {
        for eps in [Eps::Zero, Eps::Finite(0.2), Eps::Inf] {
            let out = m.attention_query(&[0.3, 0.7], eps, sim, &ar).unwrap();
            assert!(-3.0 - 1e-12 <= out[0] && out[0] <= 4.0 + 1e-12);
        }
    }
}
