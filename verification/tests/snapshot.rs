//! Snapshots and the text form of the audit log.
use bruce_core::arith::{Arithmetic, Eps, Sim, Term, Test};
use bruce_core::audit_text::{join_lines, split_lines};
use bruce_core::error::BruceError;
use bruce_core::memory::KvMemory;
use bruce_core::snapshot::{arrow_schema, list_width, Batch, ColumnType, FoundColumn, Lists};

fn term(t: Term<f64>) -> f64 {
    match t {
        Term::Add(a, b) => a + b,
        Term::Sub(a, b) => a - b,
        Term::Mul(a, b) => a * b,
        Term::Div(a, b) => a / b,
        Term::Max(a, b) => a.max(b),
        Term::Exp(a) => a.exp(),
        Term::Count(n) => n as f64,
    }
}

fn test(t: Test<f64>) -> bool {
    match t {
        Test::Greater(a, b) => a > b,
        Test::Equal(a, b) => a == b,
        Test::Finite(a) => a.is_finite(),
    }
}

fn inner(a: &[f64], b: &[f64]) -> f64 {
    a.iter().zip(b.iter()).map(|(x, y)| x * y).sum()
}

type Doubles =
    Arithmetic<f64, fn(Term<f64>) -> f64, fn(Test<f64>) -> bool, fn(&[f64], &[f64]) -> f64>;

fn doubles() -> Doubles {
    Arithmetic::new(0.0, 1.0, -0.5, f64::INFINITY, f64::NEG_INFINITY, term, test, inner)
}

/// Loads the snapshot of `m` into a new memory and replays its log.
fn reload(m: &KvMemory<f64>) -> KvMemory<f64> {
    let mut n = KvMemory::new(m.key_dim(), m.value_dim());
    n.load_batch(m.to_batch()).unwrap();
    n.replay(m.audit_log());
    n
}

fn sample() -> KvMemory<f64> {
    let mut m = KvMemory::new(3, 2);
    m.write("a", &[1.0, 0.0, -1.0], &[10.0, 20.0], "alice").unwrap();
    m.write("b", &[0.5, 0.5, 0.5], &[1.5, 2.5], "bob").unwrap();
    m.write("c", &[9.0, 9.0, 9.0], &[-1.0, -2.0], "carol").unwrap();
    m.delete("b", "bob").unwrap();
    m
}

#[test]
fn reload_preserves_rows_and_audit() {
    let m = sample();
    let mut m2 = reload(&m);
    assert_eq!(m2.len_total(), m.len_total());
    assert_eq!(m2.len_alive(), m.len_alive());
    let (a_k, a_v) = m2.read_exact("a").unwrap();
    assert_eq!(a_k, &vec![1.0, 0.0, -1.0]);
    assert_eq!(a_v, &vec![10.0, 20.0]);
    assert!(m2.read_exact("b").is_none());
    assert_eq!(m2.audit_log().len(), 4);
    for (x, y) in m.audit_log().iter().zip(m2.audit_log().iter()) {
        assert_eq!((&x.op, &x.fact_id, &x.owner, x.at), (&y.op, &y.fact_id, &y.owner, y.at));
    }
    assert!(matches!(
        m2.delete("c", "mallory"),
        Err(BruceError::PermissionDenied(_, _, _))
    ));
    assert_eq!(m2.snapshot_alive().0, vec!["a".to_string(), "c".to_string()]);
}

#[test]
fn reload_preserves_attention_bitexact() {
    let mut m = KvMemory::new(4, 3);
    for i in 0..16 {
        let k: Vec<f64> = (0..4).map(|j| ((i + j) as f64).sin()).collect();
        let v: Vec<f64> = (0..3).map(|j| ((i * 7 + j) as f64).cos()).collect();
        m.write(&format!("k{i}"), &k, &v, "alice").unwrap();
    }
    m.delete("k5", "alice").unwrap();
    let x: Vec<f64> = (0..4).map(|j| (j as f64).sqrt()).collect();
    let ar = doubles();
    let out1 = m.attention_query(&x, Eps::Finite(1.0), Sim::Dot, &ar).unwrap();
    let m2 = reload(&m);
    let out2 = m2.attention_query(&x, Eps::Finite(1.0), Sim::Dot, &ar).unwrap();
    for (a, b) in out1.iter().zip(out2.iter()) {
        assert_eq!(a.to_bits(), b.to_bits());
    }
}

#[test]
fn a_batch_holds_every_row_in_insertion_order() {
    let m = sample();
    let b = m.to_batch();
    assert_eq!(b.num_rows, 3);
    assert_eq!(b.fact_id.unwrap(), vec!["a".to_string(), "b".to_string(), "c".to_string()]);
    assert_eq!(b.k.unwrap().rows.unwrap()[1], vec![0.5, 0.5, 0.5]);
    assert_eq!(b.v.unwrap().rows.unwrap()[2], vec![-1.0, -2.0]);
    assert_eq!(
        b.owner.unwrap(),
        vec!["alice".to_string(), "bob".to_string(), "carol".to_string()]
    );
    assert_eq!(b.written_at.unwrap()[1], m.audit_log()[1].at);
    assert_eq!(b.deleted.unwrap(), vec![false, true, false]);
}

fn batch(ids: &[&str]) -> Batch<f64> {
    let n = ids.len();
    Batch {
        num_rows: n,
        fact_id: Some(ids.iter().map(|s| s.to_string()).collect()),
        k: Some(Lists { rows: Some((0..n).map(|i| vec![i as f64]).collect()) }),
        v: Some(Lists { rows: Some((0..n).map(|i| vec![10.0 * i as f64]).collect()) }),
        owner: Some(vec!["alice".to_string(); n]),
        written_at: Some((0..n as u64).collect()),
        deleted: Some(vec![false; n]),
    }
}

fn load_error(b: Batch<f64>) -> String {
    let mut m: KvMemory<f64> = KvMemory::new(1, 1);
    match m.load_batch(b) {
        Err(BruceError::Other(text)) => {
            assert_eq!(m.len_total(), 0);
            text
        }
        _ => panic!("loaded"),
    }
}

#[test]
fn missing_columns_are_refused_in_order() {
    assert_eq!(load_error(Batch { fact_id: None, k: None, ..batch(&["a"]) }), "fact_id column");
    assert_eq!(load_error(Batch { k: None, v: None, ..batch(&["a"]) }), "k column");
    assert_eq!(load_error(Batch { v: None, owner: None, ..batch(&["a"]) }), "v column");
    assert_eq!(load_error(Batch { owner: None, deleted: None, ..batch(&["a"]) }), "owner column");
    assert_eq!(load_error(Batch { written_at: None, deleted: None, ..batch(&["a"]) }), "at column");
    assert_eq!(load_error(Batch { deleted: None, ..batch(&["a"]) }), "deleted column");
    let other = || Some(Lists { rows: None });
    assert_eq!(load_error(Batch { k: other(), v: other(), ..batch(&["a"]) }), "k inner");
    assert_eq!(load_error(Batch { v: other(), ..batch(&["a"]) }), "v inner");
}

#[test]
fn lists_of_another_type_do_not_matter_without_rows() {
    let mut m: KvMemory<f64> = KvMemory::new(1, 1);
    let b = Batch { k: Some(Lists { rows: None }), v: Some(Lists { rows: None }), ..batch(&[]) };
    assert!(m.load_batch(b).is_ok());
    assert_eq!(m.len_total(), 0);
}

#[test]
fn batches_load_one_after_the_other() {
    let mut m: KvMemory<f64> = KvMemory::new(1, 1);
    m.load_batch(batch(&["a", "b"])).unwrap();
    m.load_batch(batch(&["c"])).unwrap();
    assert_eq!(m.ids(), &vec!["a".to_string(), "b".to_string(), "c".to_string()]);
    assert_eq!(m.read_exact("b").unwrap().1, &vec![10.0]);
    assert_eq!(m.read_exact("c").unwrap().1, &vec![0.0]);
    assert!(m.audit_log().is_empty());
}

#[test]
fn a_later_row_of_one_id_wins() {
    let mut m: KvMemory<f64> = KvMemory::new(1, 1);
    m.load_batch(batch(&["a", "b", "a"])).unwrap();
    assert_eq!(m.len_total(), 2);
    assert_eq!(m.read_exact("a").unwrap().0, &vec![2.0]);
    assert_eq!(m.ids().len(), 3);
}

#[test]
fn the_schema_names_six_columns() {
    let schema = arrow_schema(3, 2);
    let names: Vec<&str> = schema.iter().map(|c| c.name.as_str()).collect();
    assert_eq!(names, vec!["fact_id", "k", "v", "owner", "written_at", "deleted"]);
    assert!(schema.iter().all(|c| !c.nullable));
    assert!(matches!(schema[0].kind, ColumnType::Utf8));
    assert!(matches!(schema[4].kind, ColumnType::Float64));
    assert!(matches!(schema[5].kind, ColumnType::Boolean));
    for (column, d) in [(1, 3), (2, 2)] {
        match &schema[column].kind {
            ColumnType::FixedSizeList { item, item_nullable, width } => {
                assert_eq!((item.as_str(), *item_nullable, *width), ("item", true, d));
            }
            _ => panic!("not a list"),
        }
    }
}

fn width_error(found: FoundColumn) -> String {
    match list_width("k", found) {
        Err(BruceError::Other(text)) => text,
        _ => panic!("a width"),
    }
}

#[test]
fn widths_come_from_list_columns() {
    assert_eq!(list_width("k", FoundColumn::FixedSizeList(7)).unwrap(), 7);
    assert_eq!(list_width("v", FoundColumn::FixedSizeList(i32::MAX)).unwrap(), i32::MAX as usize);
    assert_eq!(width_error(FoundColumn::Missing("no k".to_string())), "schema: no k");
    assert_eq!(
        width_error(FoundColumn::Other("Utf8".to_string())),
        "expected k as FixedSizeList, got Utf8"
    );
}

#[test]
fn joined_lines_split_again() {
    let lines = vec!["{\"op\":\"insert\"}".to_string(), " x ".to_string(), "\u{fc}\t\u{1f600}".to_string()];
    let text = join_lines(&lines);
    assert_eq!(text, "{\"op\":\"insert\"}\n x \n\u{fc}\t\u{1f600}\n");
    assert_eq!(split_lines(&text), lines);
    assert_eq!(join_lines(&[]), "");
}

#[test]
fn splitting_skips_blank_lines() {
    let text = "a\r\n\n \t\u{2003}\nb\nc\r";
    let kept: Vec<String> =
        text.lines().filter(|l| !l.trim().is_empty()).map(|l| l.to_string()).collect();
    assert_eq!(split_lines(text), kept);
    assert_eq!(kept, vec!["a".to_string(), "b".to_string(), "c\r".to_string()]);
    assert_eq!(split_lines("a\r\r\nb"), vec!["a\r".to_string(), "b".to_string()]);
    assert!(split_lines("").is_empty());
    assert!(split_lines("\n\r\n\u{85}").is_empty());
}

#[test]
fn white_space_is_a_fixed_set() {
    for n in 0..=0x10ffffu32 {
        if let Some(c) = char::from_u32(n) {
            let white = (0x9..=0xd).contains(&n)
                || (0x2000..=0x200a).contains(&n)
                || [0x20, 0x85, 0xa0, 0x1680, 0x2028, 0x2029, 0x202f, 0x205f, 0x3000].contains(&n);
            assert_eq!(c.is_whitespace(), white);
            assert_eq!(split_lines(&c.to_string()).is_empty(), white);
        }
    }
    assert_eq!(split_lines("{}\n"), vec!["{}".to_string()]);
}
