//! Attention queries against the live rows of a memory.
use crate::arith::{Algebra, Arithmetic, Eps, Sim, Term, Test};
use crate::memory::{KvMemory, Row};
use crate::model::MemoryView;
use crate::records::Record;
use vstd::prelude::*;

verus! {

/// How the records of the first `n + 1` ids come from those of the first `n`.
proof fn records_step<T>(m: MemoryView<T>, alg: Algebra<T>, sim: Sim, x: Seq<T>, n: int)
    requires
        0 <= n < m.order.len(),
    ensures
        ({
            let r = m.records(alg, sim, x, m.order.take(n));
            let id = m.order[n];
            let one = Record { s: alg.similarity(sim, x, m.rows[id].k), v: m.rows[id].v };
            &&& m.records(alg, sim, x, m.order.take(n + 1)) == if m.alive(id) {
                r.push(one)
            } else {
                r
            }
            &&& r.push(one).drop_last() == r
            &&& r.push(one).last() == one
        }),
{
    assert(m.order.take(n + 1).drop_last() =~= m.order.take(n));
    assert(m.order.take(n + 1).last() == m.order[n]);
    let r = m.records(alg, sim, x, m.order.take(n));
    let id = m.order[n];
    let one = Record { s: alg.similarity(sim, x, m.rows[id].k), v: m.rows[id].v };
    assert(r.push(one).drop_last() =~= r);
}

/// Squared distance between two vectors of one length.
fn squared_distance<T, F, G, D>(x: &[T], k: &[T], ar: &Arithmetic<T, F, G, D>) -> (d2: T) where
    T: Copy,
    F: Fn(Term<T>) -> T,
    G: Fn(Test<T>) -> bool,
    D: Fn(&[T], &[T]) -> T,

    requires
        ar.wf(),
        x@.len() == k@.len(),
    ensures
        d2 == ar@.squared_distance(x@, k@, x@.len()),
{
    let mut d2: T = ar.zero;
    let mut i: usize = 0;
    while i < x.len()
        invariant
            ar.wf(),
            x@.len() == k@.len(),
            i <= x@.len(),
            d2 == ar@.squared_distance(x@, k@, i as nat),
        decreases x@.len() - i,
    {
        let d: T = ar.sub(x[i], k[i]);
        d2 = ar.add(d2, ar.mul(d, d));
        i += 1;
    }
    d2
}

/// Similarity of the query `x` and the key `k`.
pub fn similarity<T, F, G, D>(sim: Sim, x: &[T], k: &[T], ar: &Arithmetic<T, F, G, D>) -> (s:
    T) where T: Copy, F: Fn(Term<T>) -> T, G: Fn(Test<T>) -> bool, D: Fn(&[T], &[T]) -> T
    requires
        ar.wf(),
        x@.len() == k@.len(),
    ensures
        s == ar@.similarity(sim, x@, k@),
{
    match sim {
        Sim::Dot => ar.dot(x, k),
        Sim::NegSquared => ar.mul(ar.neg_half, squared_distance(x, k, ar)),
        Sim::Indicator => if ar.eq(squared_distance(x, k, ar), ar.zero) {
            ar.zero
        } else {
            ar.neg_infinity
        },
    }
}

impl<T: Copy> KvMemory<T> {
    /// The row of the `n`-th id if it is live.
    fn live_row(&self, n: usize) -> (found: Option<&Row<T>>)
        requires
            self.wf(),
            n < self@.order.len(),
        ensures
            match found {
                Some(row) => {
                    &&& self@.alive(self@.order[n as int])
                    &&& row@ == self@.rows[self@.order[n as int]]
                    &&& row@.k.len() == self@.d_k
                    &&& row@.v.len() == self@.d_v
                },
                None => !self@.alive(self@.order[n as int]),
            },
    {
        let row = self.known(n);
        if row.deleted {
            None
        } else {
            Some(row)
        }
    }

    /// The largest score of a live row against `x`, and whether there is a live row.
    fn best_score<F, G, D>(&self, x: &[T], sim: Sim, ar: &Arithmetic<T, F, G, D>) -> (best: (
        T,
        bool,
    )) where F: Fn(Term<T>) -> T, G: Fn(Test<T>) -> bool, D: Fn(&[T], &[T]) -> T
        requires
            self.wf(),
            ar.wf(),
            x@.len() == self@.d_k,
        ensures
            best.0 == ar@.best(self@.records(ar@, sim, x@, self@.order)),
            best.1 == (self@.records(ar@, sim, x@, self@.order).len() > 0),
    {
        let mut m: T = ar.neg_infinity;
        let mut any: bool = false;
        let mut n: usize = 0;
        while n < self.ids().len()
            invariant
                self.wf(),
                ar.wf(),
                x@.len() == self@.d_k,
                n <= self@.order.len(),
                m == ar@.best(self@.records(ar@, sim, x@, self@.order.take(n as int))),
                any == (self@.records(ar@, sim, x@, self@.order.take(n as int)).len() > 0),
            decreases self@.order.len() - n,
        {
            proof {
                records_step(self@, ar@, sim, x@, n as int);
            }
            if let Some(row) = self.live_row(n) {
                any = true;
                let s: T = similarity(sim, x, row.k.as_slice(), ar);
                if ar.gt(s, m) {
                    m = s;
                }
            }
            n += 1;
        }
        assert(self@.order.take(n as int) =~= self@.order);
        (m, any)
    }

    /// Mean over the live rows whose score is `m` and finite; zero if there is none.
    fn tropical_mean<F, G, D>(
        &self,
        x: &[T],
        sim: Sim,
        m: T,
        ar: &Arithmetic<T, F, G, D>,
    ) -> (out: Vec<T>) where
        F: Fn(Term<T>) -> T,
        G: Fn(Test<T>) -> bool,
        D: Fn(&[T], &[T]) -> T,

        requires
            self.wf(),
            ar.wf(),
            x@.len() == self@.d_k,
        ensures
            ({
                let w = ar@.winners(m, self@.records(ar@, sim, x@, self@.order));
                out@ == if w.len() == 0 {
                    ar@.zeros(self@.d_v)
                } else {
                    ar@.vdiv(ar@.unit_sum(w, self@.d_v), ar@.count(w.len() as usize))
                }
            }),
    {
        let mut sum: Vec<T> = ar.zeros(self.value_dim());
        let mut count: usize = 0;
        let mut n: usize = 0;
        while n < self.ids().len()
            invariant
                self.wf(),
                ar.wf(),
                x@.len() == self@.d_k,
                n <= self@.order.len(),
                count <= n,
                sum@.len() == self@.d_v,
                ({
                    let r = self@.records(ar@, sim, x@, self@.order.take(n as int));
                    let w = ar@.winners(m, r);
                    count == w.len() && sum@ == ar@.unit_sum(w, self@.d_v)
                }),
            decreases self@.order.len() - n,
        {
            proof {
                records_step(self@, ar@, sim, x@, n as int);
            }
            if let Some(row) = self.live_row(n) {
                let s: T = similarity(sim, x, row.k.as_slice(), ar);
                if ar.eq(s, m) && ar.finite(s) {
                    let ghost r = self@.records(ar@, sim, x@, self@.order.take(n as int));
                    ar.axpy(&mut sum, ar.one, row.v.as_slice());
                    count += 1;
                    proof {
                        let w = ar@.winners(m, r);
                        assert(w.push(Record { s, v: row.v@ }).drop_last() =~= w);
                    }
                }
            }
            n += 1;
        }
        assert(self@.order.take(n as int) =~= self@.order);
        if count == 0 {
            sum
        } else {
            ar.vdiv(&sum, ar.count(count))
        }
    }

    /// Softmax mean over the live rows at temperature `e`, shifted by `m`.
    fn softmax_mean<F, G, D>(
        &self,
        x: &[T],
        sim: Sim,
        m: T,
        e: T,
        ar: &Arithmetic<T, F, G, D>,
    ) -> (out: Vec<T>) where
        F: Fn(Term<T>) -> T,
        G: Fn(Test<T>) -> bool,
        D: Fn(&[T], &[T]) -> T,

        requires
            self.wf(),
            ar.wf(),
            x@.len() == self@.d_k,
        ensures
            ({
                let r = self@.records(ar@, sim, x@, self@.order);
                out@ == ar@.vdiv(
                    ar@.weighted_value(e, m, r, self@.d_v),
                    ar@.total_weight(e, m, r),
                )
            }),
    {
        let mut num: Vec<T> = ar.zeros(self.value_dim());
        let mut den: T = ar.zero;
        let mut n: usize = 0;
        while n < self.ids().len()
            invariant
                self.wf(),
                ar.wf(),
                x@.len() == self@.d_k,
                n <= self@.order.len(),
                num@.len() == self@.d_v,
                ({
                    let r = self@.records(ar@, sim, x@, self@.order.take(n as int));
                    &&& num@ == ar@.weighted_value(e, m, r, self@.d_v)
                    &&& den == ar@.total_weight(e, m, r)
                }),
            decreases self@.order.len() - n,
        {
            proof {
                records_step(self@, ar@, sim, x@, n as int);
            }
            if let Some(row) = self.live_row(n) {
                let s: T = similarity(sim, x, row.k.as_slice(), ar);
                let w: T = ar.weight(e, s, m);
                ar.axpy(&mut num, w, row.v.as_slice());
                den = ar.add(den, w);
            }
            n += 1;
        }
        assert(self@.order.take(n as int) =~= self@.order);
        ar.vdiv(&num, den)
    }

    /// Runs an attention query against the live rows, without materialising a dense
    /// snapshot first.
    ///
    /// Returns `None` if no row is live or the query does not have the dimension of the
    /// keys.
    pub fn attention_query<F, G, D>(
        &self,
        x: &[T],
        eps: Eps<T>,
        sim: Sim,
        ar: &Arithmetic<T, F, G, D>,
    ) -> (out: Option<Vec<T>>) where
        F: Fn(Term<T>) -> T,
        G: Fn(Test<T>) -> bool,
        D: Fn(&[T], &[T]) -> T,

        requires
            self.wf(),
            ar.wf(),
        ensures
            match out {
                Some(o) => self@.attend(ar@, eps, sim, x@) == Some(o@),
                None => self@.attend(ar@, eps, sim, x@) is None,
            },
    {
        if x.len() != self.key_dim() {
            return None;
        }
        let (m, any): (T, bool) = self.best_score(x, sim, ar);
        if !any {
            return None;
        }
        match eps {
            Eps::Zero => Some(self.tropical_mean(x, sim, m, ar)),
            Eps::Finite(e) => Some(self.softmax_mean(x, sim, m, e, ar)),
            Eps::Inf => Some(self.softmax_mean(x, sim, m, ar.infinity, ar)),
        }
    }
}

} // verus!
