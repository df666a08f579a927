//! Scored records: what the attention operator ranges over.
use crate::arith::{Algebra, Eps, Sim};
use vstd::prelude::*;

verus! {

/// A record with its score against the query.
#[verifier::ext_equal]
pub ghost struct Record<T> {
    pub s: T,
    pub v: Seq<T>,
}

impl<T> Algebra<T> {
    /// Squared distance between the first `n` components of `x` and `k`, summed from the
    /// left.
    pub open spec fn squared_distance(self, x: Seq<T>, k: Seq<T>, n: nat) -> T
        decreases n,
    {
        if n == 0 {
            self.zero
        } else {
            let d = self.sub(x[n - 1], k[n - 1]);
            self.add(self.squared_distance(x, k, (n - 1) as nat), self.mul(d, d))
        }
    }

    /// Similarity of the query `x` and the key `k`.
    pub open spec fn similarity(self, sim: Sim, x: Seq<T>, k: Seq<T>) -> T {
        match sim {
            Sim::Dot => self.dot(x, k),
            Sim::NegSquared => self.mul(self.neg_half, self.squared_distance(x, k, x.len())),
            Sim::Indicator => if self.eq(self.squared_distance(x, k, x.len()), self.zero) {
                self.zero
            } else {
                self.neg_infinity
            },
        }
    }

    /// The largest score, minus infinity if there is none above it.
    pub open spec fn best(self, r: Seq<Record<T>>) -> T
        decreases r.len(),
    {
        if r.len() == 0 {
            self.neg_infinity
        } else {
            let m = self.best(r.drop_last());
            if self.gt(r.last().s, m) {
                r.last().s
            } else {
                m
            }
        }
    }

    /// Sum of the weights of the records relative to `base`, at temperature `e`.
    pub open spec fn total_weight(self, e: T, base: T, r: Seq<Record<T>>) -> T
        decreases r.len(),
    {
        if r.len() == 0 {
            self.zero
        } else {
            self.add(
                self.total_weight(e, base, r.drop_last()),
                self.weight(e, r.last().s, base),
            )
        }
    }

    /// Sum of the values of the records, weighted relative to `base` at temperature `e`.
    pub open spec fn weighted_value(self, e: T, base: T, r: Seq<Record<T>>, d_v: nat) -> Seq<T>
        decreases r.len(),
    {
        if r.len() == 0 {
            self.zeros(d_v)
        } else {
            self.axpy(
                self.weighted_value(e, base, r.drop_last(), d_v),
                self.weight(e, r.last().s, base),
                r.last().v,
            )
        }
    }

    /// The records whose score is `base` and finite.
    pub open spec fn winners(self, base: T, r: Seq<Record<T>>) -> Seq<Record<T>>
        decreases r.len(),
    {
        if r.len() == 0 {
            seq![]
        } else {
            let w = self.winners(base, r.drop_last());
            if self.eq(r.last().s, base) && self.finite(r.last().s) {
                w.push(r.last())
            } else {
                w
            }
        }
    }

    /// Sum of the values of the records, each with weight one.
    pub open spec fn unit_sum(self, r: Seq<Record<T>>, d_v: nat) -> Seq<T>
        decreases r.len(),
    {
        if r.len() == 0 {
            self.zeros(d_v)
        } else {
            self.axpy(self.unit_sum(r.drop_last(), d_v), self.one, r.last().v)
        }
    }

    /// The attention over at least one record: at zero temperature the mean over the argmax
    /// set (zero if it has no finite score), otherwise the softmax mean, shifted by the
    /// largest score.
    pub open spec fn attention(self, eps: Eps<T>, r: Seq<Record<T>>, d_v: nat) -> Seq<T> {
        let m = self.best(r);
        match eps {
            Eps::Zero => {
                let w = self.winners(m, r);
                if w.len() == 0 {
                    self.zeros(d_v)
                } else {
                    self.vdiv(self.unit_sum(w, d_v), self.count(w.len() as usize))
                }
            },
            Eps::Finite(e) => self.vdiv(
                self.weighted_value(e, m, r, d_v),
                self.total_weight(e, m, r),
            ),
            Eps::Inf => self.vdiv(
                self.weighted_value(self.infinity, m, r, d_v),
                self.total_weight(self.infinity, m, r),
            ),
        }
    }
}

} // verus!
