//! Generic masked attention over an intensionally-given mask.
//!
//! The mask is consumed as a stream of `(i, j)` pairs in arbitrary order: row `i` of `Q`
//! attends to row `j` of `K` and `V` iff the pair `(i, j)` appears in the stream.
use crate::accum::{AccView, RowAcc};
use crate::arith::{Algebra, Arithmetic, Eps, Term, Test};
use crate::error::{decimal, decimal_text, BruceError, ErrorView};
use crate::matrix::{Matrix, MatrixView};
use rayon::iter::ParallelIterator;
use rayon::slice::ParallelSlice;
use vstd::prelude::*;
use vstd::string::*;

verus! {

/// Below this pair count the sequential fold is used.
pub const PAIR_PARALLEL_THRESHOLD: usize = 32768;

/// One masked-attention problem: queries, keys, values and temperature.
#[verifier::reject_recursive_types(T)]
pub ghost struct Attend<T> {
    pub alg: Algebra<T>,
    pub q: MatrixView<T>,
    pub k: MatrixView<T>,
    pub v: MatrixView<T>,
    pub eps: Eps<T>,
}

impl<T> Attend<T> {
    /// The pair points at a row of `Q` and a row of `K`.
    pub open spec fn in_range(self, p: (usize, usize)) -> bool {
        p.0 < self.q.rows.len() && p.1 < self.k.rows.len()
    }

    /// Every pair of the stream points at rows that exist.
    pub open spec fn all_in_range(self, pairs: Seq<(usize, usize)>) -> bool {
        forall|n: int| 0 <= n < pairs.len() ==> self.in_range(#[trigger] pairs[n])
    }

    /// Score of a pair.
    pub open spec fn score(self, p: (usize, usize)) -> T {
        self.alg.dot(self.q.rows[p.0 as int], self.k.rows[p.1 as int])
    }

    /// Value that a pair contributes.
    pub open spec fn value(self, p: (usize, usize)) -> Seq<T> {
        self.v.rows[p.1 as int]
    }

    /// One fresh accumulator per query.
    pub open spec fn fresh(self) -> Seq<AccView<T>> {
        Seq::new(self.q.rows.len(), |i: int| AccView::fresh(self.alg, self.v.ncols))
    }

    /// Absorbs one pair.
    pub open spec fn step(self, accs: Seq<AccView<T>>, p: (usize, usize)) -> Seq<AccView<T>> {
        accs.update(
            p.0 as int,
            accs[p.0 as int].absorb(self.alg, self.eps, self.score(p), self.value(p)),
        )
    }

    /// Absorbs the stream from left to right.
    pub open spec fn fold(self, pairs: Seq<(usize, usize)>) -> Seq<AccView<T>>
        decreases pairs.len(),
    {
        if pairs.len() == 0 {
            self.fresh()
        } else {
            self.step(self.fold(pairs.drop_last()), pairs.last())
        }
    }

    /// Merges accumulators row by row.
    pub open spec fn merge(self, a: Seq<AccView<T>>, b: Seq<AccView<T>>) -> Seq<AccView<T>> {
        Seq::new(a.len(), |i: int| a[i].merge(self.alg, self.eps, b[i]))
    }

    /// Folds every chunk of a merge tree and merges along the tree.
    pub open spec fn reduce(self, tree: MergeTree) -> Seq<AccView<T>>
        decreases tree,
    {
        match tree {
            MergeTree::Identity => self.fresh(),
            MergeTree::Chunk(pairs) => self.fold(pairs),
            MergeTree::Node(l, r) => self.merge(self.reduce(*l), self.reduce(*r)),
        }
    }

    /// `accs` comes from cutting the stream into pieces of length `size`, folding each, and
    /// merging them in some bracketing.
    pub open spec fn chunked_outcome(
        self,
        pairs: Seq<(usize, usize)>,
        size: nat,
        accs: Seq<AccView<T>>,
    ) -> bool {
        exists|tree: MergeTree|
            tree.chunks() == chunks_of(pairs, size) && accs == #[trigger] self.reduce(tree)
    }

    /// `accs` may come out of a parallel fold of the stream.
    pub open spec fn parallel_outcome(
        self,
        pairs: Seq<(usize, usize)>,
        accs: Seq<AccView<T>>,
    ) -> bool {
        exists|threads: usize| #[trigger]
            self.chunked_outcome(pairs, chunk_size(pairs.len(), threads), accs)
    }

    /// `accs` may come out of the fold that the length of the stream calls for.
    pub open spec fn outcome(self, pairs: Seq<(usize, usize)>, accs: Seq<AccView<T>>) -> bool {
        if pairs.len() < PAIR_PARALLEL_THRESHOLD {
            accs == self.fold(pairs)
        } else {
            self.parallel_outcome(pairs, accs)
        }
    }

    /// The output rows of the accumulators `accs`: zero where nothing was absorbed.
    pub open spec fn output(self, accs: Seq<AccView<T>>) -> Seq<Seq<T>> {
        Seq::new(
            accs.len(),
            |i: int|
                match accs[i].finalize(self.alg) {
                    Some(row) => row,
                    None => self.alg.zeros(self.v.ncols),
                },
        )
    }

    /// Why the problem is refused with the mask `pairs`, if it is.
    pub open spec fn refusal(self, pairs: Seq<(usize, usize)>) -> Option<ErrorView> {
        if self.v.rows.len() != self.k.rows.len() {
            Some(
                ErrorView::DimensionMismatch {
                    expected: self.k.rows.len() as int,
                    got: self.v.rows.len() as int,
                },
            )
        } else if self.q.ncols != self.k.ncols {
            Some(
                ErrorView::DimensionMismatch {
                    expected: self.q.ncols as int,
                    got: self.k.ncols as int,
                },
            )
        } else {
            self.range_refusal(pairs)
        }
    }

    /// The refusal of the first pair that points outside the matrices, if there is one.
    pub open spec fn range_refusal(self, pairs: Seq<(usize, usize)>) -> Option<ErrorView>
        decreases pairs.len(),
    {
        if pairs.len() == 0 {
            None
        } else if !self.in_range(pairs.first()) {
            Some(
                ErrorView::InvalidArgument(
                    range_message(pairs.first(), self.q.rows.len(), self.k.rows.len()),
                ),
            )
        } else {
            self.range_refusal(pairs.drop_first())
        }
    }
}

/// The message about a pair that is out of range.
pub open spec fn range_message(p: (usize, usize), n_q: nat, n_k: nat) -> Seq<char> {
    "mask pair ("@ + decimal(p.0 as nat) + ", "@ + decimal(p.1 as nat)
        + ") out of range for N_q = "@ + decimal(n_q) + ", N_k = "@ + decimal(n_k)
}

/// Some pair of the stream mentions row `i`.
pub open spec fn mentions(pairs: Seq<(usize, usize)>, i: int) -> bool {
    exists|n: int| 0 <= n < pairs.len() && (#[trigger] pairs[n]).0 == i
}

/// Row `i` of the window mask of width `w`: the pairs `(i, j)` with `0 <= i - j <= w`, by
/// increasing `j`.
pub open spec fn window_row(i: nat, w: nat) -> Seq<(usize, usize)> {
    let lo: nat = if i < w {
        0
    } else {
        (i - w) as nat
    };
    Seq::new((i - lo + 1) as nat, |t: int| (i as usize, (lo + t) as usize))
}

/// The rows of the window mask, one after the other.
pub open spec fn window_mask(n: nat, w: nat) -> Seq<(usize, usize)>
    decreases n,
{
    if n == 0 {
        seq![]
    } else {
        window_mask((n - 1) as nat, w) + window_row((n - 1) as nat, w)
    }
}

/// Row `i` of the causal mask: the pairs `(i, j)` with `j <= i`, by increasing `j`.
pub open spec fn causal_row(i: nat) -> Seq<(usize, usize)> {
    Seq::new(i + 1, |j: int| (i as usize, j as usize))
}

/// The rows of the causal mask, one after the other.
pub open spec fn causal_mask(n: nat) -> Seq<(usize, usize)>
    decreases n,
{
    if n == 0 {
        seq![]
    } else {
        causal_mask((n - 1) as nat) + causal_row((n - 1) as nat)
    }
}

/// How a parallel fold was put together: chunks of the stream, merged two by two, with fresh
/// accumulators inserted anywhere.
pub ghost enum MergeTree {
    Identity,
    Chunk(Seq<(usize, usize)>),
    Node(Box<MergeTree>, Box<MergeTree>),
}

impl MergeTree {
    /// The chunks from left to right.
    pub open spec fn chunks(self) -> Seq<Seq<(usize, usize)>>
        decreases self,
    {
        match self {
            MergeTree::Identity => seq![],
            MergeTree::Chunk(pairs) => seq![pairs],
            MergeTree::Node(l, r) => l.chunks() + r.chunks(),
        }
    }
}

/// `pairs` cut into pieces of length `size`, the last one possibly shorter.
pub open spec fn chunks_of(pairs: Seq<(usize, usize)>, size: nat) -> Seq<Seq<(usize, usize)>>
    decreases pairs.len(),
{
    if size == 0 || pairs.len() == 0 {
        seq![]
    } else if pairs.len() <= size {
        seq![pairs]
    } else {
        seq![pairs.take(size as int)] + chunks_of(pairs.skip(size as int), size)
    }
}

/// Contents of a list of accumulators.
pub open spec fn accs_view<T>(accs: Seq<RowAcc<T>>) -> Seq<AccView<T>> {
    Seq::new(accs.len(), |i: int| accs[i]@)
}

/// The problem that the arguments of a fold pose.
pub open spec fn problem<T, F, G, D>(
    q: &Matrix<T>,
    k: &Matrix<T>,
    v: &Matrix<T>,
    eps: Eps<T>,
    ar: &Arithmetic<T, F, G, D>,
) -> Attend<T> {
    Attend { alg: ar@, q: q@, k: k@, v: v@, eps }
}

/// A problem consists of the arguments that pose it, and a list of accumulators is seen one
/// by one.
pub proof fn problem_fields<T, F, G, D>(
    q: &Matrix<T>,
    k: &Matrix<T>,
    v: &Matrix<T>,
    eps: Eps<T>,
    ar: &Arithmetic<T, F, G, D>,
    accs: Seq<RowAcc<T>>,
)
    ensures
        problem(q, k, v, eps, ar).alg == ar@,
        problem(q, k, v, eps, ar).q == q@,
        problem(q, k, v, eps, ar).k == k@,
        problem(q, k, v, eps, ar).v == v@,
        problem(q, k, v, eps, ar).eps == eps,
        accs_view(accs).len() == accs.len(),
        forall|i: int| 0 <= i < accs.len() ==> #[trigger] accs_view(accs)[i] == accs[i]@,
{
}

/// One fresh accumulator per query.
pub fn fresh_rows<T, F, G, D>(n_q: usize, d_v: usize, ar: &Arithmetic<T, F, G, D>) -> (accs: Vec<
    RowAcc<T>,
>) where T: Copy, F: Fn(Term<T>) -> T, G: Fn(Test<T>) -> bool, D: Fn(&[T], &[T]) -> T
    requires
        ar.wf(),
    ensures
        accs_view(accs@) == Seq::new(n_q as nat, |i: int| AccView::fresh(ar@, d_v as nat)),
{
    let mut accs: Vec<RowAcc<T>> = Vec::new();
    while accs.len() < n_q
        invariant
            ar.wf(),
            accs@.len() <= n_q,
            forall|i: int|
                0 <= i < accs@.len() ==> (#[trigger] accs@[i])@ == AccView::fresh(ar@, d_v as nat),
        decreases n_q - accs@.len(),
    {
        accs.push(RowAcc::new(d_v, ar));
    }
    accs
}

/// Folds the stream from left to right into one accumulator per query.
pub fn fold_sequential<T, F, G, D>(
    q: &Matrix<T>,
    k: &Matrix<T>,
    v: &Matrix<T>,
    pairs: &[(usize, usize)],
    eps: Eps<T>,
    ar: &Arithmetic<T, F, G, D>,
) -> (accs: Vec<RowAcc<T>>) where
    T: Copy,
    F: Fn(Term<T>) -> T,
    G: Fn(Test<T>) -> bool,
    D: Fn(&[T], &[T]) -> T,

    requires
        ar.wf(),
        q@.ncols == k@.ncols,
        v@.rows.len() == k@.rows.len(),
        problem(q, k, v, eps, ar).all_in_range(pairs@),
    ensures
        accs_view(accs@) == problem(q, k, v, eps, ar).fold(pairs@),
{
    let ghost p = problem(q, k, v, eps, ar);
    let mut accs = fresh_rows(q.nrows(), v.ncols(), ar);
    assert(accs_view(accs@) =~= p.fresh());
    assert(forall|i: int| 0 <= i < accs@.len() ==> (#[trigger] accs@[i])@ == p.fresh()[i]);
    let mut n: usize = 0;
    while n < pairs.len()
        invariant
            ar.wf(),
            q@.ncols == k@.ncols,
            v@.rows.len() == k@.rows.len(),
            p == problem(q, k, v, eps, ar),
            p.all_in_range(pairs@),
            n <= pairs@.len(),
            accs@.len() == q@.rows.len(),
            accs_view(accs@) == p.fold(pairs@.take(n as int)),
            forall|i: int| 0 <= i < accs@.len() ==> (#[trigger] accs@[i])@.u.len() == v@.ncols,
        decreases pairs@.len() - n,
    {
        let (i, j): (usize, usize) = pairs[n];
        let ghost before = accs@;
        assert(p.in_range(pairs@[n as int]));
        let s: T = ar.dot(q.row(i), k.row(j));
        accs[i].absorb(s, v.row(j), eps, ar);
        proof {
            let done = pairs@.take(n as int);
            let more = pairs@.take(n + 1);
            assert(more.drop_last() =~= done);
            assert(more.last() == pairs@[n as int]);
            assert(accs_view(accs@) =~= p.step(accs_view(before), pairs@[n as int]));
        }
        n += 1;
    }
    assert(pairs@.take(pairs@.len() as int) =~= pairs@);
    accs
}

/// Merges the accumulators of `b` into those of `a`, row by row.
pub fn merge_rows<T, F, G, D>(
    a: Vec<RowAcc<T>>,
    b: Vec<RowAcc<T>>,
    eps: Eps<T>,
    ar: &Arithmetic<T, F, G, D>,
) -> (accs: Vec<RowAcc<T>>) where
    T: Copy,
    F: Fn(Term<T>) -> T,
    G: Fn(Test<T>) -> bool,
    D: Fn(&[T], &[T]) -> T,

    requires
        ar.wf(),
        a@.len() == b@.len(),
        forall|i: int| 0 <= i < a@.len() ==> (#[trigger] a@[i])@.u.len() == b@[i]@.u.len(),
    ensures
        accs_view(accs@) == Seq::new(
            a@.len(),
            |i: int| a@[i]@.merge(ar@, eps, b@[i]@),
        ),
{
    let mut accs = a;
    let mut n: usize = 0;
    while n < b.len()
        invariant
            ar.wf(),
            n <= b@.len(),
            accs@.len() == a@.len() == b@.len(),
            forall|i: int| 0 <= i < a@.len() ==> (#[trigger] a@[i])@.u.len() == b@[i]@.u.len(),
            forall|i: int|
                0 <= i < n ==> (#[trigger] accs@[i])@ == a@[i]@.merge(ar@, eps, b@[i]@),
            forall|i: int| n <= i < a@.len() ==> #[trigger] accs@[i] == a@[i],
        decreases b@.len() - n,
    {
        assert(a@[n as int]@.u.len() == b@[n as int]@.u.len());
        accs[n].merge(&b[n], eps, ar);
        n += 1;
    }
    accs
}

/// `rayon::current_num_threads`: how many threads the current pool has. Nothing is claimed
/// of the number, which depends on the machine and on the pool.
#[verifier::external_body]
fn thread_count() -> (n: usize)
{
    rayon::current_num_threads()
}

/// Length of the pieces into which `len` pairs are cut for `threads` threads: `len` divided
/// by the number of threads, rounded up.
pub open spec fn chunk_size(len: nat, threads: usize) -> nat {
    let t = if threads == 0 {
        1nat
    } else {
        threads as nat
    };
    if len % t == 0 {
        len / t
    } else {
        len / t + 1
    }
}

/// Length of the pieces into which `len` pairs are cut for `threads` threads.
pub fn chunk_len(len: usize, threads: usize) -> (size: usize)
    ensures
        size == chunk_size(len as nat, threads),
        len > 0 ==> 0 < size <= len,
        ({
            let t = if threads == 0 {
                1
            } else {
                threads as int
            };
            len <= size * t && (len > 0 ==> (size - 1) * t < len)
        }),
{
    let t: usize = if threads == 0 {
        1
    } else {
        threads
    };
    proof {
        vstd::arithmetic::div_mod::lemma_fundamental_div_mod(len as int, t as int);
        assert(len % t == 0 || len / t < len || len == 0) by (nonlinear_arith)
            requires
                len == t * (len / t) + len % t,
                0 <= len % t < t,
        ;
        assert(len / t <= len && (len > 0 && len % t == 0 ==> 0 < len / t)) by (nonlinear_arith)
            requires
                len == t * (len / t) + len % t,
                0 <= len % t < t,
        ;
    }
    proof {
        let (n, u, q, r) = (len as int, t as int, (len / t) as int, (len % t) as int);
        assert(n <= (q + 1) * u && q * u <= n && (r > 0 ==> q * u < n) && (r == 0 ==> n == q * u)
            && (r == 0 && n > 0 ==> (q - 1) * u < n)) by (nonlinear_arith)
            requires
                n == u * q + r,
                0 <= r < u,
        ;
    }
    if len % t == 0 {
        len / t
    } else {
        len / t + 1
    }
}

/// `par_chunks`, `map` and `reduce` of `rayon`: cuts the stream into chunks of length
/// `chunk`, folds each of them with [`fold_sequential`], and reduces the results with
/// [`merge_rows`] and fresh accumulators as identity. The chunks keep their order; how they
/// are bracketed, and where an identity is inserted, is left to the pool.
#[verifier::external_body]
fn fold_chunks<T, F, G, D>(
    q: &Matrix<T>,
    k: &Matrix<T>,
    v: &Matrix<T>,
    pairs: &[(usize, usize)],
    eps: Eps<T>,
    ar: &Arithmetic<T, F, G, D>,
    chunk: usize,
    n_q: usize,
    d_v: usize,
) -> (accs: Vec<RowAcc<T>>) where
    T: Copy + Send + Sync,
    F: Fn(Term<T>) -> T + Sync,
    G: Fn(Test<T>) -> bool + Sync,
    D: Fn(&[T], &[T]) -> T + Sync,

    requires
        ar.wf(),
        q@.ncols == k@.ncols,
        v@.rows.len() == k@.rows.len(),
        problem(q, k, v, eps, ar).all_in_range(pairs@),
        chunk > 0,
        n_q == q@.rows.len(),
        d_v == v@.ncols,
    ensures
        problem(q, k, v, eps, ar).chunked_outcome(pairs@, chunk as nat, accs_view(accs@)),
{
    pairs.par_chunks(chunk).map(|c| fold_sequential(q, k, v, c, eps, ar)).reduce(
        || fresh_rows(n_q, d_v, ar),
        |a, b| merge_rows(a, b, eps, ar),
    )
}

/// Folds the stream in chunks, one per thread of the current pool, and merges the results.
pub fn fold_parallel<T, F, G, D>(
    q: &Matrix<T>,
    k: &Matrix<T>,
    v: &Matrix<T>,
    pairs: &[(usize, usize)],
    eps: Eps<T>,
    ar: &Arithmetic<T, F, G, D>,
) -> (accs: Vec<RowAcc<T>>) where
    T: Copy + Send + Sync,
    F: Fn(Term<T>) -> T + Sync,
    G: Fn(Test<T>) -> bool + Sync,
    D: Fn(&[T], &[T]) -> T + Sync,

    requires
        ar.wf(),
        q@.ncols == k@.ncols,
        v@.rows.len() == k@.rows.len(),
        problem(q, k, v, eps, ar).all_in_range(pairs@),
        pairs@.len() > 0,
    ensures
        problem(q, k, v, eps, ar).parallel_outcome(pairs@, accs_view(accs@)),
{
    let threads: usize = thread_count();
    let chunk: usize = chunk_len(pairs.len(), threads);
    fold_chunks(q, k, v, pairs, eps, ar, chunk, q.nrows(), v.ncols())
}

/// The message about a pair that is out of range.
fn range_text(i: usize, j: usize, n_q: usize, n_k: usize) -> (text: String)
    ensures
        text@ == range_message((i, j), n_q as nat, n_k as nat),
{
    let mut text = "mask pair (".to_owned();
    text.append(decimal_text(i).as_str());
    text.append(", ");
    text.append(decimal_text(j).as_str());
    text.append(") out of range for N_q = ");
    text.append(decimal_text(n_q).as_str());
    text.append(", N_k = ");
    text.append(decimal_text(n_k).as_str());
    text
}

/// A fold keeps the number of accumulators and the length of their values.
pub proof fn lemma_fold_shape<T>(p: Attend<T>, pairs: Seq<(usize, usize)>)
    requires
        p.v.wf(),
        p.v.rows.len() == p.k.rows.len(),
        p.all_in_range(pairs),
    ensures
        p.fold(pairs).len() == p.q.rows.len(),
        forall|i: int|
            0 <= i < p.q.rows.len() ==> (#[trigger] p.fold(pairs)[i]).u.len() == p.v.ncols,
    decreases pairs.len(),
{
    if pairs.len() > 0 {
        assert forall|n: int| 0 <= n < pairs.drop_last().len() implies p.in_range(
            #[trigger] pairs.drop_last()[n],
        ) by {
            assert(p.in_range(pairs[n]));
        }
        lemma_fold_shape(p, pairs.drop_last());
        assert(p.in_range(pairs[pairs.len() - 1]));
    }
}

/// A reduction keeps the number of accumulators and the length of their values.
pub proof fn lemma_reduce_shape<T>(p: Attend<T>, tree: MergeTree)
    requires
        p.v.wf(),
        p.v.rows.len() == p.k.rows.len(),
        forall|n: int|
            0 <= n < tree.chunks().len() ==> p.all_in_range(#[trigger] tree.chunks()[n]),
    ensures
        p.reduce(tree).len() == p.q.rows.len(),
        forall|i: int|
            0 <= i < p.q.rows.len() ==> (#[trigger] p.reduce(tree)[i]).u.len() == p.v.ncols,
    decreases tree,
{
    match tree {
        MergeTree::Identity => {},
        MergeTree::Chunk(pairs) => {
            assert(tree.chunks()[0] == pairs);
            lemma_fold_shape(p, pairs);
        },
        MergeTree::Node(l, r) => {
            assert forall|n: int| 0 <= n < l.chunks().len() implies p.all_in_range(
                #[trigger] l.chunks()[n],
            ) by {
                assert(tree.chunks()[n] == l.chunks()[n]);
            }
            assert forall|n: int| 0 <= n < r.chunks().len() implies p.all_in_range(
                #[trigger] r.chunks()[n],
            ) by {
                assert(tree.chunks()[l.chunks().len() + n] == r.chunks()[n]);
            }
            lemma_reduce_shape(p, *l);
            lemma_reduce_shape(p, *r);
            assert forall|i: int| 0 <= i < p.q.rows.len() implies (#[trigger] p.reduce(
                tree,
            )[i]).u.len() == p.v.ncols by {
                assert(p.reduce(*l)[i].u.len() == p.v.ncols);
                assert(p.reduce(*r)[i].u.len() == p.v.ncols);
            }
        },
    }
}

/// The chunks of a stream whose pairs are in range have their pairs in range.
pub proof fn lemma_chunks_in_range<T>(p: Attend<T>, pairs: Seq<(usize, usize)>, size: nat)
    requires
        p.all_in_range(pairs),
    ensures
        forall|n: int|
            0 <= n < chunks_of(pairs, size).len() ==> p.all_in_range(
                #[trigger] chunks_of(pairs, size)[n],
            ),
    decreases pairs.len(),
{
    if size != 0 && pairs.len() > size {
        let head = pairs.take(size as int);
        let tail = pairs.skip(size as int);
        assert forall|n: int| 0 <= n < head.len() implies p.in_range(#[trigger] head[n]) by {
            assert(p.in_range(pairs[n]));
        }
        assert forall|n: int| 0 <= n < tail.len() implies p.in_range(#[trigger] tail[n]) by {
            assert(p.in_range(pairs[n + size]));
        }
        lemma_chunks_in_range(p, tail, size);
        assert forall|n: int| 0 <= n < chunks_of(pairs, size).len() implies p.all_in_range(
            #[trigger] chunks_of(pairs, size)[n],
        ) by {
            if n > 0 {
                assert(chunks_of(pairs, size)[n] == chunks_of(tail, size)[n - 1]);
            }
        }
    }
}

/// For each of `n_q` rows, whether some pair mentions it.
pub fn coverage(n_q: usize, pairs: &[(usize, usize)]) -> (covered: Vec<bool>)
    ensures
        covered@ == Seq::new(n_q as nat, |i: int| mentions(pairs@, i)),
        covered@.len() == n_q,
        forall|i: int|
            0 <= i < n_q ==> (#[trigger] covered@[i] <==> exists|n: int|
                0 <= n < pairs@.len() && (#[trigger] pairs@[n]).0 == i),
{
    let mut covered: Vec<bool> = Vec::new();
    while covered.len() < n_q
        invariant
            covered@.len() <= n_q,
            forall|i: int| 0 <= i < covered@.len() ==> !(#[trigger] covered@[i]),
        decreases n_q - covered@.len(),
    {
        covered.push(false);
    }
    let mut n: usize = 0;
    while n < pairs.len()
        invariant
            n <= pairs@.len(),
            covered@.len() == n_q,
            forall|i: int|
                0 <= i < n_q ==> #[trigger] covered@[i] == mentions(pairs@.take(n as int), i),
        decreases pairs@.len() - n,
    {
        let i: usize = pairs[n].0;
        let ghost before = covered@;
        if i < n_q {
            covered.set(i, true);
        }
        proof {
            let done = pairs@.take(n as int);
            let more = pairs@.take(n + 1);
            assert forall|r: int| 0 <= r < n_q implies #[trigger] covered@[r] == mentions(
                more,
                r,
            ) by {
                assert(before[r] == mentions(done, r));
                if mentions(done, r) {
                    let m = choose|m: int| 0 <= m < done.len() && (#[trigger] done[m]).0 == r;
                    assert(more[m].0 == r);
                }
                if r == i {
                    assert(more[n as int].0 == r);
                }
                if mentions(more, r) && r != i {
                    let m = choose|m: int| 0 <= m < more.len() && (#[trigger] more[m]).0 == r;
                    assert(done[m].0 == r);
                }
            }
        }
        n += 1;
    }
    assert(pairs@.take(n as int) =~= pairs@);
    covered
}

/// The output row of each accumulator, zero where nothing was absorbed.
fn output_rows<T, F, G, D>(
    accs: &Vec<RowAcc<T>>,
    d_v: usize,
    ar: &Arithmetic<T, F, G, D>,
) -> (rows: Vec<Vec<T>>) where
    T: Copy,
    F: Fn(Term<T>) -> T,
    G: Fn(Test<T>) -> bool,
    D: Fn(&[T], &[T]) -> T,

    requires
        ar.wf(),
        forall|i: int| 0 <= i < accs@.len() ==> (#[trigger] accs@[i])@.u.len() == d_v,
    ensures
        rows@.len() == accs@.len(),
        forall|i: int|
            0 <= i < rows@.len() ==> {
                &&& (#[trigger] rows@[i])@.len() == d_v
                &&& rows@[i]@ == match accs@[i]@.finalize(ar@) {
                    Some(row) => row,
                    None => ar@.zeros(d_v as nat),
                }
            },
{
    let mut rows: Vec<Vec<T>> = Vec::new();
    while rows.len() < accs.len()
        invariant
            ar.wf(),
            forall|i: int| 0 <= i < accs@.len() ==> (#[trigger] accs@[i])@.u.len() == d_v,
            rows@.len() <= accs@.len(),
            forall|i: int|
                0 <= i < rows@.len() ==> {
                    &&& (#[trigger] rows@[i])@.len() == d_v
                    &&& rows@[i]@ == match accs@[i]@.finalize(ar@) {
                        Some(row) => row,
                        None => ar@.zeros(d_v as nat),
                    }
                },
        decreases accs@.len() - rows@.len(),
    {
        let i: usize = rows.len();
        assert(accs@[i as int]@.u.len() == d_v);
        match accs[i].finalize(ar) {
            Some(row) => rows.push(row),
            None => rows.push(ar.zeros(d_v)),
        }
    }
    rows
}

/// Masked attention over a pair stream.
///
/// * `q`: queries, indexed by the `i` of each pair.
/// * `k`, `v`: keys and values, indexed by `j`.
/// * `pairs`: the mask, as `(i, j)` index pairs in any order. A pair that occurs twice is
///   counted twice.
/// * `eps`: temperature.
///
/// Returns `(out, covered)`: one output row per query, and for each query whether some pair
/// mentions it. The output row of a query that no pair mentions is zero.
pub fn masked_attention<T, F, G, D>(
    q: &Matrix<T>,
    k: &Matrix<T>,
    v: &Matrix<T>,
    pairs: &[(usize, usize)],
    eps: Eps<T>,
    ar: &Arithmetic<T, F, G, D>,
) -> (result: Result<(Matrix<T>, Vec<bool>), BruceError>) where
    T: Copy + Send + Sync,
    F: Fn(Term<T>) -> T + Sync,
    G: Fn(Test<T>) -> bool + Sync,
    D: Fn(&[T], &[T]) -> T + Sync,

    requires
        ar.wf(),
    ensures
        match result {
            Ok((out, covered)) => {
                &&& problem(q, k, v, eps, ar).refusal(pairs@) is None
                &&& out@.ncols == v@.ncols
                &&& exists|accs: Seq<AccView<T>>|
                    {
                        &&& #[trigger] problem(q, k, v, eps, ar).outcome(pairs@, accs)
                        &&& out@.rows == problem(q, k, v, eps, ar).output(accs)
                    }
                &&& covered@ == Seq::new(q@.rows.len(), |i: int| mentions(pairs@, i))
            },
            Err(e) => problem(q, k, v, eps, ar).refusal(pairs@) == Some(e@),
        },
        result is Ok <==> {
            &&& v@.rows.len() == k@.rows.len()
            &&& q@.ncols == k@.ncols
            &&& forall|n: int|
                0 <= n < pairs@.len() ==> (#[trigger] pairs@[n]).0 < q@.rows.len() && pairs@[n].1
                    < k@.rows.len()
        },
        match result {
            Ok((out, covered)) => {
                &&& out@.rows.len() == q@.rows.len()
                &&& out@.ncols == v@.ncols
                &&& covered@.len() == q@.rows.len()
                &&& forall|i: int|
                    0 <= i < q@.rows.len() ==> (#[trigger] covered@[i] <==> exists|n: int|
                        0 <= n < pairs@.len() && (#[trigger] pairs@[n]).0 == i)
            },
            Err(e) => {
                &&& v@.rows.len() != k@.rows.len() ==> e@ == (ErrorView::DimensionMismatch {
                    expected: k@.rows.len() as int,
                    got: v@.rows.len() as int,
                })
                &&& v@.rows.len() == k@.rows.len() && q@.ncols != k@.ncols ==> e@ == (
                ErrorView::DimensionMismatch {
                    expected: q@.ncols as int,
                    got: k@.ncols as int,
                })
                &&& v@.rows.len() == k@.rows.len() && q@.ncols == k@.ncols ==> exists|n: int|
                    {
                        &&& 0 <= n < pairs@.len()
                        &&& (#[trigger] pairs@[n]).0 >= q@.rows.len() || pairs@[n].1
                            >= k@.rows.len()
                        &&& forall|m: int|
                            0 <= m < n ==> (#[trigger] pairs@[m]).0 < q@.rows.len() && pairs@[m].1
                                < k@.rows.len()
                        &&& e@ == ErrorView::InvalidArgument(
                            "mask pair ("@ + decimal(pairs@[n].0 as nat) + ", "@ + decimal(
                                pairs@[n].1 as nat,
                            ) + ") out of range for N_q = "@ + decimal(q@.rows.len())
                                + ", N_k = "@ + decimal(k@.rows.len()),
                        )
                    }
            },
        },
{
    let ghost p = problem(q, k, v, eps, ar);
    let n_q: usize = q.nrows();
    let n_k: usize = k.nrows();
    if v.nrows() != n_k {
        return Err(BruceError::DimensionMismatch { expected: n_k, got: v.nrows() });
    }
    if q.ncols() != k.ncols() {
        return Err(BruceError::DimensionMismatch { expected: q.ncols(), got: k.ncols() });
    }
    let mut n: usize = 0;
    assert(pairs@.skip(0) =~= pairs@);
    while n < pairs.len()
        invariant
            p == problem(q, k, v, eps, ar),
            n_q == q@.rows.len(),
            n_k == k@.rows.len(),
            n <= pairs@.len(),
            v@.rows.len() == k@.rows.len(),
            q@.ncols == k@.ncols,
            p.refusal(pairs@) == p.range_refusal(pairs@),
            p.range_refusal(pairs@) == p.range_refusal(pairs@.skip(n as int)),
            p.all_in_range(pairs@.take(n as int)),
        decreases pairs@.len() - n,
    {
        let (i, j): (usize, usize) = pairs[n];
        proof {
            let rest = pairs@.skip(n as int);
            assert(rest.first() == pairs@[n as int]);
            assert(rest.drop_first() =~= pairs@.skip(n + 1));
        }
        if i >= n_q || j >= n_k {
            proof {
                assert(pairs@[n as int] == (i, j));
                assert forall|m: int| 0 <= m < n implies (#[trigger] pairs@[m]).0
                    < q@.rows.len() && pairs@[m].1 < k@.rows.len() by {
                    assert(p.in_range(pairs@.take(n as int)[m]));
                }
            }
            return Err(BruceError::InvalidArgument(range_text(i, j, n_q, n_k)));
        }
        proof {
            let done = pairs@.take(n as int);
            let more = pairs@.take(n + 1);
            assert forall|m: int| 0 <= m < more.len() implies p.in_range(#[trigger] more[m]) by {
                if m < n {
                    assert(more[m] == done[m]);
                }
            }
        }
        n += 1;
    }
    assert(pairs@.take(n as int) =~= pairs@);
    let accs = if pairs.len() < PAIR_PARALLEL_THRESHOLD {
        fold_sequential(q, k, v, pairs, eps, ar)
    } else {
        fold_parallel(q, k, v, pairs, eps, ar)
    };
    let ghost views = accs_view(accs@);
    proof {
        assert(p.outcome(pairs@, views));
        assert(p.range_refusal(pairs@.skip(n as int)) is None);
    }
    let d_v: usize = v.ncols();
    proof {
        if pairs@.len() < PAIR_PARALLEL_THRESHOLD {
            lemma_fold_shape(p, pairs@);
        } else {
            let threads = choose|threads: usize| #[trigger]
                p.chunked_outcome(pairs@, chunk_size(pairs@.len(), threads), views);
            let size = chunk_size(pairs@.len(), threads);
            let tree = choose|tree: MergeTree|
                tree.chunks() == chunks_of(pairs@, size) && views == #[trigger] p.reduce(tree);
            lemma_chunks_in_range(p, pairs@, size);
            lemma_reduce_shape(p, tree);
        }
        assert forall|i: int| 0 <= i < accs@.len() implies (#[trigger] accs@[i])@.u.len()
            == d_v by {
            assert(views[i] == accs@[i]@);
        }
    }
    proof {
        assert forall|n: int| 0 <= n < pairs@.len() implies (#[trigger] pairs@[n]).0
            < q@.rows.len() && pairs@[n].1 < k@.rows.len() by {
            assert(p.in_range(pairs@[n]));
        }
    }
    let covered = coverage(n_q, pairs);
    let rows = output_rows(&accs, d_v, ar);
    Ok((Matrix::of_rows(d_v, rows), covered))
}

/// The causal mask `{(i, j) : j <= i}` on `n` rows, in row-major order.
pub fn causal_pairs(n: usize) -> (pairs: Vec<(usize, usize)>)
    ensures
        pairs@ == causal_mask(n as nat),
{
    let mut p: Vec<(usize, usize)> = Vec::new();
    let mut i: usize = 0;
    while i < n
        invariant
            i <= n,
            p@ == causal_mask(i as nat),
        decreases n - i,
    {
        let mut j: usize = 0;
        while j <= i
            invariant
                i < n,
                j <= i + 1,
                p@ == causal_mask(i as nat) + causal_row(i as nat).take(j as int),
            decreases i + 1 - j,
        {
            p.push((i, j));
            assert(causal_row(i as nat).take(j + 1) =~= causal_row(i as nat).take(j as int).push(
                (i, j),
            ));
            j += 1;
        }
        assert(causal_row(i as nat).take(j as int) =~= causal_row(i as nat));
        i += 1;
    }
    p
}

/// The sliding-window mask `{(i, j) : 0 <= i - j <= w}` on `n` rows, in row-major order.
pub fn window_pairs(n: usize, w: usize) -> (pairs: Vec<(usize, usize)>)
    ensures
        pairs@ == window_mask(n as nat, w as nat),
{
    let mut p: Vec<(usize, usize)> = Vec::new();
    let mut i: usize = 0;
    while i < n
        invariant
            i <= n,
            p@ == window_mask(i as nat, w as nat),
        decreases n - i,
    {
        let lo: usize = if i < w {
            0
        } else {
            i - w
        };
        let ghost row = window_row(i as nat, w as nat);
        let mut j: usize = lo;
        while j <= i
            invariant
                i < n,
                lo == (if i < w {
                    0
                } else {
                    i - w
                }),
                lo <= j <= i + 1,
                row == window_row(i as nat, w as nat),
                p@ == window_mask(i as nat, w as nat) + row.take(j - lo),
            decreases i + 1 - j,
        {
            p.push((i, j));
            assert(row.take(j + 1 - lo) =~= row.take(j - lo).push((i, j)));
            j += 1;
        }
        assert(row.take(j - lo) =~= row);
        i += 1;
    }
    p
}

} // verus!
