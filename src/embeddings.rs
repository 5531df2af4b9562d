use vstd::prelude::*;
use vstd::set_lib::{lemma_int_range, lemma_len_subset, set_int_range};

use crate::blocks::{copy_coords, texts};
use crate::error::IndexError;

verus! {

broadcast use vstd::seq_lib::seq_to_set_is_finite;

/// The largest square of a difference of two `i32` values: `(2^32 - 1)^2`.
pub const MAX_SQUARED_GAP: u128 = 18446744065119617025;

/// An embedding vector, in fixed-point coordinates, paired with the text it was
/// computed from.
#[derive(Clone, Debug, PartialEq, Eq)]
pub struct Vector {
    pub point: Vec<i32>,
    pub code: String,
}

pub struct VectorView {
    pub point: Seq<i32>,
    pub code: Seq<char>,
}

impl View for Vector {
    type V = VectorView;

    open spec fn view(&self) -> VectorView {
        VectorView { point: self.point@, code: self.code@ }
    }
}

pub open spec fn vector_views(v: Seq<Vector>) -> Seq<VectorView> {
    v.map_values(|x: Vector| x@)
}

/// Squared Euclidean distance over the first `n` coordinates.
pub open spec fn sq_dist_upto(a: Seq<i32>, b: Seq<i32>, n: int) -> int
    decreases n,
{
    if n <= 0 {
        0
    } else {
        sq_dist_upto(a, b, n - 1) + (a[n - 1] - b[n - 1]) * (a[n - 1] - b[n - 1])
    }
}

/// Squared Euclidean distance between two points of one dimension.
pub open spec fn sq_dist(a: Seq<i32>, b: Seq<i32>) -> int {
    sq_dist_upto(a, b, a.len() as int)
}

/// The squared distance from each point to `q`, by position.
pub open spec fn distances(pts: Seq<VectorView>, q: Seq<i32>) -> Seq<int> {
    pts.map_values(|p: VectorView| sq_dist(p.point, q))
}

pub open spec fn as_ints(v: Seq<u128>) -> Seq<int> {
    v.map_values(|x: u128| x as int)
}

pub open spec fn positions(v: Seq<usize>) -> Seq<int> {
    v.map_values(|x: usize| x as int)
}

/// Position `i` ranks strictly before position `j`: it is closer, or as close and
/// stored earlier. This is a strict total order on the positions of `ds`.
pub open spec fn ranks_before(ds: Seq<int>, i: int, j: int) -> bool {
    ds[i] < ds[j] || (ds[i] == ds[j] && i < j)
}

/// `m` is the position of the nearest point: it ranks before every other one.
pub open spec fn is_nearest(ds: Seq<int>, m: int) -> bool {
    &&& 0 <= m < ds.len()
    &&& forall|j: int| 0 <= j < ds.len() && j != m ==> ranks_before(ds, m, j)
}

/// `r` lists the positions of the `min(k, n)` nearest points, nearest first: its
/// positions ascend in rank, and every position left out ranks after all of them.
pub open spec fn is_k_nearest(ds: Seq<int>, k: int, r: Seq<int>) -> bool {
    &&& r.len() == (if k < ds.len() { k } else { ds.len() as int })
    &&& forall|t: int| 0 <= t < r.len() ==> 0 <= #[trigger] r[t] < ds.len()
    &&& forall|s: int, t: int|
        0 <= s < t < r.len() ==> ranks_before(ds, #[trigger] r[s], #[trigger] r[t])
    &&& forall|j: int, t: int|
        #![trigger r.contains(j), r[t]]
        0 <= j < ds.len() && !r.contains(j) && 0 <= t < r.len() ==> ranks_before(ds, r[t], j)
}

proof fn lemma_gap_square(d: int)
    requires
        -4294967295 <= d <= 4294967295,
    ensures
        0 <= d * d <= MAX_SQUARED_GAP,
{
    assert(0 <= d * d <= 4294967295 * 4294967295) by (nonlinear_arith)
        requires
            -4294967295 <= d <= 4294967295,
    ;
}

proof fn lemma_sum_bound(i: int, acc: int, sq: int)
    requires
        0 <= i < 18446744073709551615,
        0 <= acc <= i * MAX_SQUARED_GAP,
        0 <= sq <= MAX_SQUARED_GAP,
    ensures
        acc + sq <= (i + 1) * MAX_SQUARED_GAP,
        (i + 1) * MAX_SQUARED_GAP <= u128::MAX,
{
    assert((i + 1) * MAX_SQUARED_GAP <= 18446744073709551615 * MAX_SQUARED_GAP) by (nonlinear_arith)
        requires
            0 <= i < 18446744073709551615,
    ;
    assert(acc + sq <= (i + 1) * MAX_SQUARED_GAP) by (nonlinear_arith)
        requires
            acc <= i * MAX_SQUARED_GAP,
            sq <= MAX_SQUARED_GAP,
    ;
}

/// Squared Euclidean distance between two points of one dimension, computed exactly.
pub fn squared_distance(a: &Vec<i32>, b: &Vec<i32>) -> (r: u128)
    requires
        a@.len() == b@.len(),
    ensures
        r as int == sq_dist(a@, b@),
{
    let mut acc: u128 = 0;
    let mut i: usize = 0;
    while i < a.len()
        invariant
            0 <= i <= a@.len(),
            a@.len() == b@.len(),
            acc as int == sq_dist_upto(a@, b@, i as int),
            acc as int <= i * MAX_SQUARED_GAP,
        decreases a@.len() - i,
    {
        let d: i64 = a[i] as i64 - b[i] as i64;
        proof {
            lemma_gap_square(d as int);
        }
        let sq: u128 = ((d as i128) * (d as i128)) as u128;
        proof {
            lemma_sum_bound(i as int, acc as int, sq as int);
        }
        acc = acc + sq;
        i = i + 1;
    }
    acc
}

/// The squared distance from every point of `pts` to `q`, by position.
pub fn distances_to(pts: &Vec<Vector>, q: &Vec<i32>) -> (r: Vec<u128>)
    requires
        forall|i: int| 0 <= i < pts@.len() ==> (#[trigger] pts@[i]).point@.len() == q@.len(),
    ensures
        as_ints(r@) == distances(vector_views(pts@), q@),
{
    let mut r: Vec<u128> = Vec::new();
    let mut i: usize = 0;
    while i < pts.len()
        invariant
            0 <= i <= pts@.len(),
            r@.len() == i,
            forall|j: int| 0 <= j < pts@.len() ==> (#[trigger] pts@[j]).point@.len() == q@.len(),
            forall|j: int| 0 <= j < i ==> #[trigger] r@[j] as int == sq_dist(pts@[j].point@, q@),
        decreases pts@.len() - i,
    {
        let d = squared_distance(&pts[i].point, q);
        r.push(d);
        i = i + 1;
    }
    assert(as_ints(r@) =~= distances(vector_views(pts@), q@));
    r
}

/// The position of the nearest point, or `None` when there is none.
pub fn nearest_position(ds: &Vec<u128>) -> (r: Option<usize>)
    ensures
        r is None <==> ds@.len() == 0,
        r is Some ==> is_nearest(as_ints(ds@), r->0 as int),
{
    if ds.len() == 0 {
        return None;
    }
    let ghost d = as_ints(ds@);
    let mut best: usize = 0;
    let mut j: usize = 1;
    while j < ds.len()
        invariant
            d == as_ints(ds@),
            0 <= best < j <= ds@.len(),
            forall|i: int| #![trigger d[i]] 0 <= i < j && i != best ==> ranks_before(d, best as int, i),
        decreases ds@.len() - j,
    {
        assert(d[j as int] == ds@[j as int] && d[best as int] == ds@[best as int]);
        if ds[j] < ds[best] {
            best = j;
        }
        j = j + 1;
    }
    Some(best)
}

/// Position `i` may come next in a ranking whose last position so far is `last`.
spec fn may_follow(d: Seq<int>, at_start: bool, last: int, i: int) -> bool {
    at_start || ranks_before(d, last, i)
}

proof fn lemma_some_position_missing(r: Seq<int>, n: int)
    requires
        0 <= r.len() < n,
    ensures
        exists|j: int| 0 <= j < n && !r.contains(j),
{
    if forall|j: int| 0 <= j < n ==> r.contains(j) {
        lemma_int_range(0, n);
        r.lemma_cardinality_of_set();
        assert(set_int_range(0, n).subset_of(r.to_set()));
        lemma_len_subset(set_int_range(0, n), r.to_set());
    }
}

/// The positions of the `min(k, n)` nearest points, nearest first; equal distances
/// keep storage order.
pub fn k_nearest_positions(ds: &Vec<u128>, k: usize) -> (r: Vec<usize>)
    ensures
        is_k_nearest(as_ints(ds@), k as int, positions(r@)),
{
    let ghost d = as_ints(ds@);
    let n = ds.len();
    let limit = if k < n {
        k
    } else {
        n
    };
    let mut r: Vec<usize> = Vec::new();
    let mut last: usize = 0;
    while r.len() < limit
        invariant
            d == as_ints(ds@),
            n == ds@.len(),
            limit == (if k < n { k } else { n }),
            r@.len() <= limit,
            forall|t: int| 0 <= t < r@.len() ==> (#[trigger] r@[t]) < n,
            forall|s: int, t: int|
                0 <= s < t < r@.len() ==> ranks_before(d, #[trigger] r@[s] as int, #[trigger] r@[t] as int),
            forall|j: int, t: int|
                #![trigger positions(r@).contains(j), r@[t]]
                0 <= j < n && !positions(r@).contains(j) && 0 <= t < r@.len() ==> ranks_before(
                    d,
                    r@[t] as int,
                    j,
                ),
            r@.len() > 0 ==> last == r@[r@.len() - 1],
        decreases limit - r@.len(),
    {
        let ghost before_all = r@.len() == 0;
        let mut best: Option<usize> = None;
        let mut j: usize = 0;
        while j < n
            invariant
                d == as_ints(ds@),
                n == ds@.len(),
                before_all == (r@.len() == 0),
                0 <= j <= n,
                last < n || before_all,
                best is Some ==> {
                    let b = best->0 as int;
                    &&& b < j
                    &&& may_follow(d, before_all, last as int, b)
                    &&& forall|i: int|
                        0 <= i < j && i != b && #[trigger] may_follow(d, before_all, last as int, i)
                            ==> ranks_before(d, b, i)
                },
                forall|i: int|
                    0 <= i < j && #[trigger] may_follow(d, before_all, last as int, i) ==> best is Some,
            decreases n - j,
        {
            assert(d[j as int] == ds@[j as int]);
            assert(before_all || d[last as int] == ds@[last as int]);
            let candidate = r.len() == 0 || ds[last] < ds[j] || (ds[last] == ds[j] && last < j);
            if candidate {
                match best {
                    None => {
                        best = Some(j);
                    },
                    Some(b) => {
                        assert(d[b as int] == ds@[b as int]);
                        if ds[j] < ds[b] {
                            best = Some(j);
                        }
                    },
                }
            }
            j = j + 1;
        }
        proof {
            lemma_some_position_missing(positions(r@), n as int);
            let m = choose|m: int| 0 <= m < n && !positions(r@).contains(m);
            if r@.len() > 0 {
                assert(ranks_before(d, r@[r@.len() - 1] as int, m));
            }
        }
        let b = match best {
            Some(b) => b,
            None => {
                proof {
                    let m = choose|m: int| 0 <= m < n && !positions(r@).contains(m);
                    assert(may_follow(d, before_all, last as int, m));
                }
                0
            },
        };
        let ghost old_r = r@;
        let ghost old_last = last as int;
        r.push(b);
        last = b;
        proof {
            assert forall|s: int, t: int| 0 <= s < t < r@.len() implies ranks_before(
                d,
                #[trigger] r@[s] as int,
                #[trigger] r@[t] as int,
            ) by {
                if t == r@.len() - 1 && s < t && old_r.len() > 0 {
                    if s < old_r.len() - 1 {
                        assert(ranks_before(d, old_r[s] as int, old_r[old_r.len() - 1] as int));
                    }
                }
            }
            assert forall|j: int, t: int|
                #![trigger positions(r@).contains(j), r@[t]]
                0 <= j < n && !positions(r@).contains(j) && 0 <= t < r@.len() implies ranks_before(
                d,
                r@[t] as int,
                j,
            ) by {
                assert(positions(r@) == positions(old_r).push(b as int));
                if !positions(old_r).contains(j) && j != b as int {
                    if old_r.len() > 0 {
                        assert(ranks_before(d, old_r[old_r.len() - 1] as int, j));
                    }
                    assert(may_follow(d, before_all, old_last, j));
                    if t < old_r.len() {
                        assert(r@[t] == old_r[t]);
                    }
                } else if positions(old_r).contains(j) {
                    let w = choose|w: int| 0 <= w < old_r.len() && positions(old_r)[w] == j;
                    assert(positions(r@)[w] == j);
                } else {
                    assert(positions(r@)[old_r.len() as int] == j);
                }
            }
        }
    }
    r
}

/// `nearest` and `k_nearest` answer a query at `q` over `pts` with `k` matches: the
/// text of the nearest point, and the texts of the `min(k, n)` nearest, nearest first.
pub open spec fn answers(
    pts: Seq<VectorView>,
    q: Seq<i32>,
    k: int,
    nearest: Seq<char>,
    k_nearest: Seq<Seq<char>>,
) -> bool {
    let ds = distances(pts, q);
    &&& exists|m: int| is_nearest(ds, m) && nearest == pts[m].code
    &&& exists|r: Seq<int>|
        is_k_nearest(ds, k, r) && k_nearest.len() == r.len() && forall|t: int|
            0 <= t < r.len() ==> #[trigger] k_nearest[t] == pts[r[t]].code
}

/// The answer to a similarity query.
#[derive(Clone, Debug, PartialEq, Eq)]
pub struct NearestVectors {
    /// The text of the nearest stored block.
    pub nearest: String,
    /// The texts of the nearest stored blocks, nearest first.
    pub k_nearest: Vec<String>,
}

/// A capability that turns texts into embedding vectors, such as a language model.
pub trait EmbeddingModel {
    /// Embeds a batch of texts: one vector per text, in order, in fixed-point
    /// coordinates; or `None` when the batch as a whole failed.
    fn embed(&self, texts: &Vec<String>) -> Option<Vec<Vec<i32>>>;
}

/// All points of `pts` have `dim` coordinates.
pub open spec fn all_of_dim(pts: Seq<Vector>, dim: nat) -> bool {
    forall|i: int| 0 <= i < pts.len() ==> (#[trigger] pts[i]).point@.len() == dim
}

/// A copy of a vector.
pub fn copy_vector(v: &Vector) -> (r: Vector)
    ensures
        r@ == v@,
{
    Vector { point: copy_coords(&v.point), code: v.code.clone() }
}

/// An exact nearest-neighbour index over a fixed set of points of one dimension.
/// It is built for one query and dropped after it.
pub struct Embeddings {
    pub vector_set: Vec<Vector>,
    pub dim: usize,
}

impl Embeddings {
    pub open spec fn wf(&self) -> bool {
        all_of_dim(self.vector_set@, self.dim as nat)
    }

    pub open spec fn points(&self) -> Seq<VectorView> {
        vector_views(self.vector_set@)
    }

    /// Pairs each text with its vector from the model's output. Fails with
    /// `EmbeddingFailure` when the model failed, or unless there is exactly one vector
    /// per text, each of `dim` coordinates.
    pub fn vectors_from_output(
        code_blocks: &Vec<String>,
        output: Option<Vec<Vec<i32>>>,
        dim: usize,
    ) -> (r: Result<Vec<Vector>, IndexError>)
        ensures
            r is Err ==> r == Err::<Vec<Vector>, IndexError>(IndexError::EmbeddingFailure),
            output is None ==> r is Err,
            output is Some ==> (r is Ok <==> (output->0@.len() == code_blocks@.len() && forall|i: int|
                0 <= i < output->0@.len() ==> (#[trigger] output->0@[i])@.len() == dim)),
            r is Ok ==> {
                let v = r->Ok_0@;
                &&& output is Some
                &&& v.len() == code_blocks@.len()
                &&& forall|i: int|
                    0 <= i < v.len() ==> (#[trigger] v[i])@ == (VectorView {
                        point: output->0@[i]@,
                        code: code_blocks@[i]@,
                    })
            },
    {
        let out = match output {
            Some(o) => o,
            None => {
                return Err(IndexError::EmbeddingFailure);
            },
        };
        if out.len() != code_blocks.len() {
            return Err(IndexError::EmbeddingFailure);
        }
        let mut r: Vec<Vector> = Vec::new();
        let mut i: usize = 0;
        while i < out.len()
            invariant
                output == Some(out),
                0 <= i <= out@.len(),
                out@.len() == code_blocks@.len(),
                r@.len() == i,
                forall|j: int| 0 <= j < i ==> (#[trigger] out@[j])@.len() == dim,
                forall|j: int|
                    0 <= j < i ==> (#[trigger] r@[j])@ == (VectorView {
                        point: out@[j]@,
                        code: code_blocks@[j]@,
                    }),
            decreases out@.len() - i,
        {
            if out[i].len() != dim {
                return Err(IndexError::EmbeddingFailure);
            }
            r.push(Vector { point: copy_coords(&out[i]), code: code_blocks[i].clone() });
            i = i + 1;
        }
        Ok(r)
    }

    /// Embeds a batch of texts with one call of the model. The result keeps the order
    /// and the length of the input; the batch succeeds or fails as a whole.
    pub fn generate_vector_set<M: EmbeddingModel>(model: &M, code_blocks: Vec<String>, dim: usize) -> (r:
        Result<Vec<Vector>, IndexError>)
        ensures
            r is Err ==> r == Err::<Vec<Vector>, IndexError>(IndexError::EmbeddingFailure),
            r is Ok ==> {
                let v = r->Ok_0@;
                &&& v.len() == code_blocks@.len()
                &&& forall|i: int|
                    0 <= i < v.len() ==> (#[trigger] v[i]).code@ == code_blocks@[i]@
                        && v[i].point@.len() == dim
            },
    {
        Self::vectors_from_output(&code_blocks, model.embed(&code_blocks), dim)
    }

    /// Embeds one text, as a batch of one.
    pub fn generate_code_vector<M: EmbeddingModel>(model: &M, code: String, dim: usize) -> (r:
        Result<Vector, IndexError>)
        ensures
            r is Err ==> r == Err::<Vector, IndexError>(IndexError::EmbeddingFailure),
            r is Ok ==> r->Ok_0.code@ == code@ && r->Ok_0.point@.len() == dim,
    {
        let batch = vec![code];
        let ghost text = batch@[0]@;
        let mut vs = Self::generate_vector_set(model, batch, dim)?;
        assert(vs@[0].code@ == text);
        match vs.pop() {
            Some(v) => Ok(v),
            None => Err(IndexError::EmbeddingFailure),
        }
    }

    /// Builds the index over `vector_set`.
    pub fn build(vector_set: Vec<Vector>, dim: usize) -> (r: Embeddings)
        requires
            all_of_dim(vector_set@, dim as nat),
        ensures
            r.wf(),
            r.vector_set@ == vector_set@,
            r.dim == dim,
    {
        Embeddings { vector_set, dim }
    }

    /// The point nearest to `query`; of equally near points, the one stored first.
    pub fn nearest(&self, query: &Vector) -> (r: Result<Vector, IndexError>)
        requires
            self.wf(),
            query.point@.len() == self.dim,
        ensures
            self.vector_set@.len() == 0 <==> r is Err,
            r is Err ==> r == Err::<Vector, IndexError>(IndexError::EmptyIndex),
            r is Ok ==> exists|m: int|
                is_nearest(distances(self.points(), query.point@), m) && r->Ok_0@
                    == #[trigger] self.points()[m],
    {
        let ds = distances_to(&self.vector_set, &query.point);
        assert(as_ints(ds@).len() == ds@.len());
        assert(self.points().len() == self.vector_set@.len());
        match nearest_position(&ds) {
            Some(m) => {
                let v = copy_vector(&self.vector_set[m]);
                assert(v@ == self.points()[m as int]);
                Ok(v)
            },
            None => Err(IndexError::EmptyIndex),
        }
    }

    /// The `min(k, n)` points nearest to `query`, nearest first; equally near points
    /// keep the order in which they were stored.
    pub fn k_nearest(&self, query: &Vector, k: usize) -> (r: Vec<Vector>)
        requires
            self.wf(),
            query.point@.len() == self.dim,
        ensures
            exists|p: Seq<int>|
                is_k_nearest(distances(self.points(), query.point@), k as int, p) && r@.len()
                    == p.len() && forall|t: int|
                    0 <= t < p.len() ==> (#[trigger] r@[t])@ == self.points()[p[t]],
    {
        let ds = distances_to(&self.vector_set, &query.point);
        let pos = k_nearest_positions(&ds, k);
        let ghost p = positions(pos@);
        let mut r: Vec<Vector> = Vec::new();
        let mut t: usize = 0;
        while t < pos.len()
            invariant
                p == positions(pos@),
                is_k_nearest(as_ints(ds@), k as int, p),
                as_ints(ds@) == distances(self.points(), query.point@),
                0 <= t <= pos@.len(),
                r@.len() == t,
                forall|u: int| 0 <= u < t ==> (#[trigger] r@[u])@ == self.points()[p[u]],
            decreases pos@.len() - t,
        {
            assert(p[t as int] == pos@[t as int]);
            r.push(copy_vector(&self.vector_set[pos[t]]));
            t = t + 1;
        }
        r
    }

    /// Answers a query at `query`: the text of the nearest point and the texts of the
    /// `matches` nearest. Fails with `EmptyIndex` when the index holds no point.
    pub fn query(&self, query: &Vector, matches: usize) -> (r: Result<NearestVectors, IndexError>)
        requires
            self.wf(),
            query.point@.len() == self.dim,
        ensures
            self.vector_set@.len() == 0 <==> r is Err,
            r is Err ==> r == Err::<NearestVectors, IndexError>(IndexError::EmptyIndex),
            r is Ok ==> answers(
                self.points(),
                query.point@,
                matches as int,
                r->Ok_0.nearest@,
                texts(r->Ok_0.k_nearest@),
            ),
    {
        let nearest = self.nearest(query)?;
        let near = self.k_nearest(query, matches);
        let mut k_nearest: Vec<String> = Vec::new();
        let mut t: usize = 0;
        while t < near.len()
            invariant
                0 <= t <= near@.len(),
                k_nearest@.len() == t,
                forall|u: int| 0 <= u < t ==> (#[trigger] k_nearest@[u])@ == near@[u].code@,
            decreases near@.len() - t,
        {
            k_nearest.push(near[t].code.clone());
            t = t + 1;
        }
        let r = NearestVectors { nearest: nearest.code, k_nearest };
        proof {
            let p = choose|p: Seq<int>|
                is_k_nearest(distances(self.points(), query.point@), matches as int, p)
                    && near@.len() == p.len() && forall|t: int|
                    0 <= t < p.len() ==> (#[trigger] near@[t])@ == self.points()[p[t]];
            assert forall|t: int| 0 <= t < p.len() implies #[trigger] texts(r.k_nearest@)[t]
                == self.points()[p[t]].code by {
                assert(near@[t]@ == self.points()[p[t]]);
            }
        }
        Ok(r)
    }

    /// Finds the stored texts most similar to `code`: embeds it with one call of the
    /// model, builds an index over `vector_set` and answers with `matches` matches.
    /// An empty set fails with `EmptyIndex` before the model is called.
    pub fn search<M: EmbeddingModel>(
        model: &M,
        vector_set: Vec<Vector>,
        code: String,
        matches: usize,
        dim: usize,
    ) -> (r: Result<NearestVectors, IndexError>)
        requires
            all_of_dim(vector_set@, dim as nat),
        ensures
            vector_set@.len() == 0 ==> r == Err::<NearestVectors, IndexError>(IndexError::EmptyIndex),
            vector_set@.len() > 0 ==> (r is Err ==> r == Err::<NearestVectors, IndexError>(
                IndexError::EmbeddingFailure,
            )),
            r is Ok ==> exists|q: Seq<i32>|
                q.len() == dim && answers(
                    vector_views(vector_set@),
                    q,
                    matches as int,
                    r->Ok_0.nearest@,
                    texts(r->Ok_0.k_nearest@),
                ),
    {
        if vector_set.len() == 0 {
            return Err(IndexError::EmptyIndex);
        }
        let query = Self::generate_code_vector(model, code, dim)?;
        let index = Self::build(vector_set, dim);
        let r = index.query(&query, matches);
        assert(r is Ok ==> answers(
            vector_views(vector_set@),
            query.point@,
            matches as int,
            r->Ok_0.nearest@,
            texts(r->Ok_0.k_nearest@),
        ));
        r
    }
}

} // verus!
