use vstd::prelude::*;
use vstd::arithmetic::div_mod::*;
use vstd::arithmetic::mul::*;
use crate::error::ConfigError;

verus! {

/// The product of the entries of `dims`; 1 for the empty sequence.
pub open spec fn product(dims: Seq<int>) -> int
    decreases dims.len(),
{
    if dims.len() == 0 {
        1
    } else {
        product(dims.drop_last()) * dims.last()
    }
}

/// Every dimension has at least one bin.
pub open spec fn positive(dims: Seq<int>) -> bool {
    forall|d: int| 0 <= d < dims.len() ==> dims[d] > 0
}

/// The number of flattened bins that lie between two neighbours along
/// dimension `d`: the product of the bin counts of all later dimensions.
/// In row-major order the last dimension has stride 1.
pub open spec fn stride(dims: Seq<int>, d: int) -> int {
    product(dims.skip(d + 1))
}

/// The bin index along dimension `d` of the flattened bin `bin`.
pub open spec fn coordinate(dims: Seq<int>, bin: int, d: int) -> int {
    (bin / stride(dims, d)) % dims[d]
}

/// The per-dimension bin indices of the flattened bin `bin`.
pub open spec fn expand(dims: Seq<int>, bin: int) -> Seq<int> {
    Seq::new(dims.len(), |d: int| coordinate(dims, bin, d))
}

/// `idx` names one bin of the grid: one index per dimension, each below the
/// bin count of its dimension.
pub open spec fn within(dims: Seq<int>, idx: Seq<int>) -> bool {
    &&& idx.len() == dims.len()
    &&& forall|d: int| 0 <= d < dims.len() ==> 0 <= #[trigger] idx[d] < dims[d]
}

/// The sum of `idx[d] * stride(dims, d)` over the dimensions `d >= from`.
pub open spec fn weighted_from(dims: Seq<int>, idx: Seq<int>, from: int) -> int
    decreases dims.len() - from,
{
    if from < 0 || from >= dims.len() {
        0
    } else {
        idx[from] * stride(dims, from) + weighted_from(dims, idx, from + 1)
    }
}

/// The flattened index of the bin with per-dimension indices `idx`.
pub open spec fn flatten(dims: Seq<int>, idx: Seq<int>) -> int {
    weighted_from(dims, idx, 0)
}

/// The entries of a sequence of machine integers as mathematical integers.
pub open spec fn as_ints(s: Seq<usize>) -> Seq<int> {
    Seq::new(s.len(), |i: int| s[i] as int)
}

/// Bin counts that describe a grid this library can index: at least one
/// dimension, no empty dimension, and a total that fits `usize`.
pub open spec fn admissible(dims: Seq<int>) -> bool {
    &&& dims.len() >= 1
    &&& positive(dims)
    &&& product(dims) <= usize::MAX
}

/// `fault` is what is wrong with `dims`. An empty list is reported first,
/// then the first dimension without bins, then a total beyond `usize`; no
/// other fault is ever reported for a list of bin counts.
pub open spec fn grid_fault(dims: Seq<int>, fault: ConfigError) -> bool {
    match fault {
        ConfigError::NoDimensions => dims.len() == 0,
        ConfigError::ZeroBins { dim } => {
            &&& dim < dims.len()
            &&& dims[dim as int] <= 0
            &&& forall|k: int| 0 <= k < dim ==> dims[k] > 0
        },
        ConfigError::TooManyBins => {
            &&& dims.len() >= 1
            &&& positive(dims)
            &&& product(dims) > usize::MAX
        },
        _ => false,
    }
}

/// Multiplying a list of bin counts by one more count.
pub proof fn lemma_product_push(dims: Seq<int>, last: int)
    ensures
        product(dims.push(last)) == product(dims) * last,
{
    assert(dims.push(last).drop_last() =~= dims);
}

/// The product of a concatenation is the product of the products.
pub proof fn lemma_product_concat(a: Seq<int>, b: Seq<int>)
    ensures
        product(a + b) == product(a) * product(b),
    decreases b.len(),
{
    if b.len() == 0 {
        assert(a + b =~= a);
    } else {
        lemma_product_concat(a, b.drop_last());
        assert((a + b).drop_last() =~= a + b.drop_last());
        assert(product(a + b) == product(a) * product(b.drop_last()) * b.last());
        lemma_mul_is_associative(product(a), product(b.drop_last()), b.last());
    }
}

/// A grid without an empty dimension has at least one bin.
pub proof fn lemma_product_positive(dims: Seq<int>)
    requires
        positive(dims),
    ensures
        product(dims) >= 1,
    decreases dims.len(),
{
    if dims.len() > 0 {
        lemma_product_positive(dims.drop_last());
        lemma_mul_strictly_positive(product(dims.drop_last()), dims.last());
    }
}

/// The leading dimensions alone never hold more bins than the whole grid,
/// and the bins of the whole grid are those of the leading dimensions times
/// those of the rest.
pub proof fn lemma_product_split(dims: Seq<int>, d: int)
    requires
        positive(dims),
        0 <= d <= dims.len(),
    ensures
        product(dims) == product(dims.take(d)) * product(dims.skip(d)),
        1 <= product(dims.take(d)) <= product(dims),
        1 <= product(dims.skip(d)) <= product(dims),
{
    assert(dims =~= dims.take(d) + dims.skip(d));
    lemma_product_concat(dims.take(d), dims.skip(d));
    lemma_product_positive(dims.take(d));
    lemma_product_positive(dims.skip(d));
    let p = product(dims.take(d));
    let q = product(dims.skip(d));
    assert(p <= p * q && q <= p * q) by (nonlinear_arith)
        requires
            p >= 1,
            q >= 1,
    ;
}

/// The bins of the dimensions from `d` on are those of dimension `d` times
/// those of the dimensions after it.
pub proof fn lemma_product_front(dims: Seq<int>, d: int)
    requires
        0 <= d < dims.len(),
    ensures
        product(dims.skip(d)) == dims[d] * product(dims.skip(d + 1)),
{
    let head = Seq::<int>::empty().push(dims[d]);
    assert(dims.skip(d) =~= head + dims.skip(d + 1));
    lemma_product_concat(head, dims.skip(d + 1));
    lemma_product_push(Seq::<int>::empty(), dims[d]);
}

/// A grid of bins over one or more dimensions, flattened in row-major order.
///
/// The value carries its own invariant: there is at least one dimension, no
/// dimension is empty, and the total number of bins fits `usize`.
#[derive(Debug)]
pub struct BinGrid {
    per_dim: Vec<usize>,
    total: usize,
}

impl View for BinGrid {
    type V = Seq<int>;

    /// The bin count of each dimension.
    closed spec fn view(&self) -> Seq<int> {
        as_ints(self.per_dim@)
    }
}

impl BinGrid {
    #[verifier::type_invariant]
    closed spec fn inv(&self) -> bool {
        &&& admissible(self@)
        &&& self.total == product(self@)
    }

    /// Builds the grid with the given number of bins along each dimension.
    ///
    /// Fails, and says why, unless the list is `admissible`.
    pub fn new(num_bins_per_dim: Vec<usize>) -> (r: Result<BinGrid, ConfigError>)
        ensures
            r is Ok <==> admissible(as_ints(num_bins_per_dim@)),
            r matches Ok(g) ==> g@ == as_ints(num_bins_per_dim@),
            r matches Err(e) ==> grid_fault(as_ints(num_bins_per_dim@), e),
    {
        let ghost dims = as_ints(num_bins_per_dim@);
        let n: usize = num_bins_per_dim.len();
        if n == 0 {
            return Err(ConfigError::NoDimensions);
        }
        let mut d: usize = 0;
        while d < n
            invariant
                n == num_bins_per_dim.len(),
                dims == as_ints(num_bins_per_dim@),
                d <= n,
                forall|k: int| 0 <= k < d ==> dims[k] > 0,
            decreases n - d,
        {
            if num_bins_per_dim[d] == 0 {
                assert(dims[d as int] == 0);
                return Err(ConfigError::ZeroBins { dim: d });
            }
            d += 1;
        }
        let mut total: usize = 1;
        let mut d: usize = 0;
        assert(dims.take(0) =~= Seq::<int>::empty());
        while d < n
            invariant
                n == num_bins_per_dim.len(),
                dims == as_ints(num_bins_per_dim@),
                d <= n,
                positive(dims),
                total == product(dims.take(d as int)),
            decreases n - d,
        {
            proof {
                assert(dims.take(d + 1) =~= dims.take(d as int).push(dims[d as int]));
                lemma_product_push(dims.take(d as int), dims[d as int]);
                lemma_product_split(dims, d + 1);
            }
            match total.checked_mul(num_bins_per_dim[d]) {
                Some(t) => {
                    total = t;
                },
                None => {
                    return Err(ConfigError::TooManyBins);
                },
            }
            d += 1;
        }
        assert(dims.take(n as int) =~= dims);
        Ok(BinGrid { per_dim: num_bins_per_dim, total })
    }

    /// The per-dimension bin indices of the flattened bin `bin`, or `None`
    /// if the grid has no such bin.
    pub fn expand_index(&self, bin: usize) -> (r: Option<Vec<usize>>)
        ensures
            r is Some <==> bin < product(self@),
            r matches Some(idx) ==> as_ints(idx@) == expand(self@, bin as int),
    {
        proof {
            use_type_invariant(self);
        }
        if bin >= self.total {
            return None;
        }
        let ghost dims = self@;
        let n: usize = self.per_dim.len();
        let mut idx: Vec<usize> = vec![0usize; n];
        let mut rest: usize = bin;
        let mut d: usize = n;
        assert(dims.skip(n as int) =~= Seq::<int>::empty());
        while d > 0
            invariant
                dims == as_ints(self.per_dim@),
                n == dims.len(),
                positive(dims),
                idx.len() == n,
                d <= n,
                rest == bin as int / product(dims.skip(d as int)),
                forall|k: int| d <= k < n ==> idx[k] == coordinate(dims, bin as int, k),
            decreases d,
        {
            d -= 1;
            let m: usize = self.per_dim[d];
            proof {
                lemma_product_front(dims, d as int);
                lemma_product_split(dims, d + 1);
                lemma_div_denominator(bin as int, product(dims.skip(d + 1)), m as int);
                lemma_mul_is_commutative(product(dims.skip(d + 1)), m as int);
            }
            idx.set(d, rest % m);
            rest = rest / m;
        }
        assert(as_ints(idx@) =~= expand(dims, bin as int));
        Some(idx)
    }

    /// The flattened index of the bin with the given per-dimension indices,
    /// or `None` unless there is one index per dimension and each is below
    /// the bin count of its dimension.
    pub fn flatten_index(&self, indices: &[usize]) -> (r: Option<usize>)
        ensures
            r is Some <==> within(self@, as_ints(indices@)),
            r matches Some(bin) ==> bin == flatten(self@, as_ints(indices@)) && bin < product(self@),
    {
        proof {
            use_type_invariant(self);
        }
        let ghost dims = self@;
        let ghost idx = as_ints(indices@);
        let n: usize = self.per_dim.len();
        if indices.len() != n {
            return None;
        }
        let mut flat: usize = 0;
        let mut step: usize = 1;
        let mut d: usize = n;
        assert(dims.skip(n as int) =~= Seq::<int>::empty());
        while d > 0
            invariant
                dims == as_ints(self.per_dim@),
                idx == as_ints(indices@),
                n == dims.len(),
                n == idx.len(),
                positive(dims),
                product(dims) <= usize::MAX,
                d <= n,
                step == product(dims.skip(d as int)),
                flat == weighted_from(dims, idx, d as int),
                flat < step,
                forall|k: int| d <= k < n ==> 0 <= #[trigger] idx[k] < dims[k],
            decreases d,
        {
            d -= 1;
            let i: usize = indices[d];
            let m: usize = self.per_dim[d];
            if i >= m {
                assert(!(idx[d as int] < dims[d as int]));
                return None;
            }
            proof {
                lemma_product_front(dims, d as int);
                lemma_product_split(dims, d as int);
                assert(flat + i * step < m * step && i * step >= 0) by (nonlinear_arith)
                    requires
                        0 <= flat < step,
                        0 <= i < m,
                ;
            }
            flat = flat + i * step;
            step = step * m;
        }
        assert(dims.skip(0) =~= dims);
        Some(flat)
    }

    /// The number of coordinate dimensions.
    pub fn dimens(&self) -> (r: usize)
        ensures
            r == self@.len(),
            r >= 1,
    {
        proof {
            use_type_invariant(self);
        }
        self.per_dim.len()
    }

    /// The total number of bins, over all dimensions.
    pub fn num_bins(&self) -> (r: usize)
        ensures
            r == product(self@),
            r >= 1,
    {
        proof {
            use_type_invariant(self);
            lemma_product_positive(self@);
        }
        self.total
    }

    /// The number of bins along each dimension.
    pub fn num_bins_per_dim(&self) -> (r: &Vec<usize>)
        ensures
            as_ints(r@) == self@,
            admissible(self@),
    {
        proof {
            use_type_invariant(self);
        }
        &self.per_dim
    }
}

/// The flattened index built dimension by dimension, first dimension first:
/// the value after the first `k` dimensions have been folded in.
pub open spec fn folded(dims: Seq<int>, idx: Seq<int>, k: int) -> int
    decreases k,
{
    if k <= 0 {
        0
    } else {
        folded(dims, idx, k - 1) * dims[k - 1] + idx[k - 1]
    }
}

/// Row-major order: the last dimension has stride 1, and the stride of any
/// other dimension is the stride of the next one times its bin count.
pub proof fn lemma_stride_row_major(dims: Seq<int>, d: int)
    requires
        0 <= d < dims.len(),
    ensures
        d == dims.len() - 1 ==> stride(dims, d) == 1,
        d < dims.len() - 1 ==> stride(dims, d) == dims[d + 1] * stride(dims, d + 1),
{
    if d == dims.len() - 1 {
        assert(dims.skip(d + 1) =~= Seq::<int>::empty());
    } else {
        lemma_product_front(dims, d + 1);
    }
}

/// Every flattened bin expands to indices that lie within the grid.
pub proof fn lemma_expand_within(dims: Seq<int>, bin: int)
    requires
        positive(dims),
    ensures
        within(dims, expand(dims, bin)),
{
    assert forall|d: int| 0 <= d < dims.len() implies 0 <= #[trigger] expand(dims, bin)[d]
        < dims[d] by {
        lemma_mod_bound(bin / stride(dims, d), dims[d]);
    }
}

/// The part of a flattened index that the dimensions from `from` on
/// contribute is below the number of bins of those dimensions.
pub proof fn lemma_weighted_bounds(dims: Seq<int>, idx: Seq<int>, from: int)
    requires
        positive(dims),
        within(dims, idx),
        0 <= from <= dims.len(),
    ensures
        0 <= weighted_from(dims, idx, from) < product(dims.skip(from)),
    decreases dims.len() - from,
{
    if from == dims.len() {
        assert(dims.skip(from) =~= Seq::<int>::empty());
    } else {
        lemma_weighted_bounds(dims, idx, from + 1);
        lemma_product_front(dims, from);
        let i = idx[from];
        let m = dims[from];
        let s = stride(dims, from);
        let rest = weighted_from(dims, idx, from + 1);
        assert(0 <= i * s + rest < m * s) by (nonlinear_arith)
            requires
                0 <= i < m,
                0 <= rest < s,
        ;
    }
}

/// Indices within the grid flatten to a bin of the grid.
pub proof fn lemma_flatten_bounds(dims: Seq<int>, idx: Seq<int>)
    requires
        positive(dims),
        within(dims, idx),
    ensures
        0 <= flatten(dims, idx) < product(dims),
{
    lemma_weighted_bounds(dims, idx, 0);
    assert(dims.skip(0) =~= dims);
}

proof fn lemma_weighted_of_expand(dims: Seq<int>, bin: int, from: int)
    requires
        positive(dims),
        0 <= bin,
        0 <= from <= dims.len(),
    ensures
        product(dims.skip(from)) > 0,
        weighted_from(dims, expand(dims, bin), from) == bin % product(dims.skip(from)),
    decreases dims.len() - from,
{
    lemma_product_split(dims, from);
    if from == dims.len() {
        assert(dims.skip(from) =~= Seq::<int>::empty());
    } else {
        lemma_weighted_of_expand(dims, bin, from + 1);
        lemma_product_front(dims, from);
        let s = stride(dims, from);
        let m = dims[from];
        lemma_mod_breakdown(bin, s, m);
        lemma_mul_is_commutative(s, m);
        lemma_mul_is_commutative(s, (bin / s) % m);
    }
}

/// Expanding a bin of the grid and flattening the indices gives the bin back.
pub proof fn lemma_flatten_expand(dims: Seq<int>, bin: int)
    requires
        positive(dims),
        0 <= bin < product(dims),
    ensures
        flatten(dims, expand(dims, bin)) == bin,
{
    lemma_weighted_of_expand(dims, bin, 0);
    assert(dims.skip(0) =~= dims);
    lemma_small_mod(bin as nat, product(dims) as nat);
}

/// A flattened index is what the first `k` dimensions fold to, scaled by the
/// bins of the remaining dimensions, plus what those contribute.
pub proof fn lemma_flatten_split(dims: Seq<int>, idx: Seq<int>, k: int)
    requires
        idx.len() == dims.len(),
        0 <= k <= dims.len(),
    ensures
        flatten(dims, idx) == folded(dims, idx, k) * product(dims.skip(k)) + weighted_from(
            dims,
            idx,
            k,
        ),
    decreases k,
{
    if k > 0 {
        lemma_flatten_split(dims, idx, k - 1);
        lemma_product_front(dims, k - 1);
        let h = folded(dims, idx, k - 1);
        let m = dims[k - 1];
        let i = idx[k - 1];
        let s = product(dims.skip(k));
        assert(h * (m * s) + i * s == (h * m + i) * s) by (nonlinear_arith);
    }
}

/// Summing index times stride over the dimensions and folding the indices in
/// one dimension after the other give the same flattened index.
pub proof fn lemma_flatten_is_folded(dims: Seq<int>, idx: Seq<int>)
    requires
        idx.len() == dims.len(),
    ensures
        flatten(dims, idx) == folded(dims, idx, dims.len() as int),
{
    lemma_flatten_split(dims, idx, dims.len() as int);
    assert(dims.skip(dims.len() as int) =~= Seq::<int>::empty());
}

/// Flattening indices within the grid and expanding the bin gives the
/// indices back.
pub proof fn lemma_expand_flatten(dims: Seq<int>, idx: Seq<int>)
    requires
        positive(dims),
        within(dims, idx),
    ensures
        expand(dims, flatten(dims, idx)) == idx,
{
    let flat = flatten(dims, idx);
    assert forall|d: int| 0 <= d < dims.len() implies coordinate(dims, flat, d) == idx[d] by {
        lemma_flatten_split(dims, idx, d + 1);
        lemma_weighted_bounds(dims, idx, d + 1);
        let s = stride(dims, d);
        lemma_fundamental_div_mod_converse(
            flat,
            s,
            folded(dims, idx, d + 1),
            weighted_from(dims, idx, d + 1),
        );
        lemma_fundamental_div_mod_converse(
            folded(dims, idx, d + 1),
            dims[d],
            folded(dims, idx, d),
            idx[d],
        );
    }
    assert(expand(dims, flat) =~= idx);
}

/// Two bins of the grid with the same per-dimension indices are the same bin.
pub proof fn lemma_expand_injective(dims: Seq<int>, a: int, b: int)
    requires
        positive(dims),
        0 <= a < product(dims),
        0 <= b < product(dims),
        expand(dims, a) == expand(dims, b),
    ensures
        a == b,
{
    lemma_flatten_expand(dims, a);
    lemma_flatten_expand(dims, b);
}

} // verus!

