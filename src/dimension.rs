use vstd::prelude::*;

use crate::distance::{divergence, hierarchical, lemma_divergence_bounded};
use crate::error::{ConfigError, ShapeError};
use crate::kernel::{DepthCODEm, Exponential, Tricubic};
use crate::matrix::Matrix;

verus! {

/// The weighting policy of a dimension.
#[derive(Debug, Clone, Copy, PartialEq, Eq, Structural)]
pub enum DimensionKind {
    /// Each observation is weighted by the kernel of its distance.
    Generic,
    /// Kernel mass is spread evenly within each hierarchy-depth bucket.
    Categorical,
    /// The tricubic radius is recomputed for every query row.
    Adaptive,
}

/// A kernel with its parameters.
pub enum Kernel<R> {
    Exponential(Exponential<R>),
    Tricubic(Tricubic<R>),
    DepthCODEm(DepthCODEm<R>),
}

/// Observed (`data`) and query (`pred`) coordinates of one dimension, with
/// the same columns.
pub struct CoordsData<C> {
    data: Matrix<C>,
    pred: Matrix<C>,
}

impl<C> CoordsData<C> {
    #[verifier::type_invariant]
    spec fn inv(&self) -> bool {
        self.data.width() == self.pred.width()
    }

    /// The observed coordinates.
    pub closed spec fn spec_data(&self) -> Matrix<C> {
        self.data
    }

    /// The query coordinates.
    pub closed spec fn spec_pred(&self) -> Matrix<C> {
        self.pred
    }

    /// Pairs the two matrices; they must have the same number of columns.
    pub fn new(data: Matrix<C>, pred: Matrix<C>) -> (r: Result<Self, ShapeError>)
        ensures
            data.width() == pred.width() <==> r is Ok,
            r matches Ok(c) ==> c.spec_data() == data && c.spec_pred() == pred,
            r matches Err(e) ==> e == (ShapeError::ColumnCount {
                expected: data.width() as usize,
                found: pred.width() as usize,
            }),
    {
        let expected = data.ncols();
        let found = pred.ncols();
        if expected == found {
            Ok(CoordsData { data, pred })
        } else {
            Err(ShapeError::ColumnCount { expected, found })
        }
    }

    /// The observed coordinates.
    pub fn data(&self) -> (r: &Matrix<C>)
        ensures
            *r == self.spec_data(),
    {
        &self.data
    }

    /// The query coordinates.
    pub fn pred(&self) -> (r: &Matrix<C>)
        ensures
            *r == self.spec_pred(),
    {
        &self.pred
    }

    /// The number of columns that both matrices share.
    pub fn ncols(&self) -> (r: usize)
        ensures
            r == self.spec_data().width(),
            r == self.spec_pred().width(),
    {
        proof {
            use_type_invariant(self);
        }
        self.data.ncols()
    }
}

/// Coordinates of one dimension, continuous or hierarchical.
pub enum Coords<R> {
    Continuous(CoordsData<R>),
    Hierarchical(CoordsData<i32>),
}

/// A kernel together with the coordinates it weighs.
pub struct DimensionHandle<K, C> {
    pub kernel: K,
    pub coords: CoordsData<C>,
}

impl<K, C> DimensionHandle<K, C> {
    /// Binds a kernel to observed and query coordinates with the same
    /// columns.
    pub fn new(kernel: K, coord_data: Matrix<C>, coord_pred: Matrix<C>) -> (r: Result<
        Self,
        ShapeError,
    >)
        ensures
            coord_data.width() == coord_pred.width() <==> r is Ok,
            r matches Ok(h) ==> h.kernel == kernel && h.coords.spec_data() == coord_data
                && h.coords.spec_pred() == coord_pred,
            r matches Err(e) ==> e == (ShapeError::ColumnCount {
                expected: coord_data.width() as usize,
                found: coord_pred.width() as usize,
            }),
    {
        match CoordsData::new(coord_data, coord_pred) {
            Ok(coords) => Ok(DimensionHandle { kernel, coords }),
            Err(e) => Err(e),
        }
    }
}

/// The indices `j` with `dists[j] == d`, in increasing order.
pub open spec fn members(dists: Seq<i32>, d: int) -> Seq<usize>
    decreases dists.len(),
{
    if dists.len() == 0 {
        Seq::empty()
    } else {
        let rest = members(dists.drop_last(), d);
        if dists.last() == d {
            rest.push((dists.len() - 1) as usize)
        } else {
            rest
        }
    }
}

/// Position `j` is listed in the bucket of its own distance and in no other.
pub proof fn lemma_members_partition(dists: Seq<i32>, j: int, d: int)
    requires
        0 <= j < dists.len(),
        dists.len() <= usize::MAX,
    ensures
        members(dists, d).contains(j as usize) <==> dists[j] == d,
    decreases dists.len(),
{
    let n = dists.len();
    let rest = members(dists.drop_last(), d);
    let grown = rest.push((n - 1) as usize);
    lemma_members_below(dists.drop_last(), d);
    if j < n - 1 {
        lemma_members_partition(dists.drop_last(), j, d);
        if dists.last() == d {
            assert(grown.contains(j as usize) <==> rest.contains(j as usize)) by {
                if grown.contains(j as usize) {
                    let k = choose|k: int| 0 <= k < grown.len() && #[trigger] grown[k] == j as usize;
                    if k < rest.len() {
                        assert(rest[k] == j as usize);
                    } else {
                        assert(grown[k] == (n - 1) as usize);
                    }
                }
                if rest.contains(j as usize) {
                    let k = choose|k: int| 0 <= k < rest.len() && #[trigger] rest[k] == j as usize;
                    assert(grown[k] == j as usize);
                }
            }
        }
    } else {
        if dists.last() == d {
            assert(grown[rest.len() as int] == j as usize);
        } else {
            assert(!rest.contains(j as usize)) by {
                if rest.contains(j as usize) {
                    let k = choose|k: int| 0 <= k < rest.len() && #[trigger] rest[k] == j as usize;
                    assert(rest[k] < dists.drop_last().len());
                }
            }
        }
    }
}

proof fn lemma_members_below(dists: Seq<i32>, d: int)
    requires
        dists.len() <= usize::MAX,
    ensures
        forall|k: int|
            0 <= k < members(dists, d).len() ==> #[trigger] members(dists, d)[k] < dists.len(),
    decreases dists.len(),
{
    if dists.len() > 0 {
        let rest = members(dists.drop_last(), d);
        lemma_members_below(dists.drop_last(), d);
        assert forall|k: int| 0 <= k < members(dists, d).len() implies #[trigger] members(dists, d)[k]
            < dists.len() by {
            if k < rest.len() {
                assert(members(dists, d)[k] == rest[k]);
            }
        }
    }
}

/// Groups the positions of `dists` by value: bucket `d` lists, in
/// increasing order, every position whose distance is `d`, for each `d`
/// below `nbuckets`.
pub fn group_by_distance(dists: &[i32], nbuckets: usize) -> (r: Vec<Vec<usize>>)
    ensures
        r@.len() == nbuckets,
        forall|d: int| 0 <= d < nbuckets ==> (#[trigger] r@[d])@ == members(dists@, d),
{
    let n = dists.len();
    let mut r: Vec<Vec<usize>> = Vec::new();
    let mut d: usize = 0;
    while d < nbuckets
        invariant
            d <= nbuckets,
            n == dists@.len(),
            r@.len() == d,
            forall|e: int| 0 <= e < d ==> (#[trigger] r@[e])@ == members(dists@, e),
        decreases nbuckets - d,
    {
        let mut bucket: Vec<usize> = Vec::new();
        let mut j: usize = 0;
        while j < n
            invariant
                j <= n,
                n == dists@.len(),
                d < nbuckets,
                bucket@ == members(dists@.subrange(0, j as int), d as int),
            decreases n - j,
        {
            proof {
                assert(dists@.subrange(0, j + 1).drop_last() =~= dists@.subrange(0, j as int));
            }
            if dists[j] >= 0 && dists[j] as usize == d {
                bucket.push(j);
            }
            j += 1;
        }
        proof {
            assert(dists@.subrange(0, n as int) =~= dists@);
        }
        r.push(bucket);
        d += 1;
    }
    r
}

impl<K> DimensionHandle<K, i32> {
    /// The hierarchical distance from query row `i` to every observed row.
    pub fn distances(&self, i: usize) -> (r: Vec<i32>)
        requires
            i < self.coords.spec_pred().height(),
            self.coords.spec_pred().width() <= i32::MAX,
        ensures
            r@.len() == self.coords.spec_data().height(),
            forall|j: int|
                0 <= j < r@.len() ==> #[trigger] r@[j] == divergence(
                    self.coords.spec_pred().row_view(i as int),
                    self.coords.spec_data().row_view(j),
                ),
    {
        let data = self.coords.data();
        let x = self.coords.pred().row(i);
        let n = data.nrows();
        let mut r: Vec<i32> = Vec::new();
        let mut j: usize = 0;
        while j < n
            invariant
                *data == self.coords.spec_data(),
                x@ == self.coords.spec_pred().row_view(i as int),
                x@.len() <= i32::MAX,
                n == data.height(),
                j <= n,
                r@.len() == j,
                forall|k: int|
                    0 <= k < j ==> #[trigger] r@[k] == divergence(x@, data.row_view(k)),
            decreases n - j,
        {
            let y = data.row(j);
            r.push(hierarchical(x, y));
            j += 1;
        }
        r
    }

    /// The observed rows grouped by their hierarchical distance to query row
    /// `i`: bucket `d` lists the rows at distance `d`, for every distance
    /// from zero to the number of levels.
    pub fn buckets(&self, i: usize) -> (r: Vec<Vec<usize>>)
        requires
            i < self.coords.spec_pred().height(),
            self.coords.spec_pred().width() <= i32::MAX,
        ensures
            r@.len() == self.coords.spec_pred().width() + 1,
            forall|d: int|
                0 <= d < r@.len() ==> (#[trigger] r@[d])@ == members(
                    Seq::new(
                        self.coords.spec_data().height(),
                        |j: int|
                            divergence(
                                self.coords.spec_pred().row_view(i as int),
                                self.coords.spec_data().row_view(j),
                            ) as i32,
                    ),
                    d,
                ),
            forall|j: int|
                0 <= j < self.coords.spec_data().height() ==> r@[divergence(
                    self.coords.spec_pred().row_view(i as int),
                    #[trigger] self.coords.spec_data().row_view(j),
                ) as int]@.contains(j as usize),
    {
        let dists = self.distances(i);
        let n_data = dists.len();
        let x_row = self.coords.pred().row(i);
        let w = self.coords.ncols();
        let r = group_by_distance(dists.as_slice(), w + 1);
        proof {
            let x = self.coords.spec_pred().row_view(i as int);
            let expected = Seq::new(
                self.coords.spec_data().height(),
                |j: int| divergence(x, self.coords.spec_data().row_view(j)) as i32,
            );
            assert(dists@ =~= expected);
            assert forall|j: int| 0 <= j < self.coords.spec_data().height() implies r@[divergence(
                x,
                #[trigger] self.coords.spec_data().row_view(j),
            ) as int]@.contains(j as usize) by {
                let y = self.coords.spec_data().row_view(j);
                assert(x == x_row@ && dists@.len() == n_data);
                lemma_divergence_bounded(x, y);
                assert(dists@[j] == divergence(x, y));
                lemma_members_partition(dists@, j, divergence(x, y) as int);
            }
        }
        r
    }
}

/// One coordinate axis of the weave: a kernel, its coordinates and its
/// weighting policy, in one of the five combinations that go together.
pub enum Dimension<R> {
    GenericExponential(DimensionHandle<Exponential<R>, R>),
    GenericTricubic(DimensionHandle<Tricubic<R>, R>),
    GenericDepthCODEm(DimensionHandle<DepthCODEm<R>, i32>),
    CategoricalDepthCODEm(DimensionHandle<DepthCODEm<R>, i32>),
    AdaptiveTricubic(DimensionHandle<Tricubic<R>, R>),
}

/// Whether a policy, a kernel and a coordinate type go together: the
/// exponential and tricubic kernels read continuous coordinates, the
/// hierarchical kernel reads nested categories; only the hierarchical kernel
/// can be normalised by bucket, and only the tricubic one can adapt its
/// radius.
pub open spec fn valid_combination<R>(kind: DimensionKind, kernel: Kernel<R>, coords: Coords<R>) -> bool {
    match kernel {
        Kernel::Exponential(_) => kind == DimensionKind::Generic && coords is Continuous,
        Kernel::Tricubic(_) => (kind == DimensionKind::Generic || kind == DimensionKind::Adaptive)
            && coords is Continuous,
        Kernel::DepthCODEm(_) => (kind == DimensionKind::Generic || kind
            == DimensionKind::Categorical) && coords is Hierarchical,
    }
}

impl<R> Dimension<R> {
    /// The weighting policy.
    pub open spec fn kind_of(&self) -> DimensionKind {
        match self {
            Dimension::GenericExponential(_) => DimensionKind::Generic,
            Dimension::GenericTricubic(_) => DimensionKind::Generic,
            Dimension::GenericDepthCODEm(_) => DimensionKind::Generic,
            Dimension::CategoricalDepthCODEm(_) => DimensionKind::Categorical,
            Dimension::AdaptiveTricubic(_) => DimensionKind::Adaptive,
        }
    }

    /// The kernel.
    pub open spec fn kernel_of(&self) -> Kernel<R> {
        match self {
            Dimension::GenericExponential(h) => Kernel::Exponential(h.kernel),
            Dimension::GenericTricubic(h) => Kernel::Tricubic(h.kernel),
            Dimension::GenericDepthCODEm(h) => Kernel::DepthCODEm(h.kernel),
            Dimension::CategoricalDepthCODEm(h) => Kernel::DepthCODEm(h.kernel),
            Dimension::AdaptiveTricubic(h) => Kernel::Tricubic(h.kernel),
        }
    }

    /// The coordinates.
    pub open spec fn coords_of(&self) -> Coords<R> {
        match self {
            Dimension::GenericExponential(h) => Coords::Continuous(h.coords),
            Dimension::GenericTricubic(h) => Coords::Continuous(h.coords),
            Dimension::GenericDepthCODEm(h) => Coords::Hierarchical(h.coords),
            Dimension::CategoricalDepthCODEm(h) => Coords::Hierarchical(h.coords),
            Dimension::AdaptiveTricubic(h) => Coords::Continuous(h.coords),
        }
    }

    /// The number of observed rows.
    pub open spec fn data_rows(&self) -> nat {
        match self.coords_of() {
            Coords::Continuous(c) => c.spec_data().height(),
            Coords::Hierarchical(c) => c.spec_data().height(),
        }
    }

    /// The number of query rows.
    pub open spec fn pred_rows(&self) -> nat {
        match self.coords_of() {
            Coords::Continuous(c) => c.spec_pred().height(),
            Coords::Hierarchical(c) => c.spec_pred().height(),
        }
    }

    /// Assembles a dimension; fails unless the policy, the kernel and the
    /// coordinate type go together.
    pub fn from_parts(kind: DimensionKind, kernel: Kernel<R>, coords: Coords<R>) -> (r: Result<
        Self,
        ConfigError,
    >)
        ensures
            valid_combination(kind, kernel, coords) <==> r is Ok,
            r matches Ok(d) ==> d.kind_of() == kind && d.kernel_of() == kernel && d.coords_of()
                == coords,
            r matches Err(e) ==> e == ConfigError::InvalidCombination,
    {
        match (kind, kernel, coords) {
            (DimensionKind::Generic, Kernel::Exponential(k), Coords::Continuous(c)) => Ok(
                Dimension::GenericExponential(DimensionHandle { kernel: k, coords: c }),
            ),
            (DimensionKind::Generic, Kernel::Tricubic(k), Coords::Continuous(c)) => Ok(
                Dimension::GenericTricubic(DimensionHandle { kernel: k, coords: c }),
            ),
            (DimensionKind::Generic, Kernel::DepthCODEm(k), Coords::Hierarchical(c)) => Ok(
                Dimension::GenericDepthCODEm(DimensionHandle { kernel: k, coords: c }),
            ),
            (DimensionKind::Categorical, Kernel::DepthCODEm(k), Coords::Hierarchical(c)) => Ok(
                Dimension::CategoricalDepthCODEm(DimensionHandle { kernel: k, coords: c }),
            ),
            (DimensionKind::Adaptive, Kernel::Tricubic(k), Coords::Continuous(c)) => Ok(
                Dimension::AdaptiveTricubic(DimensionHandle { kernel: k, coords: c }),
            ),
            _ => Err(ConfigError::InvalidCombination),
        }
    }

    /// The weighting policy.
    pub fn kind(&self) -> (r: DimensionKind)
        ensures
            r == self.kind_of(),
    {
        match self {
            Dimension::GenericExponential(_) => DimensionKind::Generic,
            Dimension::GenericTricubic(_) => DimensionKind::Generic,
            Dimension::GenericDepthCODEm(_) => DimensionKind::Generic,
            Dimension::CategoricalDepthCODEm(_) => DimensionKind::Categorical,
            Dimension::AdaptiveTricubic(_) => DimensionKind::Adaptive,
        }
    }

    /// The number of observed and of query rows.
    pub fn lens(&self) -> (r: (usize, usize))
        ensures
            r.0 == self.data_rows(),
            r.1 == self.pred_rows(),
    {
        match self {
            Dimension::GenericExponential(h) => (h.coords.data().nrows(), h.coords.pred().nrows()),
            Dimension::GenericTricubic(h) => (h.coords.data().nrows(), h.coords.pred().nrows()),
            Dimension::GenericDepthCODEm(h) => (h.coords.data().nrows(), h.coords.pred().nrows()),
            Dimension::CategoricalDepthCODEm(h) => (
                h.coords.data().nrows(),
                h.coords.pred().nrows(),
            ),
            Dimension::AdaptiveTricubic(h) => (h.coords.data().nrows(), h.coords.pred().nrows()),
        }
    }
}

} // verus!
