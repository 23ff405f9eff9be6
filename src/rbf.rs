use vstd::prelude::*;

use crate::builder::{is_augmented_system, RBFInterpolatorBuilder, RbfError, SystemShape};

verus! {

/// A fitted model: its kernel, the structural parameters, the `N` sample
/// points of dimension `D` and the `N + M` weights, the first `N` for the
/// kernel terms and the last `M` for the monomial terms.
pub struct RBFInterpolator<T> {
    kernel: RBFInterpolatorBuilder<T>,
    shape: SystemShape,
    points: Vec<Vec<T>>,
    weights: Vec<T>,
}

impl<T> RBFInterpolator<T> {
    #[verifier::type_invariant]
    spec fn inv(self) -> bool {
        &&& self.points.len() == self.shape.spec_points()
        &&& forall|i: int|
            0 <= i < self.points.len() ==> #[trigger] self.points[i].len() == self.shape.spec_dim()
        &&& self.weights.len() == self.shape.spec_size()
    }

    pub closed spec fn spec_kernel(self) -> RBFInterpolatorBuilder<T> {
        self.kernel
    }

    pub closed spec fn spec_shape(self) -> SystemShape {
        self.shape
    }

    pub closed spec fn spec_points(self) -> Seq<Vec<T>> {
        self.points@
    }

    pub closed spec fn spec_weights(self) -> Seq<T> {
        self.weights@
    }

    /// Builds the model from the solution of the augmented system, as a
    /// solver handed it back: `None` where the system was singular.
    pub fn from_solution(
        kernel: RBFInterpolatorBuilder<T>,
        shape: SystemShape,
        points: Vec<Vec<T>>,
        solution: Option<Vec<T>>,
    ) -> (r: Result<Self, RbfError>)
        ensures
            !(points.len() == shape.spec_points() && forall|i: int|
                0 <= i < points.len() ==> #[trigger] points[i].len() == shape.spec_dim())
                ==> r == Err::<Self, RbfError>(RbfError::DimensionMismatch),
            (points.len() == shape.spec_points() && forall|i: int|
                0 <= i < points.len() ==> #[trigger] points[i].len() == shape.spec_dim()) ==> match solution {
                Some(w) => if w.len() == shape.spec_size() {
                    r matches Ok(f) && f.spec_kernel() == kernel && f.spec_shape() == shape
                        && f.spec_points() == points@ && f.spec_weights() == w@
                } else {
                    r == Err::<Self, RbfError>(RbfError::SingularSystem)
                },
                None => r == Err::<Self, RbfError>(RbfError::SingularSystem),
            },
    {
        if points.len() != shape.points() {
            return Err(RbfError::DimensionMismatch);
        }
        let dim = shape.dim();
        let mut i: usize = 0;
        while i < points.len()
            invariant
                dim == shape.spec_dim(),
                i <= points.len(),
                forall|k: int| 0 <= k < i ==> #[trigger] points[k].len() == dim,
            decreases points.len() - i,
        {
            if points[i].len() != dim {
                return Err(RbfError::DimensionMismatch);
            }
            i = i + 1;
        }
        match solution {
            Some(weights) => {
                if weights.len() != shape.size() {
                    return Err(RbfError::SingularSystem);
                }
                Ok(RBFInterpolator { kernel, shape, points, weights })
            },
            None => Err(RbfError::SingularSystem),
        }
    }

    /// The kernel of the model.
    pub fn kernel(&self) -> (r: &RBFInterpolatorBuilder<T>)
        ensures
            *r == self.spec_kernel(),
    {
        &self.kernel
    }

    /// The structural parameters of the model.
    pub fn shape(&self) -> (r: &SystemShape)
        ensures
            *r == self.spec_shape(),
    {
        &self.shape
    }

    /// The `N` sample points, each of dimension `D`.
    pub fn points(&self) -> (r: &Vec<Vec<T>>)
        ensures
            r@ == self.spec_points(),
            r.len() == self.spec_shape().spec_points(),
            forall|i: int| 0 <= i < r.len() ==> #[trigger] r[i].len() == self.spec_shape().spec_dim(),
    {
        proof {
            use_type_invariant(self);
        }
        &self.points
    }

    /// The `N + M` weights: the kernel terms first, then the monomial terms.
    pub fn weights(&self) -> (r: &Vec<T>)
        ensures
            r@ == self.spec_weights(),
            r.len() == self.spec_shape().spec_size(),
    {
        proof {
            use_type_invariant(self);
        }
        &self.weights
    }
}

impl<T: Copy> RBFInterpolator<T> {
    /// The `N + M` basis functions of the model at `query`, in the order of
    /// the weights: `kernel_between(points[i], query)` for each sample point,
    /// then `monomial_at(query, exponents[k])` for each monomial. The model's
    /// estimate at `query` is their sum weighted by `weights()`.
    pub fn basis_at<K, G>(&self, query: &Vec<T>, kernel_between: K, monomial_at: G) -> (r: Result<
        Vec<T>,
        RbfError,
    >)
        where
            K: Fn(&Vec<T>, &Vec<T>) -> T,
            G: Fn(&Vec<T>, &Vec<u32>) -> T,
        requires
            forall|p: &Vec<T>, q: &Vec<T>| #[trigger] kernel_between.requires((p, q)),
            forall|p: &Vec<T>, e: &Vec<u32>| #[trigger] monomial_at.requires((p, e)),
        ensures
            r is Err <==> query.len() != self.spec_shape().spec_dim(),
            r is Err ==> r == Err::<Vec<T>, RbfError>(RbfError::DimensionMismatch),
            r matches Ok(t) ==> is_basis_at(
                self.spec_points(),
                self.spec_shape().spec_exponents(),
                *query,
                kernel_between,
                monomial_at,
                t@,
            ),
    {
        proof {
            use_type_invariant(self);
        }
        match self.shape.check_query(query) {
            Ok(_) => {},
            Err(e) => return Err(e),
        }
        let exponents = self.shape.exponents();
        let n = self.points.len();
        let m = exponents.len();
        let mut t: Vec<T> = Vec::new();
        let mut i: usize = 0;
        while i < n
            invariant
                n == self.points.len(),
                i <= n,
                t.len() == i,
                forall|p: &Vec<T>, q: &Vec<T>| #[trigger] kernel_between.requires((p, q)),
                forall|x: int|
                    0 <= x < i ==> kernel_between.ensures((&self.points[x], query), #[trigger] t[x]),
            decreases n - i,
        {
            let v = kernel_between(&self.points[i], query);
            t.push(v);
            i = i + 1;
        }
        let mut k: usize = 0;
        while k < m
            invariant
                n == self.points.len(),
                m == exponents.len(),
                n + m <= usize::MAX,
                k <= m,
                t.len() == n + k,
                forall|p: &Vec<T>, e: &Vec<u32>| #[trigger] monomial_at.requires((p, e)),
                forall|x: int|
                    0 <= x < n ==> kernel_between.ensures((&self.points[x], query), #[trigger] t[x]),
                forall|y: int|
                    0 <= y < k ==> monomial_at.ensures((query, &exponents[y]), #[trigger] t[n + y]),
            decreases m - k,
        {
            let v = monomial_at(query, &exponents[k]);
            t.push(v);
            k = k + 1;
        }
        Ok(t)
    }
}

/// `t` holds the basis functions of a model with sample `points` and monomial
/// basis `exponents` at `query`: the kernel between each sample point and
/// `query`, then each monomial at `query`.
pub open spec fn is_basis_at<T, K: Fn(&Vec<T>, &Vec<T>) -> T, G: Fn(&Vec<T>, &Vec<u32>) -> T>(
    points: Seq<Vec<T>>,
    exponents: Seq<Vec<u32>>,
    query: Vec<T>,
    kernel_between: K,
    monomial_at: G,
    t: Seq<T>,
) -> bool {
    let n = points.len();
    &&& t.len() == n + exponents.len()
    &&& forall|i: int| 0 <= i < n ==> kernel_between.ensures((&points[i], &query), #[trigger] t[i])
    &&& forall|k: int|
        0 <= k < exponents.len() ==> monomial_at.ensures((&query, &exponents[k]), #[trigger] t[n + k])
}

/// At a sample point the basis functions are the row of the augmented system
/// that belongs to that point, where the kernel gives one value for each pair
/// of points in either order and the monomials one value for each argument: weights that solve the system
/// therefore reproduce the sample's value there.
pub proof fn lemma_basis_at_sample_is_system_row<
    T,
    K: Fn(&Vec<T>, &Vec<T>) -> T,
    G: Fn(&Vec<T>, &Vec<u32>) -> T,
>(
    points: Seq<Vec<T>>,
    values: Seq<T>,
    exponents: Seq<Vec<u32>>,
    zero: T,
    kernel_between: K,
    monomial_at: G,
    a: Seq<Vec<T>>,
    b: Seq<T>,
    i: int,
    t: Seq<T>,
)
    requires
        forall|p: &Vec<T>, q: &Vec<T>, v1: T, v2: T|
            #[trigger] kernel_between.ensures((p, q), v1) && #[trigger] kernel_between.ensures(
                (p, q),
                v2,
            ) ==> v1 == v2,
        forall|p: &Vec<T>, q: &Vec<T>, v1: T, v2: T|
            #[trigger] kernel_between.ensures((p, q), v1) && #[trigger] kernel_between.ensures(
                (q, p),
                v2,
            ) ==> v1 == v2,
        forall|p: &Vec<T>, e: &Vec<u32>, v1: T, v2: T|
            #[trigger] monomial_at.ensures((p, e), v1) && #[trigger] monomial_at.ensures((p, e), v2)
                ==> v1 == v2,
        is_augmented_system(points, values, exponents, zero, kernel_between, monomial_at, a, b),
        0 <= i < points.len(),
        is_basis_at(points, exponents, points[i], kernel_between, monomial_at, t),
    ensures
        t == a[i]@,
{
    let n = points.len();
    let m = exponents.len();
    assert forall|j: int| 0 <= j < n + m implies t[j] == a[i][j] by {
        if j < n {
            assert(kernel_between.ensures((&points[j], &points[i]), t[j]));
            if i <= j {
                assert(kernel_between.ensures((&points[i], &points[j]), a[i][j]));
            } else {
                assert(kernel_between.ensures((&points[j], &points[i]), a[j][i]));
                assert(a[i][j] == a[j][i]);
            }
        } else {
            assert(monomial_at.ensures((&points[i], &exponents[j - n]), t[n + (j - n)]));
            assert(monomial_at.ensures((&points[i], &exponents[j - n]), a[i][n + (j - n)]));
        }
    }
    assert(a[i].len() == n + m);
    assert(t =~= a[i]@);
}

} // verus!
