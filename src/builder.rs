use vstd::prelude::*;

use crate::rbf::RBFInterpolator;
use crate::powers::{binomial, exponent_rows, lemma_monomial_count, monomial_exponents, monomials};

verus! {

/// Why a fit or an evaluation was refused.
#[derive(Clone, Copy, Debug, PartialEq, Eq, Structural)]
pub enum RbfError {
    /// The dimension of the points is zero.
    InvalidConfiguration,
    /// The declared number of monomials is not `C(dim + degree, degree)`.
    ConfigMismatch,
    /// A shape parameter of a parametrised kernel is not positive.
    InvalidKernelParameter,
    /// The augmented system could not be solved.
    SingularSystem,
    /// A point or a query does not have the configured dimension.
    DimensionMismatch,
}

/// The radial kernel of an interpolation, with its shape parameter where it
/// has one.
#[derive(Clone, Copy, Debug)]
pub enum RBFInterpolatorBuilder<T> {
    /// `r`
    Linear,
    /// `r^2 * ln(r)`, and `0` at `r = 0`
    ThinPlateSpline,
    /// `r^3`
    Cubic,
    /// `r^5`
    Quintic,
    /// `sqrt(1 + (r * epsilon)^2)`
    Multiquadratic { epsilon: T },
    /// `1 / sqrt(1 + (r * epsilon)^2)`
    InverseMultiquadratic { epsilon: T },
    /// `1 / (1 + (r * epsilon)^2)`
    InverseQuadratic { epsilon: T },
    /// `exp(-(r * epsilon)^2)`
    Gaussian { epsilon: T },
}

impl<T> RBFInterpolatorBuilder<T> {
    /// The shape parameter of a parametrised kernel.
    pub open spec fn spec_epsilon(&self) -> Option<T> {
        match self {
            RBFInterpolatorBuilder::Multiquadratic { epsilon } => Some(*epsilon),
            RBFInterpolatorBuilder::InverseMultiquadratic { epsilon } => Some(*epsilon),
            RBFInterpolatorBuilder::InverseQuadratic { epsilon } => Some(*epsilon),
            RBFInterpolatorBuilder::Gaussian { epsilon } => Some(*epsilon),
            _ => None,
        }
    }

    /// The shape parameter, for the four kernels that have one.
    pub fn epsilon(&self) -> (r: Option<&T>)
        ensures
            match self.spec_epsilon() {
                Some(e) => r is Some && *r->Some_0 == e,
                None => r is None,
            },
    {
        match self {
            RBFInterpolatorBuilder::Multiquadratic { epsilon } => Some(epsilon),
            RBFInterpolatorBuilder::InverseMultiquadratic { epsilon } => Some(epsilon),
            RBFInterpolatorBuilder::InverseQuadratic { epsilon } => Some(epsilon),
            RBFInterpolatorBuilder::Gaussian { epsilon } => Some(epsilon),
            _ => None,
        }
    }

    /// Refuses a parametrised kernel whose shape parameter `is_positive`
    /// rejects; kernels without one always pass.
    pub fn check_epsilon<F: Fn(T) -> bool>(&self, is_positive: F) -> (r: Result<(), RbfError>)
        where
            T: Copy,
        requires
            forall|e: T| self.spec_epsilon() == Some(e) ==> is_positive.requires((e,)),
        ensures
            self.spec_epsilon() is None ==> r is Ok,
            forall|e: T|
                self.spec_epsilon() == Some(e) ==> match r {
                    Ok(_) => is_positive.ensures((e,), true),
                    Err(err) => err == RbfError::InvalidKernelParameter && is_positive.ensures(
                        (e,),
                        false,
                    ),
                },
    {
        match self.epsilon() {
            Some(e) => if is_positive(*e) {
                Ok(())
            } else {
                Err(RbfError::InvalidKernelParameter)
            },
            None => Ok(()),
        }
    }

    /// Fits a model to `values` at `points` (each of dimension `dim`) with a
    /// polynomial trend of degree `degree`, whose caller declares `monomials`
    /// monomials. The arithmetic of the scalar type comes as arguments:
    /// `is_positive` tests a shape parameter, `kernel_between` is the kernel of
    /// the distance between two points, `monomial_at` the value of a monomial
    /// at a point, and `solve` solves a dense linear system, or gives `None`
    /// where it is singular.
    ///
    /// The shape parameter is checked first, then the structural parameters,
    /// then the data; only then is the system assembled and solved.
    pub fn build<P, K, G, S>(
        self,
        dim: usize,
        degree: u32,
        monomials: usize,
        points: Vec<Vec<T>>,
        values: Vec<T>,
        zero: T,
        is_positive: P,
        kernel_between: K,
        monomial_at: G,
        solve: S,
    ) -> (r: Result<RBFInterpolator<T>, RbfError>)
        where
            T: Copy,
            P: Fn(T) -> bool,
            K: Fn(&Vec<T>, &Vec<T>) -> T,
            G: Fn(&Vec<T>, &Vec<u32>) -> T,
            S: Fn(&Vec<Vec<T>>, &Vec<T>) -> Option<Vec<T>>,
        requires
            points.len() + monomials <= usize::MAX,
            forall|e: T| #[trigger] is_positive.requires((e,)),
            forall|p: &Vec<T>, q: &Vec<T>| #[trigger] kernel_between.requires((p, q)),
            forall|p: &Vec<T>, e: &Vec<u32>| #[trigger] monomial_at.requires((p, e)),
            forall|a: &Vec<Vec<T>>, b: &Vec<T>| #[trigger] solve.requires((a, b)),
        ensures
            forall|e: T|
                self.spec_epsilon() == Some(e) && (forall|b: bool|
                    #[trigger] is_positive.ensures((e,), b) ==> !b) ==> r == Err::<
                    RBFInterpolator<T>,
                    RbfError,
                >(RbfError::InvalidKernelParameter),
            r == Err::<RBFInterpolator<T>, RbfError>(RbfError::InvalidKernelParameter) ==> exists|
                e: T,
            | self.spec_epsilon() == Some(e) && #[trigger] is_positive.ensures((e,), false),
            r != Err::<RBFInterpolator<T>, RbfError>(RbfError::InvalidKernelParameter) ==> {
                let declared_fits = monomials == binomial((dim + degree) as nat, degree as nat);
                &&& dim == 0 ==> r == Err::<RBFInterpolator<T>, RbfError>(
                    RbfError::InvalidConfiguration,
                )
                &&& dim >= 1 && !declared_fits ==> r == Err::<RBFInterpolator<T>, RbfError>(
                    RbfError::ConfigMismatch,
                )
                &&& dim >= 1 && declared_fits && !data_matches(points@, values@, dim as nat) ==> r
                    == Err::<RBFInterpolator<T>, RbfError>(RbfError::DimensionMismatch)
                &&& dim >= 1 && declared_fits && data_matches(points@, values@, dim as nat) ==> (r is Ok
                    || r == Err::<RBFInterpolator<T>, RbfError>(RbfError::SingularSystem))
            },
            r == Err::<RBFInterpolator<T>, RbfError>(RbfError::SingularSystem) ==> exists|
                exponents: Seq<Vec<u32>>,
                a: Vec<Vec<T>>,
                b: Vec<T>,
                o: Option<Vec<T>>,
            |
                {
                    &&& exponent_rows(exponents) == crate::powers::monomials(dim as nat, degree as nat)
                    &&& #[trigger] is_augmented_system(
                        points@,
                        values@,
                        exponents,
                        zero,
                        kernel_between,
                        monomial_at,
                        a@,
                        b@,
                    )
                    &&& #[trigger] solve.ensures((&a, &b), o)
                    &&& !(o matches Some(w) && w.len() == points.len() + exponents.len())
                },
            r matches Ok(f) ==> {
                &&& f.spec_kernel() == self
                &&& f.spec_points() == points@
                &&& f.spec_shape().spec_dim() == dim
                &&& f.spec_shape().spec_points() == points.len()
                &&& f.spec_shape().spec_degree() == degree
                &&& f.spec_shape().spec_monomials() == monomials
                &&& exponent_rows(f.spec_shape().spec_exponents()) == crate::powers::monomials(
                    dim as nat,
                    degree as nat,
                )
                &&& exists|a: Vec<Vec<T>>, b: Vec<T>, w: Vec<T>|
                    {
                        &&& #[trigger] is_augmented_system(
                            points@,
                            values@,
                            f.spec_shape().spec_exponents(),
                            zero,
                            kernel_between,
                            monomial_at,
                            a@,
                            b@,
                        )
                        &&& #[trigger] solve.ensures((&a, &b), Some(w))
                        &&& w@ == f.spec_weights()
                    }
            },
    {
        match self.check_epsilon(is_positive) {
            Ok(_) => {},
            Err(e) => return Err(e),
        }
        let shape = match SystemShape::new(dim, points.len(), degree, monomials) {
            Ok(s) => s,
            Err(e) => return Err(e),
        };
        match shape.check_data(&points, &values) {
            Ok(_) => {},
            Err(e) => return Err(e),
        }
        let phi = shape.construct_phi(
            |i: usize, j: usize| -> (v: T)
                requires
                    i < points.len(),
                    j < points.len(),
                ensures kernel_at_pair(kernel_between, points@, i, j, v)
                { kernel_between(&points[i], &points[j]) },
        );
        let exponents = shape.exponents();
        let a = shape.embelish_phi(
            &phi,
            |i: usize, k: usize| -> (v: T)
                requires
                    i < points.len(),
                    k < exponents.len(),
                ensures monomial_at_pair(monomial_at, points@, exponents@, i, k, v)
                { monomial_at(&points[i], &exponents[k]) },
            zero,
        );
        let b = shape.embelish_values(&values, zero);
        let solution = solve(&a, &b);
        proof {
            assert(is_augmented_system(
                points@,
                values@,
                shape.spec_exponents(),
                zero,
                kernel_between,
                monomial_at,
                a@,
                b@,
            ));
        }
        RBFInterpolator::from_solution(self, shape, points, solution)
    }
}

/// There are as many values as points, and every point has dimension `dim`.
pub open spec fn data_matches<T>(points: Seq<Vec<T>>, values: Seq<T>, dim: nat) -> bool {
    &&& values.len() == points.len()
    &&& forall|i: int| 0 <= i < points.len() ==> #[trigger] points[i].len() == dim
}

/// `v` is a value that `kernel_between` gives for points `i` and `j`.
spec fn kernel_at_pair<T, K: Fn(&Vec<T>, &Vec<T>) -> T>(
    kernel_between: K,
    points: Seq<Vec<T>>,
    i: usize,
    j: usize,
    v: T,
) -> bool {
    kernel_between.ensures((&points[i as int], &points[j as int]), v)
}

/// `v` is a value that `monomial_at` gives for point `i` and monomial `k`.
spec fn monomial_at_pair<T, G: Fn(&Vec<T>, &Vec<u32>) -> T>(
    monomial_at: G,
    points: Seq<Vec<T>>,
    exponents: Seq<Vec<u32>>,
    i: usize,
    k: usize,
    v: T,
) -> bool {
    monomial_at.ensures((&points[i as int], &exponents[k as int]), v)
}

/// `a` and `b` are the augmented system of `points` and `values` with the
/// monomial basis `exponents`: `a` is symmetric, its top-left block holds
/// `kernel_between(points[i], points[j])`, its top-right block holds
/// `monomial_at(points[i], exponents[k])` at `[i][N + k]`, and its bottom-right
/// block is `zero`; `b` is `values` followed by `M` zeros.
pub open spec fn is_augmented_system<T, K: Fn(&Vec<T>, &Vec<T>) -> T, G: Fn(&Vec<T>, &Vec<u32>) -> T>(
    points: Seq<Vec<T>>,
    values: Seq<T>,
    exponents: Seq<Vec<u32>>,
    zero: T,
    kernel_between: K,
    monomial_at: G,
    a: Seq<Vec<T>>,
    b: Seq<T>,
) -> bool {
    let n = points.len();
    let m = exponents.len();
    &&& a.len() == n + m
    &&& forall|x: int| 0 <= x < n + m ==> #[trigger] a[x].len() == n + m
    &&& forall|x: int, y: int| 0 <= x < n + m && 0 <= y < n + m ==> #[trigger] a[x][y] == a[y][x]
    &&& forall|i: int, j: int|
        0 <= i <= j < n ==> kernel_between.ensures((&points[i], &points[j]), #[trigger] a[i][j])
    &&& forall|i: int, k: int|
        0 <= i < n && 0 <= k < m ==> monomial_at.ensures(
            (&points[i], &exponents[k]),
            #[trigger] a[i][n + k],
        )
    &&& forall|k: int, l: int| 0 <= k < m && 0 <= l < m ==> #[trigger] a[n + k][n + l] == zero
    &&& b.len() == n + m
    &&& forall|i: int| 0 <= i < n ==> #[trigger] b[i] == values[i]
    &&& forall|k: int| 0 <= k < m ==> #[trigger] b[n + k] == zero
}

/// The augmented system is determined by its data: where `kernel_between` and
/// `monomial_at` give one value for each pair of arguments, any two augmented
/// systems of the same points, values and monomial basis are equal entry by
/// entry.
pub proof fn lemma_augmented_system_determined<T, K: Fn(&Vec<T>, &Vec<T>) -> T, G: Fn(
    &Vec<T>,
    &Vec<u32>,
) -> T>(
    points: Seq<Vec<T>>,
    values: Seq<T>,
    exponents: Seq<Vec<u32>>,
    zero: T,
    kernel_between: K,
    monomial_at: G,
    a1: Seq<Vec<T>>,
    b1: Seq<T>,
    a2: Seq<Vec<T>>,
    b2: Seq<T>,
)
    requires
        forall|p: &Vec<T>, q: &Vec<T>, v1: T, v2: T|
            #[trigger] kernel_between.ensures((p, q), v1) && #[trigger] kernel_between.ensures(
                (p, q),
                v2,
            ) ==> v1 == v2,
        forall|p: &Vec<T>, e: &Vec<u32>, v1: T, v2: T|
            #[trigger] monomial_at.ensures((p, e), v1) && #[trigger] monomial_at.ensures((p, e), v2)
                ==> v1 == v2,
        is_augmented_system(points, values, exponents, zero, kernel_between, monomial_at, a1, b1),
        is_augmented_system(points, values, exponents, zero, kernel_between, monomial_at, a2, b2),
    ensures
        a1.len() == a2.len(),
        forall|x: int| 0 <= x < a1.len() ==> #[trigger] a1[x]@ == a2[x]@,
        b1 == b2,
{
    let n = points.len();
    let m = exponents.len();
    assert forall|x: int| 0 <= x < a1.len() implies #[trigger] a1[x]@ == a2[x]@ by {
        assert forall|y: int| 0 <= y < n + m implies a1[x][y] == a2[x][y] by {
            if x < n && y < n {
                if x <= y {
                    assert(kernel_between.ensures((&points[x], &points[y]), a1[x][y]));
                    assert(kernel_between.ensures((&points[x], &points[y]), a2[x][y]));
                } else {
                    assert(kernel_between.ensures((&points[y], &points[x]), a1[y][x]));
                    assert(kernel_between.ensures((&points[y], &points[x]), a2[y][x]));
                }
            } else if x < n {
                assert(monomial_at.ensures((&points[x], &exponents[y - n]), a1[x][n + (y - n)]));
                assert(monomial_at.ensures((&points[x], &exponents[y - n]), a2[x][n + (y - n)]));
            } else if y < n {
                assert(monomial_at.ensures((&points[y], &exponents[x - n]), a1[y][n + (x - n)]));
                assert(monomial_at.ensures((&points[y], &exponents[x - n]), a2[y][n + (x - n)]));
            } else {
                assert(a1[n + (x - n)][n + (y - n)] == zero);
                assert(a2[n + (x - n)][n + (y - n)] == zero);
            }
        }
        assert(a1[x].len() == n + m);
        assert(a2[x].len() == n + m);
        assert(a1[x]@ =~= a2[x]@);
    }
    assert forall|i: int| 0 <= i < n + m implies b1[i] == b2[i] by {
        if i >= n {
            assert(b1[n + (i - n)] == zero);
            assert(b2[n + (i - n)] == zero);
        }
    }
    assert(b1 =~= b2);
}

/// The structural parameters of a fit, validated: dimension `D >= 1`, number
/// of points `N`, degree of the polynomial trend, and its monomial basis of
/// `M = C(D + degree, degree)` exponent tuples.
pub struct SystemShape {
    dim: usize,
    points: usize,
    degree: u32,
    exponents: Vec<Vec<u32>>,
}

impl SystemShape {
    #[verifier::type_invariant]
    spec fn inv(self) -> bool {
        &&& self.dim >= 1
        &&& exponent_rows(self.exponents@) == monomials(self.dim as nat, self.degree as nat)
        &&& self.points + self.exponents.len() <= usize::MAX
    }

    pub closed spec fn spec_dim(self) -> nat {
        self.dim as nat
    }

    pub closed spec fn spec_points(self) -> nat {
        self.points as nat
    }

    pub closed spec fn spec_degree(self) -> nat {
        self.degree as nat
    }

    /// The monomial basis, in the order of the columns of the polynomial
    /// block.
    pub closed spec fn spec_exponents(self) -> Seq<Vec<u32>> {
        self.exponents@
    }

    /// `M`, the number of monomials.
    pub open spec fn spec_monomials(self) -> nat {
        monomials(self.spec_dim(), self.spec_degree()).len()
    }

    /// `N + M`, the order of the augmented system.
    pub open spec fn spec_size(self) -> nat {
        self.spec_points() + self.spec_monomials()
    }

    /// Validates the structural parameters of a fit of `points` points in
    /// `dim` dimensions with a polynomial trend of degree `degree`, whose
    /// caller declares `monomials` monomials.
    pub fn new(dim: usize, points: usize, degree: u32, monomials: usize) -> (r: Result<
        SystemShape,
        RbfError,
    >)
        requires
            points + monomials <= usize::MAX,
        ensures
            dim == 0 ==> r == Err::<SystemShape, RbfError>(RbfError::InvalidConfiguration),
            dim >= 1 && monomials != binomial((dim + degree) as nat, degree as nat) ==> r == Err::<
                SystemShape,
                RbfError,
            >(RbfError::ConfigMismatch),
            dim >= 1 && monomials == binomial((dim + degree) as nat, degree as nat) ==> r is Ok,
            r matches Ok(s) ==> s.spec_dim() == dim && s.spec_points() == points
                && s.spec_degree() == degree && s.spec_monomials() == monomials,
    {
        let exponents = match monomial_exponents(dim, degree) {
            Ok(e) => e,
            Err(e) => return Err(e),
        };
        proof {
            lemma_monomial_count(dim as nat, degree as nat);
            assert(exponent_rows(exponents@).len() == exponents.len());
        }
        if exponents.len() != monomials {
            return Err(RbfError::ConfigMismatch);
        }
        Ok(SystemShape { dim, points, degree, exponents })
    }

    /// `D`, the dimension of the points.
    pub fn dim(&self) -> (r: usize)
        ensures
            r == self.spec_dim(),
            r >= 1,
    {
        proof {
            use_type_invariant(self);
        }
        self.dim
    }

    /// `N`, the number of points.
    pub fn points(&self) -> (r: usize)
        ensures
            r == self.spec_points(),
    {
        self.points
    }

    /// The degree of the polynomial trend.
    pub fn degree(&self) -> (r: u32)
        ensures
            r == self.spec_degree(),
    {
        self.degree
    }

    /// `M`, the number of monomials.
    pub fn monomials(&self) -> (r: usize)
        ensures
            r == self.spec_monomials(),
    {
        proof {
            use_type_invariant(self);
        }
        self.exponents.len()
    }

    /// `N + M`, the order of the augmented system.
    pub fn size(&self) -> (r: usize)
        ensures
            r == self.spec_size(),
    {
        proof {
            use_type_invariant(self);
        }
        self.points + self.exponents.len()
    }

    /// The monomial basis, in the order of the columns of the polynomial
    /// block.
    pub fn exponents(&self) -> (r: &Vec<Vec<u32>>)
        ensures
            r@ == self.spec_exponents(),
            exponent_rows(r@) == monomials(self.spec_dim(), self.spec_degree()),
    {
        proof {
            use_type_invariant(self);
        }
        &self.exponents
    }

    /// Checks that there are `N` points of dimension `D` and `N` values.
    pub fn check_data<T>(&self, points: &Vec<Vec<T>>, values: &Vec<T>) -> (r: Result<(), RbfError>)
        ensures
            r is Ok <==> (points.len() == self.spec_points() && data_matches(
                points@,
                values@,
                self.spec_dim(),
            )),
            r is Err ==> r == Err::<(), RbfError>(RbfError::DimensionMismatch),
    {
        if points.len() != self.points || values.len() != self.points {
            return Err(RbfError::DimensionMismatch);
        }
        let mut i: usize = 0;
        while i < points.len()
            invariant
                i <= points.len(),
                forall|k: int| 0 <= k < i ==> #[trigger] points[k].len() == self.spec_dim(),
            decreases points.len() - i,
        {
            if points[i].len() != self.dim {
                return Err(RbfError::DimensionMismatch);
            }
            i = i + 1;
        }
        Ok(())
    }

    /// Checks that a query point has dimension `D`.
    pub fn check_query<T>(&self, query: &Vec<T>) -> (r: Result<(), RbfError>)
        ensures
            r is Ok <==> query.len() == self.spec_dim(),
            r is Err ==> r == Err::<(), RbfError>(RbfError::DimensionMismatch),
    {
        if query.len() != self.dim {
            Err(RbfError::DimensionMismatch)
        } else {
            Ok(())
        }
    }

    /// The `N x N` kernel block: entry `[i][j]` is `kernel_between(i, j)` for
    /// `i <= j`, evaluated once and mirrored below the diagonal, so the block
    /// is symmetric by construction.
    pub fn construct_phi<T: Copy, F: Fn(usize, usize) -> T>(&self, kernel_between: F) -> (phi: Vec<
        Vec<T>,
    >)
        requires
            forall|i: usize, j: usize|
                i <= j < self.spec_points() ==> #[trigger] kernel_between.requires((i, j)),
        ensures
            phi.len() == self.spec_points(),
            forall|i: int| 0 <= i < phi.len() ==> #[trigger] phi[i].len() == self.spec_points(),
            forall|i: int, j: int|
                0 <= i < phi.len() && 0 <= j < phi.len() ==> #[trigger] phi[i][j] == phi[j][i],
            forall|i: usize, j: usize|
                i <= j < self.spec_points() ==> kernel_between.ensures(
                    (i, j),
                    #[trigger] phi[i as int][j as int],
                ),
    {
        let n = self.points;
        let mut phi: Vec<Vec<T>> = Vec::new();
        let mut i: usize = 0;
        while i < n
            invariant
                n == self.spec_points(),
                i <= n,
                phi.len() == i,
                forall|i: usize, j: usize|
                    i <= j < self.spec_points() ==> #[trigger] kernel_between.requires((i, j)),
                forall|a: int| 0 <= a < i ==> #[trigger] phi[a].len() == n,
                forall|a: int, b: int| 0 <= a < i && 0 <= b < i ==> #[trigger] phi[a][b] == phi[b][a],
                forall|a: usize, b: usize|
                    a <= b < n && a < i ==> kernel_between.ensures(
                        (a, b),
                        #[trigger] phi[a as int][b as int],
                    ),
            decreases n - i,
        {
            let mut row: Vec<T> = Vec::new();
            let mut j: usize = 0;
            while j < n
                invariant
                    n == self.spec_points(),
                    i < n,
                    j <= n,
                    row.len() == j,
                    phi.len() == i,
                    forall|i: usize, j: usize|
                        i <= j < self.spec_points() ==> #[trigger] kernel_between.requires((i, j)),
                    forall|a: int| 0 <= a < i ==> #[trigger] phi[a].len() == n,
                    forall|b: int| 0 <= b < j && b < i ==> #[trigger] row[b] == phi[b][i as int],
                    forall|b: usize|
                        i <= b < j ==> kernel_between.ensures((i, b), #[trigger] row[b as int]),
                decreases n - j,
            {
                if j < i {
                    assert(phi[j as int].len() == n);
                    let v = phi[j][i];
                    row.push(v);
                } else {
                    let v = kernel_between(i, j);
                    row.push(v);
                }
                j = j + 1;
            }
            phi.push(row);
            proof {
                assert forall|a: int, b: int|
                    0 <= a < i + 1 && 0 <= b < i + 1 implies #[trigger] phi[a][b] == phi[b][a] by {
                    if a == i && b < i {
                        assert(phi[a][b] == phi[b][a]);
                    }
                }
                assert forall|a: usize, b: usize| a <= b < n && a < i + 1 implies kernel_between.ensures(
                    (a, b),
                    #[trigger] phi[a as int][b as int],
                ) by {
                    if a == i {
                        assert(phi[a as int][b as int] == row[b as int]);
                    }
                }
            }
            i = i + 1;
        }
        phi
    }

    /// The `N x M` polynomial block: entry `[i][j]` is `monomial_at(i, j)`.
    fn polynomial_block<T: Copy, G: Fn(usize, usize) -> T>(&self, monomial_at: &G) -> (p: Vec<
        Vec<T>,
    >)
        requires
            forall|i: usize, j: usize|
                i < self.spec_points() && j < self.spec_monomials() ==> #[trigger] monomial_at.requires(
                    (i, j),
                ),
        ensures
            p.len() == self.spec_points(),
            forall|i: int| 0 <= i < p.len() ==> #[trigger] p[i].len() == self.spec_monomials(),
            forall|i: usize, j: usize|
                i < self.spec_points() && j < self.spec_monomials() ==> monomial_at.ensures(
                    (i, j),
                    #[trigger] p[i as int][j as int],
                ),
    {
        proof {
            use_type_invariant(self);
        }
        let n = self.points;
        let m = self.exponents.len();
        let mut p: Vec<Vec<T>> = Vec::new();
        let mut i: usize = 0;
        while i < n
            invariant
                n == self.spec_points(),
                m == self.spec_monomials(),
                i <= n,
                p.len() == i,
                forall|i: usize, j: usize|
                    i < n && j < m ==> #[trigger] monomial_at.requires((i, j)),
                forall|a: int| 0 <= a < i ==> #[trigger] p[a].len() == m,
                forall|a: usize, b: usize|
                    a < i && b < m ==> monomial_at.ensures((a, b), #[trigger] p[a as int][b as int]),
            decreases n - i,
        {
            let mut row: Vec<T> = Vec::new();
            let mut j: usize = 0;
            while j < m
                invariant
                    i < n,
                    j <= m,
                    row.len() == j,
                    forall|i: usize, j: usize|
                        i < n && j < m ==> #[trigger] monomial_at.requires((i, j)),
                    forall|b: usize| b < j ==> monomial_at.ensures((i, b), #[trigger] row[b as int]),
                decreases m - j,
            {
                let v = monomial_at(i, j);
                row.push(v);
                j = j + 1;
            }
            p.push(row);
            proof {
                assert forall|a: usize, b: usize| a < i + 1 && b < m implies monomial_at.ensures(
                    (a, b),
                    #[trigger] p[a as int][b as int],
                ) by {
                    if a == i {
                        assert(p[a as int][b as int] == row[b as int]);
                    }
                }
            }
            i = i + 1;
        }
        p
    }

    /// The augmented `(N + M) x (N + M)` matrix: `phi` in the top-left block,
    /// `monomial_at(i, j)` (monomial `j` at point `i`) at `[i][N + j]` and at
    /// `[N + j][i]`, zero in the bottom-right block.
    pub fn embelish_phi<T: Copy, G: Fn(usize, usize) -> T>(
        &self,
        phi: &Vec<Vec<T>>,
        monomial_at: G,
        zero: T,
    ) -> (a: Vec<Vec<T>>)
        requires
            phi.len() == self.spec_points(),
            forall|i: int| 0 <= i < phi.len() ==> #[trigger] phi[i].len() == self.spec_points(),
            forall|i: usize, j: usize|
                i < self.spec_points() && j < self.spec_monomials() ==> #[trigger] monomial_at.requires(
                    (i, j),
                ),
        ensures
            a.len() == self.spec_size(),
            forall|r: int| 0 <= r < a.len() ==> #[trigger] a[r].len() == self.spec_size(),
            forall|i: int, j: int|
                0 <= i < self.spec_points() && 0 <= j < self.spec_points() ==> #[trigger] a[i][j]
                    == phi[i][j],
            forall|i: usize, j: usize|
                i < self.spec_points() && j < self.spec_monomials() ==> {
                    &&& monomial_at.ensures((i, j), #[trigger] a[i as int][self.spec_points() + j])
                    &&& a[self.spec_points() + j][i as int] == a[i as int][self.spec_points() + j]
                },
            forall|i: int, j: int|
                0 <= i < self.spec_monomials() && 0 <= j < self.spec_monomials() ==> #[trigger] a[self.spec_points()
                    + i][self.spec_points() + j] == zero,
            (forall|i: int, j: int|
                0 <= i < self.spec_points() && 0 <= j < self.spec_points() ==> #[trigger] phi[i][j]
                    == phi[j][i]) ==> forall|x: int, y: int|
                0 <= x < a.len() && 0 <= y < a.len() ==> #[trigger] a[x][y] == a[y][x],
    {
        proof {
            use_type_invariant(self);
        }
        let p = self.polynomial_block(&monomial_at);
        let n = self.points;
        let m = self.exponents.len();
        let size = n + m;
        let mut a: Vec<Vec<T>> = Vec::new();
        let mut r: usize = 0;
        while r < size
            invariant
                n == self.spec_points(),
                m == self.spec_monomials(),
                size == n + m,
                r <= size,
                a.len() == r,
                phi.len() == n,
                forall|i: int| 0 <= i < n ==> #[trigger] phi[i].len() == n,
                p.len() == n,
                forall|i: int| 0 <= i < n ==> #[trigger] p[i].len() == m,
                forall|x: int| 0 <= x < r ==> #[trigger] a[x].len() == size,
                forall|x: int, y: int|
                    0 <= x < r && 0 <= y < size ==> #[trigger] a[x][y] == augmented_entry(
                        phi@,
                        p@,
                        zero,
                        n as int,
                        x,
                        y,
                    ),
            decreases size - r,
        {
            let mut row: Vec<T> = Vec::new();
            let mut c: usize = 0;
            while c < size
                invariant
                    n == self.spec_points(),
                    m == self.spec_monomials(),
                    size == n + m,
                    r < size,
                    c <= size,
                    row.len() == c,
                    phi.len() == n,
                    forall|i: int| 0 <= i < n ==> #[trigger] phi[i].len() == n,
                    p.len() == n,
                    forall|i: int| 0 <= i < n ==> #[trigger] p[i].len() == m,
                    forall|y: int| 0 <= y < c ==> #[trigger] row[y] == augmented_entry(
                        phi@,
                        p@,
                        zero,
                        n as int,
                        r as int,
                        y,
                    ),
                decreases size - c,
            {
                let v = if r < n && c < n {
                    assert(phi[r as int].len() == n);
                    phi[r][c]
                } else if r < n {
                    assert(p[r as int].len() == m);
                    p[r][c - n]
                } else if c < n {
                    assert(p[c as int].len() == m);
                    p[c][r - n]
                } else {
                    zero
                };
                row.push(v);
                c = c + 1;
            }
            a.push(row);
            proof {
                assert forall|x: int, y: int|
                    0 <= x < r + 1 && 0 <= y < size implies #[trigger] a[x][y] == augmented_entry(
                    phi@,
                    p@,
                    zero,
                    n as int,
                    x,
                    y,
                ) by {
                    if x == r {
                        assert(a[x][y] == row[y]);
                    }
                }
            }
            r = r + 1;
        }
        proof {
            assert forall|i: usize, j: usize| i < n && j < m implies {
                &&& monomial_at.ensures((i, j), #[trigger] a[i as int][n + j])
                &&& a[n + j][i as int] == a[i as int][n + j]
            } by {
                assert(a[i as int][n + j] == p[i as int][j as int]);
                assert(a[n + j][i as int] == p[i as int][j as int]);
            }
            if forall|i: int, j: int|
                0 <= i < n && 0 <= j < n ==> #[trigger] phi[i][j] == phi[j][i] {
                assert forall|x: int, y: int|
                    0 <= x < a.len() && 0 <= y < a.len() implies #[trigger] a[x][y] == a[y][x] by {
                    assert(a[x][y] == augmented_entry(phi@, p@, zero, n as int, x, y));
                    assert(a[y][x] == augmented_entry(phi@, p@, zero, n as int, y, x));
                }
            }
        }
        a
    }

    /// The right-hand side of the augmented system: the `N` values, then `M`
    /// zeros.
    pub fn embelish_values<T: Copy>(&self, values: &Vec<T>, zero: T) -> (b: Vec<T>)
        requires
            values.len() == self.spec_points(),
        ensures
            b.len() == self.spec_size(),
            forall|i: int| 0 <= i < self.spec_points() ==> #[trigger] b[i] == values[i],
            forall|j: int|
                0 <= j < self.spec_monomials() ==> #[trigger] b[self.spec_points() + j] == zero,
    {
        proof {
            use_type_invariant(self);
        }
        let n = self.points;
        let size = n + self.exponents.len();
        let mut b: Vec<T> = Vec::new();
        let mut i: usize = 0;
        while i < size
            invariant
                n == self.spec_points(),
                size == self.spec_size(),
                values.len() == n,
                i <= size,
                b.len() == i,
                forall|x: int| 0 <= x < i && x < n ==> #[trigger] b[x] == values[x],
                forall|x: int| 0 <= x < i && x >= n ==> #[trigger] b[x] == zero,
            decreases size - i,
        {
            if i < n {
                b.push(values[i]);
            } else {
                b.push(zero);
            }
            i = i + 1;
        }
        b
    }
}

/// Entry `[x][y]` of the augmented matrix built from the kernel block `phi`,
/// the polynomial block `p` (`N` rows) and `zero`.
spec fn augmented_entry<T>(phi: Seq<Vec<T>>, p: Seq<Vec<T>>, zero: T, n: int, x: int, y: int) -> T {
    if x < n && y < n {
        phi[x][y]
    } else if x < n {
        p[x][y - n]
    } else if y < n {
        p[y][x - n]
    } else {
        zero
    }
}

} // verus!
