//! Matrices of fixed-point scalars with exact cofactor-expansion
//! determinants.
//!
//! A matrix is viewed as the sequence of its rows of stored millis
//! (thousandths), so every contract is stated over mathematical
//! integers.  `vals` recovers the whole-number entries of an integral
//! matrix; the determinant, minors and cofactors of such a matrix are
//! computed exactly.

use vstd::arithmetic::div_mod::lemma_fundamental_div_mod;
use vstd::prelude::*;

use crate::utils::div_exact;
use crate::utils::is_odd;
use crate::utils::Scalar;
use crate::utils::SCALE;

verus! {

/// A rectangular matrix of fixed-point scalars, stored by rows.
#[derive(Debug, Clone)]
pub struct Matrix {
    pub data: Vec<Vec<Scalar>>,
}

/// The rows of stored millis of a matrix given as vectors of scalars.
pub open spec fn mat_of(d: Seq<Vec<Scalar>>) -> Seq<Seq<int>> {
    Seq::new(d.len(), |i: int| Seq::new(d[i]@.len(), |j: int| d[i]@[j].millis as int))
}

impl View for Matrix {
    type V = Seq<Seq<int>>;

    open spec fn view(&self) -> Seq<Seq<int>> {
        mat_of(self.data@)
    }
}

/// Every row has the same length as the first one.
pub open spec fn rect(v: Seq<Seq<int>>) -> bool {
    forall|i: int| 0 <= i < v.len() ==> #[trigger] v[i].len() == v[0].len()
}

/// As many columns as rows.
pub open spec fn square(v: Seq<Seq<int>>) -> bool {
    rect(v) && v.len() > 0 && v[0].len() == v.len()
}

/// Every entry is a whole number of units.
pub open spec fn integral(v: Seq<Seq<int>>) -> bool {
    forall|i: int, j: int|
        0 <= i < v.len() && 0 <= j < v[i].len() ==> #[trigger] v[i][j] % (SCALE as int) == 0
}

/// Every entry holds at most `b` millis in magnitude.
pub open spec fn bounded(v: Seq<Seq<int>>, b: int) -> bool {
    forall|i: int, j: int| 0 <= i < v.len() && 0 <= j < v[i].len() ==> -b <= #[trigger] v[i][j] <= b
}

/// The whole-number entries of an integral matrix.
pub open spec fn vals(v: Seq<Seq<int>>) -> Seq<Seq<int>> {
    Seq::new(v.len(), |i: int| Seq::new(v[i].len(), |j: int| v[i][j] / (SCALE as int)))
}

/// The matrix with row `r` and column `c` removed.
pub open spec fn sub_seq(v: Seq<Seq<int>>, r: int, c: int) -> Seq<Seq<int>> {
    Seq::new(
        (v.len() - 1) as nat,
        |i: int|
            {
                let ri = if i < r {
                    i
                } else {
                    i + 1
                };
                Seq::new(
                    (v[ri].len() - 1) as nat,
                    |j: int|
                        v[ri][if j < c {
                            j
                        } else {
                            j + 1
                        }],
                )
            },
    )
}

/// The sign (-1)^(r+c) of the cofactor at row `r`, column `c`.
pub open spec fn cof_sign(r: int, c: int) -> int {
    if (r + c) % 2 == 0 {
        1int
    } else {
        -1int
    }
}

/// Determinant of a square matrix of side at least 2, by cofactor
/// expansion along the first row; 2-by-2 matrices use the closed form.
pub open spec fn det(v: Seq<Seq<int>>) -> int
    decreases v.len(), v[0].len() + 1,
{
    if v.len() == 2 {
        v[0][0] * v[1][1] - v[1][0] * v[0][1]
    } else {
        det_sum(v, v[0].len() as int)
    }
}

/// Partial cofactor expansion of `det` along the first row,
/// over the first `c` columns.
pub open spec fn det_sum(v: Seq<Seq<int>>, c: int) -> int
    decreases v.len(), c,
{
    if c <= 0 || v.len() == 0 {
        0
    } else {
        det_sum(v, c - 1) + v[0][c - 1] * cof_sign(0, c - 1) * det(sub_seq(v, 0, c - 1))
    }
}

/// A magnitude bound for the determinant of an n-by-n matrix whose
/// entries are bounded by `b`: n! * b^n for n up to 4.
pub open spec fn det_cap(n: int, b: int) -> int {
    if n <= 2 {
        2 * b * b
    } else if n == 3 {
        6 * b * b * b
    } else {
        24 * b * b * b * b
    }
}

/// Largest entry magnitude, in millis, accepted by the exact matrix
/// arithmetic: one thousand whole units.
pub const MILLIS_MAX: i64 = 1_000_000;

/// Striking out a row and a column of a square matrix keeps it square,
/// one smaller, and preserves entry bounds and integrality.
proof fn lemma_sub_props(v: Seq<Seq<int>>, r: int, c: int, b: int)
    requires
        square(v),
        v.len() >= 2,
        0 <= r < v.len(),
        0 <= c < v.len(),
    ensures
        sub_seq(v, r, c).len() == v.len() - 1,
        square(sub_seq(v, r, c)),
        bounded(v, b) ==> bounded(sub_seq(v, r, c), b),
        integral(v) ==> integral(sub_seq(v, r, c)),
{
    let s = sub_seq(v, r, c);
    assert forall|i: int| 0 <= i < s.len() implies #[trigger] s[i].len() == s[0].len() by {
        assert(v[if i < r {
            i
        } else {
            i + 1
        }].len() == v[0].len());
        assert(v[if 0 < r {
            0int
        } else {
            1int
        }].len() == v[0].len());
    }
    if bounded(v, b) {
        assert forall|i: int, j: int|
            0 <= i < s.len() && 0 <= j < s[i].len() implies -b <= #[trigger] s[i][j] <= b by {
            let ri = if i < r {
                i
            } else {
                i + 1
            };
            let cj = if j < c {
                j
            } else {
                j + 1
            };
            assert(v[ri].len() == v[0].len());
            assert(-b <= v[ri][cj] <= b);
        }
    }
    if integral(v) {
        assert forall|i: int, j: int|
            0 <= i < s.len() && 0 <= j < s[i].len() implies #[trigger] s[i][j] % (SCALE as int)
            == 0 by {
            let ri = if i < r {
                i
            } else {
                i + 1
            };
            let cj = if j < c {
                j
            } else {
                j + 1
            };
            assert(v[ri].len() == v[0].len());
            assert(v[ri][cj] % (SCALE as int) == 0);
        }
    }
}

/// The whole-number entries of an integral matrix bounded by
/// `MILLIS_MAX` millis form a matrix of the same shape bounded by 1000,
/// with each entry scaling back to the stored millis.
proof fn lemma_vals_props(v: Seq<Seq<int>>)
    requires
        rect(v),
        integral(v),
        bounded(v, MILLIS_MAX as int),
    ensures
        vals(v).len() == v.len(),
        forall|i: int| 0 <= i < v.len() ==> #[trigger] vals(v)[i].len() == v[i].len(),
        rect(vals(v)),
        square(v) ==> square(vals(v)),
        bounded(vals(v), 1000),
        forall|i: int, j: int|
            0 <= i < v.len() && 0 <= j < v[i].len() ==> #[trigger] vals(v)[i][j] * (SCALE as int)
                == v[i][j],
{
    let w = vals(v);
    assert forall|i: int, j: int|
        0 <= i < v.len() && 0 <= j < v[i].len() implies #[trigger] w[i][j] * (SCALE as int)
        == v[i][j] by {
        assert(v[i][j] % (SCALE as int) == 0);
        lemma_fundamental_div_mod(v[i][j], SCALE as int);
    }
    assert forall|i: int, j: int|
        0 <= i < w.len() && 0 <= j < w[i].len() implies -1000 <= #[trigger] w[i][j] <= 1000 by {
        assert(-(MILLIS_MAX as int) <= v[i][j] <= MILLIS_MAX as int);
        assert(w[i][j] * (SCALE as int) == v[i][j]);
    }
    assert forall|i: int| 0 <= i < w.len() implies #[trigger] w[i].len() == w[0].len() by {
        assert(v[i].len() == v[0].len());
    }
}

/// Taking whole-number entries commutes with striking out a row and a
/// column.
proof fn lemma_vals_sub_commute(v: Seq<Seq<int>>, r: int, c: int)
    requires
        square(v),
        v.len() >= 2,
        0 <= r < v.len(),
        0 <= c < v.len(),
    ensures
        vals(sub_seq(v, r, c)) == sub_seq(vals(v), r, c),
{
    let lhs = vals(sub_seq(v, r, c));
    let rhs = sub_seq(vals(v), r, c);
    assert forall|i: int| 0 <= i < lhs.len() implies lhs[i] =~= rhs[i] by {
        let ri = if i < r {
            i
        } else {
            i + 1
        };
        assert(v[ri].len() == v[0].len());
        assert(vals(v)[ri].len() == v[ri].len());
        assert(sub_seq(v, r, c)[i].len() == v[ri].len() - 1);
        assert forall|j: int| 0 <= j < lhs[i].len() implies lhs[i][j] == rhs[i][j] by {
            let cj = if j < c {
                j
            } else {
                j + 1
            };
            assert(lhs[i][j] == sub_seq(v, r, c)[i][j] / (SCALE as int));
            assert(sub_seq(v, r, c)[i][j] == v[ri][cj]);
            assert(rhs[i][j] == vals(v)[ri][cj]);
        }
    }
    assert(lhs =~~= rhs);
}

/// The determinant of an n-by-n matrix with entries bounded by `b`
/// has magnitude at most `det_cap(n, b)`, for n up to 4.
proof fn lemma_det_bound(v: Seq<Seq<int>>, b: int)
    requires
        square(v),
        2 <= v.len() <= 4,
        bounded(v, b),
        b >= 0,
    ensures
        -det_cap(v.len() as int, b) <= det(v) <= det_cap(v.len() as int, b),
    decreases v.len(), v.len() + 2,
{
    let n = v.len() as int;
    if v.len() == 2 {
        assert(v[1].len() == v[0].len());
        assert(-b <= v[0][0] <= b);
        assert(-b <= v[0][1] <= b);
        assert(-b <= v[1][0] <= b);
        assert(-b <= v[1][1] <= b);
        assert(-(b * b) <= v[0][0] * v[1][1] <= b * b) by (nonlinear_arith)
            requires
                -b <= v[0][0] <= b,
                -b <= v[1][1] <= b,
                b >= 0,
        ;
        assert(-(b * b) <= v[1][0] * v[0][1] <= b * b) by (nonlinear_arith)
            requires
                -b <= v[1][0] <= b,
                -b <= v[0][1] <= b,
                b >= 0,
        ;
        assert(det(v) == v[0][0] * v[1][1] - v[1][0] * v[0][1]);
        assert(2 * b * b == b * b + b * b) by (nonlinear_arith);
        assert(det_cap(n, b) == 2 * b * b);
    } else {
        lemma_det_sum_bound(v, n, b);
        let cap1 = det_cap(n - 1, b);
        assert(v[0].len() == v.len());
        assert(det(v) == det_sum(v, n));
        assert(-(n * (b * cap1)) <= det_sum(v, n) <= n * (b * cap1));
        if n == 3 {
            assert(3 * (b * (2 * b * b)) == 6 * b * b * b) by (nonlinear_arith);
            assert(det_cap(n, b) == n * (b * cap1));
        } else {
            assert(4 * (b * (6 * b * b * b)) == 24 * b * b * b * b) by (nonlinear_arith);
            assert(det_cap(n, b) == n * (b * cap1));
        }
    }
}

/// Bound on the partial cofactor expansion: each of the `c` terms is an
/// entry times a cofactor of a matrix one smaller.
proof fn lemma_det_sum_bound(v: Seq<Seq<int>>, c: int, b: int)
    requires
        square(v),
        3 <= v.len() <= 4,
        0 <= c <= v.len(),
        bounded(v, b),
        b >= 0,
    ensures
        -(c * (b * det_cap(v.len() - 1, b))) <= det_sum(v, c) <= c * (b * det_cap(v.len() - 1, b)),
    decreases v.len(), c + 1,
{
    let n = v.len() as int;
    let cap1 = det_cap(n - 1, b);
    if c > 0 {
        lemma_det_sum_bound(v, c - 1, b);
        lemma_sub_props(v, 0, c - 1, b);
        lemma_det_bound(sub_seq(v, 0, c - 1), b);
        let d = det(sub_seq(v, 0, c - 1));
        let sgn = cof_sign(0, c - 1);
        assert(-b <= v[0][c - 1] <= b);
        assert(cap1 == 2 * b * b || cap1 == 6 * b * b * b);
        assert(-(b * cap1) <= v[0][c - 1] * sgn * d <= b * cap1) by (nonlinear_arith)
            requires
                -b <= v[0][c - 1] <= b,
                -cap1 <= d <= cap1,
                sgn == 1 || sgn == -1,
                b >= 0,
                cap1 == 2 * b * b || cap1 == 6 * b * b * b,
        ;
        assert(c * (b * cap1) == (c - 1) * (b * cap1) + b * cap1) by (nonlinear_arith);
    }
}

impl Matrix {
    /// A zero matrix with `x` columns and `y` rows.
    pub fn new(x: usize, y: usize) -> (m: Matrix)
        ensures
            m@.len() == y,
            forall|i: int| 0 <= i < y ==> #[trigger] m@[i].len() == x,
            forall|i: int, j: int| 0 <= i < y && 0 <= j < x ==> #[trigger] m@[i][j] == 0,
    {
        let mut data: Vec<Vec<Scalar>> = Vec::new();
        let mut r: usize = 0;
        while r < y
            invariant
                r <= y,
                data@.len() == r,
                forall|i: int| 0 <= i < r ==> #[trigger] data@[i]@.len() == x,
                forall|i: int, j: int|
                    0 <= i < r && 0 <= j < x ==> #[trigger] data@[i]@[j].millis == 0,
            decreases y - r,
        {
            let mut row: Vec<Scalar> = Vec::new();
            let mut c: usize = 0;
            while c < x
                invariant
                    c <= x,
                    row@.len() == c,
                    forall|j: int| 0 <= j < c ==> #[trigger] row@[j].millis == 0,
                decreases x - c,
            {
                row.push(Scalar { millis: 0 });
                c = c + 1;
            }
            data.push(row);
            r = r + 1;
        }
        Matrix { data }
    }

    /// Wraps rows of scalars as a matrix.
    pub fn from(input: Vec<Vec<Scalar>>) -> (m: Matrix)
        ensures
            m@ == mat_of(input@),
    {
        Matrix { data: input }
    }

    /// The matrix flipped over its diagonal.
    pub fn transpose(&self) -> (m: Matrix)
        requires
            rect(self@),
            self@.len() > 0,
        ensures
            m@.len() == self@[0].len(),
            forall|i: int| 0 <= i < m@.len() ==> #[trigger] m@[i].len() == self@.len(),
            forall|i: int, j: int|
                0 <= i < self@[0].len() && 0 <= j < self@.len() ==> #[trigger] m@[i][j]
                    == self@[j][i],
    {
        let rows = self.data.len();
        let cols = self.data[0].len();
        let mut data: Vec<Vec<Scalar>> = Vec::new();
        let mut i: usize = 0;
        while i < cols
            invariant
                rect(self@),
                rows == self@.len(),
                rows > 0,
                cols == self@[0].len(),
                i <= cols,
                data@.len() == i,
                forall|r: int| 0 <= r < i ==> #[trigger] data@[r]@.len() == rows,
                forall|r: int, c: int|
                    0 <= r < i && 0 <= c < rows ==> #[trigger] data@[r]@[c].millis == self@[c][r],
            decreases cols - i,
        {
            let mut row: Vec<Scalar> = Vec::new();
            let mut j: usize = 0;
            while j < rows
                invariant
                    rect(self@),
                    rows == self@.len(),
                    cols == self@[0].len(),
                    i < cols,
                    j <= rows,
                    row@.len() == j,
                    forall|c: int|
                        0 <= c < j ==> #[trigger] row@[c].millis == self@[c][i as int],
                decreases rows - j,
            {
                proof {
                    assert(self@[j as int].len() == self@[0].len());
                    assert(self.data@[j as int]@.len() == self@[j as int].len());
                }
                row.push(self.data[j][i]);
                j = j + 1;
            }
            data.push(row);
            i = i + 1;
        }
        Matrix { data }
    }

    /// The pair (number of rows, number of columns of the first row).
    pub fn dimensions(&self) -> (d: (usize, usize))
        requires
            self@.len() > 0,
        ensures
            d.0 == self@.len(),
            d.1 == self@[0].len(),
    {
        (self.data.len(), self.data[0].len())
    }

    /// Closed-form determinant of a 2-by-2 matrix.
    fn determinant_2x2(&self) -> (r: Scalar)
        requires
            square(self@),
            self@.len() == 2,
            integral(self@),
            bounded(self@, MILLIS_MAX as int),
        ensures
            r.millis == SCALE * det(vals(self@)),
    {
        proof {
            lemma_vals_props(self@);
            assert(self@[1].len() == self@[0].len());
            assert(self@[0][0] % (SCALE as int) == 0);
            assert(self@[0][1] % (SCALE as int) == 0);
            assert(self@[1][0] % (SCALE as int) == 0);
            assert(self@[1][1] % (SCALE as int) == 0);
            assert(-(MILLIS_MAX as int) <= self@[0][0] <= MILLIS_MAX as int);
            assert(-(MILLIS_MAX as int) <= self@[0][1] <= MILLIS_MAX as int);
            assert(-(MILLIS_MAX as int) <= self@[1][0] <= MILLIS_MAX as int);
            assert(-(MILLIS_MAX as int) <= self@[1][1] <= MILLIS_MAX as int);
        }
        let v00 = div_exact(self.data[0][0].millis, SCALE);
        let v01 = div_exact(self.data[0][1].millis, SCALE);
        let v10 = div_exact(self.data[1][0].millis, SCALE);
        let v11 = div_exact(self.data[1][1].millis, SCALE);
        proof {
            assert(-1000000 <= v00 * v11 <= 1000000) by (nonlinear_arith)
                requires
                    -1000 <= v00 <= 1000,
                    -1000 <= v11 <= 1000,
            ;
            assert(-1000000 <= v10 * v01 <= 1000000) by (nonlinear_arith)
                requires
                    -1000 <= v10 <= 1000,
                    -1000 <= v01 <= 1000,
            ;
        }
        let d = v00 * v11 - v10 * v01;
        proof {
            let w = vals(self@);
            assert(w[0][0] == v00 && w[0][1] == v01 && w[1][0] == v10 && w[1][1] == v11);
            assert(det(w) == w[0][0] * w[1][1] - w[1][0] * w[0][1]);
        }
        Scalar { millis: SCALE * d }
    }

    /// Determinant by cofactor expansion along the first row.
    fn determinant_ixj(&self) -> (r: Scalar)
        requires
            square(self@),
            3 <= self@.len() <= 4,
            integral(self@),
            bounded(self@, MILLIS_MAX as int),
        ensures
            r.millis == SCALE * det(vals(self@)),
        decreases self@.len(), 2int,
    {
        let columns = self.data.len();
        let ghost w = vals(self@);
        proof {
            lemma_vals_props(self@);
        }
        let mut total: i64 = 0;
        let mut i: usize = 0;
        while i < columns
            invariant
                square(self@),
                3 <= self@.len() <= 4,
                integral(self@),
                bounded(self@, MILLIS_MAX as int),
                columns == self@.len(),
                i <= columns,
                w == vals(self@),
                total == SCALE * det_sum(w, i as int),
            decreases columns - i,
        {
            proof {
                lemma_vals_props(self@);
                lemma_sub_props(w, 0, i as int, 1000);
                lemma_vals_sub_commute(self@, 0, i as int);
                lemma_det_bound(sub_seq(w, 0, i as int), 1000);
                lemma_det_sum_bound(w, i as int, 1000);
                assert(self@[0][i as int] % (SCALE as int) == 0);
                assert(-(MILLIS_MAX as int) <= self@[0][i as int] <= MILLIS_MAX as int);
            }
            let cof = self.cofactor(0, i);
            let v0i = div_exact(self.data[0][i].millis, SCALE);
            proof {
                let sgn = cof_sign(0, i as int);
                let d = det(sub_seq(w, 0, i as int));
                assert(cof.millis == SCALE * sgn * d);
                assert(-6_000_000_000_000 <= cof.millis <= 6_000_000_000_000) by (nonlinear_arith)
                    requires
                        cof.millis == SCALE * sgn * d,
                        sgn == 1 || sgn == -1,
                        -6_000_000_000 <= d <= 6_000_000_000,
                        SCALE == 1000,
                ;
                assert(-6_000_000_000_000_000 <= v0i * cof.millis <= 6_000_000_000_000_000)
                    by (nonlinear_arith)
                    requires
                        -1000 <= v0i <= 1000,
                        -6_000_000_000_000 <= cof.millis <= 6_000_000_000_000,
                ;
                let cap = det_cap(w.len() - 1, 1000);
                assert(0 <= cap <= 6_000_000_000);
                let ds = det_sum(w, i as int);
                assert(-24_000_000_000_000 <= ds <= 24_000_000_000_000) by (nonlinear_arith)
                    requires
                        -((i as int) * (1000 * cap)) <= ds <= (i as int) * (1000 * cap),
                        0 <= i <= 4,
                        0 <= cap <= 6_000_000_000,
                ;
                assert(-24_000_000_000_000_000 <= total <= 24_000_000_000_000_000);
            }
            let term = v0i * cof.millis;
            total = total + term;
            proof {
                let sgn = cof_sign(0, i as int);
                let d = det(sub_seq(w, 0, i as int));
                assert(w[0][i as int] == v0i);
                assert(det_sum(w, i + 1) == det_sum(w, i as int) + w[0][i as int] * sgn * d);
                assert(v0i * ((SCALE as int) * sgn * d) == (SCALE as int) * (v0i * sgn * d))
                    by (nonlinear_arith);
            }
            i = i + 1;
        }
        proof {
            assert(self@[0].len() == self@.len());
            assert(w[0].len() == columns);
            assert(det(w) == det_sum(w, columns as int));
        }
        Scalar { millis: total }
    }

    /// Determinant of a square matrix of side 2 to 4 with whole-number
    /// entries of magnitude at most 1000; the result is exact.
    pub fn determinant(&self) -> (r: Scalar)
        requires
            square(self@),
            2 <= self@.len() <= 4,
            integral(self@),
            bounded(self@, MILLIS_MAX as int),
        ensures
            r.millis == SCALE * det(vals(self@)),
        decreases self@.len(), 3int,
    {
        let (rows, _) = self.dimensions();
        if rows == 2 {
            self.determinant_2x2()
        } else {
            self.determinant_ixj()
        }
    }

    /// Determinant of the submatrix with `row` and `column` struck out.
    pub fn minor(&self, row: usize, column: usize) -> (r: Scalar)
        requires
            square(self@),
            3 <= self@.len() <= 4,
            row < self@.len(),
            column < self@.len(),
            integral(self@),
            bounded(self@, MILLIS_MAX as int),
        ensures
            r.millis == SCALE * det(vals(sub_seq(self@, row as int, column as int))),
        decreases self@.len(), 0int,
    {
        proof {
            lemma_sub_props(self@, row as int, column as int, MILLIS_MAX as int);
        }
        let s = self.submatrix(row, column);
        s.determinant()
    }

    /// The minor at (`row`, `column`) carrying the sign (-1)^(row+column).
    pub fn cofactor(&self, row: usize, column: usize) -> (r: Scalar)
        requires
            square(self@),
            3 <= self@.len() <= 4,
            row < self@.len(),
            column < self@.len(),
            integral(self@),
            bounded(self@, MILLIS_MAX as int),
        ensures
            r.millis == SCALE * cof_sign(row as int, column as int) * det(
                vals(sub_seq(self@, row as int, column as int)),
            ),
        decreases self@.len(), 1int,
    {
        let m = self.minor(row, column);
        proof {
            lemma_sub_props(self@, row as int, column as int, MILLIS_MAX as int);
            lemma_vals_sub_commute(self@, row as int, column as int);
            lemma_vals_props(self@);
            lemma_sub_props(vals(self@), row as int, column as int, 1000);
            lemma_det_bound(sub_seq(vals(self@), row as int, column as int), 1000);
        }
        let odd = is_odd(column + row);
        proof {
            let sgn = cof_sign(row as int, column as int);
            let d = det(vals(sub_seq(self@, row as int, column as int)));
            assert(m.millis == SCALE * d);
            if odd {
                assert((row + column) % 2 != 0);
                assert(sgn == -1);
                assert(SCALE * (-1int) * d == -(SCALE * d));
            } else {
                assert((row + column) % 2 == 0);
                assert(sgn == 1);
                assert(SCALE * 1int * d == SCALE * d);
            }
        }
        if odd {
            Scalar { millis: -m.millis }
        } else {
            m
        }
    }

    /// The matrix with one row and one column struck out.
    pub fn submatrix(&self, row: usize, column: usize) -> (m: Matrix)
        requires
            square(self@),
            self@.len() >= 2,
            row < self@.len(),
            column < self@.len(),
        ensures
            m@ == sub_seq(self@, row as int, column as int),
    {
        let n = self.data.len();
        let mut data: Vec<Vec<Scalar>> = Vec::new();
        let mut r: usize = 0;
        while r < n
            invariant
                square(self@),
                n == self@.len(),
                row < n,
                column < n,
                r <= n,
                data@.len() == if r <= row {
                    r as int
                } else {
                    r - 1
                },
                forall|i: int| 0 <= i < data@.len() ==> #[trigger] data@[i]@.len() == n - 1,
                forall|i: int, j: int|
                    0 <= i < data@.len() && 0 <= j < n - 1 ==> #[trigger] data@[i]@[j]
                        == self.data@[
                        if i < row {
                            i
                        } else {
                            i + 1
                        }
                    ]@[
                        if j < column {
                            j
                        } else {
                            j + 1
                        }
                    ],
            decreases n - r,
        {
            if r != row {
                let mut new_row: Vec<Scalar> = Vec::new();
                let mut c: usize = 0;
                while c < n
                    invariant
                        square(self@),
                        n == self@.len(),
                        r < n,
                        column < n,
                        c <= n,
                        new_row@.len() == if c <= column {
                            c as int
                        } else {
                            c - 1
                        },
                        forall|j: int|
                            0 <= j < new_row@.len() ==> #[trigger] new_row@[j] == self.data@[
                                r as int
                            ]@[
                                if j < column {
                                    j
                                } else {
                                    j + 1
                                }
                            ],
                    decreases n - c,
                {
                    proof {
                        assert(self@[r as int].len() == self@[0].len());
                        assert(self.data@[r as int]@.len() == self@[r as int].len());
                    }
                    if c != column {
                        new_row.push(self.data[r][c]);
                    }
                    c = c + 1;
                }
                data.push(new_row);
            }
            r = r + 1;
        }
        let m = Matrix { data };
        proof {
            let s = sub_seq(self@, row as int, column as int);
            assert forall|i: int| 0 <= i < m@.len() implies m@[i] =~= s[i] by {
                assert(m@[i].len() == n - 1);
                assert(s[i].len() == n - 1);
                assert forall|j: int| 0 <= j < n - 1 implies m@[i][j] == s[i][j] by {
                    let ri = if i < row {
                        i
                    } else {
                        i + 1
                    };
                    let cj = if j < column {
                        j
                    } else {
                        j + 1
                    };
                    assert(m@[i][j] == self.data@[ri]@[cj].millis);
                    assert(s[i][j] == self@[ri][cj]);
                }
            }
            assert(m@ =~~= s);
        }
        m
    }
}

/// Sum of the first `k` products pairing row `i` of `va` with column
/// `j` of `vb`.
pub open spec fn cell(va: Seq<Seq<int>>, vb: Seq<Seq<int>>, i: int, j: int, k: int) -> int
    decreases k,
{
    if k <= 0 {
        0
    } else {
        cell(va, vb, i, j, k - 1) + va[i][k - 1] * vb[k - 1][j]
    }
}

/// Matrix product of two integral matrices: entry (i, j) of the result
/// is the exact dot product of row i of `a` with column j of `b`.
pub fn multiply(a: Matrix, b: Matrix) -> (m: Matrix)
    requires
        rect(a@),
        rect(b@),
        a@.len() > 0,
        b@.len() > 0,
        a@[0].len() == b@.len(),
        b@.len() <= 4,
        integral(a@),
        integral(b@),
        bounded(a@, MILLIS_MAX as int),
        bounded(b@, MILLIS_MAX as int),
    ensures
        m@.len() == a@.len(),
        forall|i: int| 0 <= i < m@.len() ==> #[trigger] m@[i].len() == b@[0].len(),
        forall|i: int, j: int|
            0 <= i < a@.len() && 0 <= j < b@[0].len() ==> #[trigger] m@[i][j] == SCALE * cell(
                vals(a@),
                vals(b@),
                i,
                j,
                b@.len() as int,
            ),
{
    let ghost wa = vals(a@);
    let ghost wb = vals(b@);
    proof {
        lemma_vals_props(a@);
        lemma_vals_props(b@);
    }
    let (ay, _ax) = a.dimensions();
    let (by, bx) = b.dimensions();
    let mut data: Vec<Vec<Scalar>> = Vec::new();
    let mut i: usize = 0;
    while i < ay
        invariant
            rect(a@),
            rect(b@),
            a@.len() > 0,
            b@.len() > 0,
            a@[0].len() == b@.len(),
            b@.len() <= 4,
            integral(a@),
            integral(b@),
            bounded(a@, MILLIS_MAX as int),
            bounded(b@, MILLIS_MAX as int),
            wa == vals(a@),
            wb == vals(b@),
            ay == a@.len(),
            by == b@.len(),
            bx == b@[0].len(),
            i <= ay,
            data@.len() == i,
            forall|r: int| 0 <= r < i ==> #[trigger] data@[r]@.len() == bx,
            forall|r: int, c: int|
                0 <= r < i && 0 <= c < bx ==> #[trigger] data@[r]@[c].millis == SCALE * cell(
                    wa,
                    wb,
                    r,
                    c,
                    by as int,
                ),
        decreases ay - i,
    {
        let mut new_row: Vec<Scalar> = Vec::new();
        let mut j: usize = 0;
        while j < bx
            invariant
                rect(a@),
                rect(b@),
                a@.len() > 0,
                b@.len() > 0,
                a@[0].len() == b@.len(),
                b@.len() <= 4,
                integral(a@),
                integral(b@),
                bounded(a@, MILLIS_MAX as int),
                bounded(b@, MILLIS_MAX as int),
                wa == vals(a@),
                wb == vals(b@),
                ay == a@.len(),
                by == b@.len(),
                bx == b@[0].len(),
                i < ay,
                j <= bx,
                new_row@.len() == j,
                forall|c: int|
                    0 <= c < j ==> #[trigger] new_row@[c].millis == SCALE * cell(
                        wa,
                        wb,
                        i as int,
                        c,
                        by as int,
                    ),
            decreases bx - j,
        {
            let mut total: i64 = 0;
            let mut k: usize = 0;
            while k < by
                invariant
                    rect(a@),
                    rect(b@),
                    a@.len() > 0,
                    b@.len() > 0,
                    a@[0].len() == b@.len(),
                    b@.len() <= 4,
                    integral(a@),
                    integral(b@),
                    bounded(a@, MILLIS_MAX as int),
                    bounded(b@, MILLIS_MAX as int),
                    wa == vals(a@),
                    wb == vals(b@),
                    ay == a@.len(),
                    by == b@.len(),
                    bx == b@[0].len(),
                    i < ay,
                    j < bx,
                    k <= by,
                    total == SCALE * cell(wa, wb, i as int, j as int, k as int),
                    -(k as int) * 1_000_000_000 <= total <= (k as int) * 1_000_000_000,
                decreases by - k,
            {
                proof {
                    lemma_vals_props(a@);
                    lemma_vals_props(b@);
                    assert(a@[i as int].len() == a@[0].len());
                    assert(b@[k as int].len() == b@[0].len());
                    assert(a@[i as int][k as int] % (SCALE as int) == 0);
                    assert(-(MILLIS_MAX as int) <= a@[i as int][k as int] <= MILLIS_MAX as int);
                    assert(-(MILLIS_MAX as int) <= b@[k as int][j as int] <= MILLIS_MAX as int);
                }
                let va = div_exact(a.data[i][k].millis, SCALE);
                let bm = b.data[k][j].millis;
                proof {
                    let vb = wb[k as int][j as int];
                    assert(vb * (SCALE as int) == b@[k as int][j as int]);
                    assert(va * bm == (SCALE as int) * (va * vb)) by (nonlinear_arith)
                        requires
                            bm == vb * (SCALE as int),
                            SCALE == 1000,
                    ;
                    assert(-1_000_000_000 <= va * bm <= 1_000_000_000) by (nonlinear_arith)
                        requires
                            -1000 <= va <= 1000,
                            -1_000_000 <= bm <= 1_000_000,
                    ;
                    assert(wa[i as int][k as int] == va);
                    assert(cell(wa, wb, i as int, j as int, k + 1) == cell(
                        wa,
                        wb,
                        i as int,
                        j as int,
                        k as int,
                    ) + wa[i as int][k as int] * vb);
                }
                total = total + va * bm;
                k = k + 1;
            }
            new_row.push(Scalar { millis: total });
            j = j + 1;
        }
        data.push(new_row);
        i = i + 1;
    }
    let m = Matrix { data };
    proof {
        assert forall|r: int, c: int| 0 <= r < a@.len() && 0 <= c < b@[0].len() implies #[trigger] m@[r][c]
            == SCALE * cell(wa, wb, r, c, b@.len() as int) by {
            assert(m@[r][c] == m.data@[r]@[c].millis);
        }
    }
    m
}

impl PartialEq for Matrix {
    /// Two matrices are equal when they hold the same scalars in the
    /// same places.
    fn eq(&self, other: &Matrix) -> (r: bool) {
        let n = self.data.len();
        if n != other.data.len() {
            return false;
        }
        let mut i: usize = 0;
        while i < n
            invariant
                n == self@.len(),
                n == other@.len(),
                i <= n,
                forall|k: int| 0 <= k < i ==> self@[k] == other@[k],
            decreases n - i,
        {
            let cols = self.data[i].len();
            if cols != other.data[i].len() {
                proof {
                    assert(self@[i as int].len() != other@[i as int].len());
                }
                return false;
            }
            let mut j: usize = 0;
            while j < cols
                invariant
                    n == self@.len(),
                    n == other@.len(),
                    i < n,
                    cols == self@[i as int].len(),
                    cols == other@[i as int].len(),
                    j <= cols,
                    forall|t: int| 0 <= t < j ==> self@[i as int][t] == other@[i as int][t],
                decreases cols - j,
            {
                if self.data[i][j].millis != other.data[i][j].millis {
                    proof {
                        assert(self@[i as int][j as int] != other@[i as int][j as int]);
                    }
                    return false;
                }
                j = j + 1;
            }
            proof {
                assert(self@[i as int] =~= other@[i as int]);
            }
            i = i + 1;
        }
        proof {
            assert(self@ =~~= other@);
        }
        true
    }
}

impl vstd::std_specs::cmp::PartialEqSpecImpl for Matrix {
    open spec fn obeys_eq_spec() -> bool {
        true
    }

    open spec fn eq_spec(&self, other: &Matrix) -> bool {
        self@ == other@
    }
}

/// A zero matrix with `cols` columns and `rows` rows.
pub fn matrix(cols: usize, rows: usize) -> (m: Matrix)
    ensures
        m@.len() == rows,
        forall|i: int| 0 <= i < rows ==> #[trigger] m@[i].len() == cols,
        forall|i: int, j: int| 0 <= i < rows && 0 <= j < cols ==> #[trigger] m@[i][j] == 0,
{
    Matrix::new(cols, rows)
}

} // verus!
