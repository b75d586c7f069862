//! A low-discrepancy Sobol sequence generator.
//!
//! A Sobol sequence fills the unit hypercube more evenly than pseudo-random
//! sampling. Each output type works over an unsigned internal integer type;
//! per-dimension direction vectors are derived from primitive-polynomial
//! parameters supplied by a [`SobolParams`] provider, and points are produced
//! incrementally with the Gray-code update rule (one XOR per dimension per
//! step).

use vstd::prelude::*;
use vstd::arithmetic::power2::{pow2, lemma2_to64, lemma_pow2_strictly_increases, lemma_pow2_adds, lemma_pow2_pos};

pub mod params;
mod type_support;

verus! {

/// The internal working-integer interface: an unsigned, fixed-width integer
/// type, modelled in specifications through `to_nat` (its numeric value) and
/// abstract bitwise operations.
pub trait InternalType: Sized + Copy {
    /// Number of bits in this type.
    spec fn bits_spec() -> nat;

    /// The numeric value.
    spec fn to_nat(self) -> nat;

    spec fn sp_zero() -> Self;

    spec fn sp_one() -> Self;

    spec fn sp_xor(self, o: Self) -> Self;

    spec fn sp_shl(self, k: nat) -> Self;

    spec fn sp_shr(self, k: nat) -> Self;

    /// Basic facts: the width is positive, the constants have their numeric
    /// values, and every value fits in the width.
    proof fn lemma_props()
        ensures
            Self::bits_spec() >= 1,
            Self::sp_zero().to_nat() == 0,
            Self::sp_one().to_nat() == 1,
            forall|v: Self| #[trigger] v.to_nat() < pow2(Self::bits_spec()),
    ;

    /// Shifting one left by `k` yields `2^k`.
    proof fn lemma_one_shl(k: nat)
        requires
            k < Self::bits_spec(),
        ensures
            Self::sp_one().sp_shl(k).to_nat() == pow2(k),
    ;

    /// Shifting right by `k` divides by `2^k`.
    proof fn lemma_shr_div(x: Self, k: nat)
        requires
            k < Self::bits_spec(),
        ensures
            x.sp_shr(k).to_nat() == x.to_nat() / pow2(k),
    ;

    fn bits() -> (r: usize)
        ensures
            r == Self::bits_spec(),
    ;

    fn zero() -> (r: Self)
        ensures
            r == Self::sp_zero(),
    ;

    fn one() -> (r: Self)
        ensures
            r == Self::sp_one(),
    ;

    fn max_value() -> (r: Self)
        ensures
            r.to_nat() == pow2(Self::bits_spec()) - 1,
    ;

    fn xor(self, o: Self) -> (r: Self)
        ensures
            r == self.sp_xor(o),
    ;

    fn shl(self, k: usize) -> (r: Self)
        requires
            k < Self::bits_spec(),
        ensures
            r == self.sp_shl(k as nat),
    ;

    fn shr(self, k: usize) -> (r: Self)
        requires
            k < Self::bits_spec(),
        ensures
            r == self.sp_shr(k as nat),
    ;

    /// Whether bit `k` (zero-based from the least significant) is set.
    fn bit(self, k: usize) -> (r: bool)
        requires
            k < Self::bits_spec(),
        ensures
            r == (self.to_nat() / pow2(k as nat) % 2 == 1),
    ;

    fn add_one(self) -> (r: Self)
        requires
            self.to_nat() + 1 < pow2(Self::bits_spec()),
        ensures
            r.to_nat() == self.to_nat() + 1,
    ;

    fn sub_one(self) -> (r: Self)
        requires
            self.to_nat() >= 1,
        ensures
            r.to_nat() == self.to_nat() - 1,
    ;

    fn lt(self, o: Self) -> (r: bool)
        ensures
            r == (self.to_nat() < o.to_nat()),
    ;
}

/// A more permissive `From`: a lossy numeric cast (truncating when narrowing,
/// zero-extending when widening), used for casting parameter values to
/// internal values. Always total, never an error.
pub trait LossyFrom<T>: Sized {
    spec fn lossy_from_spec(v: T) -> Self;

    fn lossy_from(v: T) -> (r: Self)
        ensures
            r == Self::lossy_from_spec(v),
    ;
}

/// The element type of a produced point. Each output type fixes the unsigned
/// internal type used to compute the sequence, a rendering function from
/// internal values to output values, and the maximum usable resolution.
pub trait SobolType: Sized {
    /// The unsigned integer type used internally to compute sequence values.
    type IT: InternalType;

    /// What `render` returns for a given internal value.
    spec fn render_spec(v: Self::IT) -> Self;

    /// The maximum number of bits this output type can use.
    spec fn max_resolution_spec() -> nat;

    /// The maximum resolution is at least one bit and fits the internal width.
    proof fn lemma_max_resolution()
        ensures
            1 <= Self::max_resolution_spec() <= Self::IT::bits_spec(),
    ;

    /// Converts an internal value to the output value.
    fn render(v: Self::IT) -> (r: Self)
        ensures
            r == Self::render_spec(v),
    ;

    fn max_resolution() -> (r: usize)
        ensures
            r == Self::max_resolution_spec(),
    ;
}

/// The mathematical view of one dimension's parameter record: the dimension
/// index, the polynomial degree `s`, the polynomial's coefficient bits
/// (index 0 is the least significant), and the `s` initial direction values.
pub struct DimParams {
    pub d: u16,
    pub s: nat,
    pub coeffs: Seq<bool>,
    pub m: Seq<u32>,
}

/// Coefficient bit `i` as the 0-or-1 word a provider hands out.
pub open spec fn coeff_bit(coeffs: Seq<bool>, i: int) -> u32 {
    if 0 <= i < coeffs.len() && coeffs[i] {
        1u32
    } else {
        0u32
    }
}

/// Primitive polynomial parameters and initial direction values for a single
/// dimension (dimensions two and up; dimension one needs no parameters).
pub trait ParamDimension {
    /// The record's mathematical view.
    spec fn params_view(&self) -> DimParams;

    /// The one-based index of this dimension.
    fn d(&self) -> (r: u16)
        ensures
            r == self.params_view().d,
    ;

    /// The degree of the primitive polynomial, which is also the number of
    /// initial direction values.
    fn s(&self) -> (r: usize)
        ensures
            r == self.params_view().s,
            self.params_view().m.len() == self.params_view().s,
    ;

    /// The binary coefficient for bit `i`, the zero-based index from the right.
    fn coefficient(&self, i: usize) -> (r: u32)
        ensures
            r == coeff_bit(self.params_view().coeffs, i as int),
    ;

    /// The initial direction value for index `i`, zero-based.
    fn m(&self, i: usize) -> (r: u32)
        requires
            i < self.params_view().s,
        ensures
            r == self.params_view().m[i as int],
    ;
}

/// Primitive polynomial parameters and initial direction values for all
/// sequence dimensions, supplied by a caller-chosen provider.
pub trait SobolParams {
    type Dim: ParamDimension;

    /// The provider's well-formedness condition.
    spec fn inv(&self) -> bool;

    spec fn max_dims_spec(&self) -> nat;

    /// The view of dimension `dim` (two-based through `max_dims_spec()`).
    spec fn dim_view(&self, dim: int) -> DimParams;

    /// Maximum number of dimensions supported by this instance.
    fn max_dims(&self) -> (r: usize)
        requires
            self.inv(),
        ensures
            r == self.max_dims_spec(),
    ;

    /// Parameters for a given dimension.
    fn get_dim(&self, dim: usize) -> (r: &Self::Dim)
        requires
            self.inv(),
            2 <= dim,
            dim <= self.max_dims_spec(),
        ensures
            r.params_view() == self.dim_view(dim as int),
    ;
}

pub open spec fn min_nat(a: nat, b: nat) -> nat {
    if a <= b {
        a
    } else {
        b
    }
}

/// Direction value `j` (zero-based) of dimension one: successive single bits
/// from the most significant downward.
pub open spec fn dim1_dir_at<IT: InternalType>(j: nat) -> IT {
    IT::sp_one().sp_shl((IT::bits_spec() - 1 - j) as nat)
}

/// Direction value `j` (zero-based) of a dimension with parameter record `p`,
/// at resolution `res`: the first `min(s, res)` values are the initial
/// direction values shifted to the top bits; later values follow the
/// bit-recurrence over the polynomial coefficients.
pub open spec fn dir_at<IT: InternalType + LossyFrom<u32>>(p: DimParams, res: nat, j: nat) -> IT
    decreases j, 1nat, 0nat,
{
    let s = min_nat(p.s, res);
    if j < s {
        <IT as LossyFrom<u32>>::lossy_from_spec(p.m[j as int]).sp_shl(
            (IT::bits_spec() - 1 - j) as nat,
        )
    } else if s == 0 {
        IT::sp_zero()
    } else {
        acc_at::<IT>(p, res, j, s)
    }
}

/// The recurrence accumulator for direction value `j`, after folding in the
/// coefficient terms with indices below `k`: `k == 1` is the base term
/// `dir[j-s] ^ (dir[j-s] >> s)`, and each further step XORs in `dir[j-i]`
/// when coefficient bit `s-i-1` is set.
pub open spec fn acc_at<IT: InternalType + LossyFrom<u32>>(
    p: DimParams,
    res: nat,
    j: nat,
    k: nat,
) -> IT
    decreases j, 0nat, k,
{
    let s = min_nat(p.s, res);
    if s == 0 || j < s || k < 1 || k > s {
        IT::sp_zero()
    } else if k == 1 {
        let prev = dir_at::<IT>(p, res, (j - s) as nat);
        prev.sp_xor(prev.sp_shr(s))
    } else {
        let t = acc_at::<IT>(p, res, j, (k - 1) as nat);
        if coeff_bit(p.coeffs, s - (k - 1) - 1) == 1u32 {
            t.sp_xor(dir_at::<IT>(p, res, (j - (k - 1)) as nat))
        } else {
            t
        }
    }
}

/// The zero-based index of the lowest binary zero of `n`.
pub open spec fn lowest_zero_bit(n: nat) -> nat
    decreases n,
{
    if n % 2 == 0 {
        0
    } else {
        1 + lowest_zero_bit(n / 2)
    }
}

/// The `k`-th raw point (zero-based) over the bit-position-major direction
/// table `tbl`: point zero is the origin, and each further point XORs in the
/// direction row indexed by the lowest zero bit of `k - 1`.
pub open spec fn raw_point<IT: InternalType>(tbl: Seq<Seq<IT>>, dims: nat, k: nat) -> Seq<IT>
    decreases k,
{
    if k == 0 {
        Seq::new(dims, |d: int| IT::sp_zero())
    } else {
        let c = lowest_zero_bit((k - 1) as nat) as int;
        let prev = raw_point::<IT>(tbl, dims, (k - 1) as nat);
        Seq::new(dims, |d: int| prev[d].sp_xor(tbl[c][d]))
    }
}

/// The `k`-th rendered point: the raw point mapped through the output type's
/// rendering function.
pub open spec fn rendered_point<T: SobolType>(tbl: Seq<Seq<T::IT>>, dims: nat, k: nat) -> Seq<T> {
    raw_point::<T::IT>(tbl, dims, k).map(|d: int, v: T::IT| T::render_spec(v))
}

/// If the bits of `n` below `k` are all ones and bit `k` is zero, then `k` is
/// the lowest zero bit of `n`.
proof fn lemma_lzb_from_bits(n: nat, k: nat)
    requires
        forall|j: nat| j < k ==> #[trigger] (n / pow2(j)) % 2 == 1,
        (n / pow2(k)) % 2 == 0,
    ensures
        lowest_zero_bit(n) == k,
    decreases k,
{
    lemma2_to64();
    if k == 0 {
        assert(n / pow2(0) == n);
    } else {
        assert((n / pow2(0)) % 2 == 1);
        assert(n % 2 == 1);
        assert forall|j: nat| j < k - 1 implies #[trigger] ((n / 2) / pow2(j)) % 2 == 1 by {
            lemma_pow2_adds(1, j);
            lemma_pow2_pos(j);
            vstd::arithmetic::div_mod::lemma_div_denominator(n as int, 2, pow2(j) as int);
            assert((n / pow2((j + 1) as nat)) % 2 == 1);
        }
        lemma_pow2_adds(1, (k - 1) as nat);
        lemma_pow2_pos((k - 1) as nat);
        vstd::arithmetic::div_mod::lemma_div_denominator(n as int, 2, pow2((k - 1) as nat) as int);
        lemma_lzb_from_bits(n / 2, (k - 1) as nat);
    }
}

/// Any `n` below `2^res - 1` has a zero bit below position `res`.
proof fn lemma_lzb_bound(n: nat, res: nat)
    requires
        res >= 1,
        n + 1 < pow2(res),
    ensures
        lowest_zero_bit(n) < res,
    decreases res,
{
    if n % 2 != 0 {
        lemma2_to64();
        if res == 1 {
            assert(false);
        } else {
            lemma_pow2_adds(1, (res - 1) as nat);
            lemma_lzb_bound(n / 2, (res - 1) as nat);
        }
    }
}

/// The resolution an engine adopts: an explicit choice is kept when it does
/// not exceed the output type's maximum and is clamped to that maximum
/// otherwise; without an explicit choice the maximum is used.
pub open spec fn chosen_resolution<T: SobolType>(resolution: Option<usize>) -> nat {
    match resolution {
        Option::Some(x) => if x as nat <= T::max_resolution_spec() {
            x as nat
        } else {
            T::max_resolution_spec()
        },
        Option::None => T::max_resolution_spec(),
    }
}

/// Shifting the all-ones value of width `b` right by `b - r` leaves
/// `2^r - 1`.
proof fn lemma_max_shr(b: nat, r: nat)
    requires
        1 <= r <= b,
    ensures
        ((pow2(b) - 1) as nat) / pow2((b - r) as nat) == (pow2(r) - 1) as nat,
{
    lemma_pow2_adds((b - r) as nat, r);
    lemma_pow2_pos((b - r) as nat);
    lemma_pow2_pos(r);
    let d = pow2((b - r) as nat) as int;
    let q = pow2(r) - 1;
    assert(d * pow2(r) - 1 == q * d + (d - 1)) by (nonlinear_arith)
        requires
            q == pow2(r) - 1,
    ;
    vstd::arithmetic::div_mod::lemma_fundamental_div_mod_converse(
        (pow2(b) - 1) as int,
        d,
        q,
        d - 1,
    );
}

/**
 * A low-discrepancy Sobol sequence generator.
 */
pub struct Sobol<T: SobolType> {
    pub dims: usize,
    pub resolution: usize,
    /// The direction table, bit-position-major: `dir_vals[c][d]` is direction
    /// value `c` of dimension `d + 1`.
    pub dir_vals: Vec<Vec<T::IT>>,
    /// The last raw point emitted, absent before the first point.
    pub previous: Option<Vec<T::IT>>,
    /// Number of points already emitted.
    pub count: T::IT,
    /// Maximum number of points producible: `2^resolution - 1`.
    pub max_len: T::IT,
}

impl<T: SobolType> Sobol<T> {
    /// The direction table as a sequence of bit-position rows.
    pub open spec fn table(&self) -> Seq<Seq<T::IT>> {
        Seq::new(self.dir_vals@.len() as nat, |c: int| self.dir_vals@[c]@)
    }

    /// The last raw point emitted, viewed as a sequence.
    pub open spec fn prev_view(&self) -> Option<Seq<T::IT>> {
        match self.previous {
            Option::None => Option::None,
            Option::Some(p) => Option::Some(p@),
        }
    }

    /// The engine's invariant: table shape, the count bound, the meaning of
    /// `max_len`, and that `previous` is exactly the raw point before `count`.
    pub open spec fn inv(&self) -> bool {
        &&& 1 <= self.dims
        &&& 1 <= self.resolution
        &&& self.resolution <= T::IT::bits_spec()
        &&& self.dir_vals@.len() == self.resolution
        &&& (forall|c: int|
            0 <= c < self.resolution ==> (#[trigger] self.dir_vals@[c])@.len() == self.dims)
        &&& self.max_len.to_nat() == pow2(self.resolution as nat) - 1
        &&& self.count.to_nat() <= self.max_len.to_nat()
        &&& match self.previous {
            Option::None => self.count.to_nat() == 0,
            Option::Some(p) => self.count.to_nat() >= 1 && p@ == raw_point::<T::IT>(
                self.table(),
                self.dims as nat,
                (self.count.to_nat() - 1) as nat,
            ),
        }
    }

    /// The point the next produce call will emit, or `None` once the sequence
    /// is exhausted.
    pub open spec fn spec_next_point(&self) -> Option<Seq<T>> {
        if self.count.to_nat() < self.max_len.to_nat() {
            Option::Some(rendered_point::<T>(self.table(), self.dims as nat, self.count.to_nat()))
        } else {
            Option::None
        }
    }

    /** Returns zero-based index of the rightmost binary zero. Used for the Gray code optimization */
    pub fn rightmost_zero(n: T::IT) -> (r: usize)
        ensures
            r == lowest_zero_bit(n.to_nat()),
    {
        let bits = T::IT::bits();
        proof {
            T::IT::lemma_props();
        }
        let mut c: usize = 0;
        while c < bits
            invariant
                c <= bits,
                bits == T::IT::bits_spec(),
                forall|j: nat| j < c ==> #[trigger] (n.to_nat() / pow2(j)) % 2 == 1,
            decreases bits - c,
        {
            if !n.bit(c) {
                proof {
                    lemma_lzb_from_bits(n.to_nat(), c as nat);
                }
                return c;
            }
            c += 1;
        }
        proof {
            lemma_pow2_pos(bits as nat);
            vstd::arithmetic::div_mod::lemma_basic_div(n.to_nat() as int, pow2(bits as nat) as int);
            lemma_lzb_from_bits(n.to_nat(), bits as nat);
        }
        bits
    }

    /**
     * Initializes per-dimension direction values given sequence parameters.
     * The result is dimension-major: entry `d` holds the `resolution`
     * direction values of dimension `d + 1`.
     */
    pub fn init_direction_vals<PP: SobolParams>(
        dims: usize,
        resolution: usize,
        params: &PP,
    ) -> (r: Vec<Vec<T::IT>>) where T::IT: LossyFrom<u32>
        requires
            params.inv(),
            dims <= params.max_dims_spec(),
            resolution <= T::IT::bits_spec(),
        ensures
            r@.len() == dims,
            forall|d: int| 0 <= d < dims ==> (#[trigger] r@[d])@.len() == resolution,
            forall|j: int| 0 <= j < resolution && dims >= 1 ==> r@[0]@[j] == dim1_dir_at::<
                T::IT,
            >(j as nat),
            forall|d: int, j: int|
                1 <= d < dims && 0 <= j < resolution ==> r@[d]@[j] == dir_at::<T::IT>(
                    params.dim_view(d + 1),
                    resolution as nat,
                    j as nat,
                ),
    {
        let bits = T::IT::bits();
        proof {
            T::IT::lemma_props();
        }
        let mut table: Vec<Vec<T::IT>> = Vec::new();
        if dims >= 1 {
            let mut row: Vec<T::IT> = Vec::new();
            let mut j: usize = 0;
            while j < resolution
                invariant
                    j <= resolution,
                    resolution <= T::IT::bits_spec(),
                    bits == T::IT::bits_spec(),
                    bits >= 1,
                    row@.len() == j,
                    forall|i: int| 0 <= i < j ==> row@[i] == dim1_dir_at::<T::IT>(i as nat),
                decreases resolution - j,
            {
                row.push(T::IT::one().shl(bits - 1 - j));
                j += 1;
            }
            table.push(row);
        }
        let mut drow: usize = 1;
        while drow < dims
            invariant
                1 <= drow <= dims || (dims == 0 && drow == 1),
                params.inv(),
                dims <= params.max_dims_spec(),
                resolution <= T::IT::bits_spec(),
                bits == T::IT::bits_spec(),
                bits >= 1,
                table@.len() == (if dims >= 1 { drow } else { 0 }),
                forall|d: int| 0 <= d < table@.len() ==> (#[trigger] table@[d])@.len()
                    == resolution,
                forall|j: int| 0 <= j < resolution && dims >= 1 ==> table@[0]@[j] == dim1_dir_at::<
                    T::IT,
                >(j as nat),
                forall|d: int, j: int|
                    1 <= d < table@.len() && 0 <= j < resolution ==> table@[d]@[j] == dir_at::<
                        T::IT,
                    >(params.dim_view(d + 1), resolution as nat, j as nat),
            decreases dims - drow,
        {
            let dim = drow + 1;
            let p = params.get_dim(dim);
            let ghost pv = params.dim_view(dim as int);
            let s_full = p.s();
            let s = if resolution >= s_full {
                s_full
            } else {
                resolution
            };
            proof {
                assert(s == min_nat(pv.s, resolution as nat));
            }
            let mut dirs: Vec<T::IT> = Vec::new();
            let mut z: usize = 0;
            while z < resolution
                invariant
                    z <= resolution,
                    dirs@.len() == z,
                    forall|i: int| 0 <= i < z ==> dirs@[i] == T::IT::sp_zero(),
                decreases resolution - z,
            {
                dirs.push(T::IT::zero());
                z += 1;
            }
            let mut j: usize = 0;
            while j < s
                invariant
                    j <= s,
                    s <= resolution,
                    s == min_nat(pv.s, resolution as nat),
                    resolution <= T::IT::bits_spec(),
                    bits == T::IT::bits_spec(),
                    p.params_view() == pv,
                    pv.m.len() == pv.s,
                    dirs@.len() == resolution,
                    forall|i: int| 0 <= i < j ==> dirs@[i] == dir_at::<T::IT>(
                        pv,
                        resolution as nat,
                        i as nat,
                    ),
                    forall|i: int| j <= i < resolution ==> dirs@[i] == T::IT::sp_zero(),
                decreases s - j,
            {
                let mval = p.m(j);
                let mit = <T::IT as LossyFrom<u32>>::lossy_from(mval);
                dirs.set(j, mit.shl(bits - 1 - j));
                proof {
                    assert(dirs@[j as int] == dir_at::<T::IT>(pv, resolution as nat, j as nat));
                }
                j += 1;
            }
            if s >= 1 {
                let mut jj: usize = s;
                while jj < resolution
                    invariant
                        1 <= s <= jj <= resolution,
                        s == min_nat(pv.s, resolution as nat),
                        resolution <= T::IT::bits_spec(),
                        bits == T::IT::bits_spec(),
                        p.params_view() == pv,
                        pv.m.len() == pv.s,
                        dirs@.len() == resolution,
                        forall|i: int| 0 <= i < jj ==> dirs@[i] == dir_at::<T::IT>(
                            pv,
                            resolution as nat,
                            i as nat,
                        ),
                    decreases resolution - jj,
                {
                    let base_src = dirs[jj - s];
                    let base = base_src.xor(base_src.shr(s));
                    dirs.set(jj, base);
                    proof {
                        assert(dirs@[jj as int] == acc_at::<T::IT>(
                            pv,
                            resolution as nat,
                            jj as nat,
                            1,
                        ));
                    }
                    let mut k: usize = 1;
                    while k < s
                        invariant
                            1 <= k <= s <= jj < resolution,
                            s == min_nat(pv.s, resolution as nat),
                            resolution <= T::IT::bits_spec(),
                            bits == T::IT::bits_spec(),
                            p.params_view() == pv,
                            pv.m.len() == pv.s,
                            dirs@.len() == resolution,
                            forall|i: int| 0 <= i < jj ==> dirs@[i] == dir_at::<T::IT>(
                                pv,
                                resolution as nat,
                                i as nat,
                            ),
                            dirs@[jj as int] == acc_at::<T::IT>(
                                pv,
                                resolution as nat,
                                jj as nat,
                                k as nat,
                            ),
                        decreases s - k,
                    {
                        let cb = p.coefficient(s - k - 1);
                        if cb == 1 {
                            let cur = dirs[jj];
                            let other = dirs[jj - k];
                            dirs.set(jj, cur.xor(other));
                        }
                        proof {
                            assert(dirs@[jj as int] == acc_at::<T::IT>(
                                pv,
                                resolution as nat,
                                jj as nat,
                                (k + 1) as nat,
                            ));
                        }
                        k += 1;
                    }
                    proof {
                        assert(dirs@[jj as int] == dir_at::<T::IT>(
                            pv,
                            resolution as nat,
                            jj as nat,
                        ));
                    }
                    jj += 1;
                }
            }
            table.push(dirs);
            drow += 1;
        }
        table
    }

    /**
     * Constructs a new sequence using the output type's full resolution.
     */
    pub fn new<PP: SobolParams>(dims: usize, params: &PP) -> (r: Self) where T::IT: LossyFrom<u32>
        requires
            params.inv(),
            1 <= dims,
            dims <= params.max_dims_spec(),
        ensures
            r.inv(),
            r.dims == dims,
            r.resolution == T::max_resolution_spec(),
            r.count.to_nat() == 0,
            r.previous is None,
            forall|j: int| 0 <= j < r.resolution ==> r.table()[j][0] == dim1_dir_at::<T::IT>(
                j as nat,
            ),
            forall|d: int, j: int|
                1 <= d < dims && 0 <= j < r.resolution ==> r.table()[j][d] == dir_at::<T::IT>(
                    params.dim_view(d + 1),
                    r.resolution as nat,
                    j as nat,
                ),
    {
        Self::new_with_resolution::<PP>(dims, params, Option::None)
    }

    /**
     * Constructs a new sequence of given resolution. Resolution is the number
     * of bits used in the computation of the sequence and by default is the
     * output type's maximum; an explicit value above the maximum is clamped.
     * A smaller resolution reduces the cycles needed per point when the
     * sequence will not approach its theoretical maximum length (2^res).
     */
    pub fn new_with_resolution<PP: SobolParams>(
        dims: usize,
        params: &PP,
        resolution: Option<usize>,
    ) -> (r: Self) where T::IT: LossyFrom<u32>
        requires
            params.inv(),
            1 <= dims,
            dims <= params.max_dims_spec(),
            match resolution {
                Option::Some(x) => 1 <= x,
                Option::None => true,
            },
        ensures
            r.inv(),
            r.dims == dims,
            r.resolution == chosen_resolution::<T>(resolution),
            r.count.to_nat() == 0,
            r.previous is None,
            forall|j: int| 0 <= j < r.resolution ==> r.table()[j][0] == dim1_dir_at::<T::IT>(
                j as nat,
            ),
            forall|d: int, j: int|
                1 <= d < dims && 0 <= j < r.resolution ==> r.table()[j][d] == dir_at::<T::IT>(
                    params.dim_view(d + 1),
                    r.resolution as nat,
                    j as nat,
                ),
    {
        proof {
            T::lemma_max_resolution();
            T::IT::lemma_props();
        }
        let maxres = T::max_resolution();
        let res = match resolution {
            Option::Some(x) => if x <= maxres {
                x
            } else {
                maxres
            },
            Option::None => maxres,
        };
        let dir_values = Self::init_direction_vals::<PP>(dims, res, params);
        // Transpose dir values for better cache locality
        let mut transposed: Vec<Vec<T::IT>> = Vec::new();
        let mut c: usize = 0;
        while c < res
            invariant
                c <= res,
                transposed@.len() == c,
                dir_values@.len() == dims,
                forall|dd: int| 0 <= dd < dims ==> (#[trigger] dir_values@[dd])@.len() == res,
                forall|cc: int| 0 <= cc < c ==> (#[trigger] transposed@[cc])@.len() == dims,
                forall|cc: int, dd: int|
                    0 <= cc < c && 0 <= dd < dims ==> transposed@[cc]@[dd] == dir_values@[dd]@[cc],
            decreases res - c,
        {
            let mut rowt: Vec<T::IT> = Vec::new();
            let mut d: usize = 0;
            while d < dims
                invariant
                    d <= dims,
                    c < res,
                    rowt@.len() == d,
                    dir_values@.len() == dims,
                    forall|dd: int| 0 <= dd < dims ==> (#[trigger] dir_values@[dd])@.len() == res,
                    forall|dd: int| 0 <= dd < d ==> rowt@[dd] == dir_values@[dd]@[c as int],
                decreases dims - d,
            {
                rowt.push(dir_values[d][c]);
                d += 1;
            }
            transposed.push(rowt);
            c += 1;
        }
        let bits = T::IT::bits();
        let mv = T::IT::max_value();
        let max_len = mv.shr(bits - res);
        proof {
            T::IT::lemma_shr_div(mv, (bits - res) as nat);
            lemma_max_shr(bits as nat, res as nat);
            lemma_pow2_pos(res as nat);
        }
        Sobol {
            dims,
            resolution: res,
            dir_vals: transposed,
            previous: Option::None,
            count: T::IT::zero(),
            max_len,
        }
    }

    /**
     * Constructs a new sequence after checking the configuration: returns
     * `None`, and no partial engine, when `dims` is zero or exceeds the
     * provider's supported maximum.
     */
    pub fn try_new<PP: SobolParams>(dims: usize, params: &PP) -> (r: Option<Self>) where
        T::IT: LossyFrom<u32>,

        requires
            params.inv(),
        ensures
            r is Some <==> 1 <= dims && dims <= params.max_dims_spec(),
            r matches Option::Some(e) ==> e.inv() && e.dims == dims && e.resolution
                == T::max_resolution_spec() && e.count.to_nat() == 0,
    {
        if dims >= 1 && dims <= params.max_dims() {
            Option::Some(Self::new::<PP>(dims, params))
        } else {
            Option::None
        }
    }

    /// One raw Gray-code step: computes the next raw point (the origin for
    /// the first step, otherwise the previous point XORed with the direction
    /// row picked by the lowest zero bit of `count - 1`), stores it as the
    /// new `previous` and advances `count`.
    fn advance(&mut self)
        requires
            old(self).inv(),
            old(self).count.to_nat() < old(self).max_len.to_nat(),
        ensures
            final(self).inv(),
            final(self).dims == old(self).dims,
            final(self).resolution == old(self).resolution,
            final(self).max_len == old(self).max_len,
            final(self).dir_vals == old(self).dir_vals,
            final(self).count.to_nat() == old(self).count.to_nat() + 1,
            final(self).previous matches Option::Some(p) && p@ == raw_point::<T::IT>(
                old(self).table(),
                old(self).dims as nat,
                old(self).count.to_nat(),
            ),
    {
        proof {
            T::IT::lemma_props();
            if (self.resolution as nat) < T::IT::bits_spec() {
                lemma_pow2_strictly_increases(self.resolution as nat, T::IT::bits_spec());
            }
        }
        let dims = self.dims;
        let raw: Vec<T::IT> = match &self.previous {
            Option::None => {
                let mut v: Vec<T::IT> = Vec::new();
                let mut d: usize = 0;
                while d < dims
                    invariant
                        d <= dims,
                        v@.len() == d,
                        forall|i: int| 0 <= i < d ==> v@[i] == T::IT::sp_zero(),
                    decreases dims - d,
                {
                    v.push(T::IT::zero());
                    d += 1;
                }
                proof {
                    assert(v@ =~= raw_point::<T::IT>(self.table(), dims as nat, 0));
                }
                v
            },
            Option::Some(prev) => {
                let a = self.count.sub_one();
                let c = Self::rightmost_zero(a);
                proof {
                    lemma_lzb_bound(a.to_nat(), self.resolution as nat);
                }
                let row = &self.dir_vals[c];
                let mut v: Vec<T::IT> = Vec::new();
                let mut d: usize = 0;
                while d < dims
                    invariant
                        d <= dims,
                        v@.len() == d,
                        prev@.len() >= dims,
                        row@.len() == dims,
                        forall|i: int| 0 <= i < d ==> v@[i] == prev@[i].sp_xor(row@[i]),
                    decreases dims - d,
                {
                    v.push(prev[d].xor(row[d]));
                    d += 1;
                }
                proof {
                    let k = self.count.to_nat();
                    assert(v@ =~= raw_point::<T::IT>(self.table(), dims as nat, k));
                }
                v
            },
        };
        self.count = self.count.add_one();
        self.previous = Option::Some(raw);
    }

    /**
     * Produces the next point of the sequence, or `None` once
     * `2^resolution - 1` points have been produced. Exhaustion leaves the
     * engine unchanged, so every further call keeps returning `None`.
     */
    pub fn next(&mut self) -> (r: Option<Vec<T>>)
        requires
            old(self).inv(),
        ensures
            final(self).inv(),
            final(self).dims == old(self).dims,
            final(self).resolution == old(self).resolution,
            final(self).max_len == old(self).max_len,
            final(self).table() == old(self).table(),
            match r {
                Option::Some(pt) => {
                    &&& old(self).count.to_nat() < old(self).max_len.to_nat()
                    &&& pt@ == rendered_point::<T>(
                        old(self).table(),
                        old(self).dims as nat,
                        old(self).count.to_nat(),
                    )
                    &&& final(self).count.to_nat() == old(self).count.to_nat() + 1
                },
                Option::None => {
                    &&& old(self).count.to_nat() == old(self).max_len.to_nat()
                    &&& *final(self) == *old(self)
                },
            },
    {
        if self.count.lt(self.max_len) {
            self.advance();
            let dims = self.dims;
            let mut out: Vec<T> = Vec::new();
            match &self.previous {
                Option::Some(prev) => {
                    let mut d: usize = 0;
                    while d < dims
                        invariant
                            d <= dims,
                            out@.len() == d,
                            prev@.len() == dims,
                            forall|i: int| 0 <= i < d ==> out@[i] == T::render_spec(prev@[i]),
                        decreases dims - d,
                    {
                        out.push(T::render(prev[d]));
                        d += 1;
                    }
                    proof {
                        assert(out@ =~= rendered_point::<T>(
                            old(self).table(),
                            old(self).dims as nat,
                            old(self).count.to_nat(),
                        ));
                    }
                },
                Option::None => {
                    proof {
                        assert(false);
                    }
                },
            }
            Option::Some(out)
        } else {
            Option::None
        }
    }

    /**
     * Skips ahead: advances the raw state `n` times, stopping early at
     * exhaustion, then produces one point. Observably the same as `n + 1`
     * successive produce calls with the intermediate points discarded.
     */
    pub fn nth(&mut self, n: usize) -> (r: Option<Vec<T>>)
        requires
            old(self).inv(),
        ensures
            final(self).inv(),
            final(self).dims == old(self).dims,
            final(self).resolution == old(self).resolution,
            final(self).max_len == old(self).max_len,
            final(self).table() == old(self).table(),
            ({
                let k0 = old(self).count.to_nat();
                let m = old(self).max_len.to_nat();
                if k0 + n < m {
                    &&& r matches Option::Some(pt) && pt@ == rendered_point::<T>(
                        old(self).table(),
                        old(self).dims as nat,
                        (k0 + n) as nat,
                    )
                    &&& final(self).count.to_nat() == k0 + n + 1
                } else {
                    &&& r is None
                    &&& final(self).count.to_nat() == m
                }
            }),
    {
        let ghost k0 = old(self).count.to_nat();
        let ghost m = old(self).max_len.to_nat();
        let mut i: usize = 0;
        let mut more = self.count.lt(self.max_len);
        while i < n && more
            invariant
                i <= n,
                self.inv(),
                self.dims == old(self).dims,
                self.resolution == old(self).resolution,
                self.max_len == old(self).max_len,
                self.table() == old(self).table(),
                m == self.max_len.to_nat(),
                more == (self.count.to_nat() < m),
                self.count.to_nat() == min_nat((k0 + i) as nat, m),
            decreases n - i,
        {
            self.advance();
            i += 1;
            more = self.count.lt(self.max_len);
        }
        proof {
            assert(self.count.to_nat() == min_nat((k0 + n) as nat, m));
        }
        self.next()
    }
}

impl<T: SobolType> Clone for Sobol<T> {
    /// Duplicates the engine. The copy carries its own direction table and
    /// state, so both sequences continue identically and independently.
    fn clone(&self) -> (r: Self)
        ensures
            r.dims == self.dims,
            r.resolution == self.resolution,
            r.count == self.count,
            r.max_len == self.max_len,
            r.table() == self.table(),
            r.prev_view() == self.prev_view(),
            self.inv() ==> r.inv(),
    {
        let mut tbl: Vec<Vec<T::IT>> = Vec::new();
        let mut c: usize = 0;
        while c < self.dir_vals.len()
            invariant
                c <= self.dir_vals@.len(),
                tbl@.len() == c,
                forall|i: int| 0 <= i < c ==> (#[trigger] tbl@[i])@ == self.dir_vals@[i]@,
            decreases self.dir_vals@.len() - c,
        {
            let src = &self.dir_vals[c];
            let mut rowv: Vec<T::IT> = Vec::new();
            let mut d: usize = 0;
            while d < src.len()
                invariant
                    d <= src@.len(),
                    rowv@.len() == d,
                    forall|i: int| 0 <= i < d ==> rowv@[i] == src@[i],
                decreases src@.len() - d,
            {
                rowv.push(src[d]);
                d += 1;
            }
            proof {
                assert(rowv@ =~= src@);
            }
            tbl.push(rowv);
            c += 1;
        }
        let prev: Option<Vec<T::IT>> = match &self.previous {
            Option::None => Option::None,
            Option::Some(p) => {
                let mut q: Vec<T::IT> = Vec::new();
                let mut d: usize = 0;
                while d < p.len()
                    invariant
                        d <= p@.len(),
                        q@.len() == d,
                        forall|i: int| 0 <= i < d ==> q@[i] == p@[i],
                    decreases p@.len() - d,
                {
                    q.push(p[d]);
                    d += 1;
                }
                proof {
                    assert(q@ =~= p@);
                }
                Option::Some(q)
            },
        };
        let r = Sobol {
            dims: self.dims,
            resolution: self.resolution,
            dir_vals: tbl,
            previous: prev,
            count: self.count,
            max_len: self.max_len,
        };
        proof {
            assert(r.table() =~= self.table());
        }
        r
    }
}

/// The first point of any freshly constructed sequence is the all-minimum
/// point: every raw coordinate is the zero internal value, so every output
/// is the rendering of zero.
pub proof fn lemma_first_point_origin<T: SobolType>(e: Sobol<T>)
    requires
        e.inv(),
        e.count.to_nat() == 0,
    ensures
        e.spec_next_point() matches Option::Some(pt) && pt.len() == e.dims && forall|d: int|
            0 <= d < e.dims ==> pt[d] == T::render_spec(T::IT::sp_zero()),
{
    lemma2_to64();
    lemma_pow2_strictly_increases(0, e.resolution as nat);
    let raw = raw_point::<T::IT>(e.table(), e.dims as nat, 0);
    assert(raw == Seq::new(e.dims as nat, |d: int| T::IT::sp_zero()));
    let pt = rendered_point::<T>(e.table(), e.dims as nat, 0);
    assert(forall|d: int| 0 <= d < e.dims ==> pt[d] == T::render_spec(T::IT::sp_zero()));
}

/// Exactly `2^resolution - 1` points are producible: a point is available
/// precisely while fewer than that many have been emitted. Exhaustion is
/// terminal: `next` on an exhausted engine leaves it unchanged, so every
/// further call keeps answering `None`.
pub proof fn lemma_sequence_length<T: SobolType>(e: Sobol<T>)
    requires
        e.inv(),
    ensures
        e.max_len.to_nat() == pow2(e.resolution as nat) - 1,
        e.spec_next_point() is Some <==> e.count.to_nat() < pow2(e.resolution as nat) - 1,
{
}

/// Dimension one's direction vector is `2^(w-1), 2^(w-2), ..., 2^(w-r)` for
/// working width `w`, whatever the parameter provider.
pub proof fn lemma_dim1_value<IT: InternalType>(j: nat)
    requires
        j < IT::bits_spec(),
    ensures
        dim1_dir_at::<IT>(j).to_nat() == pow2((IT::bits_spec() - 1 - j) as nat),
{
    IT::lemma_one_shl((IT::bits_spec() - 1 - j) as nat);
}

/// The run of points that successive produce calls emit, starting at
/// emission index `k0`.
pub open spec fn points_run<T: SobolType>(
    tbl: Seq<Seq<T::IT>>,
    dims: nat,
    k0: nat,
    n: nat,
) -> Seq<Seq<T>> {
    Seq::new(n, |i: int| rendered_point::<T>(tbl, dims, (k0 + i) as nat))
}

/// Skip-ahead agrees with repeated stepping: over any direction table, the
/// point `nth(n)` emits from emission index `k0` — by its contract the point
/// with index `k0 + n` — is exactly the last of the `n + 1` points that
/// successive `next` calls emit, each pinned by `next`'s contract to the
/// point at its own emission index.
pub proof fn lemma_skip_matches_stepping<T: SobolType>(
    tbl: Seq<Seq<T::IT>>,
    dims: nat,
    k0: nat,
    n: nat,
)
    ensures
        points_run::<T>(tbl, dims, k0, n + 1).last() == rendered_point::<T>(tbl, dims, k0 + n),
        forall|i: int|
            0 <= i < n + 1 ==> #[trigger] points_run::<T>(tbl, dims, k0, n + 1)[i]
                == rendered_point::<T>(tbl, dims, (k0 + i) as nat),
{
}

/// Two engines with identical state produce identical next points; in
/// particular a duplicate made by `clone` and its original, advanced one
/// step each, emit the same point (state-copy completeness).
pub proof fn lemma_copy_produces_same<T: SobolType>(a: Sobol<T>, b: Sobol<T>)
    requires
        a.dims == b.dims,
        a.count == b.count,
        a.max_len == b.max_len,
        a.table() == b.table(),
    ensures
        a.spec_next_point() == b.spec_next_point(),
{
}

} // verus!
