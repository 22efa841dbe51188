//! Ordered-dithering threshold matrices.
//!
//! A matrix of exponent `n` is a square of side `2^n` whose cells hold the
//! ranks `0 .. 4^n` (saturated to 255 when they do not fit in a byte). The
//! rank of a cell is read off the bits of its coordinates: bit `p` of its row
//! and of its column select a base-4 digit from the elementary pattern
//! `[[0, 3], [2, 1]]` (listed row by row), and that digit has the weight
//! `4^(n - 1 - p)`. Pixel `(x, y)` of an image takes the threshold of the cell
//! in row `y mod 2^n` and column `x mod 2^n`.

use itertools::Itertools;
use vstd::prelude::*;
use vstd::arithmetic::power2::{pow2, lemma_pow2_adds, lemma_pow2_pos, lemma2_to64, lemma_pow2_strictly_increases, lemma_pow2_unfold};
use vstd::arithmetic::div_mod::{
    lemma_multiply_divide_lt, lemma_fundamental_div_mod, lemma_fundamental_div_mod_converse,
    lemma_mod_add_multiples_vanish,
};
use vstd::arithmetic::mul::lemma_mul_inequality;
use vstd::bits::{lemma_u32_shl_is_mul, lemma_u32_pow2_no_overflow, lemma_usize_pow2_no_overflow};

verus! {

/// The elementary 2 x 2 threshold pattern `[[0, 3], [2, 1]]` (row by row),
/// indexed by the lowest bit of the row `x` and of the column `y`.
pub open spec fn threshold_digit(x: nat, y: nat) -> nat {
    if y % 2 == 0 {
        if x % 2 == 0 { 0 } else { 2 }
    } else {
        if x % 2 == 0 { 3 } else { 1 }
    }
}

/// The rank of the cell in row `x` and column `y` of the threshold matrix of
/// exponent `n`: the digit of their lowest bits carries the weight `4^(n-1)`,
/// and their remaining bits give a rank in the matrix of exponent `n - 1`.
pub open spec fn bayer_rank(n: nat, x: nat, y: nat) -> nat
    decreases n,
{
    if n == 0 {
        0
    } else {
        threshold_digit(x, y) * pow2(2 * (n - 1) as nat) + bayer_rank((n - 1) as nat, x / 2, y / 2)
    }
}

/// A rank as stored in a byte: ranks above 255 are stored as 255.
pub open spec fn saturate_u8(v: nat) -> nat {
    if v > 255 { 255 } else { v }
}

/// `4^n` as a power of two.
proof fn lemma_pow4_step(n: nat)
    requires
        n > 0,
    ensures
        pow2(2 * n) == 4 * pow2(2 * (n - 1) as nat),
{
    lemma_pow2_adds(2 * (n - 1) as nat, 2);
    lemma2_to64();
}

/// Every rank of the matrix of exponent `n` is below `4^n`.
pub proof fn lemma_rank_bound(n: nat, x: nat, y: nat)
    ensures
        bayer_rank(n, x, y) < pow2(2 * n),
    decreases n,
{
    if n == 0 {
        lemma2_to64();
    } else {
        let w = pow2(2 * (n - 1) as nat);
        lemma_rank_bound((n - 1) as nat, x / 2, y / 2);
        lemma_pow4_step(n);
        lemma_pow2_pos(2 * (n - 1) as nat);
        lemma_mul_inequality(threshold_digit(x, y) as int, 3, w as int);
    }
}

/// The bits of `x >> q` that the rank computation reads.
proof fn lemma_shifted_bits(x: u32, y: u32, q: u32, q1: u32)
    by (bit_vector)
    requires
        q < 31,
        q1 == q + 1,
    ensures
        ((y >> q) & 1) == (y >> q) % 2,
        (((x ^ y) >> q) & 1) == (if (x >> q) % 2 == (y >> q) % 2 { 0u32 } else { 1u32 }),
        (x >> q) / 2 == x >> q1,
        (y >> q) / 2 == y >> q1,
{
}

/// Setting two bits above every bit of `v` adds their weights to `v`.
proof fn lemma_or_above(v: u32, a: u32, c: u32, b: u32, b1: u32)
    by (bit_vector)
    requires
        b < 31,
        b1 == b + 1,
        v < (1u32 << b),
        a <= 1,
        c <= 1,
    ensures
        (v | (a << b)) | (c << b1) == v + (a << b) + (c << b1),
{
}

/// Computes the rank of the cell in row `x` and column `y` of the matrix of
/// exponent `exponent`, one digit per coordinate bit from the highest bit
/// (lowest weight) down, and stores it in a byte.
fn cell_rank(exponent: u32, x: u32, y: u32) -> (r: u8)
    requires
        exponent <= 16,
    ensures
        r == saturate_u8(bayer_rank(exponent as nat, x as nat, y as nat)),
{
    let xc = x ^ y;
    let yc = y;
    let mut v: u32 = 0;
    let mut p: u32 = exponent;
    proof {
        lemma2_to64();
    }
    while p > 0
        invariant
            p <= exponent <= 16,
            xc == x ^ y,
            yc == y,
            v == bayer_rank((exponent - p) as nat, (x >> p) as nat, (y >> p) as nat),
            v < pow2(2 * (exponent - p) as nat),
        decreases p,
    {
        p = p - 1;
        let bit_idx: u32 = 2 * (exponent - p - 1);
        let ghost k: nat = (exponent - p) as nat;
        let ghost xs: u32 = x >> p;
        let ghost ys: u32 = y >> p;
        let ghost w: nat = pow2(bit_idx as nat);
        let ghost v0: u32 = v;
        let yb: u32 = (yc >> p) & 1;
        let xb: u32 = (xc >> p) & 1;
        proof {
            lemma_shifted_bits(x, y, p, (p + 1) as u32);
            assert(bit_idx == 2 * (k - 1));
            lemma_u32_pow2_no_overflow(bit_idx as nat);
            lemma_u32_pow2_no_overflow((bit_idx + 1) as nat);
            lemma_pow2_adds(bit_idx as nat, 1);
            lemma2_to64();
            lemma_pow4_step(k);
            lemma_mul_inequality(yb as int, 1, w as int);
            lemma_mul_inequality(xb as int, 1, (2 * w) as int);
            lemma_u32_shl_is_mul(1, bit_idx);
            lemma_u32_shl_is_mul(yb, bit_idx);
            lemma_u32_shl_is_mul(xb, (bit_idx + 1) as u32);
            lemma_or_above(v, yb, xb, bit_idx, (bit_idx + 1) as u32);
            assert(threshold_digit(xs as nat, ys as nat) == yb + 2 * xb);
            assert(bayer_rank(k, xs as nat, ys as nat) == threshold_digit(xs as nat, ys as nat) * w
                + bayer_rank((k - 1) as nat, (xs / 2) as nat, (ys / 2) as nat));
        }
        v = v | (yb << bit_idx);
        v = v | (xb << (bit_idx + 1));
        proof {
            assert(v == v0 + yb * w + xb * (2 * w));
            assert(threshold_digit(xs as nat, ys as nat) * w == yb * w + xb * (2 * w)) by (nonlinear_arith)
                requires
                    threshold_digit(xs as nat, ys as nat) == yb + 2 * xb,
            ;
            lemma_mul_inequality(threshold_digit(xs as nat, ys as nat) as int, 3, w as int);
        }
    }
    proof {
        lemma_shift_zero(x, y);
    }
    if v > 255 {
        255
    } else {
        v as u8
    }
}

/// Shifting by nothing keeps a value.
proof fn lemma_shift_zero(x: u32, y: u32)
    by (bit_vector)
    ensures
        x >> 0u32 == x,
        y >> 0u32 == y,
{
}

/// The cells of the threshold matrix of exponent `n`, row-major: cell `k`
/// holds the stored rank of row `k / 2^n`, column `k % 2^n`.
pub open spec fn bayer_cells(n: nat) -> Seq<u8> {
    Seq::new(
        pow2(2 * n),
        |k: int| saturate_u8(bayer_rank(n, (k / pow2(n) as int) as nat, (k % pow2(n) as int) as nat)) as u8,
    )
}

/// The threshold that the matrix of exponent `n` gives to pixel `(x, y)`:
/// the matrix tiles the image, the pixel's row `y` selects the cell's row and
/// its column `x` the cell's column.
pub open spec fn dither_threshold(n: nat, x: nat, y: nat) -> nat {
    saturate_u8(bayer_rank(n, y % pow2(n), x % pow2(n)))
}

/// The cell of the elementary pattern that holds digit `d`.
spec fn digit_cell(d: nat) -> (nat, nat) {
    if d == 0 {
        (0, 0)
    } else if d == 1 {
        (1, 1)
    } else if d == 2 {
        (1, 0)
    } else {
        (0, 1)
    }
}

/// The cell of the matrix of exponent `n` that holds rank `v`.
spec fn rank_cell(n: nat, v: nat) -> (nat, nat)
    decreases n,
{
    if n == 0 {
        (0, 0)
    } else {
        let w = pow2(2 * (n - 1) as nat);
        let (a, b) = digit_cell(v / w);
        let (x, y) = rank_cell((n - 1) as nat, v % w);
        (a + 2 * x, b + 2 * y)
    }
}

/// The threshold of a pixel repeats with the period of the matrix, along
/// rows and along columns.
pub proof fn lemma_threshold_periodic(n: nat, x: nat, y: nat)
    ensures
        dither_threshold(n, x + pow2(n), y) == dither_threshold(n, x, y),
        dither_threshold(n, x, y + pow2(n)) == dither_threshold(n, x, y),
{
    lemma_pow2_pos(n);
    lemma_mod_add_multiples_vanish(x as int, pow2(n) as int);
    lemma_mod_add_multiples_vanish(y as int, pow2(n) as int);
}

/// Two cells of the square of side `2^n` with the same rank are the same
/// cell.
pub proof fn lemma_rank_injective(n: nat, x1: nat, y1: nat, x2: nat, y2: nat)
    requires
        x1 < pow2(n),
        y1 < pow2(n),
        x2 < pow2(n),
        y2 < pow2(n),
        bayer_rank(n, x1, y1) == bayer_rank(n, x2, y2),
    ensures
        x1 == x2,
        y1 == y2,
    decreases n,
{
    if n == 0 {
        lemma2_to64();
    } else {
        let w = pow2(2 * (n - 1) as nat);
        let d1 = threshold_digit(x1, y1);
        let d2 = threshold_digit(x2, y2);
        let r1 = bayer_rank((n - 1) as nat, x1 / 2, y1 / 2);
        let r2 = bayer_rank((n - 1) as nat, x2 / 2, y2 / 2);
        lemma_rank_bound((n - 1) as nat, x1 / 2, y1 / 2);
        lemma_rank_bound((n - 1) as nat, x2 / 2, y2 / 2);
        lemma_pow2_pos(2 * (n - 1) as nat);
        lemma_fundamental_div_mod_converse((d1 * w + r1) as int, w as int, d1 as int, r1 as int);
        lemma_fundamental_div_mod_converse((d2 * w + r2) as int, w as int, d2 as int, r2 as int);
        assert(d1 == d2 && r1 == r2);
        lemma_pow2_unfold(n);
        lemma_rank_injective((n - 1) as nat, x1 / 2, y1 / 2, x2 / 2, y2 / 2);
    }
}

/// Every rank below `4^n` is held by some cell of the square of side `2^n`,
/// namely by `rank_cell(n, v)`.
proof fn lemma_rank_cell(n: nat, v: nat)
    requires
        v < pow2(2 * n),
    ensures
        rank_cell(n, v).0 < pow2(n),
        rank_cell(n, v).1 < pow2(n),
        bayer_rank(n, rank_cell(n, v).0, rank_cell(n, v).1) == v,
    decreases n,
{
    if n == 0 {
        lemma2_to64();
    } else {
        let w = pow2(2 * (n - 1) as nat);
        lemma_pow2_pos(2 * (n - 1) as nat);
        lemma_pow4_step(n);
        let d = v / w;
        let r = v % w;
        lemma_multiply_divide_lt(v as int, w as int, 4);
        lemma_fundamental_div_mod(v as int, w as int);
        lemma_rank_cell((n - 1) as nat, r);
        let (a, b) = digit_cell(d);
        let (x, y) = rank_cell((n - 1) as nat, r);
        assert((a + 2 * x) / 2 == x && (a + 2 * x) % 2 == a);
        assert((b + 2 * y) / 2 == y && (b + 2 * y) % 2 == b);
        assert(threshold_digit(a + 2 * x, b + 2 * y) == d);
        lemma_pow2_unfold(n);
        assert(w * d == d * w) by (nonlinear_arith);
    }
}

/// Every rank below `4^n` is the rank of some cell of the square of side
/// `2^n`; with `lemma_rank_injective`, the ranks of the square are exactly
/// `0 .. 4^n`, each once.
pub proof fn lemma_rank_onto(n: nat, v: nat)
    requires
        v < pow2(2 * n),
    ensures
        exists|x: nat, y: nat| x < pow2(n) && y < pow2(n) && #[trigger] bayer_rank(n, x, y) == v,
{
    lemma_rank_cell(n, v);
    let (x, y) = rank_cell(n, v);
    assert(bayer_rank(n, x, y) == v);
}

/// Up to exponent 4 every rank fits in a byte, and the cells of the matrix
/// hold each rank `0 .. 4^n` exactly once: no two cells share a rank, every
/// cell holds a rank below the number of cells, and every such rank occurs.
pub proof fn lemma_cells_are_permutation(n: nat)
    requires
        n <= 4,
    ensures
        forall|k: int| 0 <= k < bayer_cells(n).len() ==> #[trigger] bayer_cells(n)[k] < bayer_cells(n).len(),
        forall|k1: int, k2: int|
            0 <= k1 < bayer_cells(n).len() && 0 <= k2 < bayer_cells(n).len() && k1 != k2
                ==> #[trigger] bayer_cells(n)[k1] != #[trigger] bayer_cells(n)[k2],
        forall|v: u8| (v as nat) < bayer_cells(n).len() ==> #[trigger] bayer_cells(n).contains(v),
{
    let s = pow2(n);
    let len = pow2(2 * n);
    lemma_pow2_pos(n);
    lemma_pow2_adds(n, n);
    lemma2_to64();
    if n < 4 {
        lemma_pow2_strictly_increases(2 * n, 8);
    }
    assert(len <= 256);
    assert forall|k: int| 0 <= k < len implies bayer_cells(n)[k] == bayer_rank(n, (k / s as int) as nat, (k % s as int) as nat)
        && bayer_cells(n)[k] < len by {
        lemma_rank_bound(n, (k / s as int) as nat, (k % s as int) as nat);
    }
    assert forall|k1: int, k2: int|
        0 <= k1 < len && 0 <= k2 < len && k1 != k2 implies #[trigger] bayer_cells(n)[k1] != #[trigger] bayer_cells(n)[k2] by {
        lemma_multiply_divide_lt(k1, s as int, s as int);
        lemma_multiply_divide_lt(k2, s as int, s as int);
        if bayer_cells(n)[k1] == bayer_cells(n)[k2] {
            lemma_rank_injective(n, (k1 / s as int) as nat, (k1 % s as int) as nat, (k2 / s as int) as nat, (k2 % s as int) as nat);
            lemma_fundamental_div_mod(k1, s as int);
            lemma_fundamental_div_mod(k2, s as int);
        }
    }
    assert forall|v: u8| (v as nat) < len implies #[trigger] bayer_cells(n).contains(v) by {
        lemma_rank_cell(n, v as nat);
        let (x, y) = rank_cell(n, v as nat);
        let k = x * s + y;
        assert(k < len) by (nonlinear_arith)
            requires
                x < s,
                y < s,
                len == s * s,
                k == x * s + y,
        ;
        lemma_fundamental_div_mod_converse(k as int, s as int, x as int, y as int);
        assert(bayer_cells(n)[k as int] == v);
    }
}

/// Lists the cells of a `side` x `side` square as the pairs that
/// `Itertools::cartesian_product` yields for `(0..side).cartesian_product(0..side)`:
/// the first coordinate is the outer one, so pair `k` is `(k / side, k % side)`.
/// Nothing is proved of the call: the contract restates the order and length
/// that itertools documents for the adaptor and that its `Product::next` implements.
#[verifier::external_body]
fn square_cells(side: u32) -> (cells: Vec<(u32, u32)>)
    requires
        side as nat * side as nat <= usize::MAX,
    ensures
        cells@.len() == side as nat * side as nat,
        forall|k: int|
            0 <= k < cells@.len() ==> #[trigger] cells@[k] == ((k / side as int) as u32, (k % side as int) as u32),
{
    (0..side).cartesian_product(0..side).collect()
}

/// A square threshold matrix for ordered dithering.
pub struct BayerMatrix {
    size: u32,
    matrix: Vec<u8>,
    exponent: Ghost<nat>,
}

impl View for BayerMatrix {
    type V = Seq<u8>;

    closed spec fn view(&self) -> Seq<u8> {
        self.matrix@
    }
}

impl BayerMatrix {
    #[verifier::type_invariant]
    spec fn inv(self) -> bool {
        &&& self.exponent@ <= 16
        &&& self.size == pow2(self.exponent@)
        &&& self.matrix@ == bayer_cells(self.exponent@)
    }

    /// The exponent the matrix was built with.
    pub closed spec fn exponent(&self) -> nat {
        self.exponent@
    }

    /// The side of the square.
    pub closed spec fn side(&self) -> nat {
        self.size as nat
    }

    /// Builds the threshold matrix of side `2^exponent`, its cells listed
    /// row-major over the cartesian square of `0 .. 2^exponent`.
    pub fn new(exponent: u32) -> (m: Self)
        requires
            exponent <= 16,
            2 * exponent < usize::BITS,
        ensures
            m.exponent() == exponent,
            m.side() == pow2(exponent as nat),
            m@ == bayer_cells(exponent as nat),
    {
        let ghost n: nat = exponent as nat;
        proof {
            lemma_u32_pow2_no_overflow(n);
            lemma_u32_shl_is_mul(1, exponent);
            lemma_pow2_adds(n, n);
            lemma_usize_pow2_no_overflow(2 * n);
        }
        let size: u32 = 1u32 << exponent;
        assert(size as nat * size as nat == pow2(2 * n));
        let cells = square_cells(size);
        let mut matrix: Vec<u8> = Vec::new();
        let mut k: usize = 0;
        while k < cells.len()
            invariant
                exponent <= 16,
                size == pow2(n),
                n == exponent,
                cells@.len() == pow2(2 * n),
                forall|j: int|
                    0 <= j < cells@.len() ==> #[trigger] cells@[j] == ((j / size as int) as u32, (j % size as int) as u32),
                k <= cells@.len(),
                matrix@ == bayer_cells(n).take(k as int),
            decreases cells@.len() - k,
        {
            let (x, y) = cells[k];
            proof {
                lemma_pow2_pos(n);
                lemma_pow2_adds(n, n);
                lemma_multiply_divide_lt(k as int, size as int, size as int);
                assert(x as int == k as int / size as int);
                assert(y as int == k as int % size as int);
            }
            let r = cell_rank(exponent, x, y);
            matrix.push(r);
            proof {
                assert(matrix@ =~= bayer_cells(n).take(k + 1));
            }
            k = k + 1;
        }
        assert(matrix@ =~= bayer_cells(n));
        BayerMatrix { size, matrix, exponent: Ghost(n) }
    }

    /// The side of the square.
    pub fn size(&self) -> (s: u32)
        ensures
            s == self.side(),
    {
        self.size
    }

    /// The number of cells, `side * side`: how many candidate colours a
    /// dithered pixel chooses among.
    pub fn cell_count(&self) -> (c: u32)
        requires
            self.side() * self.side() <= u32::MAX,
        ensures
            c == self.side() * self.side(),
    {
        self.size * self.size
    }

    /// The threshold for pixel `(x, y)`: the matrix tiles the plane, the
    /// pixel's row picks the cell's row and its column the cell's column.
    /// It is always a valid rank among the `side * side` cells.
    pub fn index(&self, x: u32, y: u32) -> (t: u8)
        ensures
            t == self@[((y as nat % self.side()) * self.side() + x as nat % self.side()) as int],
            t == dither_threshold(self.exponent(), x as nat, y as nat),
            t < self.side() * self.side(),
    {
        proof {
            use_type_invariant(self);
            lemma_pow2_pos(self.exponent@);
        }
        let j = x % self.size;
        let i = y % self.size;
        proof {
            let s = self.size as int;
            lemma_pow2_adds(self.exponent@, self.exponent@);
            lemma2_to64();
            if self.exponent@ < 16 {
                lemma_pow2_strictly_increases(self.exponent@, 16);
            }
            assert(i * s + j < s * s && s * s <= 0x1_0000_0000) by (nonlinear_arith)
                requires
                    0 <= i < s,
                    0 <= j < s,
                    s <= 0x10000,
            ;
            lemma_fundamental_div_mod_converse((i * s + j) as int, s, i as int, j as int);
            lemma_rank_bound(self.exponent@, i as nat, j as nat);
        }
        let idx = (i * self.size + j) as usize;
        self.matrix[idx]
    }
}

} // verus!
