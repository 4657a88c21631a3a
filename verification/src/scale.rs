use vstd::prelude::*;
use vstd::arithmetic::div_mod::{
    lemma_div_non_zero, lemma_fundamental_div_mod, lemma_fundamental_div_mod_converse,
};
use crate::dec::Dec;
use crate::render::{render, render_value};
use crate::text::{lemma_pow10_mono, lemma_pow10_vals, pow10, pow10_u64};

verus! {

/// The calibration of one channel: the digital range the samples live in
/// and the physical range it maps to, each bound an exact decimal.
#[derive(Debug, Clone, Copy, PartialEq, Eq, Structural)]
pub struct Bounds {
    pub digital_min: Dec,
    pub digital_max: Dec,
    pub physical_min: Dec,
    pub physical_max: Dec,
}

pub open spec fn max_nat(a: nat, b: nat) -> nat {
    if a >= b {
        a
    } else {
        b
    }
}

pub open spec fn abs_int(x: int) -> int {
    if x >= 0 {
        x
    } else {
        -x
    }
}

impl Bounds {
    pub open spec fn wf(&self) -> bool {
        &&& self.digital_min.wf()
        &&& self.digital_max.wf()
        &&& self.physical_min.wf()
        &&& self.physical_max.wf()
    }

    /// The common denominator exponent of the two digital bounds.
    pub open spec fn dscale(&self) -> nat {
        max_nat(self.digital_min.scale as nat, self.digital_max.scale as nat)
    }

    pub open spec fn pscale(&self) -> nat {
        max_nat(self.physical_min.scale as nat, self.physical_max.scale as nat)
    }

    /// `digital_min` as a numerator over `10^dscale`.
    pub open spec fn dmin_al(&self) -> int {
        self.digital_min.num() * pow10((self.dscale() - self.digital_min.scale) as nat)
    }

    pub open spec fn dmax_al(&self) -> int {
        self.digital_max.num() * pow10((self.dscale() - self.digital_max.scale) as nat)
    }

    pub open spec fn pmin_al(&self) -> int {
        self.physical_min.num() * pow10((self.pscale() - self.physical_min.scale) as nat)
    }

    pub open spec fn pmax_al(&self) -> int {
        self.physical_max.num() * pow10((self.pscale() - self.physical_max.scale) as nat)
    }

    /// The exact scaled value `(raw - digital_min) * (physical_max -
    /// physical_min) / (digital_max - digital_min) + physical_min`, as the
    /// numerator over `scale_den`.
    pub open spec fn scale_num(&self, raw: int) -> int {
        (raw * pow10(self.dscale()) - self.dmin_al()) * (self.pmax_al() - self.pmin_al())
            + self.pmin_al() * (self.dmax_al() - self.dmin_al())
    }

    pub open spec fn scale_den(&self) -> int {
        pow10(self.pscale()) * (self.dmax_al() - self.dmin_al())
    }

    /// The numerator of `(raw - digital_min) * (physical_max - physical_min)`
    /// alone, which fixes the outcome when the digital range is empty.
    pub open spec fn scale_num0(&self, raw: int) -> int {
        (raw * pow10(self.dscale()) - self.dmin_al()) * (self.pmax_al() - self.pmin_al())
    }
}

/// The scaled magnitude, truncated toward zero at seven fractional digits.
pub open spec fn scale_mag(raw: int, b: Bounds) -> nat {
    ((abs_int(b.scale_num(raw)) * 10_000_000) / abs_int(b.scale_den())) as nat
}

/// The text the scaler emits for a non-sentinel raw sample: the exact
/// rational value, truncated toward zero at seven fractional digits.
/// This renders the quotient exactly rather than through
/// single-precision rounding and shortest-form float text, so low-order
/// digits can differ from a float evaluation of the same formula. An
/// empty digital range divides by zero; the quotient's sign then decides
/// between the overflow markers, as division of a float would.
pub open spec fn scale_text(raw: int, b: Bounds) -> Seq<char> {
    if b.scale_den() == 0 {
        if b.scale_num0(raw) == 0 {
            "NaN"@
        } else if b.scale_num0(raw) > 0 {
            "inf"@
        } else {
            "-inf"@
        }
    } else {
        render((b.scale_num(raw) < 0) != (b.scale_den() < 0), scale_mag(raw, b))
    }
}

/// The text a decimal itself renders to through the same pipeline.
pub open spec fn dec_render(d: Dec) -> Seq<char> {
    render(d.neg, (d.mant * pow10((7 - d.scale) as nat)) as nat)
}

fn max_scale(a: u32, b: u32) -> (r: u32)
    ensures
        r == max_nat(a as nat, b as nat),
{
    if a >= b {
        a
    } else {
        b
    }
}

/// The bound as an integer numerator over `10^p`.
fn aligned(x: &Dec, p: u32) -> (r: i128)
    requires
        x.wf(),
        x.scale <= p <= 7,
    ensures
        r == x.num() * pow10((p - x.scale) as nat),
        -1_000_000_000_000_000 < r < 1_000_000_000_000_000,
{
    proof {
        lemma_pow10_vals();
        lemma_pow10_mono((p - x.scale) as nat, 7);
    }
    let f: u64 = pow10_u64(p - x.scale);
    proof {
        assert((x.mant as int) * (f as int) < 1_000_000_000_000_000 && 0 <= (x.mant as int) * (
        f as int)) by (nonlinear_arith)
            requires
                x.mant < 100_000_000,
                0 <= f <= 10_000_000,
        ;
    }
    let m: i128 = (x.mant as i128) * (f as i128);
    proof {
        assert((-(x.mant as int)) * (f as int) == -((x.mant as int) * (f as int)))
            by (nonlinear_arith);
    }
    if x.neg {
        -m
    } else {
        m
    }
}

impl Bounds {
    /// Rescale one raw sample into physical units. The reserved sentinel
    /// (the minimum representable raw value) has no physical value.
    pub fn scale(&self, value: i16) -> (r: Option<String>)
        requires
            self.wf(),
        ensures
            r is Some <==> value != i16::MIN,
            r matches Some(s) ==> s@ == scale_text(value as int, *self),
    {
        if value == i16::MIN {
            return None;
        }
        proof {
            lemma_pow10_vals();
            lemma_pow10_mono(self.dscale(), 7);
            lemma_pow10_mono(self.pscale(), 7);
        }
        let ds: u32 = max_scale(self.digital_min.scale, self.digital_max.scale);
        let ps: u32 = max_scale(self.physical_min.scale, self.physical_max.scale);
        let a: i128 = aligned(&self.digital_min, ds);
        let b2: i128 = aligned(&self.digital_max, ds);
        let c: i128 = aligned(&self.physical_min, ps);
        let d: i128 = aligned(&self.physical_max, ps);
        let pd: u64 = pow10_u64(ds);
        let pp: u64 = pow10_u64(ps);
        proof {
            assert(-400_000_000_000 < (value as int) * (pd as int) < 400_000_000_000)
                by (nonlinear_arith)
                requires
                    -32768 <= value as int <= 32767,
                    0 < pd <= 10_000_000,
            ;
        }
        let rs: i128 = (value as i128) * (pd as i128);
        let t: i128 = rs - a;
        let u: i128 = d - c;
        proof {
            assert(-4_000_000_000_000_000_000_000_000_000_000 < t * u
                < 4_000_000_000_000_000_000_000_000_000_000) by (nonlinear_arith)
                requires
                    -2_000_000_000_000_000 < t < 2_000_000_000_000_000,
                    -2_000_000_000_000_000 < u < 2_000_000_000_000_000,
            ;
            assert(-2_000_000_000_000_000_000_000_000_000_000 < c * (b2 - a)
                < 2_000_000_000_000_000_000_000_000_000_000) by (nonlinear_arith)
                requires
                    -1_000_000_000_000_000 < c < 1_000_000_000_000_000,
                    -2_000_000_000_000_000 < b2 - a < 2_000_000_000_000_000,
            ;
            assert(-100_000_000_000_000_000_000_000 < (pp as int) * (b2 - a)
                < 100_000_000_000_000_000_000_000) by (nonlinear_arith)
                requires
                    0 < pp <= 10_000_000,
                    -2_000_000_000_000_000 < b2 - a < 2_000_000_000_000_000,
            ;
        }
        let n1: i128 = t * u;
        let n2: i128 = c * (b2 - a);
        let num: i128 = n1 + n2;
        let den: i128 = (pp as i128) * (b2 - a);
        if den == 0 {
            if n1 == 0 {
                Some(String::from_str("NaN"))
            } else if n1 > 0 {
                Some(String::from_str("inf"))
            } else {
                Some(String::from_str("-inf"))
            }
        } else {
            let nabs: u128 = if num < 0 {
                (-num) as u128
            } else {
                num as u128
            };
            let dabs: u128 = if den < 0 {
                (-den) as u128
            } else {
                den as u128
            };
            proof {
                assert(nabs * 10_000_000 < 0x7fff_ffff_ffff_ffff_ffff_ffff_ffff_ffff)
                    by (nonlinear_arith)
                    requires
                        nabs < 7_000_000_000_000_000_000_000_000_000_000u128,
                ;
            }
            let m: u128 = nabs * 10_000_000 / dabs;
            let neg: bool = (num < 0) != (den < 0);
            let out = render_value(neg, m);
            proof {
                assert(nabs as int == abs_int(self.scale_num(value as int)));
                assert(dabs as int == abs_int(self.scale_den()));
                assert(m as nat == scale_mag(value as int, *self));
            }
            Some(out)
        }
    }
}

pub proof fn lemma_pow10_pos(n: nat)
    ensures
        pow10(n) >= 1,
    decreases n,
{
    if n > 0 {
        lemma_pow10_pos((n - 1) as nat);
    }
}

pub proof fn lemma_pow10_add(a: nat, b: nat)
    ensures
        pow10(a + b) == pow10(a) * pow10(b),
    decreases a,
{
    if a == 0 {
        assert(pow10(a + b) == pow10(b));
        assert(1 * pow10(b) == pow10(b)) by (nonlinear_arith);
    } else {
        lemma_pow10_add((a - 1) as nat, b);
        assert(((a + b) - 1) as nat == ((a - 1) as nat) + b);
        assert(pow10(a + b) == 10 * pow10(((a - 1) as nat) + b));
        assert(pow10(a) == 10 * pow10((a - 1) as nat));
        assert(10 * (pow10((a - 1) as nat) * pow10(b)) == (10 * pow10((a - 1) as nat)) * pow10(b))
            by (nonlinear_arith);
        assert(pow10(a + b) == (10 * pow10((a - 1) as nat)) * pow10(b));
        assert(pow10(a + b) == pow10(a) * pow10(b));
    }
}

proof fn lemma_abs_mul(x: int, y: int)
    ensures
        abs_int(x * y) == abs_int(x) * abs_int(y),
{
    if x >= 0 && y >= 0 {
        assert(x * y >= 0) by (nonlinear_arith)
            requires
                x >= 0,
                y >= 0,
        ;
    } else if x >= 0 && y < 0 {
        assert(x * y <= 0 && -(x * y) == x * (-y)) by (nonlinear_arith)
            requires
                x >= 0,
                y < 0,
        ;
    } else if x < 0 && y >= 0 {
        assert(x * y <= 0 && -(x * y) == (-x) * y) by (nonlinear_arith)
            requires
                x < 0,
                y >= 0,
        ;
    } else {
        assert(x * y >= 0 && x * y == (-x) * (-y)) by (nonlinear_arith)
            requires
                x < 0,
                y < 0,
        ;
    }
}

/// Shared quotients: `(x_aligned * e) / (10^ps * e)` renders exactly as
/// the decimal `x` itself does.
proof fn lemma_ratio_renders(x: Dec, e: int, ps: nat)
    requires
        x.wf(),
        x.scale <= ps <= 7,
        e != 0,
    ensures
        ({
            let xa = x.num() * pow10((ps - x.scale) as nat);
            let num = xa * e;
            let den = pow10(ps) * e;
            render((num < 0) != (den < 0), ((abs_int(num) * 10_000_000) / abs_int(den)) as nat)
                == dec_render(x)
        }),
{
    let pse = pow10((ps - x.scale) as nat) as int;
    let p7e = pow10((7 - x.scale) as nat) as int;
    let pp = pow10(ps) as int;
    let xa = x.num() * pow10((ps - x.scale) as nat);
    let num = xa * e;
    let den = pow10(ps) * e;
    let mant = x.mant as int;
    lemma_pow10_pos(ps);
    lemma_pow10_pos((ps - x.scale) as nat);
    lemma_pow10_pos((7 - x.scale) as nat);
    lemma_pow10_vals();
    lemma_abs_mul(xa, e);
    lemma_abs_mul(pp, e);
    let mg = mant * pse;
    let ae = abs_int(e);
    assert(mg >= 0) by (nonlinear_arith)
        requires
            mant >= 0,
            pse >= 1,
            mg == mant * pse,
    ;
    if x.neg {
        assert(xa == -mg) by (nonlinear_arith)
            requires
                xa == (-mant) * pse,
                mg == mant * pse,
        ;
    }
    assert(abs_int(xa) == mg);
    assert(abs_int(num) == mg * ae);
    assert(abs_int(den) == pp * ae);
    let m7 = mg * 10_000_000;
    assert(abs_int(num) * 10_000_000 == m7 * ae) by (nonlinear_arith)
        requires
            abs_int(num) == mg * ae,
            m7 == mg * 10_000_000,
    ;
    assert(m7 >= 0) by (nonlinear_arith)
        requires
            mg >= 0,
            m7 == mg * 10_000_000,
    ;
    assert(ae >= 1 && pp >= 1);
    lemma_div_cancel(m7, pp, ae);
    assert((abs_int(num) * 10_000_000) / abs_int(den) == m7 / pp);
    // the quotient is the mantissa brought to seven fractional digits
    let m0 = mant * p7e;
    lemma_pow10_add((ps - x.scale) as nat, 7);
    lemma_pow10_add((7 - x.scale) as nat, ps);
    assert(((ps - x.scale) as nat) + 7 == ((7 - x.scale) as nat) + ps);
    assert(pse * 10_000_000 == p7e * pp);
    assert(m7 == m0 * pp) by (nonlinear_arith)
        requires
            mg == mant * pse,
            m7 == mg * 10_000_000,
            m0 == mant * p7e,
            pse * 10_000_000 == p7e * pp,
    ;
    assert(m0 >= 0) by (nonlinear_arith)
        requires
            mant >= 0,
            p7e >= 1,
            m0 == mant * p7e,
    ;
    assert(m7 / pp == m0) by {
        lemma_fundamental_div_mod_converse(m7, pp, m0, 0);
    }
    // signs
    if x.mant == 0 {
        assert(xa == 0) by (nonlinear_arith)
            requires
                xa == 0 * pse,
        ;
        assert(num == 0) by (nonlinear_arith)
            requires
                num == 0 * e,
        ;
        assert(m0 == 0) by (nonlinear_arith)
            requires
                m0 == 0 * p7e,
        ;
    } else {
        assert(mg > 0) by (nonlinear_arith)
            requires
                mant >= 1,
                pse >= 1,
                mg == mant * pse,
        ;
        assert(m0 > 0) by (nonlinear_arith)
            requires
                mant >= 1,
                p7e >= 1,
                m0 == mant * p7e,
        ;
        // the rendered magnitude is positive, so the sign shows
        assert(m7 >= pp) by (nonlinear_arith)
            requires
                mg >= 1,
                m7 == mg * 10_000_000,
                1 <= pp <= 10_000_000,
        ;
        lemma_div_non_zero(m7, pp);
        // num and den disagree in sign exactly when x is negative
        if e > 0 {
            assert(mg * e > 0 && pp * e > 0) by (nonlinear_arith)
                requires
                    mg > 0,
                    pp >= 1,
                    e > 0,
            ;
            assert((-mg) * e == -(mg * e)) by (nonlinear_arith);
        } else {
            assert(mg * e < 0 && pp * e < 0) by (nonlinear_arith)
                requires
                    mg > 0,
                    pp >= 1,
                    e < 0,
            ;
            assert((-mg) * e == -(mg * e)) by (nonlinear_arith);
        }
        if x.neg {
            assert(xa == -mg);
            assert(num == (-mg) * e);
            assert(((num < 0) != (den < 0)) == true);
        } else {
            assert(xa == mg);
            assert(num == mg * e);
            assert(((num < 0) != (den < 0)) == false);
        }
    }
}

/// `(x*k) / (y*k) == x / y` for a positive common factor.
proof fn lemma_div_cancel(x: int, y: int, k: int)
    requires
        x >= 0,
        y > 0,
        k > 0,
    ensures
        (x * k) / (y * k) == x / y,
{
    let q = x / y;
    let r = x % y;
    lemma_fundamental_div_mod(x, y);
    assert(x * k == q * (y * k) + r * k) by (nonlinear_arith)
        requires
            x == y * q + r,
    ;
    assert(0 <= r * k && r * k < y * k) by (nonlinear_arith)
        requires
            0 <= r < y,
            k > 0,
    ;
    assert(y * k > 0) by (nonlinear_arith)
        requires
            y > 0,
            k > 0,
    ;
    lemma_fundamental_div_mod_converse(x * k, y * k, q, r * k);
}

/// Endpoint identity: when the digital range is not empty and a raw
/// sample lies exactly on the digital minimum, it scales to exactly the
/// physical minimum.
pub proof fn lemma_scale_at_digital_min(raw: i16, b: Bounds)
    requires
        b.wf(),
        raw != i16::MIN,
        b.dmax_al() != b.dmin_al(),
        raw as int * pow10(b.dscale()) == b.dmin_al(),
    ensures
        scale_text(raw as int, b) == dec_render(b.physical_min),
{
    let e = b.dmax_al() - b.dmin_al();
    lemma_pow10_pos(b.pscale());
    assert(b.scale_den() != 0) by (nonlinear_arith)
        requires
            b.scale_den() == pow10(b.pscale()) * e,
            pow10(b.pscale()) >= 1,
            e != 0,
    ;
    let xa = b.pmin_al();
    assert(b.scale_num(raw as int) == xa * e) by {
        assert((raw as int * pow10(b.dscale()) - b.dmin_al()) == 0);
        assert(0 * (b.pmax_al() - b.pmin_al()) == 0) by (nonlinear_arith);
        assert(xa * e == b.pmin_al() * (b.dmax_al() - b.dmin_al()));
    }
    lemma_ratio_renders(b.physical_min, e, b.pscale());
}

/// Endpoint identity at the other end: a raw sample lying exactly on the
/// digital maximum scales to exactly the physical maximum.
pub proof fn lemma_scale_at_digital_max(raw: i16, b: Bounds)
    requires
        b.wf(),
        raw != i16::MIN,
        b.dmax_al() != b.dmin_al(),
        raw as int * pow10(b.dscale()) == b.dmax_al(),
    ensures
        scale_text(raw as int, b) == dec_render(b.physical_max),
{
    let e = b.dmax_al() - b.dmin_al();
    lemma_pow10_pos(b.pscale());
    assert(b.scale_den() != 0) by (nonlinear_arith)
        requires
            b.scale_den() == pow10(b.pscale()) * e,
            pow10(b.pscale()) >= 1,
            e != 0,
    ;
    let xa = b.pmax_al();
    assert(b.scale_num(raw as int) == xa * e) by {
        assert(raw as int * pow10(b.dscale()) - b.dmin_al() == e);
        assert(e * (b.pmax_al() - b.pmin_al()) + b.pmin_al() * e == b.pmax_al() * e)
            by (nonlinear_arith);
    }
    lemma_ratio_renders(b.physical_max, e, b.pscale());
}

} // verus!
