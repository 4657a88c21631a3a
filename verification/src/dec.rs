use vstd::prelude::*;
use crate::text::{
    all_digits, digits_val, digits_value_from, is_negative_text, lemma_digits_val_bound,
    lemma_pow10_vals, pow10, sign_body,
};

verus! {

/// An exact decimal number `(-1)^neg * mant / 10^scale`, as a calibration
/// bound field denotes one. The mantissa keeps every digit the field held,
/// so the value is represented without loss.
#[derive(Debug, Clone, Copy, PartialEq, Eq, Structural)]
pub struct Dec {
    pub neg: bool,
    pub mant: u64,
    pub scale: u32,
}

impl Dec {
    /// An eight-byte field cannot hold more than eight digits nor more
    /// than seven fractional digits.
    pub open spec fn wf(&self) -> bool {
        self.mant < 100_000_000 && self.scale <= 7
    }

    /// The numerator of the exact value, over `10^scale`.
    pub open spec fn num(&self) -> int {
        if self.neg {
            -(self.mant as int)
        } else {
            self.mant as int
        }
    }

    pub open spec fn den(&self) -> int {
        pow10(self.scale as nat) as int
    }
}

/// The position of the first `.` in the field body, or its length.
pub open spec fn dot_index(s: Seq<u8>) -> int
    decreases s.len(),
{
    if s.len() == 0 {
        0
    } else if s[0] == 46 {
        0
    } else {
        1 + dot_index(s.drop_first())
    }
}

proof fn lemma_dot_index_at(s: Seq<u8>, k: int)
    requires
        0 <= k <= s.len(),
        forall|j: int| 0 <= j < k ==> s[j] != 46,
        k < s.len() ==> s[k] == 46,
    ensures
        dot_index(s) == k,
    decreases k,
{
    if k == 0 {
    } else {
        assert(s[0] != 46);
        lemma_dot_index_at(s.drop_first(), k - 1);
    }
}

pub open spec fn int_part(b: Seq<u8>) -> Seq<u8> {
    b.subrange(0, dot_index(b))
}

pub open spec fn frac_part(b: Seq<u8>) -> Seq<u8> {
    if dot_index(b) < b.len() {
        b.subrange(dot_index(b) + 1, b.len() as int)
    } else {
        Seq::empty()
    }
}

/// Whether the field is a well-formed decimal number: an optional sign,
/// then digits with at most one point somewhere among them, at least one
/// digit in all. Exponent notation and the infinity and not-a-number
/// words are not decimal text: such a field fails the parse. Plain
/// decimals keep the mantissa small enough for exact scaling; an
/// exponent could not.
pub open spec fn is_dec_text(s: Seq<u8>) -> bool {
    let b = sign_body(s);
    &&& int_part(b).len() + frac_part(b).len() > 0
    &&& all_digits(int_part(b))
    &&& all_digits(frac_part(b))
}

/// All the field's digits read as one integer: the mantissa.
pub open spec fn dec_mant_spec(s: Seq<u8>) -> nat {
    digits_val(int_part(sign_body(s)) + frac_part(sign_body(s)))
}

pub open spec fn dec_scale_spec(s: Seq<u8>) -> nat {
    frac_part(sign_body(s)).len() as nat
}

/// The decimal a trimmed field denotes, as the four calibration bound
/// fields are read.
pub open spec fn dec_of_text(s: Seq<u8>) -> Dec {
    Dec {
        neg: is_negative_text(s),
        mant: dec_mant_spec(s) as u64,
        scale: dec_scale_spec(s) as u32,
    }
}

/// Parse a trimmed field as an exact decimal number.
pub fn parse_dec(v: &Vec<u8>) -> (r: Option<Dec>)
    requires
        v@.len() <= 8,
    ensures
        r is Some <==> is_dec_text(v@),
        r matches Some(d) ==> d == dec_of_text(v@) && d.wf(),
{
    let n: usize = v.len();
    let negative: bool = n > 0 && v[0] == 45;
    let start: usize = if n > 0 && (v[0] == 43 || v[0] == 45) {
        1
    } else {
        0
    };
    proof {
        assert(sign_body(v@) =~= v@.subrange(start as int, n as int));
    }
    let ghost body = v@.subrange(start as int, n as int);
    // find the first point in the body
    let mut j: usize = start;
    while j < n && v[j] != 46
        invariant
            start <= j <= n == v@.len(),
            forall|t: int| start <= t < j ==> v@[t] != 46,
        decreases n - j,
    {
        j = j + 1;
    }
    let dotpos: usize = j;
    proof {
        if dotpos < n {
            assert(forall|t: int| 0 <= t < dotpos - start ==> body[t] != 46);
            lemma_dot_index_at(body, dotpos - start);
        } else {
            assert(forall|t: int| 0 <= t < body.len() ==> body[t] != 46);
            lemma_dot_index_at(body, body.len() as int);
        }
    }
    // gather every digit position: the integer part, then the fraction
    let mut digits: Vec<u8> = Vec::new();
    let mut i: usize = start;
    while i < dotpos
        invariant
            start <= i <= dotpos <= n == v@.len(),
            digits@ == v@.subrange(start as int, i as int),
        decreases dotpos - i,
    {
        digits.push(v[i]);
        assert(digits@ =~= v@.subrange(start as int, i + 1));
        i = i + 1;
    }
    let mut k: usize = if dotpos < n {
        dotpos + 1
    } else {
        n
    };
    let ghost fstart = k as int;
    while k < n
        invariant
            start <= dotpos <= n == v@.len(),
            0 <= fstart <= k <= n,
            dotpos <= fstart,
            digits@ == v@.subrange(start as int, dotpos as int) + v@.subrange(fstart, k as int),
        decreases n - k,
    {
        digits.push(v[k]);
        assert(digits@ =~= v@.subrange(start as int, dotpos as int) + v@.subrange(fstart, k + 1));
        k = k + 1;
    }
    proof {
        assert(int_part(body) =~= v@.subrange(start as int, dotpos as int));
        assert(frac_part(body) =~= v@.subrange(fstart, n as int));
        assert(digits@ =~= int_part(body) + frac_part(body));
    }
    if digits.len() == 0 {
        return None;
    }
    assert(digits@.len() <= 8);
    let m = digits_value_from(&digits, 0);
    proof {
        assert(digits@.subrange(0, digits@.len() as int) =~= digits@);
    }
    match m {
        None => {
            proof {
                if all_digits(int_part(body)) && all_digits(frac_part(body)) {
                    let ilen = int_part(body).len() as int;
                    assert forall|t: int|
                        0 <= t < digits@.len() implies crate::text::is_digit(
                        #[trigger] digits@[t],
                    ) by {
                        if t < ilen {
                            assert(digits@[t] == int_part(body)[t]);
                        } else {
                            assert(digits@[t] == frac_part(body)[t - ilen]);
                        }
                    }
                    assert(all_digits(digits@));
                }
            }
            None
        },
        Some(mant) => {
            let scale: u32 = if dotpos < n {
                (n - dotpos - 1) as u32
            } else {
                0
            };
            proof {
                let ilen = int_part(body).len() as int;
                assert forall|t: int|
                    0 <= t < int_part(body).len() implies crate::text::is_digit(
                    #[trigger] int_part(body)[t],
                ) by {
                    assert(int_part(body)[t] == digits@[t]);
                    assert(crate::text::is_digit(digits@[t]));
                }
                assert(all_digits(int_part(body)));
                assert forall|t: int|
                    0 <= t < frac_part(body).len() implies crate::text::is_digit(
                    #[trigger] frac_part(body)[t],
                ) by {
                    assert(frac_part(body)[t] == digits@[t + ilen]);
                    assert(crate::text::is_digit(digits@[t + ilen]));
                }
                assert(all_digits(frac_part(body)));
                assert(scale == dec_scale_spec(v@));
                assert(scale <= 7);
                assert(mant == dec_mant_spec(v@));
            }
            Some(Dec { neg: negative, mant, scale })
        },
    }
}

} // verus!
