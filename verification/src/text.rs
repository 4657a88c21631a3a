use vstd::prelude::*;

verus! {

// ---------------------------------------------------------------------------
// ASCII whitespace and trimming
// ---------------------------------------------------------------------------

/// ASCII whitespace, the padding the format allows around numeric fields.
pub open spec fn is_space(b: u8) -> bool {
    b == 32 || b == 9 || b == 10 || b == 11 || b == 12 || b == 13
}

pub open spec fn trim_front_spec(s: Seq<u8>) -> Seq<u8>
    decreases s.len(),
{
    if s.len() > 0 && is_space(s[0]) {
        trim_front_spec(s.drop_first())
    } else {
        s
    }
}

pub open spec fn trim_back_spec(s: Seq<u8>) -> Seq<u8>
    decreases s.len(),
{
    if s.len() > 0 && is_space(s.last()) {
        trim_back_spec(s.drop_last())
    } else {
        s
    }
}

/// The field with its surrounding ASCII whitespace removed.
pub open spec fn trim_spec(s: Seq<u8>) -> Seq<u8> {
    trim_back_spec(trim_front_spec(s))
}

proof fn lemma_trim_front_prefix(s: Seq<u8>, i: int)
    requires
        0 <= i <= s.len(),
        forall|j: int| 0 <= j < i ==> is_space(s[j]),
    ensures
        trim_front_spec(s) == trim_front_spec(s.subrange(i, s.len() as int)),
    decreases i,
{
    if i > 0 {
        assert(s.subrange(i - 1, s.len() as int).drop_first() =~= s.subrange(i, s.len() as int));
        lemma_trim_front_prefix(s, i - 1);
        assert(trim_front_spec(s.subrange(i - 1, s.len() as int)) == trim_front_spec(
            s.subrange(i, s.len() as int),
        ));
    } else {
        assert(s.subrange(0, s.len() as int) =~= s);
    }
}

proof fn lemma_trim_back_suffix(s: Seq<u8>, i: int)
    requires
        0 <= i <= s.len(),
        forall|j: int| i <= j < s.len() ==> is_space(s[j]),
    ensures
        trim_back_spec(s) == trim_back_spec(s.subrange(0, i)),
    decreases s.len() - i,
{
    if i < s.len() {
        assert(s.subrange(0, i + 1).drop_last() =~= s.subrange(0, i));
        assert(s.subrange(0, i + 1).last() == s[i]);
        lemma_trim_back_suffix(s, i + 1);
        assert(trim_back_spec(s.subrange(0, i + 1)) == trim_back_spec(s.subrange(0, i)));
    } else {
        assert(s.subrange(0, s.len() as int) =~= s);
    }
}

pub proof fn lemma_trim_front_len(s: Seq<u8>)
    ensures
        trim_front_spec(s).len() <= s.len(),
    decreases s.len(),
{
    if s.len() > 0 && is_space(s[0]) {
        lemma_trim_front_len(s.drop_first());
    }
}

pub proof fn lemma_trim_back_len(s: Seq<u8>)
    ensures
        trim_back_spec(s).len() <= s.len(),
    decreases s.len(),
{
    if s.len() > 0 && is_space(s.last()) {
        lemma_trim_back_len(s.drop_last());
    }
}

/// Trimming never lengthens a field.
pub proof fn lemma_trim_len(s: Seq<u8>)
    ensures
        trim_spec(s).len() <= s.len(),
{
    lemma_trim_front_len(s);
    lemma_trim_back_len(trim_front_spec(s));
}

/// Remove leading and trailing ASCII whitespace from a byte field.
pub fn trim(v: &Vec<u8>) -> (r: Vec<u8>)
    ensures
        r@ == trim_spec(v@),
{
    let n: usize = v.len();
    let mut lo: usize = 0;
    while lo < n && (v[lo] == 32 || v[lo] == 9 || v[lo] == 10 || v[lo] == 11 || v[lo] == 12
        || v[lo] == 13)
        invariant
            n == v@.len(),
            0 <= lo <= n,
            forall|j: int| 0 <= j < lo ==> is_space(v@[j]),
        decreases n - lo,
    {
        lo = lo + 1;
    }
    let mut hi: usize = n;
    while hi > lo && (v[hi - 1] == 32 || v[hi - 1] == 9 || v[hi - 1] == 10 || v[hi - 1] == 11
        || v[hi - 1] == 12 || v[hi - 1] == 13)
        invariant
            n == v@.len(),
            0 <= lo <= hi <= n,
            forall|j: int| 0 <= j < lo ==> is_space(v@[j]),
            forall|j: int| hi <= j < n ==> is_space(v@[j]),
        decreases hi,
    {
        hi = hi - 1;
    }
    let mut r: Vec<u8> = Vec::new();
    let mut i: usize = lo;
    while i < hi
        invariant
            lo <= i <= hi <= v@.len(),
            r@ == v@.subrange(lo as int, i as int),
        decreases hi - i,
    {
        r.push(v[i]);
        assert(r@ =~= v@.subrange(lo as int, i + 1));
        i = i + 1;
    }
    proof {
        let s = v@;
        lemma_trim_front_prefix(s, lo as int);
        let f = s.subrange(lo as int, s.len() as int);
        if hi < n {
            // everything from hi on is space, and lo < hi is false only when lo == hi
        }
        lemma_trim_back_suffix(f, hi - lo);
        assert(f.subrange(0, hi - lo) =~= s.subrange(lo as int, hi as int));
        // the remaining front element (if any) is not a space, so trim_front stops at lo
        if lo < n && !is_space(s[lo as int]) {
            assert(trim_front_spec(f) == f);
        }
        assert(trim_front_spec(s) == f);
        if hi > lo {
            assert(!is_space(f.subrange(0, hi - lo).last()));
            assert(trim_back_spec(f.subrange(0, hi - lo)) == f.subrange(0, hi - lo));
        }
        assert(trim_back_spec(f) == f.subrange(0, hi - lo));
        assert(r@ =~= s.subrange(lo as int, hi as int));
    }
    r
}

// ---------------------------------------------------------------------------
// Digits and unsigned integer fields
// ---------------------------------------------------------------------------

pub open spec fn is_digit(b: u8) -> bool {
    48 <= b <= 57
}

pub open spec fn all_digits(s: Seq<u8>) -> bool {
    forall|i: int| 0 <= i < s.len() ==> is_digit(#[trigger] s[i])
}

/// The number the digit string denotes.
pub open spec fn digits_val(s: Seq<u8>) -> nat
    decreases s.len(),
{
    if s.len() == 0 {
        0
    } else {
        digits_val(s.drop_last()) * 10 + (s.last() - 48) as nat
    }
}

pub open spec fn pow10(n: nat) -> nat
    decreases n,
{
    if n == 0 {
        1
    } else {
        10 * pow10((n - 1) as nat)
    }
}

pub proof fn lemma_digits_val_bound(s: Seq<u8>)
    requires
        all_digits(s),
    ensures
        digits_val(s) < pow10(s.len() as nat),
    decreases s.len(),
{
    if s.len() > 0 {
        assert(all_digits(s.drop_last())) by {
            assert(forall|i: int|
                0 <= i < s.drop_last().len() ==> s.drop_last()[i] == s[i] && is_digit(
                    #[trigger] s[i],
                ));
        }
        lemma_digits_val_bound(s.drop_last());
        assert(s.drop_last().len() == s.len() - 1);
        assert(is_digit(s.last()));
        assert(pow10(s.len() as nat) == 10 * pow10((s.len() - 1) as nat));
        assert((s.last() - 48) as nat <= 9);
        assert(digits_val(s.drop_last()) * 10 <= (pow10((s.len() - 1) as nat) - 1) * 10);
    }
}

/// The body of a numeric field: the text after an optional leading sign.
pub open spec fn sign_body(s: Seq<u8>) -> Seq<u8> {
    if s.len() > 0 && (s[0] == 43 || s[0] == 45) {
        s.drop_first()
    } else {
        s
    }
}

pub open spec fn is_negative_text(s: Seq<u8>) -> bool {
    s.len() > 0 && s[0] == 45
}

/// Whether the field is a well-formed non-negative integer: an optional
/// `+` sign followed by at least one digit.
pub open spec fn is_uint_text(s: Seq<u8>) -> bool {
    &&& !(s.len() > 0 && s[0] == 45)
    &&& sign_body(s).len() > 0
    &&& all_digits(sign_body(s))
}

pub open spec fn uint_val(s: Seq<u8>) -> nat {
    digits_val(sign_body(s))
}

/// Whether the field is a well-formed integer: an optional sign followed
/// by at least one digit.
pub open spec fn is_int_text(s: Seq<u8>) -> bool {
    sign_body(s).len() > 0 && all_digits(sign_body(s))
}

pub open spec fn int_val(s: Seq<u8>) -> int {
    if is_negative_text(s) {
        -(digits_val(sign_body(s)) as int)
    } else {
        digits_val(sign_body(s)) as int
    }
}

/// Accumulate the value of `v[start..]`, which must be all digits.
/// Returns `None` on the first non-digit.
pub(crate) fn digits_value_from(v: &Vec<u8>, start: usize) -> (r: Option<u64>)
    requires
        start <= v@.len() <= 8,
    ensures
        match r {
            Some(n) => all_digits(v@.subrange(start as int, v@.len() as int)) && n
                == digits_val(v@.subrange(start as int, v@.len() as int)) && n < 100_000_000,
            None => !all_digits(v@.subrange(start as int, v@.len() as int)),
        },
{
    let n: usize = v.len();
    let mut acc: u64 = 0;
    let mut i: usize = start;
    while i < n
        invariant
            start <= i <= n == v@.len() <= 8,
            all_digits(v@.subrange(start as int, i as int)),
            acc == digits_val(v@.subrange(start as int, i as int)),
            acc < pow10((i - start) as nat),
        decreases n - i,
    {
        let b: u8 = v[i];
        if b < 48 || b > 57 {
            assert(!is_digit(v@[i as int]));
            assert(v@.subrange(start as int, v@.len() as int)[i - start] == v@[i as int]);
            return None;
        }
        proof {
            assert(pow10((i - start) as nat) <= pow10(7)) by {
                lemma_pow10_mono((i - start) as nat, 7);
            }
            lemma_pow10_vals();
        }
        acc = acc * 10 + (b - 48) as u64;
        proof {
            let s = v@.subrange(start as int, v@.len() as int);
            assert(v@.subrange(start as int, i + 1).drop_last() =~= v@.subrange(
                start as int,
                i as int,
            ));
            assert(v@.subrange(start as int, i + 1).last() == v@[i as int]);
        }
        i = i + 1;
    }
    proof {
        assert(v@.subrange(start as int, n as int) =~= v@.subrange(start as int, v@.len() as int));
        lemma_digits_val_bound(v@.subrange(start as int, v@.len() as int));
        lemma_pow10_mono((n - start) as nat, 8);
        lemma_pow10_vals();
    }
    Some(acc)
}

pub proof fn lemma_pow10_vals()
    ensures
        pow10(0) == 1,
        pow10(1) == 10,
        pow10(2) == 100,
        pow10(3) == 1000,
        pow10(4) == 10000,
        pow10(5) == 100_000,
        pow10(6) == 1_000_000,
        pow10(7) == 10_000_000,
        pow10(8) == 100_000_000,
{
    reveal_with_fuel(pow10, 9);
}

pub proof fn lemma_pow10_mono(a: nat, b: nat)
    requires
        a <= b,
    ensures
        pow10(a) <= pow10(b),
    decreases b,
{
    if a < b {
        lemma_pow10_mono(a, (b - 1) as nat);
    }
}

/// Parse a trimmed field as a non-negative integer, as the record count,
/// record duration and channel count fields are read.
pub fn parse_uint(v: &Vec<u8>) -> (r: Option<u64>)
    requires
        v@.len() <= 8,
    ensures
        r is Some <==> is_uint_text(v@),
        r matches Some(n) ==> n == uint_val(v@) && n < 100_000_000,
{
    let n: usize = v.len();
    if n == 0 {
        return None;
    }
    let start: usize = if v[0] == 43 {
        1
    } else {
        0
    };
    if v[0] == 45 {
        return None;
    }
    if n == start {
        assert(sign_body(v@).len() == 0);
        return None;
    }
    let r = digits_value_from(v, start);
    proof {
        if start == 1 {
            assert(v@.subrange(1, v@.len() as int) =~= v@.drop_first());
        } else {
            assert(v@.subrange(0, v@.len() as int) =~= v@);
        }
    }
    r
}

/// Parse a two-byte field as a signed integer, as the date and time
/// fields are read.
pub fn parse_int2(v: &Vec<u8>) -> (r: Option<i8>)
    requires
        v@.len() == 2,
    ensures
        r is Some <==> is_int_text(v@),
        r matches Some(n) ==> n as int == int_val(v@) && -9 <= n <= 99,
{
    let negative: bool = v[0] == 45;
    let start: usize = if v[0] == 43 || v[0] == 45 {
        1
    } else {
        0
    };
    let r = digits_value_from(v, start);
    proof {
        if start == 1 {
            assert(v@.subrange(1, v@.len() as int) =~= v@.drop_first());
        } else {
            assert(v@.subrange(0, v@.len() as int) =~= v@);
        }
    }
    match r {
        None => None,
        Some(m) => {
            proof {
                lemma_digits_val_bound(sign_body(v@));
                lemma_pow10_vals();
                lemma_pow10_mono(sign_body(v@).len() as nat, 2);
            }
            if negative {
                Some(-(m as i8))
            } else {
                Some(m as i8)
            }
        },
    }
}

/// A two-byte integer field denotes a value between -9 and 99.
pub proof fn lemma_int2_range(s: Seq<u8>)
    requires
        s.len() == 2,
        is_int_text(s),
    ensures
        -9 <= int_val(s) <= 99,
{
    lemma_digits_val_bound(sign_body(s));
    lemma_pow10_vals();
}

/// `pow10` as an executable table, for the exponents a field can hold.
pub fn pow10_u64(n: u32) -> (r: u64)
    requires
        n <= 8,
    ensures
        r == pow10(n as nat),
{
    proof {
        lemma_pow10_vals();
    }
    if n == 0 {
        1
    } else if n == 1 {
        10
    } else if n == 2 {
        100
    } else if n == 3 {
        1000
    } else if n == 4 {
        10000
    } else if n == 5 {
        100_000
    } else if n == 6 {
        1_000_000
    } else if n == 7 {
        10_000_000
    } else {
        100_000_000
    }
}

/// Copy `v[start .. start + len]` out as its own vector.
pub fn subvec(v: &Vec<u8>, start: usize, len: usize) -> (r: Vec<u8>)
    requires
        start + len <= v@.len(),
    ensures
        r@ == v@.subrange(start as int, start + len),
{
    let n: usize = v.len();
    let mut r: Vec<u8> = Vec::new();
    let mut i: usize = 0;
    while i < len
        invariant
            n == v@.len(),
            start + len <= v@.len(),
            0 <= i <= len,
            r@ == v@.subrange(start as int, start + i),
        decreases len - i,
    {
        r.push(v[start + i]);
        assert(r@ =~= v@.subrange(start as int, start + i + 1));
        i = i + 1;
    }
    r
}

/// Relies on `String::from_utf8`: bytes that are valid UTF-8 decode to
/// the string they encode; any other bytes are refused.
#[verifier::external_body]
pub(crate) fn string_from_utf8(v: Vec<u8>) -> (r: Option<String>)
    ensures
        r is Some <==> vstd::utf8::valid_utf8(v@),
        r matches Some(s) ==> s@ == vstd::utf8::decode_utf8(v@),
{
    String::from_utf8(v).ok()
}

} // verus!
