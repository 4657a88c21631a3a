use vstd::prelude::*;
use crate::text::{lemma_pow10_vals, pow10};

verus! {

pub open spec fn digit_char(d: int) -> char {
    if d == 0 {
        '0'
    } else if d == 1 {
        '1'
    } else if d == 2 {
        '2'
    } else if d == 3 {
        '3'
    } else if d == 4 {
        '4'
    } else if d == 5 {
        '5'
    } else if d == 6 {
        '6'
    } else if d == 7 {
        '7'
    } else if d == 8 {
        '8'
    } else {
        '9'
    }
}

/// The decimal digits of `n`, most significant first.
pub open spec fn digits10(n: nat) -> Seq<char>
    decreases n,
{
    if n < 10 {
        seq![digit_char(n as int)]
    } else {
        digits10(n / 10).push(digit_char((n % 10) as int))
    }
}

/// Exactly `k` decimal digits of `n`, zero-padded on the left.
pub open spec fn digits_fixed(n: nat, k: nat) -> Seq<char>
    decreases k,
{
    if k == 0 {
        Seq::empty()
    } else {
        digits_fixed(n / 10, (k - 1) as nat).push(digit_char((n % 10) as int))
    }
}

/// Drop the trailing zero digits.
pub open spec fn strip0(s: Seq<char>) -> Seq<char>
    decreases s.len(),
{
    if s.len() > 0 && s.last() == '0' {
        strip0(s.drop_last())
    } else {
        s
    }
}

/// The decimal text of `(-1)^neg * m / 10^7`: integer part, then the
/// fractional digits with trailing zeros removed; a value that truncates
/// to zero prints without a sign.
pub open spec fn render(neg: bool, m: nat) -> Seq<char> {
    let sign: Seq<char> = if neg && m > 0 {
        seq!['-']
    } else {
        Seq::empty()
    };
    let ip = digits10(m / 10_000_000);
    let fp = strip0(digits_fixed(m % 10_000_000, 7));
    if fp.len() > 0 {
        sign + ip + seq!['.'] + fp
    } else {
        sign + ip
    }
}

pub proof fn lemma_digits_fixed_len(n: nat, k: nat)
    ensures
        digits_fixed(n, k).len() == k,
    decreases k,
{
    if k > 0 {
        lemma_digits_fixed_len(n / 10, (k - 1) as nat);
    }
}

fn digit_str(d: u8) -> (r: &'static str)
    requires
        d < 10,
    ensures
        r@ =~= seq![digit_char(d as int)],
{
    proof {
        reveal_strlit("0");
        reveal_strlit("1");
        reveal_strlit("2");
        reveal_strlit("3");
        reveal_strlit("4");
        reveal_strlit("5");
        reveal_strlit("6");
        reveal_strlit("7");
        reveal_strlit("8");
        reveal_strlit("9");
    }
    if d == 0 {
        "0"
    } else if d == 1 {
        "1"
    } else if d == 2 {
        "2"
    } else if d == 3 {
        "3"
    } else if d == 4 {
        "4"
    } else if d == 5 {
        "5"
    } else if d == 6 {
        "6"
    } else if d == 7 {
        "7"
    } else if d == 8 {
        "8"
    } else {
        "9"
    }
}

/// Append the decimal digits of `n`.
pub fn append_digits10(s: &mut String, n: u128)
    ensures
        final(s)@ == old(s)@ + digits10(n as nat),
    decreases n,
{
    if n >= 10 {
        append_digits10(s, n / 10);
        s.append(digit_str((n % 10) as u8));
        proof {
            assert(final(s)@ =~= old(s)@ + digits10(n as nat));
        }
    } else {
        s.append(digit_str(n as u8));
        proof {
            assert(final(s)@ =~= old(s)@ + digits10(n as nat));
        }
    }
}

/// Append exactly `k` zero-padded decimal digits of `n`.
pub fn append_digits_fixed(s: &mut String, n: u128, k: u32)
    ensures
        final(s)@ == old(s)@ + digits_fixed(n as nat, k as nat),
    decreases k,
{
    if k > 0 {
        append_digits_fixed(s, n / 10, k - 1);
        s.append(digit_str((n % 10) as u8));
        proof {
            assert(final(s)@ =~= old(s)@ + digits_fixed(n as nat, k as nat));
        }
    } else {
        proof {
            assert(final(s)@ =~= old(s)@ + digits_fixed(n as nat, 0));
        }
    }
}

/// Build the decimal text of `(-1)^neg * m / 10^7`.
pub fn render_value(neg: bool, m: u128) -> (r: String)
    ensures
        r@ == render(neg, m as nat),
{
    proof {
        lemma_pow10_vals();
    }
    let ip: u128 = m / 10_000_000;
    let mut f: u128 = m % 10_000_000;
    let mut width: u32 = 7;
    let ghost f0 = (m % 10_000_000) as nat;
    while width > 0 && f % 10 == 0
        invariant
            width <= 7,
            strip0(digits_fixed(f0, 7)) == strip0(digits_fixed(f as nat, width as nat)),
        decreases width,
    {
        proof {
            assert(digits_fixed(f as nat, width as nat).last() == digit_char((f % 10) as int));
            assert(digits_fixed(f as nat, width as nat).drop_last() =~= digits_fixed(
                (f / 10) as nat,
                (width - 1) as nat,
            )) by {
                lemma_digits_fixed_len(f as nat, width as nat);
            }
        }
        f = f / 10;
        width = width - 1;
    }
    proof {
        if width == 0 {
            assert(strip0(digits_fixed(f0, 7)).len() == 0);
        } else {
            assert(digits_fixed(f as nat, width as nat).last() == digit_char((f % 10) as int));
            assert(digit_char((f % 10) as int) != '0');
            assert(strip0(digits_fixed(f as nat, width as nat)) == digits_fixed(
                f as nat,
                width as nat,
            ));
            lemma_digits_fixed_len(f as nat, width as nat);
        }
    }
    let mut s = String::new();
    if neg && m > 0 {
        s.append("-");
    }
    append_digits10(&mut s, ip);
    if width > 0 {
        s.append(".");
        append_digits_fixed(&mut s, f, width);
    }
    proof {
        reveal_strlit("-");
        reveal_strlit(".");
        assert(s@ =~= render(neg, m as nat));
    }
    s
}

} // verus!
