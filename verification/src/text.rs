//! Decimal text of integers, as `to_string` writes it.
use vstd::prelude::*;

verus! {

/// The ASCII digit for `d` (0 to 9).
pub open spec fn digit_char(d: nat) -> char {
    (48 + d) as char
}

/// The decimal digits of `n`, most significant first, with no leading zero.
pub open spec fn decimal(n: nat) -> Seq<char>
    decreases n,
{
    if n < 10 {
        seq![digit_char(n)]
    } else {
        decimal(n / 10).push(digit_char(n % 10))
    }
}

/// The decimal text of a signed number: a minus sign before a negative one.
pub open spec fn signed_decimal(n: int) -> Seq<char> {
    if n < 0 {
        seq!['-'] + decimal((-n) as nat)
    } else {
        decimal(n as nat)
    }
}

/// The number that a run of decimal digits stands for.
pub open spec fn decimal_value(s: Seq<char>) -> nat
    decreases s.len(),
{
    if s.len() == 0 {
        0
    } else {
        10 * decimal_value(s.drop_last()) + ((s.last() as nat) - 48) as nat
    }
}

/// `c` is one of the ASCII digits.
pub open spec fn is_digit(c: char) -> bool {
    '0' <= c <= '9'
}

/// The one-character text of a digit.
fn digit_str(d: u64) -> (s: &'static str)
    requires
        d < 10,
    ensures
        s@ == seq![digit_char(d as nat)],
{
    match d {
        0 => {
            proof {
                reveal_strlit("0");
            }
            "0"
        },
        1 => {
            proof {
                reveal_strlit("1");
            }
            "1"
        },
        2 => {
            proof {
                reveal_strlit("2");
            }
            "2"
        },
        3 => {
            proof {
                reveal_strlit("3");
            }
            "3"
        },
        4 => {
            proof {
                reveal_strlit("4");
            }
            "4"
        },
        5 => {
            proof {
                reveal_strlit("5");
            }
            "5"
        },
        6 => {
            proof {
                reveal_strlit("6");
            }
            "6"
        },
        7 => {
            proof {
                reveal_strlit("7");
            }
            "7"
        },
        8 => {
            proof {
                reveal_strlit("8");
            }
            "8"
        },
        _ => {
            proof {
                reveal_strlit("9");
            }
            "9"
        },
    }
}

/// The digits of `n`, least significant first.
spec fn reversed_digits(n: nat) -> Seq<u64>
    decreases n,
{
    if n < 10 {
        seq![n as u64]
    } else {
        seq![(n % 10) as u64] + reversed_digits(n / 10)
    }
}

/// Writes `n` in decimal: the text `n.to_string()` gives.
pub fn u64_to_decimal(n: u64) -> (s: String)
    ensures
        s@ == decimal(n as nat),
{
    // Peel the digits off, least significant first.
    let mut digits: Vec<u64> = Vec::new();
    let mut m = n;
    loop
        invariant_except_break
            reversed_digits(n as nat) == digits@ + reversed_digits(m as nat),
        ensures
            digits@ == reversed_digits(n as nat),
        decreases m,
    {
        let d = m % 10;
        let ghost before = digits@;
        digits.push(d);
        if m < 10 {
            assert(reversed_digits(m as nat) =~= seq![d]);
            assert(digits@ =~= before + reversed_digits(m as nat));
            break;
        }
        assert(reversed_digits(m as nat) =~= seq![d] + reversed_digits((m / 10) as nat));
        assert(digits@ + reversed_digits((m / 10) as nat) =~= digits@.drop_last() + reversed_digits(
            m as nat,
        ));
        m = m / 10;
    }
    assert(digits@ == reversed_digits(n as nat));
    // Write them out, most significant first.
    let mut s = String::new();
    let mut k = digits.len();
    proof {
        lemma_reversed_digits(n as nat);
    }
    while k > 0
        invariant
            k <= digits@.len(),
            digits@ == reversed_digits(n as nat),
            forall|j: int| 0 <= j < digits@.len() ==> #[trigger] digits@[j] < 10,
            decimal(n as nat) == s@ + decimal_tail(digits@, k as int),
        decreases k,
    {
        k = k - 1;
        let d = digits[k];
        s.append(digit_str(d));
        proof {
            lemma_decimal_tail_step(digits@, k as int);
        }
    }
    s
}

/// The digits `digits[k-1], ..., digits[0]` as characters: what remains to be
/// written once the `k` most significant of the reversed digits are left.
spec fn decimal_tail(digits: Seq<u64>, k: int) -> Seq<char>
    decreases k,
{
    if k <= 0 {
        Seq::empty()
    } else {
        seq![digit_char(digits[k - 1] as nat)] + decimal_tail(digits, k - 1)
    }
}

proof fn lemma_decimal_tail_step(digits: Seq<u64>, k: int)
    requires
        0 <= k,
    ensures
        decimal_tail(digits, k + 1) == seq![digit_char(digits[k] as nat)] + decimal_tail(digits, k),
{
}

/// Every reversed digit is below ten, and writing them all out from the most
/// significant one gives the decimal text.
proof fn lemma_reversed_digits(n: nat)
    ensures
        forall|j: int|
            0 <= j < reversed_digits(n).len() ==> #[trigger] reversed_digits(n)[j] < 10,
        decimal(n) == decimal_tail(reversed_digits(n), reversed_digits(n).len() as int),
    decreases n,
{
    if n >= 10 {
        lemma_reversed_digits(n / 10);
        let r = reversed_digits(n / 10);
        let full = reversed_digits(n);
        assert(full =~= seq![(n % 10) as u64] + r);
        lemma_decimal_tail_shift(r, (n % 10) as u64, r.len() as int);
        assert forall|j: int| 0 <= j < full.len() implies #[trigger] full[j] < 10 by {
            if j > 0 {
                assert(full[j] == r[j - 1]);
            }
        }
    } else {
        assert(decimal_tail(reversed_digits(n), 0) =~= Seq::<char>::empty());
        assert(decimal_tail(reversed_digits(n), 1) =~= seq![digit_char(n)]);
    }
}

/// Prepending the least significant digit appends its character at the end.
proof fn lemma_decimal_tail_shift(r: Seq<u64>, d: u64, k: int)
    requires
        0 <= k <= r.len(),
    ensures
        decimal_tail(seq![d] + r, k + 1) == decimal_tail(r, k).push(digit_char(d as nat)),
    decreases k,
{
    let full = seq![d] + r;
    if k == 0 {
        assert(decimal_tail(full, 0) =~= Seq::<char>::empty());
        assert(decimal_tail(full, 1) =~= seq![digit_char(d as nat)]);
    } else {
        lemma_decimal_tail_shift(r, d, k - 1);
        assert(full[k] == r[k - 1]);
        assert(decimal_tail(full, k + 1) =~= seq![digit_char(r[k - 1] as nat)] + decimal_tail(
            full,
            k,
        ));
        assert(decimal_tail(r, k) =~= seq![digit_char(r[k - 1] as nat)] + decimal_tail(r, k - 1));
    }
}

/// Writes `n` in decimal, with a leading minus sign when it is negative: the
/// text `n.to_string()` gives.
pub fn i32_to_decimal(n: i32) -> (s: String)
    ensures
        s@ == signed_decimal(n as int),
{
    if n < 0 {
        let magnitude: u64 = (0 - (n as i64)) as u64;
        let mut s = String::new();
        proof {
            reveal_strlit("-");
        }
        s.append("-");
        let digits = u64_to_decimal(magnitude);
        s.append(digits.as_str());
        s
    } else {
        u64_to_decimal(n as u64)
    }
}

/// Decimal text is made of digits only and reads back as the number written.
pub proof fn lemma_decimal_roundtrip(n: nat)
    ensures
        decimal(n).len() > 0,
        forall|i: int| 0 <= i < decimal(n).len() ==> is_digit(#[trigger] decimal(n)[i]),
        decimal_value(decimal(n)) == n,
    decreases n,
{
    let c = digit_char(n % 10);
    assert(c as nat == 48 + n % 10);
    if n < 10 {
        assert(decimal(n).drop_last() =~= Seq::<char>::empty());
        assert(decimal_value(Seq::<char>::empty()) == 0);
    } else {
        lemma_decimal_roundtrip(n / 10);
        let d = decimal(n);
        assert(d.drop_last() =~= decimal(n / 10));
        assert forall|i: int| 0 <= i < d.len() implies is_digit(#[trigger] d[i]) by {
            if i < d.len() - 1 {
                assert(d[i] == decimal(n / 10)[i]);
            }
        }
    }
}

} // verus!
