use vstd::prelude::*;

verus! {

/// Whether `c` is one of the ten decimal digits.
pub open spec fn is_digit(c: char) -> bool {
    '0' <= c && c <= '9'
}

/// The number a decimal digit stands for.
pub open spec fn digit_value(c: char) -> nat {
    (c as u32 - 48) as nat
}

/// The digit that stands for `d`, for `d` below ten.
pub open spec fn digit_char(d: nat) -> char {
    ((d + 48) as u8) as char
}

/// The decimal numeral of `n`, without sign or leading zeros.
pub open spec fn decimal(n: nat) -> Seq<char>
    decreases n,
{
    if n < 10 {
        seq![digit_char(n)]
    } else {
        decimal(n / 10).push(digit_char(n % 10))
    }
}

/// The decimal numeral of `v`, with a minus sign when `v` is negative.
pub open spec fn signed_decimal(v: int) -> Seq<char> {
    if v < 0 {
        seq!['-'] + decimal((-v) as nat)
    } else {
        decimal(v as nat)
    }
}

/// Whether every character of `s` is a decimal digit.
pub open spec fn all_digits(s: Seq<char>) -> bool {
    forall|i: int| 0 <= i < s.len() ==> is_digit(#[trigger] s[i])
}

/// The number that a sequence of decimal digits denotes; leading zeros count for nothing.
pub open spec fn digits_value(s: Seq<char>) -> nat
    decreases s.len(),
{
    if s.len() == 0 {
        0
    } else {
        digits_value(s.drop_last()) * 10 + digit_value(s.last())
    }
}

/// The integer that the text `s` denotes, if it denotes one between `lo` and `hi`.
///
/// A numeral is an optional sign followed by one or more decimal digits and
/// nothing else. A plus sign is always accepted, a minus sign only where the
/// range reaches below zero.
pub open spec fn parse_int(s: Seq<char>, lo: int, hi: int) -> Option<int> {
    let neg = lo < 0 && s.len() > 0 && s[0] == '-';
    let body = if s.len() > 0 && (s[0] == '+' || neg) {
        s.skip(1)
    } else {
        s
    };
    if body.len() == 0 || !all_digits(body) {
        None
    } else {
        let v = if neg {
            -(digits_value(body) as int)
        } else {
            digits_value(body) as int
        };
        if lo <= v <= hi {
            Some(v)
        } else {
            None
        }
    }
}

/// A numeral consists of digits only, is not empty, and denotes its number.
pub proof fn lemma_decimal_value(n: nat)
    ensures
        decimal(n).len() > 0,
        all_digits(decimal(n)),
        digits_value(decimal(n)) == n,
    decreases n,
{
    if n < 10 {
        assert(decimal(n) == seq![digit_char(n)]);
        assert(decimal(n).drop_last() == Seq::<char>::empty());
        assert(digits_value(decimal(n).drop_last()) == 0);
    } else {
        lemma_decimal_value(n / 10);
        let s = decimal(n / 10);
        let t = s.push(digit_char(n % 10));
        assert(t.drop_last() == s);
        assert(t.last() == digit_char(n % 10));
    }
}

/// Reading a written integer gives the integer back, when it lies in the range.
pub proof fn lemma_parse_signed_decimal(v: int, lo: int, hi: int)
    requires
        lo <= v <= hi,
        lo <= 0,
    ensures
        parse_int(signed_decimal(v), lo, hi) == Some(v),
{
    if v < 0 {
        let d = decimal((-v) as nat);
        lemma_decimal_value((-v) as nat);
        let s = seq!['-'] + d;
        assert(s[0] == '-');
        assert(s.skip(1) == d);
    } else {
        let d = decimal(v as nat);
        lemma_decimal_value(v as nat);
        assert(is_digit(d[0]));
    }
}

/// The value of a prefix of a digit sequence never exceeds the value of the whole.
pub proof fn lemma_digits_value_prefix(s: Seq<char>, k: int)
    requires
        0 <= k <= s.len(),
    ensures
        digits_value(s.take(k)) <= digits_value(s),
    decreases s.len() - k,
{
    if k == s.len() {
        assert(s.take(k) == s);
    } else {
        lemma_digits_value_prefix(s, k + 1);
        let t = s.take(k + 1);
        assert(t.drop_last() == s.take(k));
    }
}

/// Appends the decimal numeral of `v` to `out`.
pub fn push_unsigned(out: &mut Vec<char>, v: u64)
    ensures
        final(out)@ == old(out)@ + decimal(v as nat),
    decreases v,
{
    if v >= 10 {
        push_unsigned(out, v / 10);
    }
    let d: u8 = (v % 10) as u8;
    out.push((d + 48) as char);
    proof {
        if v >= 10 {
            assert(final(out)@ == old(out)@ + decimal(v as nat / 10).push(
                digit_char(v as nat % 10),
            ));
        } else {
            assert(final(out)@ == old(out)@ + seq![digit_char(v as nat)]);
        }
    }
}

/// Appends the decimal numeral of `v` to `out`, with a minus sign when `v` is negative.
pub fn push_signed(out: &mut Vec<char>, v: i64)
    ensures
        final(out)@ == old(out)@ + signed_decimal(v as int),
{
    if v < 0 {
        out.push('-');
        let m: i128 = -(v as i128);
        push_unsigned(out, m as u64);
        assert(final(out)@ == old(out)@ + (seq!['-'] + decimal((-v) as nat)));
    } else {
        push_unsigned(out, v as u64);
    }
}

/// Reads the integer that `s` denotes, if it denotes one between `lo` and `hi`.
#[verifier::loop_isolation(false)]
pub fn read_int(s: &Vec<char>, lo: i128, hi: i128) -> (r: Option<i128>)
    requires
        -0x1_0000_0000_0000_0000 <= lo <= 0 <= hi <= 0x1_0000_0000_0000_0000,
    ensures
        r == match parse_int(s@, lo as int, hi as int) {
            Some(v) => Some(v as i128),
            None => None,
        },
{
    let n = s.len();
    let neg = lo < 0 && n > 0 && s[0] == '-';
    let start: usize = if n > 0 && (s[0] == '+' || neg) {
        1
    } else {
        0
    };
    let ghost body = s@.skip(start as int);
    proof {
        assert(s@.skip(0) == s@);
    }
    if start == n {
        return None;
    }
    let limit: i128 = if neg {
        -lo
    } else {
        hi
    };
    let mut acc: i128 = 0;
    let mut i: usize = start;
    while i < n
        invariant
            start <= i <= n,
            n == s.len(),
            body == s@.skip(start as int),
            all_digits(body.take(i - start)),
            acc == digits_value(body.take(i - start)),
            0 <= acc <= limit <= 0x1_0000_0000_0000_0000,
        decreases n - i,
    {
        let c = s[i];
        let ghost next = body.take(i - start + 1);
        proof {
            assert(next.drop_last() == body.take(i - start));
            assert(next.last() == c);
        }
        if !('0' <= c && c <= '9') {
            proof {
                assert(body[i - start] == c);
                assert(!is_digit(body[i - start]));
            }
            return None;
        }
        let d: i128 = (c as u32 - 48) as i128;
        let grown: i128 = acc * 10 + d;
        assert(grown == digits_value(next));
        if grown > limit {
            proof {
                // Whatever the remaining characters are, the value can only grow.
                if all_digits(body) {
                    lemma_digits_value_prefix(body, i - start + 1);
                }
            }
            return None;
        }
        acc = grown;
        i += 1;
        proof {
            assert forall|j: int| 0 <= j < next.len() implies is_digit(#[trigger] next[j]) by {
                if j < next.len() - 1 {
                    assert(next[j] == body.take(i - start - 1)[j]);
                }
            }
        }
    }
    proof {
        assert(body.take(n - start) == body);
    }
    if neg {
        Some(-acc)
    } else {
        Some(acc)
    }
}

} // verus!
