use vstd::prelude::*;

verus! {

// ---------------------------------------------------------------------------
// Decimal text: specification
// ---------------------------------------------------------------------------
pub open spec fn is_dec_digit(c: char) -> bool {
    48 <= c as u32 && c as u32 <= 57
}

pub open spec fn digit_value(c: char) -> int {
    (c as u32) as int - 48
}

pub open spec fn digit_char(d: int) -> char {
    ((d + 48) as u8) as char
}

pub open spec fn all_dec_digits(s: Seq<char>) -> bool {
    forall|i: int| 0 <= i < s.len() ==> is_dec_digit(#[trigger] s[i])
}

/// The integer denoted by a sequence of decimal digits, most significant first.
pub open spec fn digits_value(s: Seq<char>) -> int
    decreases s.len(),
{
    if s.len() == 0 {
        0
    } else {
        10 * digits_value(s.drop_last()) + digit_value(s.last())
    }
}

/// The canonical decimal digits of a non-negative integer, without sign and
/// without leading zeros.
pub open spec fn spec_nat_text(n: int) -> Seq<char>
    decreases n,
{
    if n < 10 {
        seq![digit_char(n)]
    } else {
        spec_nat_text(n / 10) + seq![digit_char(n % 10)]
    }
}

/// The decimal rendering of a 64-bit signed integer, as `i64::to_string`
/// produces it: a `-` sign for negative values, then the magnitude's digits.
pub open spec fn spec_i64_text(v: i64) -> Seq<char> {
    if v < 0 {
        seq!['-'] + spec_nat_text(-(v as int))
    } else {
        spec_nat_text(v as int)
    }
}

/// The value `str::parse::<i64>` accepts: an optional single `+` or `-` sign,
/// then one or more decimal digits, and the result must fit in 64 signed bits.
pub open spec fn spec_parse_i64(s: Seq<char>) -> Option<i64> {
    let neg = s.len() > 0 && s[0] == '-';
    let ds = if s.len() > 0 && (s[0] == '-' || s[0] == '+') {
        s.drop_first()
    } else {
        s
    };
    if ds.len() > 0 && all_dec_digits(ds) {
        let v = if neg {
            -digits_value(ds)
        } else {
            digits_value(ds)
        };
        if i64::MIN <= v <= i64::MAX {
            Some(v as i64)
        } else {
            None
        }
    } else {
        None
    }
}

/// The little-endian two's-complement bytes of a 64-bit signed integer, as
/// `i64::to_le_bytes` produces them.
pub open spec fn spec_i64_le_bytes(v: i64) -> Seq<u8> {
    vstd::bytes::spec_u64_to_le_bytes(v as u64)
}

// ---------------------------------------------------------------------------
// Lemmas
// ---------------------------------------------------------------------------
pub proof fn lemma_digits_value_nonneg(s: Seq<char>)
    requires
        all_dec_digits(s),
    ensures
        digits_value(s) >= 0,
    decreases s.len(),
{
    if s.len() > 0 {
        assert(all_dec_digits(s.drop_last()));
        lemma_digits_value_nonneg(s.drop_last());
    }
}

/// Extending a digit string on the right can only increase its value.
pub proof fn lemma_digits_value_prefix_le(s: Seq<char>, i: int)
    requires
        all_dec_digits(s),
        0 <= i <= s.len(),
    ensures
        digits_value(s.take(i)) <= digits_value(s),
    decreases s.len() - i,
{
    if i < s.len() {
        let t = s.take(i + 1);
        assert(t.drop_last() =~= s.take(i));
        assert(all_dec_digits(s.take(i)));
        lemma_digits_value_nonneg(s.take(i));
        assert(digits_value(t) == 10 * digits_value(s.take(i)) + digit_value(s[i]));
        lemma_digits_value_prefix_le(s, i + 1);
        assert(s.take(s.len() as int) =~= s);
    } else {
        assert(s.take(i) =~= s);
    }
}

// ---------------------------------------------------------------------------
// Executable conversions
// ---------------------------------------------------------------------------
/// Appends the decimal digits of `n` to `out`.
pub fn push_digits(n: u64, out: &mut Vec<char>)
    ensures
        final(out)@ == old(out)@ + spec_nat_text(n as int),
    decreases n,
{
    if n < 10 {
        let c: char = ((n as u8) + 48) as char;
        out.push(c);
        assert(out@ =~= old(out)@ + spec_nat_text(n as int));
    } else {
        push_digits(n / 10, out);
        let c: char = (((n % 10) as u8) + 48) as char;
        out.push(c);
        assert(out@ =~= old(out)@ + spec_nat_text(n as int));
    }
}

/// Renders a 64-bit signed integer in decimal, as `i64::to_string` does.
pub fn i64_to_string(v: i64) -> (r: String)
    ensures
        r@ == spec_i64_text(v),
{
    let mut out: Vec<char> = Vec::new();
    if v >= 0 {
        push_digits(v as u64, &mut out);
    } else {
        out.push('-');
        let magnitude: u64 = if v == i64::MIN {
            9223372036854775808u64
        } else {
            (-v) as u64
        };
        assert(magnitude as int == -(v as int));
        push_digits(magnitude, &mut out);
        assert(out@ =~= seq!['-'] + spec_nat_text(-(v as int)));
    }
    crate::text::string_from_chars(&out)
}

/// Renders an unsigned byte in decimal, as `u8::to_string` does.
pub fn u8_to_string(b: u8) -> (r: String)
    ensures
        r@ == spec_nat_text(b as int),
{
    let mut out: Vec<char> = Vec::new();
    push_digits(b as u64, &mut out);
    assert(out@ =~= spec_nat_text(b as int));
    crate::text::string_from_chars(&out)
}

/// Parses a decimal 64-bit signed integer, exactly as `str::parse::<i64>`
/// accepts one.
pub fn parse_i64_chars(chars: &Vec<char>) -> (r: Option<i64>)
    ensures
        r == spec_parse_i64(chars@),
{
    let n = chars.len();
    let ghost s = chars@;
    let mut start: usize = 0;
    let mut neg = false;
    if n > 0 && (chars[0] == '-' || chars[0] == '+') {
        neg = chars[0] == '-';
        start = 1;
        assert(s.drop_first() =~= s.subrange(1, s.len() as int));
    }
    let ghost spec_neg = s.len() > 0 && s[0] == '-';
    assert(neg == spec_neg);
    let ghost ds = s.subrange(start as int, s.len() as int);
    if start >= n {
        return None;
    }
    // Accumulate the negated value so that i64::MIN is reachable.
    let mut acc: i64 = 0;
    let mut j: usize = start;
    while j < n
        invariant
            s == chars@,
            start <= j <= n,
            n == s.len(),
            neg == (s.len() > 0 && s[0] == '-'),
            (start == 1) == (s.len() > 0 && (s[0] == '-' || s[0] == '+')),
            ds == s.subrange(start as int, s.len() as int),
            start <= 1,
            all_dec_digits(s.subrange(start as int, j as int)),
            acc <= 0,
            acc as int == -digits_value(s.subrange(start as int, j as int)),
        decreases n - j,
    {
        let c = chars[j];
        let u = c as u32;
        if u < 48 || u > 57 {
            proof {
                assert(ds[j - start] == s[j as int]);
                assert(!is_dec_digit(ds[j - start]));
            }
            return None;
        }
        let d = (u - 48) as i64;
        let ghost prefix = s.subrange(start as int, j as int);
        let ghost prefix1 = s.subrange(start as int, j as int + 1);
        proof {
            assert(prefix1 =~= prefix.push(c));
            assert(prefix1.drop_last() =~= prefix);
            assert(is_dec_digit(c));
            assert forall|i: int| 0 <= i < prefix1.len() implies is_dec_digit(#[trigger] prefix1[i]) by {
                if i < prefix.len() {
                    assert(prefix1[i] == prefix[i]);
                } else {
                    assert(prefix1[i] == c);
                }
            }
            assert(all_dec_digits(prefix1));
            assert(digits_value(prefix1) == 10 * digits_value(prefix) + digit_value(c));
        }
        let next = match acc.checked_mul(10) {
            Some(a) => a.checked_sub(d),
            None => None,
        };
        match next {
            Some(a) => {
                acc = a;
            },
            None => {
                // The digits seen so far already exceed the 64-bit signed
                // range; if the rest of the string is digits too, the full
                // value is out of range, and otherwise parsing fails anyway.
                proof {
                    if start == 1 {
                        assert(ds =~= s.drop_first());
                    } else {
                        assert(ds =~= s);
                    }
                    assert(digits_value(prefix1) > 9223372036854775808);
                    if all_dec_digits(ds) {
                        assert(ds.take(j - start + 1) =~= prefix1);
                        lemma_digits_value_prefix_le(ds, j - start + 1);
                    }
                }
                return None;
            },
        }
        j += 1;
    }
    assert(s.subrange(start as int, j as int) =~= ds);
    proof {
        if start == 1 {
            assert(ds =~= s.drop_first());
        } else {
            assert(ds =~= s);
        }
        lemma_digits_value_nonneg(ds);
    }
    if neg {
        Some(acc)
    } else {
        if acc == i64::MIN {
            // The magnitude is one more than i64::MAX.
            None
        } else {
            Some(-acc)
        }
    }
}

/// The little-endian bytes of a 64-bit signed integer, as `i64::to_le_bytes`
/// lays them out.
pub fn i64_to_le_bytes(v: i64) -> (r: Vec<u8>)
    ensures
        r@ == spec_i64_le_bytes(v),
{
    vstd::bytes::u64_to_le_bytes(v as u64)
}

} // verus!
