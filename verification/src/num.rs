//! Decimal and hexadecimal text for the wire codec: status codes, ports,
//! content lengths, and 16-digit session identifiers.

use vstd::prelude::*;

verus! {

/// The decimal digit character for `d` (0 to 9).
pub open spec fn digit_char(d: int) -> char {
    if d == 0 {
        '0'
    } else if d == 1 {
        '1'
    } else if d == 2 {
        '2'
    } else if d == 3 {
        '3'
    } else if d == 4 {
        '4'
    } else if d == 5 {
        '5'
    } else if d == 6 {
        '6'
    } else if d == 7 {
        '7'
    } else if d == 8 {
        '8'
    } else {
        '9'
    }
}

/// The decimal digits of `n`, most significant first, without leading zeros
/// (a single `'0'` for zero).
pub open spec fn spec_dec_digits(n: int) -> Seq<char>
    recommends
        n >= 0,
    decreases n,
{
    if n < 10 {
        seq![digit_char(n)]
    } else {
        spec_dec_digits(n / 10).push(digit_char(n % 10))
    }
}

/// The upper-case hexadecimal digit character for `d` (0 to 15).
pub open spec fn hex_digit_char(d: int) -> char {
    if d < 10 {
        digit_char(d)
    } else if d == 10 {
        'A'
    } else if d == 11 {
        'B'
    } else if d == 12 {
        'C'
    } else if d == 13 {
        'D'
    } else if d == 14 {
        'E'
    } else {
        'F'
    }
}

/// The last `width` hexadecimal digits of `n`, most significant first,
/// zero-padded.
pub open spec fn spec_hex_digits(n: int, width: nat) -> Seq<char>
    decreases width,
{
    if width == 0 {
        seq![]
    } else {
        spec_hex_digits(n / 16, (width - 1) as nat).push(hex_digit_char(n % 16))
    }
}

/// A session identifier: 16 upper-case hexadecimal digits.
pub open spec fn spec_hex16(n: u64) -> Seq<char> {
    spec_hex_digits(n as int, 16)
}

pub open spec fn spec_is_digit(c: char) -> bool {
    48 <= c as u32 <= 57
}

pub open spec fn digit_val(c: char) -> int {
    c as u32 - 48
}

pub open spec fn spec_all_digits(s: Seq<char>) -> bool {
    forall|i: int| 0 <= i < s.len() ==> spec_is_digit(#[trigger] s[i])
}

/// The value of a digit string (most significant first).
pub open spec fn spec_dec_val(s: Seq<char>) -> int
    decreases s.len(),
{
    if s.len() == 0 {
        0
    } else {
        spec_dec_val(s.drop_last()) * 10 + digit_val(s.last())
    }
}

/// What parsing a decimal port or status field yields: the value of a
/// non-empty all-digit string, if it fits in `u16`.
pub open spec fn spec_parse_u16(s: Seq<char>) -> Option<u16> {
    if s.len() > 0 && spec_all_digits(s) && spec_dec_val(s) <= 65535 {
        Some(spec_dec_val(s) as u16)
    } else {
        None
    }
}

pub proof fn lemma_dec_val_nonneg(s: Seq<char>)
    requires
        spec_all_digits(s),
    ensures
        spec_dec_val(s) >= 0,
    decreases s.len(),
{
    if s.len() > 0 {
        assert(spec_all_digits(s.drop_last())) by {
            assert(forall|i: int|
                0 <= i < s.len() - 1 ==> s.drop_last()[i] == #[trigger] s[i]);
        }
        lemma_dec_val_nonneg(s.drop_last());
    }
}

pub proof fn lemma_dec_val_prefix(s: Seq<char>, i: int)
    requires
        spec_all_digits(s),
        0 <= i <= s.len(),
    ensures
        spec_dec_val(s) >= spec_dec_val(s.take(i)),
    decreases s.len() - i,
{
    if i == s.len() {
        assert(s.take(i) =~= s);
    } else {
        assert(s.take(i + 1).drop_last() =~= s.take(i));
        assert(s.take(i + 1).last() == s[i]);
        assert(spec_all_digits(s.take(i))) by {
            assert(forall|k: int| 0 <= k < i ==> s.take(i)[k] == #[trigger] s[k]);
        }
        lemma_dec_val_nonneg(s.take(i));
        lemma_dec_val_prefix(s, i + 1);
    }
}

/// The decimal digits of a value parse back to that value.
pub proof fn lemma_dec_digits_val(n: int)
    requires
        n >= 0,
    ensures
        spec_all_digits(spec_dec_digits(n)),
        spec_dec_val(spec_dec_digits(n)) == n,
        spec_dec_digits(n).len() >= 1,
    decreases n,
{
    if n < 10 {
        let w = spec_dec_digits(n);
        assert(w =~= seq![digit_char(n)]);
        assert(w.drop_last() =~= Seq::<char>::empty());
        assert(w.last() == digit_char(n));
        assert(spec_dec_val(w) == spec_dec_val(w.drop_last()) * 10 + digit_val(w.last()));
        assert(spec_dec_val(Seq::<char>::empty()) == 0);
        assert(digit_val(digit_char(n)) == n);
    } else {
        lemma_dec_digits_val(n / 10);
        let d = spec_dec_digits(n / 10);
        let w = spec_dec_digits(n);
        assert(w =~= d.push(digit_char(n % 10)));
        assert(w.drop_last() =~= d);
        assert(spec_dec_val(w) == spec_dec_val(d) * 10 + digit_val(digit_char(n % 10)));
        assert(n / 10 * 10 + n % 10 == n);
    }
}

/// A one-character string for the decimal digit `d`.
fn digit_str(d: u64) -> (r: &'static str)
    requires
        d < 10,
    ensures
        r@ =~= seq![digit_char(d as int)],
{
    proof {
        reveal_strlit("0");
        reveal_strlit("1");
        reveal_strlit("2");
        reveal_strlit("3");
        reveal_strlit("4");
        reveal_strlit("5");
        reveal_strlit("6");
        reveal_strlit("7");
        reveal_strlit("8");
        reveal_strlit("9");
    }
    if d == 0 {
        "0"
    } else if d == 1 {
        "1"
    } else if d == 2 {
        "2"
    } else if d == 3 {
        "3"
    } else if d == 4 {
        "4"
    } else if d == 5 {
        "5"
    } else if d == 6 {
        "6"
    } else if d == 7 {
        "7"
    } else if d == 8 {
        "8"
    } else {
        "9"
    }
}

/// A one-character string for the upper-case hexadecimal digit `d`.
fn hex_digit_str(d: u64) -> (r: &'static str)
    requires
        d < 16,
    ensures
        r@ =~= seq![hex_digit_char(d as int)],
{
    if d < 10 {
        digit_str(d)
    } else {
        proof {
            reveal_strlit("A");
            reveal_strlit("B");
            reveal_strlit("C");
            reveal_strlit("D");
            reveal_strlit("E");
            reveal_strlit("F");
        }
        if d == 10 {
            "A"
        } else if d == 11 {
            "B"
        } else if d == 12 {
            "C"
        } else if d == 13 {
            "D"
        } else if d == 14 {
            "E"
        } else {
            "F"
        }
    }
}

/// `n` in decimal, as [`spec_dec_digits`] describes.
pub fn u64_to_dec(n: u64) -> (r: String)
    ensures
        r@ == spec_dec_digits(n as int),
    decreases n,
{
    if n < 10 {
        String::from_str(digit_str(n))
    } else {
        let r = u64_to_dec(n / 10).concat(digit_str(n % 10));
        proof {
            assert(spec_dec_digits(n as int / 10) + seq![digit_char(n as int % 10)]
                =~= spec_dec_digits(n as int / 10).push(digit_char(n as int % 10)));
        }
        r
    }
}

fn hex_digits_rec(n: u64, width: u64) -> (r: String)
    requires
        width <= 16,
    ensures
        r@ == spec_hex_digits(n as int, width as nat),
    decreases width,
{
    if width == 0 {
        String::new()
    } else {
        let r = hex_digits_rec(n / 16, width - 1).concat(hex_digit_str(n % 16));
        proof {
            assert(spec_hex_digits(n as int / 16, (width - 1) as nat) + seq![
                hex_digit_char(n as int % 16),
            ] =~= spec_hex_digits(n as int / 16, (width - 1) as nat).push(
                hex_digit_char(n as int % 16),
            ));
        }
        r
    }
}

/// `n` as 16 upper-case hexadecimal digits, zero-padded.
pub fn u64_to_hex16(n: u64) -> (r: String)
    ensures
        r@ == spec_hex16(n),
{
    hex_digits_rec(n, 16)
}

/// Parses a non-empty all-digit string into a `u16`, as [`spec_parse_u16`]
/// describes.
pub fn parse_u16(s: &str) -> (r: Option<u16>)
    ensures
        r == spec_parse_u16(s@),
{
    let n = s.unicode_len();
    let mut acc: u32 = 0;
    let mut i: usize = 0;
    while i < n
        invariant
            i <= n,
            n == s@.len(),
            acc <= 65535,
            spec_all_digits(s@.take(i as int)),
            acc == spec_dec_val(s@.take(i as int)),
        decreases n - i,
    {
        let c = s.get_char(i);
        let cu = c as u32;
        if cu < 48 || cu > 57 {
            assert(!spec_is_digit(s@[i as int]));
            assert(!spec_all_digits(s@));
            return None;
        }
        let d = cu - 48;
        proof {
            assert(s@.take(i + 1).drop_last() =~= s@.take(i as int));
            assert(s@.take(i + 1).last() == s@[i as int]);
            assert forall|k: int| 0 <= k < i + 1 implies spec_is_digit(
                #[trigger] s@.take(i + 1)[k],
            ) by {
                if k < i {
                    assert(s@.take(i as int)[k] == s@[k]);
                    assert(s@.take(i + 1)[k] == s@[k]);
                } else {
                    assert(s@.take(i + 1)[k] == s@[i as int]);
                }
            }
        }
        let acc2 = acc * 10 + d;
        if acc2 > 65535 {
            proof {
                if spec_all_digits(s@) {
                    lemma_dec_val_prefix(s@, i + 1);
                    assert(s@.take(n as int) =~= s@);
                }
            }
            return None;
        }
        acc = acc2;
        i += 1;
    }
    proof {
        assert(s@.take(n as int) =~= s@);
    }
    if n == 0 {
        None
    } else {
        Some(acc as u16)
    }
}


/// Sixteen to the `w`-th power.
pub open spec fn sixteen_pow(w: nat) -> int
    decreases w,
{
    if w == 0 {
        1
    } else {
        16 * sixteen_pow((w - 1) as nat)
    }
}

proof fn lemma_hex_digit_char_inj(a: int, b: int)
    requires
        0 <= a < 16,
        0 <= b < 16,
        hex_digit_char(a) == hex_digit_char(b),
    ensures
        a == b,
{
}

proof fn lemma_hex_digits_inj(n1: int, n2: int, w: nat)
    requires
        0 <= n1 < sixteen_pow(w),
        0 <= n2 < sixteen_pow(w),
        spec_hex_digits(n1, w) == spec_hex_digits(n2, w),
    ensures
        n1 == n2,
    decreases w,
{
    if w == 0 {
        assert(sixteen_pow(0) == 1);
    } else {
        let d1 = spec_hex_digits(n1, w);
        let d2 = spec_hex_digits(n2, w);
        assert(d1 == spec_hex_digits(n1 / 16, (w - 1) as nat).push(hex_digit_char(n1 % 16)));
        assert(d2 == spec_hex_digits(n2 / 16, (w - 1) as nat).push(hex_digit_char(n2 % 16)));
        lemma_hex_digits_len(n1, w);
        assert(d1.last() == hex_digit_char(n1 % 16));
        assert(d2.last() == hex_digit_char(n2 % 16));
        lemma_hex_digit_char_inj(n1 % 16, n2 % 16);
        assert(d1.drop_last() =~= spec_hex_digits(n1 / 16, (w - 1) as nat));
        assert(d2.drop_last() =~= spec_hex_digits(n2 / 16, (w - 1) as nat));
        assert(n1 / 16 < sixteen_pow((w - 1) as nat) && n2 / 16 < sixteen_pow((w - 1) as nat)) by (nonlinear_arith)
            requires
                0 <= n1 < 16 * sixteen_pow((w - 1) as nat),
                0 <= n2 < 16 * sixteen_pow((w - 1) as nat),
        ;
        lemma_hex_digits_inj(n1 / 16, n2 / 16, (w - 1) as nat);
        vstd::arithmetic::div_mod::lemma_fundamental_div_mod(n1, 16);
        vstd::arithmetic::div_mod::lemma_fundamental_div_mod(n2, 16);
    }
}

proof fn lemma_hex_digits_len(n: int, w: nat)
    ensures
        spec_hex_digits(n, w).len() == w,
    decreases w,
{
    if w > 0 {
        lemma_hex_digits_len(n / 16, (w - 1) as nat);
    }
}

/// Distinct counter values format to distinct 16-digit identifiers.
pub proof fn lemma_hex16_injective(a: u64, b: u64)
    requires
        spec_hex16(a) == spec_hex16(b),
    ensures
        a == b,
{
    reveal_with_fuel(sixteen_pow, 17);
    assert(sixteen_pow(16) == 0x10000000000000000);
    lemma_hex_digits_inj(a as int, b as int, 16);
}

} // verus!
