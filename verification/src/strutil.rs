//! Small verified helpers on strings and decimal numbers.
//!
//! Everything here is stated over `Seq<char>` views; the executable code walks
//! characters with the vstd string primitives.
use vstd::prelude::*;
use vstd::string::StrSliceExecFns;

verus! {

/// `p` is a prefix of `s`.
pub open spec fn spec_starts_with(s: Seq<char>, p: Seq<char>) -> bool {
    p.len() <= s.len() && s.subrange(0, p.len() as int) == p
}

/// A decimal digit.
pub open spec fn is_digit(c: char) -> bool {
    '0' <= c && c <= '9'
}

/// Numeric value of one digit character.
pub open spec fn digit_val(c: char) -> int {
    c as int - '0' as int
}

/// Value of a digit string, most significant digit first.
pub open spec fn digits_val(s: Seq<char>) -> int
    decreases s.len(),
{
    if s.len() == 0 {
        0
    } else {
        digits_val(s.drop_last()) * 10 + digit_val(s.last())
    }
}

/// Every character of `s` is a digit.
pub open spec fn all_digits(s: Seq<char>) -> bool {
    forall|i: int| 0 <= i < s.len() ==> is_digit(#[trigger] s[i])
}

/// What `parse_usize` returns: the value of a non-empty all-digit string,
/// unless it exceeds `usize::MAX`.
pub open spec fn spec_parse_usize(s: Seq<char>) -> Option<usize> {
    if s.len() > 0 && all_digits(s) && digits_val(s) <= usize::MAX {
        Some(digits_val(s) as usize)
    } else {
        None
    }
}

/// What `parse_i64` returns: an optional leading `-`, then digits.
pub open spec fn spec_parse_i64(s: Seq<char>) -> Option<i64> {
    if s.len() > 0 && s[0] == '-' {
        let d = s.subrange(1, s.len() as int);
        if d.len() > 0 && all_digits(d) && digits_val(d) <= 0x8000_0000_0000_0000 {
            Some((0 - digits_val(d)) as i64)
        } else {
            None
        }
    } else if s.len() > 0 && all_digits(s) && digits_val(s) <= i64::MAX {
        Some(digits_val(s) as i64)
    } else {
        None
    }
}

/// Decimal digits of `n`, most significant first, no sign and no leading zero.
pub open spec fn spec_u64_string(n: int) -> Seq<char>
    decreases n,
{
    if n <= 0 {
        seq!['0']
    } else if n < 10 {
        seq![spec_digit_char(n)]
    } else {
        spec_u64_string(n / 10) + seq![spec_digit_char(n % 10)]
    }
}

/// Decimal form of a signed number: a `-` sign for negatives, then digits.
pub open spec fn spec_i64_string(n: int) -> Seq<char> {
    if n < 0 {
        seq!['-'] + spec_u64_string(0 - n)
    } else {
        spec_u64_string(n)
    }
}

/// The digit character for a value in `0..10`.
pub open spec fn spec_digit_char(d: int) -> char {
    if d == 0 { '0' }
    else if d == 1 { '1' }
    else if d == 2 { '2' }
    else if d == 3 { '3' }
    else if d == 4 { '4' }
    else if d == 5 { '5' }
    else if d == 6 { '6' }
    else if d == 7 { '7' }
    else if d == 8 { '8' }
    else { '9' }
}

/// Character-wise equality of two string slices.
pub fn str_eq(a: &str, b: &str) -> (r: bool)
    ensures
        r == (a@ == b@),
{
    let na = a.unicode_len();
    let nb = b.unicode_len();
    if na != nb {
        proof {
            assert(a@ != b@) by {
                assert(a@.len() != b@.len());
            }
        }
        return false;
    }
    let mut i: usize = 0;
    while i < na
        invariant
            na == a@.len(),
            na == b@.len(),
            i <= na,
            forall|j: int| 0 <= j < i ==> a@[j] == b@[j],
        decreases na - i,
    {
        if a.get_char(i) != b.get_char(i) {
            return false;
        }
        i = i + 1;
    }
    proof {
        assert(a@ =~= b@);
    }
    true
}

/// Does `s` start with `p`?
pub fn str_starts_with(s: &str, p: &str) -> (r: bool)
    ensures
        r == spec_starts_with(s@, p@),
{
    let ns = s.unicode_len();
    let np = p.unicode_len();
    if np > ns {
        return false;
    }
    let mut i: usize = 0;
    while i < np
        invariant
            ns == s@.len(),
            np == p@.len(),
            np <= ns,
            i <= np,
            forall|j: int| 0 <= j < i ==> s@[j] == p@[j],
        decreases np - i,
    {
        if s.get_char(i) != p.get_char(i) {
            proof {
                assert(s@.subrange(0, np as int)[i as int] != p@[i as int]);
            }
            return false;
        }
        i = i + 1;
    }
    proof {
        assert(s@.subrange(0, np as int) =~= p@);
    }
    true
}

/// The part of `s` after the prefix `p`.
pub fn str_after_prefix<'a>(s: &'a str, p: &str) -> (r: &'a str)
    requires
        spec_starts_with(s@, p@),
    ensures
        r@ == s@.subrange(p@.len() as int, s@.len() as int),
{
    let ns = s.unicode_len();
    let np = p.unicode_len();
    s.substring_char(np, ns)
}

proof fn lemma_digits_val_bounds(s: Seq<char>)
    requires
        all_digits(s),
    ensures
        digits_val(s) >= 0,
    decreases s.len(),
{
    if s.len() > 0 {
        assert(all_digits(s.drop_last())) by {
            assert(forall|i: int| 0 <= i < s.len() - 1 ==> s.drop_last()[i] == s[i]);
        }
        lemma_digits_val_bounds(s.drop_last());
    }
}

proof fn lemma_digits_val_prefix_monotone(s: Seq<char>, i: int)
    requires
        all_digits(s),
        0 <= i <= s.len(),
    ensures
        digits_val(s.subrange(0, i)) <= digits_val(s),
    decreases s.len() - i,
{
    if i < s.len() {
        let t = s.subrange(0, i + 1);
        assert(t.drop_last() =~= s.subrange(0, i));
        assert(all_digits(t));
        lemma_digits_val_bounds(t.drop_last());
        assert(digits_val(t) == digits_val(s.subrange(0, i)) * 10 + digit_val(s[i]));
        assert(digits_val(s.subrange(0, i)) * 10 >= digits_val(s.subrange(0, i))) by {
            lemma_digits_val_bounds(t.drop_last());
            assert(digits_val(s.subrange(0, i)) >= 0);
        }
        assert(digit_val(s[i]) >= 0);
        lemma_digits_val_prefix_monotone(s, i + 1);
        assert(s.subrange(0, s.len() as int) =~= s);
    } else {
        assert(s.subrange(0, i) =~= s);
    }
}

/// Parses a string of decimal digits into a `usize`; anything else, or a
/// value that does not fit, gives `None`.
pub fn parse_usize(s: &str) -> (r: Option<usize>)
    ensures
        r == spec_parse_usize(s@),
{
    let n = s.unicode_len();
    if n == 0 {
        return None;
    }
    let mut acc: usize = 0;
    let mut i: usize = 0;
    while i < n
        invariant
            n == s@.len(),
            0 < n,
            i <= n,
            all_digits(s@.subrange(0, i as int)),
            acc == digits_val(s@.subrange(0, i as int)),
        decreases n - i,
    {
        let c = s.get_char(i);
        if c < '0' || c > '9' {
            assert(!is_digit(s@[i as int]));
            assert(!all_digits(s@));
            return None;
        }
        let d: usize = (c as u32 as usize) - 48;
        proof {
            assert(s@.subrange(0, i as int + 1).drop_last() =~= s@.subrange(0, i as int));
            assert(s@.subrange(0, i as int + 1).last() == s@[i as int]);
            assert(d == digit_val(s@[i as int]));
        }
        if acc > (usize::MAX - d) / 10 {
            proof {
                let t = s@.subrange(0, i as int + 1);
                assert(digits_val(t) == acc * 10 + d);
                assert(acc >= (usize::MAX - d) / 10 + 1);
                assert(acc * 10 >= ((usize::MAX - d) / 10 + 1) * 10) by (nonlinear_arith)
                    requires acc >= (usize::MAX - d) / 10 + 1;
                assert(((usize::MAX - d) / 10) * 10 + 10 > usize::MAX - d) by {
                    vstd::arithmetic::div_mod::lemma_fundamental_div_mod(
                        usize::MAX - d, 10);
                };
                assert(((usize::MAX - d) / 10 + 1) * 10 == ((usize::MAX - d) / 10) * 10 + 10)
                    by (nonlinear_arith);
                assert(digits_val(t) > usize::MAX);
                if all_digits(s@) {
                    lemma_digits_val_prefix_monotone(s@, i as int + 1);
                    assert(digits_val(s@) > usize::MAX);
                }
            }
            return None;
        }
        proof {
            assert(acc * 10 + d <= usize::MAX) by {
                assert(acc <= (usize::MAX - d) / 10);
                assert(acc * 10 <= ((usize::MAX - d) / 10) * 10) by (nonlinear_arith)
                    requires acc <= (usize::MAX - d) / 10;
                assert(((usize::MAX - d) / 10) * 10 <= usize::MAX - d) by {
                    vstd::arithmetic::div_mod::lemma_fundamental_div_mod(
                        usize::MAX - d, 10);
                };
            }
        }
        acc = acc * 10 + d;
        i = i + 1;
    }
    proof {
        assert(s@.subrange(0, n as int) =~= s@);
    }
    Some(acc)
}

/// Parses `true` or `false`; anything else gives `None`.
pub fn parse_bool(s: &str) -> (r: Option<bool>)
    ensures
        s@ == "true"@ ==> r == Some(true),
        s@ == "false"@ ==> r == Some(false),
        s@ != "true"@ && s@ != "false"@ ==> r is None,
{
    proof {
        reveal_strlit("true");
        reveal_strlit("false");
        assert("true"@.len() == 4);
        assert("false"@.len() == 5);
    }
    if str_eq(s, "true") {
        Some(true)
    } else if str_eq(s, "false") {
        Some(false)
    } else {
        None
    }
}

/// The decimal digits of a non-negative number read back as that number.
pub proof fn lemma_u64_string_value(n: int)
    requires
        n >= 0,
    ensures
        spec_u64_string(n).len() >= 1,
        all_digits(spec_u64_string(n)),
        digits_val(spec_u64_string(n)) == n,
    decreases n,
{
    let s = spec_u64_string(n);
    if n < 10 {
        assert(s =~= seq![spec_digit_char(n)]);
        assert(s.drop_last() =~= Seq::<char>::empty());
        assert(digits_val(Seq::<char>::empty()) == 0);
        assert(s.last() == spec_digit_char(n));
        assert(digits_val(s) == digits_val(s.drop_last()) * 10 + digit_val(s.last()));
        assert(digit_val(spec_digit_char(n)) == n);
    } else {
        lemma_u64_string_value(n / 10);
        assert(s.drop_last() =~= spec_u64_string(n / 10));
        assert(s.last() == spec_digit_char(n % 10));
        assert(digit_val(spec_digit_char(n % 10)) == n % 10);
        assert(digits_val(s) == (n / 10) * 10 + n % 10);
        assert((n / 10) * 10 + n % 10 == n) by {
            vstd::arithmetic::div_mod::lemma_fundamental_div_mod(n, 10);
        }
        assert forall|i: int| 0 <= i < s.len() implies is_digit(#[trigger] s[i]) by {
            if i < s.len() - 1 {
                assert(s[i] == spec_u64_string(n / 10)[i]);
            }
        }
    }
}

/// Law: printing a signed number and parsing it back gives the number.
pub proof fn lemma_decimal_round_trip(n: i64)
    ensures
        spec_parse_i64(spec_i64_string(n as int)) == Some(n),
{
    if n >= 0 {
        let s = spec_u64_string(n as int);
        lemma_u64_string_value(n as int);
        assert(s[0] != '-');
        assert(spec_parse_i64(s) == Some(n));
    } else {
        let m = 0 - n as int;
        let s = spec_i64_string(n as int);
        lemma_u64_string_value(m);
        assert(s[0] == '-');
        assert(s.subrange(1, s.len() as int) =~= spec_u64_string(m));
        assert(m <= 0x8000_0000_0000_0000);
        assert(spec_parse_i64(s) == Some((0 - m) as i64));
    }
}

/// One-character string for a digit value.
fn digit_str(d: u64) -> (r: &'static str)
    requires
        d < 10,
    ensures
        r@ == seq![spec_digit_char(d as int)],
{
    let r: &'static str = if d == 0 { "0" }
    else if d == 1 { "1" }
    else if d == 2 { "2" }
    else if d == 3 { "3" }
    else if d == 4 { "4" }
    else if d == 5 { "5" }
    else if d == 6 { "6" }
    else if d == 7 { "7" }
    else if d == 8 { "8" }
    else { "9" };
    proof {
        reveal_strlit("0");
        reveal_strlit("1");
        reveal_strlit("2");
        reveal_strlit("3");
        reveal_strlit("4");
        reveal_strlit("5");
        reveal_strlit("6");
        reveal_strlit("7");
        reveal_strlit("8");
        reveal_strlit("9");
        assert(r@ =~= seq![spec_digit_char(d as int)]);
    }
    r
}

/// Decimal form of an unsigned number.
pub fn u64_to_string(n: u64) -> (r: String)
    ensures
        r@ == spec_u64_string(n as int),
    decreases n,
{
    if n < 10 {
        let mut s = String::new();
        s.append(digit_str(n));
        proof {
            assert(s@ =~= spec_u64_string(n as int));
        }
        s
    } else {
        let mut s = u64_to_string(n / 10);
        s.append(digit_str(n % 10));
        s
    }
}

/// Decimal form of a signed number.
pub fn i64_to_string(n: i64) -> (r: String)
    ensures
        r@ == spec_i64_string(n as int),
{
    if n >= 0 {
        u64_to_string(n as u64)
    } else {
        let m: u64 = (-(n as i128)) as u64;
        let mut s = String::new();
        s.append("-");
        let digits = u64_to_string(m);
        s.append(digits.as_str());
        proof {
            reveal_strlit("-");
            assert(s@ =~= spec_i64_string(n as int));
        }
        s
    }
}

/// Decimal form of a 32-bit signed number.
pub fn i32_to_string(n: i32) -> (r: String)
    ensures
        r@ == spec_i64_string(n as int),
{
    i64_to_string(n as i64)
}

/// Parses an optionally `-`-signed string of decimal digits into an `i64`.
pub fn parse_i64(s: &str) -> (r: Option<i64>)
    ensures
        r == spec_parse_i64(s@),
{
    let n = s.unicode_len();
    if n == 0 {
        return None;
    }
    if s.get_char(0) == '-' {
        let rest = s.substring_char(1, n);
        let mag = parse_u63_magnitude(rest, true);
        match mag {
            Some(v) => {
                proof {
                    assert(rest@ == s@.subrange(1, s@.len() as int));
                    lemma_digits_val_bounds(rest@);
                    assert(v <= 0x8000_0000_0000_0000u64);
                }
                let r: i64 = (-(v as i128)) as i64;
                proof {
                    assert(r as int == 0 - digits_val(rest@));
                    assert(r == (0 - digits_val(s@.subrange(1, s@.len() as int))) as i64);
                }
                Some(r)
            },
            None => None,
        }
    } else {
        let mag = parse_u63_magnitude(s, false);
        match mag {
            Some(v) => {
                proof {
                    lemma_digits_val_bounds(s@);
                    assert(v <= i64::MAX as u64);
                }
                Some(v as i64)
            },
            None => None,
        }
    }
}

/// Digit-string value up to the `i64` range; `negative` allows one more.
fn parse_u63_magnitude(s: &str, negative: bool) -> (r: Option<u64>)
    ensures
        ({
            let bound: int = if negative { 0x8000_0000_0000_0000 } else { i64::MAX as int };
            if s@.len() > 0 && all_digits(s@) && digits_val(s@) <= bound {
                r == Some(digits_val(s@) as u64)
            } else {
                r is None
            }
        }),
{
    let bound: u64 = if negative { 0x8000_0000_0000_0000 } else { i64::MAX as u64 };
    let n = s.unicode_len();
    if n == 0 {
        return None;
    }
    let mut acc: u64 = 0;
    let mut i: usize = 0;
    while i < n
        invariant
            n == s@.len(),
            0 < n,
            i <= n,
            bound == if negative { 0x8000_0000_0000_0000u64 } else { i64::MAX as u64 },
            all_digits(s@.subrange(0, i as int)),
            acc == digits_val(s@.subrange(0, i as int)),
            acc <= bound,
        decreases n - i,
    {
        let c = s.get_char(i);
        if c < '0' || c > '9' {
            assert(!is_digit(s@[i as int]));
            assert(!all_digits(s@));
            return None;
        }
        let d: u64 = (c as u32 as u64) - 48;
        proof {
            assert(s@.subrange(0, i as int + 1).drop_last() =~= s@.subrange(0, i as int));
            assert(s@.subrange(0, i as int + 1).last() == s@[i as int]);
            assert(d == digit_val(s@[i as int]));
        }
        if acc > (bound - d) / 10 {
            proof {
                let t = s@.subrange(0, i as int + 1);
                assert(digits_val(t) == acc * 10 + d);
                assert(acc >= (bound - d) / 10 + 1);
                assert(acc * 10 >= ((bound - d) / 10 + 1) * 10) by (nonlinear_arith)
                    requires acc >= (bound - d) / 10 + 1;
                assert(((bound - d) / 10) * 10 + 10 > bound - d) by {
                    vstd::arithmetic::div_mod::lemma_fundamental_div_mod(
                        bound as int - d as int, 10);
                };
                assert(((bound - d) / 10 + 1) * 10 == ((bound - d) / 10) * 10 + 10)
                    by (nonlinear_arith);
                assert(digits_val(t) > bound);
                if all_digits(s@) {
                    lemma_digits_val_prefix_monotone(s@, i as int + 1);
                    assert(digits_val(s@) > bound);
                }
            }
            return None;
        }
        proof {
            assert(acc * 10 + d <= bound) by {
                assert(acc <= (bound - d) / 10);
                assert(acc * 10 <= ((bound - d) / 10) * 10) by (nonlinear_arith)
                    requires acc <= (bound - d) / 10;
                assert(((bound - d) / 10) * 10 <= bound - d) by {
                    vstd::arithmetic::div_mod::lemma_fundamental_div_mod(
                        bound as int - d as int, 10);
                };
            }
        }
        acc = acc * 10 + d;
        i = i + 1;
    }
    proof {
        assert(s@.subrange(0, n as int) =~= s@);
    }
    Some(acc)
}

} // verus!
