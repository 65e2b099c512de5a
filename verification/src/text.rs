//! Character-level helpers shared by the parser and the id generator:
//! decimal literals, decimal rendering, string equality and splitting.

use vstd::prelude::*;
use vstd::string::StrSliceExecFns;
use vstd::string::StringExecFns;

verus! {

/// A decimal digit.
pub open spec fn is_digit(c: char) -> bool {
    '0' <= c && c <= '9'
}

/// Numeric value of a decimal digit.
pub open spec fn digit_val(c: char) -> int {
    c as int - '0' as int
}

/// The decimal digit character for `d` in 0..10.
pub open spec fn digit_char(d: int) -> char {
    if d == 0 {
        '0'
    } else if d == 1 {
        '1'
    } else if d == 2 {
        '2'
    } else if d == 3 {
        '3'
    } else if d == 4 {
        '4'
    } else if d == 5 {
        '5'
    } else if d == 6 {
        '6'
    } else if d == 7 {
        '7'
    } else if d == 8 {
        '8'
    } else {
        '9'
    }
}

/// Every character of `s` is a decimal digit.
pub open spec fn all_digits(s: Seq<char>) -> bool {
    forall|i: int| 0 <= i < s.len() ==> is_digit(#[trigger] s[i])
}

/// Value of a string of decimal digits, most significant first.
pub open spec fn digits_val(s: Seq<char>) -> int
    decreases s.len(),
{
    if s.len() == 0 {
        0
    } else {
        digits_val(s.drop_last()) * 10 + digit_val(s.last())
    }
}

/// The decimal digit string of a natural number, without leading zeros.
pub open spec fn dec_digits(n: nat) -> Seq<char>
    decreases n,
{
    if n < 10 {
        seq![digit_char(n as int)]
    } else {
        dec_digits(n / 10).push(digit_char((n % 10) as int))
    }
}

/// The decimal text of an integer: a `-` sign for negatives, then digits.
pub open spec fn int_text(n: int) -> Seq<char> {
    if n < 0 {
        seq!['-'] + dec_digits((-n) as nat)
    } else {
        dec_digits(n as nat)
    }
}

/// `s` is a signed decimal literal: an optional `+`/`-` sign, then one or
/// more digits.
pub open spec fn number_shape(s: Seq<char>) -> bool {
    if s.len() == 0 {
        false
    } else if s[0] == '+' || s[0] == '-' {
        s.len() > 1 && all_digits(s.skip(1))
    } else {
        all_digits(s)
    }
}

/// Value of a signed decimal literal.
pub open spec fn number_val(s: Seq<char>) -> int {
    if s[0] == '-' {
        -digits_val(s.skip(1))
    } else if s[0] == '+' {
        digits_val(s.skip(1))
    } else {
        digits_val(s)
    }
}

/// `s` is a signed decimal literal whose magnitude is at most `i64::MAX`.
pub open spec fn parsable_number(s: Seq<char>) -> bool {
    number_shape(s) && -(i64::MAX as int) <= number_val(s) <= i64::MAX as int
}

pub proof fn lemma_digits_val_nonneg(s: Seq<char>)
    requires
        all_digits(s),
    ensures
        digits_val(s) >= 0,
    decreases s.len(),
{
    if s.len() > 0 {
        assert(all_digits(s.drop_last()));
        lemma_digits_val_nonneg(s.drop_last());
    }
}

/// Extending a digit string can only grow its value.
pub proof fn lemma_digits_val_prefix(s: Seq<char>, k: int)
    requires
        all_digits(s),
        0 <= k <= s.len(),
    ensures
        digits_val(s) >= digits_val(s.subrange(0, k)),
    decreases s.len(),
{
    if k < s.len() {
        let shorter = s.drop_last();
        assert(all_digits(shorter));
        lemma_digits_val_prefix(shorter, k);
        assert(shorter.subrange(0, k) =~= s.subrange(0, k));
        lemma_digits_val_nonneg(shorter);
        assert(digits_val(s) == digits_val(shorter) * 10 + digit_val(s.last()));
        assert(digits_val(shorter) * 10 >= digits_val(shorter)) by (nonlinear_arith)
            requires
                digits_val(shorter) >= 0,
        ;
    } else {
        assert(s.subrange(0, k) =~= s);
    }
}

/// How long decimal digit strings are.
pub proof fn lemma_dec_digits_len(n: nat)
    ensures
        dec_digits(n).len() >= 1,
        n >= 10 ==> dec_digits(n).len() >= 2,
        n < 10 ==> dec_digits(n).len() == 1,
    decreases n,
{
    if n >= 10 {
        lemma_dec_digits_len(n / 10);
    }
}

/// Distinct digits have distinct digit characters.
pub proof fn lemma_digit_char_inj(x: int, y: int)
    requires
        0 <= x < 10,
        0 <= y < 10,
        digit_char(x) == digit_char(y),
    ensures
        x == y,
{
}

/// Decimal rendering is injective: distinct numbers give distinct digits.
pub proof fn lemma_dec_digits_injective(a: nat, b: nat)
    requires
        dec_digits(a) == dec_digits(b),
    ensures
        a == b,
    decreases a,
{
    lemma_dec_digits_len(a);
    lemma_dec_digits_len(b);
    if a < 10 && b < 10 {
        assert(dec_digits(a)[0] == digit_char(a as int));
        assert(dec_digits(b)[0] == digit_char(b as int));
        lemma_digit_char_inj(a as int, b as int);
    } else if a >= 10 && b >= 10 {
        assert(dec_digits(a).last() == digit_char((a % 10) as int));
        assert(dec_digits(b).last() == digit_char((b % 10) as int));
        assert(dec_digits(a).drop_last() =~= dec_digits(a / 10));
        assert(dec_digits(b).drop_last() =~= dec_digits(b / 10));
        lemma_dec_digits_injective(a / 10, b / 10);
        lemma_digit_char_inj((a % 10) as int, (b % 10) as int);
        assert(a % 10 == b % 10);
        assert(a == 10 * (a / 10) + a % 10);
        assert(b == 10 * (b / 10) + b % 10);
    } else {
        assert(dec_digits(a).len() != dec_digits(b).len());
    }
}

/// The characters of `s`, in order.
pub fn chars_of(s: &str) -> (v: Vec<char>)
    ensures
        v@ == s@,
{
    let n = s.unicode_len();
    let mut v: Vec<char> = Vec::new();
    let mut i: usize = 0;
    while i < n
        invariant
            n == s@.len(),
            i <= n,
            v@ == s@.subrange(0, i as int),
        decreases n - i,
    {
        v.push(s.get_char(i));
        proof {
            assert(s@.subrange(0, i + 1) =~= s@.subrange(0, i as int).push(s@[i as int]));
        }
        i += 1;
    }
    proof {
        assert(s@.subrange(0, n as int) =~= s@);
    }
    v
}

/// Character-for-character equality of two string slices.
pub fn str_eq(a: &str, b: &str) -> (r: bool)
    ensures
        r == (a@ == b@),
{
    let na = a.unicode_len();
    let nb = b.unicode_len();
    if na != nb {
        return false;
    }
    let mut i: usize = 0;
    while i < na
        invariant
            na == a@.len(),
            na == b@.len(),
            i <= na,
            forall|j: int| 0 <= j < i ==> a@[j] == b@[j],
        decreases na - i,
    {
        if a.get_char(i) != b.get_char(i) {
            return false;
        }
        i += 1;
    }
    proof {
        assert(a@ =~= b@);
    }
    true
}

/// One-character string for a digit `d` in 0..10.
pub fn digit_str(d: u8) -> (s: &'static str)
    requires
        d < 10,
    ensures
        s@ == seq![digit_char(d as int)],
{
    proof {
        reveal_strlit("0");
        reveal_strlit("1");
        reveal_strlit("2");
        reveal_strlit("3");
        reveal_strlit("4");
        reveal_strlit("5");
        reveal_strlit("6");
        reveal_strlit("7");
        reveal_strlit("8");
        reveal_strlit("9");
    }
    let s: &'static str = match d {
        0 => "0",
        1 => "1",
        2 => "2",
        3 => "3",
        4 => "4",
        5 => "5",
        6 => "6",
        7 => "7",
        8 => "8",
        _ => "9",
    };
    proof {
        assert(s@ =~= seq![digit_char(d as int)]);
    }
    s
}

/// Decimal text of an unsigned number.
pub fn u64_to_string(n: u64) -> (s: String)
    ensures
        s@ == dec_digits(n as nat),
    decreases n,
{
    if n < 10 {
        digit_str(n as u8).to_owned()
    } else {
        let s = u64_to_string(n / 10);
        let r = s.concat(digit_str((n % 10) as u8));
        proof {
            assert(r@ =~= dec_digits(n as nat));
        }
        r
    }
}

/// Decimal text of a signed number, with a `-` sign for negatives.
pub fn i64_to_string(n: i64) -> (s: String)
    ensures
        s@ == int_text(n as int),
{
    if n < 0 {
        let m: u64 = if n == i64::MIN {
            9223372036854775808u64
        } else {
            (-n) as u64
        };
        proof {
            reveal_strlit("-");
        }
        let s = "-".to_owned();
        proof {
            assert(s@ =~= seq!['-']);
        }
        let digits = u64_to_string(m);
        let r = s.concat(digits.as_str());
        proof {
            assert(r@ =~= int_text(n as int));
        }
        r
    } else {
        u64_to_string(n as u64)
    }
}

/// Reads `chars` as a signed decimal literal.
///
/// Returns `Some` exactly when the text has an optional sign, at least one
/// digit, nothing else, and a magnitude of at most `i64::MAX`.
pub fn parse_i64(chars: &Vec<char>) -> (r: Option<i64>)
    ensures
        r is Some <==> parsable_number(chars@),
        r is Some ==> r->0 == number_val(chars@),
{
    let n = chars.len();
    if n == 0 {
        return None;
    }
    let c0 = chars[0];
    let signed = c0 == '+' || c0 == '-';
    let negative = c0 == '-';
    let start: usize = if signed { 1 } else { 0 };
    if start >= n {
        return None;
    }
    let ghost digits = chars@.skip(start as int);
    proof {
        if !signed {
            assert(digits =~= chars@);
        }
    }
    let mut acc: u64 = 0;
    let mut i: usize = start;
    let max: u64 = 9223372036854775807u64;
    while i < n
        invariant
            start <= i <= n,
            n == chars@.len(),
            start < n,
            digits == chars@.skip(start as int),
            start == if signed { 1int } else { 0int },
            signed == (chars@[0] == '+' || chars@[0] == '-'),
            !signed ==> digits == chars@,
            negative == (chars@[0] == '-'),
            all_digits(digits.subrange(0, i - start)),
            acc == digits_val(digits.subrange(0, i - start)),
            acc <= max,
            max == i64::MAX as u64,
        decreases n - i,
    {
        let c = chars[i];
        if !('0' <= c && c <= '9') {
            proof {
                assert(digits[i - start] == chars@[i as int]);
                assert(!all_digits(digits)) by {
                    assert(0 <= i - start < digits.len());
                    assert(!is_digit(digits[i - start]));
                }
                assert(!number_shape(chars@));
            }
            return None;
        }
        let d = (c as u32 - '0' as u32) as u64;
        proof {
            assert(d == digit_val(c));
            assert(d <= 9);
        }
        let ghost pre = digits.subrange(0, i - start);
        let ghost pre1 = digits.subrange(0, i + 1 - start);
        proof {
            assert(pre1.drop_last() =~= pre);
            assert(pre1.last() == digits[i - start]);
            assert(digits[i - start] == chars@[i as int]);
            assert(digits_val(pre1) == acc * 10 + d);
        }
        if acc > (max - d) / 10 {
            // The digits read so far already overflow the representable
            // range, and further digits can only grow the magnitude.
            proof {
                assert(acc * 10 + d > max) by (nonlinear_arith)
                    requires
                        acc > (max - d) / 10,
                        0 <= d <= 9,
                        max == 9223372036854775807u64,
                ;
                if number_shape(chars@) {
                    assert(all_digits(digits));
                    lemma_digits_val_prefix(digits, i + 1 - start);
                    assert(digits_val(digits) >= digits_val(pre1));
                    assert(digits_val(digits) > max);
                    if negative {
                        assert(number_val(chars@) == -digits_val(digits));
                        assert(number_val(chars@) < -(i64::MAX as int));
                    } else if signed {
                        assert(number_val(chars@) == digits_val(digits));
                    } else {
                        assert(number_val(chars@) == digits_val(digits));
                    }
                    assert(!parsable_number(chars@));
                }
            }
            return None;
        }
        proof {
            assert(acc * 10 + d <= max) by (nonlinear_arith)
                requires
                    acc <= (max - d) / 10,
                    0 <= d <= 9,
                    max == 9223372036854775807u64,
            ;
        }
        acc = acc * 10 + d;
        i += 1;
    }
    proof {
        assert(digits.subrange(0, n - start) =~= digits);
        assert(all_digits(digits));
        assert(acc == digits_val(digits));
        assert(number_shape(chars@));
        if negative {
            assert(number_val(chars@) == -digits_val(digits));
        } else if signed {
            assert(number_val(chars@) == digits_val(digits));
        }
        assert(parsable_number(chars@));
    }
    if negative {
        Some(-(acc as i64))
    } else {
        Some(acc as i64)
    }
}

/// Index of the first space of `s` at or after `i`; the length when none.
pub open spec fn first_space_from(s: Seq<char>, i: int) -> int
    decreases s.len() - i,
{
    if i < 0 || i >= s.len() {
        s.len() as int
    } else if s[i] == ' ' {
        i
    } else {
        first_space_from(s, i + 1)
    }
}

pub proof fn lemma_first_space_from(s: Seq<char>, i: int)
    requires
        0 <= i <= s.len(),
    ensures
        i <= first_space_from(s, i) <= s.len(),
        first_space_from(s, i) < s.len() ==> s[first_space_from(s, i)] == ' ',
        forall|j: int| i <= j < first_space_from(s, i) ==> s[j] != ' ',
    decreases s.len() - i,
{
    if i < s.len() && s[i] != ' ' {
        lemma_first_space_from(s, i + 1);
    }
}

/// The pieces of `s` from `start` on, split at every single space.
pub open spec fn split_from(s: Seq<char>, start: int) -> Seq<Seq<char>>
    decreases s.len() - start,
    via split_from_dec
{
    let j = first_space_from(s, start);
    if start < 0 || j >= s.len() {
        seq![s.subrange(if start < 0 { 0 } else { start }, s.len() as int)]
    } else {
        seq![s.subrange(start, j)] + split_from(s, j + 1)
    }
}

#[via_fn]
proof fn split_from_dec(s: Seq<char>, start: int) {
    if 0 <= start <= s.len() {
        lemma_first_space_from(s, start);
    }
}

/// A split always yields at least one piece.
pub proof fn lemma_split_nonempty(s: Seq<char>, start: int)
    ensures
        split_from(s, start).len() >= 1,
{
}

/// The pieces of `s`, split at every single space; empty pieces are kept.
pub open spec fn split_spaces(s: Seq<char>) -> Seq<Seq<char>> {
    split_from(s, 0)
}

/// Splits `s` at every single space, keeping empty pieces.
pub fn split_tokens(s: &str) -> (v: Vec<String>)
    ensures
        v@.map_values(|t: String| t@) == split_spaces(s@),
{
    let cs = chars_of(s);
    let n = cs.len();
    let mut v: Vec<String> = Vec::new();
    let mut start: usize = 0;
    loop
        invariant
            start <= n,
            n == cs@.len(),
            cs@ == s@,
            split_spaces(s@) =~= v@.map_values(|t: String| t@) + split_from(s@, start as int),
        decreases n - start,
    {
        let mut j = start;
        while j < n && cs[j] != ' '
            invariant
                start <= j <= n,
                n == cs@.len(),
                cs@ == s@,
                forall|k: int| start <= k < j ==> s@[k] != ' ',
            decreases n - j,
        {
            j += 1;
        }
        proof {
            lemma_first_space_from_unique(s@, start as int, j as int);
        }
        let tok = s.substring_char(start, j).to_owned();
        v.push(tok);
        if j == n {
            proof {
                assert(v@.map_values(|t: String| t@) =~= split_spaces(s@));
            }
            return v;
        }
        proof {
            assert(v@.map_values(|t: String| t@) + split_from(s@, j + 1) =~= split_spaces(s@));
        }
        start = j + 1;
    }
}

/// A scan that stops at the first space (or the end) has found
/// `first_space_from`.
pub proof fn lemma_first_space_from_unique(s: Seq<char>, start: int, j: int)
    requires
        0 <= start <= j <= s.len(),
        forall|k: int| start <= k < j ==> s[k] != ' ',
        j < s.len() ==> s[j] == ' ',
    ensures
        first_space_from(s, start) == j,
    decreases j - start,
{
    if start < j {
        lemma_first_space_from_unique(s, start + 1, j);
    }
}

} // verus!
