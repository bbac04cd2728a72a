//! Decimal digit strings: the shared ground for both codecs.  Everything is
//! specified over `Seq<char>`, with `digits_val` giving the numeric value of
//! a digit run and `dec_digits` the canonical (no leading zero) rendering.

use vstd::prelude::*;
use vstd::string::StrSliceExecFns;
use vstd::string::StringExecFns;

verus! {

/// True of the ten ASCII decimal digit characters.
pub open spec fn is_digit(c: char) -> bool {
    '0' as u32 <= c as u32 && c as u32 <= '9' as u32
}

/// The numeric value of a decimal digit character.
pub open spec fn digit_val(c: char) -> int {
    c as u32 - '0' as u32
}

/// The decimal digit character with value `d`.
pub open spec fn digit_char(d: int) -> char {
    if d == 0 {
        '0'
    } else if d == 1 {
        '1'
    } else if d == 2 {
        '2'
    } else if d == 3 {
        '3'
    } else if d == 4 {
        '4'
    } else if d == 5 {
        '5'
    } else if d == 6 {
        '6'
    } else if d == 7 {
        '7'
    } else if d == 8 {
        '8'
    } else {
        '9'
    }
}

/// Every character of `s` is a decimal digit.
pub open spec fn all_digits(s: Seq<char>) -> bool {
    forall|i: int| 0 <= i < s.len() ==> is_digit(#[trigger] s[i])
}

/// The value of `s` read as a base-10 numeral, most significant digit first.
pub open spec fn digits_val(s: Seq<char>) -> int
    decreases s.len(),
{
    if s.len() == 0 {
        0
    } else {
        digits_val(s.drop_last()) * 10 + digit_val(s.last())
    }
}

/// Ten to the `n`.
pub open spec fn pow10(n: nat) -> int
    decreases n,
{
    if n == 0 {
        1
    } else {
        10 * pow10((n - 1) as nat)
    }
}

/// The canonical decimal rendering of `n >= 0`: no leading zero, except that
/// zero itself is the single digit `0`.
pub open spec fn dec_digits(n: int) -> Seq<char>
    decreases n,
{
    if n < 10 {
        seq![digit_char(n)]
    } else {
        dec_digits(n / 10).push(digit_char(n % 10))
    }
}

/// The decimal rendering of a signed integer: a `-` sign exactly when `n` is
/// negative, never a `+`.
pub open spec fn int_digits(n: int) -> Seq<char> {
    if n < 0 {
        seq!['-'] + dec_digits(-n)
    } else {
        dec_digits(n)
    }
}

/// `s` starts with an explicit sign character.
pub open spec fn has_sign(s: Seq<char>) -> bool {
    s.len() > 0 && (s[0] == '+' || s[0] == '-')
}

/// The digit part of an optionally signed numeral.
pub open spec fn int_literal_digits(s: Seq<char>) -> Seq<char> {
    if has_sign(s) {
        s.skip(1)
    } else {
        s
    }
}

/// `s` is an optionally signed base-10 numeral: the grammar that Rust's
/// integer parsing accepts.  Leading zeros are allowed; whitespace is not.
pub open spec fn is_int_literal(s: Seq<char>) -> bool {
    int_literal_digits(s).len() > 0 && all_digits(int_literal_digits(s))
}

/// The signed value of an optionally signed numeral.
pub open spec fn int_literal_val(s: Seq<char>) -> int {
    if s.len() > 0 && s[0] == '-' {
        -digits_val(int_literal_digits(s))
    } else {
        digits_val(int_literal_digits(s))
    }
}

/// Appending a digit multiplies the value by ten and adds the digit.
pub proof fn lemma_digits_val_push(s: Seq<char>, c: char)
    ensures
        digits_val(s.push(c)) == digits_val(s) * 10 + digit_val(c),
{
    assert(s.push(c).drop_last() =~= s);
    assert(s.push(c).last() == c);
}

/// A digit run's value is bounded by ten to its length.
pub proof fn lemma_digits_val_bounds(s: Seq<char>)
    requires
        all_digits(s),
    ensures
        0 <= digits_val(s) < pow10(s.len()),
    decreases s.len(),
{
    if s.len() > 0 {
        assert(all_digits(s.drop_last()));
        lemma_digits_val_bounds(s.drop_last());
        assert(is_digit(s.last()));
        assert(pow10(s.len()) == 10 * pow10((s.len() - 1) as nat));
    }
}

/// `dec_digits` renders faithfully: all digits, value preserved, and no
/// leading zero for a positive number.
pub proof fn lemma_dec_digits(n: int)
    requires
        n >= 0,
    ensures
        all_digits(dec_digits(n)),
        dec_digits(n).len() >= 1,
        digits_val(dec_digits(n)) == n,
        n >= 1 ==> dec_digits(n)[0] != '0',
    decreases n,
{
    if n < 10 {
        assert(digits_val(seq![digit_char(n)].drop_last()) == 0);
    } else {
        lemma_dec_digits(n / 10);
        lemma_digits_val_push(dec_digits(n / 10), digit_char(n % 10));
        assert(dec_digits(n)[0] == dec_digits(n / 10)[0]);
    }
}

/// The `w`-digit zero-padded decimal rendering of `n`.
pub open spec fn padded_digits(n: int, w: nat) -> Seq<char>
    decreases w,
{
    if w == 0 {
        Seq::<char>::empty()
    } else {
        padded_digits(n / 10, (w - 1) as nat).push(digit_char(n % 10))
    }
}

/// `padded_digits` renders faithfully for any value its width can hold.
pub proof fn lemma_padded_digits(n: int, w: nat)
    requires
        0 <= n < pow10(w),
    ensures
        padded_digits(n, w).len() == w,
        all_digits(padded_digits(n, w)),
        digits_val(padded_digits(n, w)) == n,
    decreases w,
{
    if w > 0 {
        assert(pow10(w) == 10 * pow10((w - 1) as nat));
        lemma_padded_digits(n / 10, (w - 1) as nat);
        lemma_digits_val_push(padded_digits(n / 10, (w - 1) as nat), digit_char(n % 10));
    }
}

/// Powers of ten are positive.
pub proof fn lemma_pow10_pos(n: nat)
    ensures
        pow10(n) >= 1,
    decreases n,
{
    if n > 0 {
        lemma_pow10_pos((n - 1) as nat);
    }
}

/// Powers of ten multiply by adding exponents.
pub proof fn lemma_pow10_add(a: nat, b: nat)
    ensures
        pow10(a + b) == pow10(a) * pow10(b),
    decreases a,
{
    if a > 0 {
        lemma_pow10_add((a - 1) as nat, b);
        assert(pow10(a + b) == 10 * pow10((a + b - 1) as nat));
        assert(10 * (pow10((a - 1) as nat) * pow10(b)) == (10 * pow10((a - 1) as nat)) * pow10(
            b,
        )) by (nonlinear_arith);
    }
}

/// The length of the run of consecutive digit characters starting at `i`.
pub open spec fn digit_run(s: Seq<char>, i: int) -> int
    decreases s.len() - i,
{
    if i < 0 || i >= s.len() || !is_digit(s[i]) {
        0
    } else {
        1 + digit_run(s, i + 1)
    }
}

/// A maximal digit run is as long as what bounds it: all digits up to `j`,
/// and `j` is the end of the string or holds a non-digit.
pub proof fn lemma_digit_run_value(s: Seq<char>, i: int, j: int)
    requires
        0 <= i <= j <= s.len(),
        forall|k: int| i <= k < j ==> is_digit(#[trigger] s[k]),
        j == s.len() || !is_digit(s[j]),
    ensures
        digit_run(s, i) == j - i,
    decreases j - i,
{
    if i < j {
        lemma_digit_run_value(s, i + 1, j);
    }
}

/// Every character inside a digit run is a digit.
pub proof fn lemma_digit_run_digits(s: Seq<char>, i: int)
    requires
        0 <= i <= s.len(),
    ensures
        i + digit_run(s, i) <= s.len(),
        forall|k: int| i <= k < i + digit_run(s, i) ==> is_digit(#[trigger] s[k]),
    decreases s.len() - i,
{
    if i < s.len() && is_digit(s[i]) {
        lemma_digit_run_digits(s, i + 1);
    }
}

/// The single-digit string for `d`.
fn digit_str(d: u8) -> (s: &'static str)
    requires
        d < 10,
    ensures
        s@ =~= seq![digit_char(d as int)],
{
    proof {
        reveal_strlit("0");
        reveal_strlit("1");
        reveal_strlit("2");
        reveal_strlit("3");
        reveal_strlit("4");
        reveal_strlit("5");
        reveal_strlit("6");
        reveal_strlit("7");
        reveal_strlit("8");
        reveal_strlit("9");
    }
    match d {
        0 => "0",
        1 => "1",
        2 => "2",
        3 => "3",
        4 => "4",
        5 => "5",
        6 => "6",
        7 => "7",
        8 => "8",
        _ => "9",
    }
}

/// Appends the canonical decimal rendering of `n` to `out`.
pub fn push_dec_digits(out: &mut String, n: u64)
    ensures
        final(out)@ == old(out)@ + dec_digits(n as int),
    decreases n,
{
    if n < 10 {
        out.append(digit_str(n as u8));
    } else {
        push_dec_digits(out, n / 10);
        out.append(digit_str((n % 10) as u8));
        proof {
            assert(final(out)@ =~= old(out)@ + dec_digits(n as int));
        }
    }
}

/// Appends the `w`-digit zero-padded decimal rendering of `n` to `out`.
pub fn push_padded_digits(out: &mut String, n: u32, w: u8)
    ensures
        final(out)@ == old(out)@ + padded_digits(n as int, w as nat),
    decreases w,
{
    if w == 0 {
        proof {
            assert(final(out)@ =~= old(out)@ + padded_digits(n as int, 0));
        }
    } else {
        push_padded_digits(out, n / 10, w - 1);
        out.append(digit_str((n % 10) as u8));
        proof {
            assert(final(out)@ =~= old(out)@ + padded_digits(n as int, w as nat));
        }
    }
}

/// Ten to the `e`, executable form for small exponents.
pub fn pow10_u32(e: usize) -> (r: u32)
    requires
        e <= 9,
    ensures
        r as int == pow10(e as nat),
{
    proof {
        reveal_with_fuel(pow10, 10);
    }
    let mut r: u32 = 1;
    let mut k: usize = 0;
    while k < e
        invariant
            k <= e <= 9,
            r as int == pow10(k as nat),
            r <= 1_000_000_000,
        decreases e - k,
    {
        proof {
            reveal_with_fuel(pow10, 10);
            lemma_pow10_bound(k as nat);
        }
        r = r * 10;
        k = k + 1;
    }
    r
}

/// `pow10` of a small exponent is at most one billion.
pub proof fn lemma_pow10_bound(n: nat)
    requires
        n <= 9,
    ensures
        pow10(n) <= 1_000_000_000,
{
    reveal_with_fuel(pow10, 10);
    if n == 0 {
    } else if n == 1 {
    } else if n == 2 {
    } else if n == 3 {
    } else if n == 4 {
    } else if n == 5 {
    } else if n == 6 {
    } else if n == 7 {
    } else if n == 8 {
    } else {
        assert(n == 9);
    }
}

/// Reads the `n`-digit number at position `i` of `s`; `None` unless all `n`
/// characters there are digits.
pub fn read_digits(s: &str, i: usize, n: usize) -> (r: Option<u32>)
    requires
        i + n <= s@.len(),
        i + n <= usize::MAX,
        n <= 9,
    ensures
        match r {
            Some(v) => {
                &&& all_digits(s@.subrange(i as int, i + n))
                &&& v as int == digits_val(s@.subrange(i as int, i + n))
                &&& (v as int) < pow10(n as nat)
            },
            None => !all_digits(s@.subrange(i as int, i + n)),
        },
{
    let mut j: usize = i;
    let mut acc: u32 = 0;
    while j < i + n
        invariant
            i <= j <= i + n <= s@.len(),
            i + n <= usize::MAX,
            n <= 9,
            all_digits(s@.subrange(i as int, j as int)),
            acc as int == digits_val(s@.subrange(i as int, j as int)),
            (acc as int) < pow10((j - i) as nat),
        decreases i + n - j,
    {
        let c = s.get_char(j);
        let cu = c as u32;
        if cu < 48 || cu > 57 {
            proof {
                assert(s@.subrange(i as int, i + n)[j - i] == s@[j as int]);
            }
            return None;
        }
        proof {
            assert(s@.subrange(i as int, j + 1) =~= s@.subrange(i as int, j as int).push(
                s@[j as int],
            ));
            lemma_digits_val_push(s@.subrange(i as int, j as int), s@[j as int]);
            lemma_pow10_bound((j + 1 - i) as nat);
            assert(pow10((j + 1 - i) as nat) == 10 * pow10((j - i) as nat));
        }
        acc = acc * 10 + (cu - 48);
        j = j + 1;
    }
    proof {
        assert(s@.subrange(i as int, i + n) =~= s@.subrange(i as int, j as int));
    }
    Some(acc)
}

/// The canonical decimal string of a signed 64-bit integer, as Rust itself
/// would print it.
pub fn i64_to_string(v: i64) -> (s: String)
    ensures
        s@ == int_digits(v as int),
{
    let mut out = String::new();
    if v < 0 {
        proof {
            reveal_strlit("-");
        }
        out.append("-");
        let mag: u64 = if v == i64::MIN {
            0x8000_0000_0000_0000u64
        } else {
            (-v) as u64
        };
        push_dec_digits(&mut out, mag);
        proof {
            assert(out@ =~= seq!['-'] + dec_digits(-(v as int)));
        }
    } else {
        push_dec_digits(&mut out, v as u64);
        proof {
            assert(out@ =~= dec_digits(v as int));
        }
    }
    out
}

/// The canonical decimal string of a signed 32-bit integer.
pub fn i32_to_string(v: i32) -> (s: String)
    ensures
        s@ == int_digits(v as int),
{
    i64_to_string(v as i64)
}

/// The canonical rendering of a signed integer reads back as that integer.
pub proof fn lemma_int_digits_val(n: int)
    ensures
        is_int_literal(int_digits(n)),
        int_literal_val(int_digits(n)) == n,
{
    if n < 0 {
        lemma_dec_digits(-n);
        assert(int_digits(n)[0] == '-');
        assert(int_literal_digits(int_digits(n)) =~= dec_digits(-n));
    } else {
        lemma_dec_digits(n);
        assert(is_digit(int_digits(n)[0]));
        assert(!has_sign(int_digits(n)));
    }
}

/// `n` lies in the range of a 32-bit signed integer.
pub open spec fn in_i32_range(n: int) -> bool {
    -0x8000_0000 <= n <= 0x7fff_ffff
}

/// Parses an optionally signed base-10 numeral exactly as Rust's 32-bit
/// integer parsing does: no whitespace, no other characters, and the value
/// must fit.  `None` on any other input.
pub fn parse_i32(s: &str) -> (r: Option<i32>)
    ensures
        match r {
            Some(n) => {
                &&& is_int_literal(s@)
                &&& in_i32_range(int_literal_val(s@))
                &&& n as int == int_literal_val(s@)
            },
            None => !(is_int_literal(s@) && in_i32_range(int_literal_val(s@))),
        },
{
    let len = s.unicode_len();
    if len == 0 {
        return None;
    }
    let c0 = s.get_char(0);
    let negative = c0 == '-';
    let signed = negative || c0 == '+';
    let start: usize = if signed {
        1
    } else {
        0
    };
    if start == len {
        // a lone sign has no digits
        return None;
    }
    let ghost digits = int_literal_digits(s@);
    proof {
        assert(digits =~= s@.subrange(start as int, len as int));
    }
    let mut i: usize = start;
    let mut mag: u64 = 0;
    let mut big = false;
    while i < len
        invariant
            start <= i <= len == s@.len(),
            digits == int_literal_digits(s@),
            digits =~= s@.subrange(start as int, len as int),
            all_digits(s@.subrange(start as int, i as int)),
            !big ==> mag < 10_000_000_000 && mag == digits_val(
                s@.subrange(start as int, i as int),
            ),
            big ==> digits_val(s@.subrange(start as int, i as int)) >= 10_000_000_000,
        decreases len - i,
    {
        let c = s.get_char(i);
        let cu = c as u32;
        if cu < 48 || cu > 57 {
            proof {
                assert(!is_digit(digits[i - start]));
                assert(!all_digits(digits));
                assert(!is_int_literal(s@));
            }
            return None;
        }
        let ghost prefix = s@.subrange(start as int, i as int);
        proof {
            assert(s@.subrange(start as int, i + 1) =~= prefix.push(s@[i as int]));
            lemma_digits_val_push(prefix, s@[i as int]);
        }
        let d = (cu - 48) as u64;
        if big {
        } else {
            mag = mag * 10 + d;
            if mag >= 10_000_000_000 {
                big = true;
            }
        }
        i = i + 1;
    }
    proof {
        assert(s@.subrange(start as int, len as int) =~= digits);
        assert(is_int_literal(s@));
    }
    if big {
        return None;
    }
    if negative {
        if mag > 0x8000_0000 {
            return None;
        }
        Some((-(mag as i64)) as i32)
    } else {
        if mag > 0x7fff_ffff {
            return None;
        }
        Some(mag as i32)
    }
}

} // verus!
