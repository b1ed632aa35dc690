//! Writing numbers as text: decimal, hexadecimal, binary and as a quoted
//! character.

use vstd::prelude::*;

verus! {

/// The character for the digit `d`: `0` to `9`, then `A` to `F`.
pub open spec fn digit_char(d: nat) -> char {
    if d < 10 {
        (0x30 + d) as char
    } else {
        (0x41 + d - 10) as char
    }
}

/// The digits of `n` in the given base, most significant first, without
/// leading zeros; zero is written as the single digit `0`.
pub open spec fn digits(n: nat, base: nat) -> Seq<char>
    recommends
        2 <= base <= 16,
    decreases n,
    via digits_terminates
{
    if base < 2 || n < base {
        seq![digit_char(n)]
    } else {
        digits(n / base, base).push(digit_char(n % base))
    }
}

#[via_fn]
proof fn digits_terminates(n: nat, base: nat) {
    if !(base < 2 || n < base) {
        vstd::arithmetic::div_mod::lemma_div_decreases(n as int, base as int);
        vstd::arithmetic::div_mod::lemma_div_pos_is_pos(n as int, base as int);
    }
}

/// `v` in decimal, with a leading minus sign when negative.
pub open spec fn decimal(v: int) -> Seq<char> {
    if v < 0 {
        seq!['-'] + digits((-v) as nat, 10)
    } else {
        digits(v as nat, 10)
    }
}

/// The 32 bits of `v` read as an unsigned number.
pub open spec fn bits_of(v: i32) -> nat {
    if v < 0 {
        (v + 0x1_0000_0000) as nat
    } else {
        v as nat
    }
}

/// Whether `v` is the number of a character: a code point that is not a
/// surrogate.
pub open spec fn is_scalar_value(v: int) -> bool {
    0 <= v <= 0xD7FF || 0xE000 <= v <= 0x10FFFF
}

/// The character numbered `v`, between single quotes.
pub open spec fn quoted(v: int) -> Seq<char> {
    seq!['\'', v as char, '\'']
}

/// Appends one character to a string, by `String::push`: afterwards the
/// string is the old one followed by `c`.
#[verifier::external_body]
pub(crate) fn push_char(s: &mut String, c: char)
    ensures
        final(s)@ == old(s)@.push(c),
{
    s.push(c);
}

/// The character with the given number, by `char::from_u32`: there is one
/// exactly when the number is a code point that is not a surrogate.
#[verifier::external_body]
pub(crate) fn char_from_u32(v: u32) -> (c: Option<char>)
    ensures
        c.is_some() == is_scalar_value(v as int),
        c.is_some() ==> c.unwrap() as int == v,
{
    char::from_u32(v)
}

fn digit_of(d: u8) -> (c: char)
    requires
        d < 16,
    ensures
        c == digit_char(d as nat),
{
    if d < 10 {
        (0x30u8 + d) as char
    } else {
        (0x41u8 + d - 10) as char
    }
}

/// Appends the digits of `n` in the given base to `out`.
pub fn push_digits(n: u64, base: u64, out: &mut String)
    requires
        2 <= base <= 16,
    ensures
        final(out)@ == old(out)@ + digits(n as nat, base as nat),
    decreases n,
{
    if n >= base {
        proof {
            vstd::arithmetic::div_mod::lemma_div_decreases(n as int, base as int);
        }
        push_digits(n / base, base, out);
    }
    let d: u8 = (n % base) as u8;
    push_char(out, digit_of(d));
    proof {
        if n >= base {
            assert(out@ =~= old(out)@ + digits((n / base) as nat, base as nat).push(
                digit_char((n % base) as nat),
            ));
        } else {
            assert(n % base == n) by (nonlinear_arith)
                requires
                    0 <= n < base,
            ;
            assert(out@ =~= old(out)@ + seq![digit_char(n as nat)]);
        }
    }
}

/// `n` in decimal.
pub fn unsigned_text(n: usize) -> (s: String)
    ensures
        s@ == decimal(n as int),
{
    let mut s = String::new();
    push_digits(n as u64, 10, &mut s);
    assert(s@ =~= decimal(n as int));
    s
}

/// `v` in decimal, as `{}` would print it.
pub fn decimal_text(v: i32) -> (s: String)
    ensures
        s@ == decimal(v as int),
{
    let mut s = String::new();
    if v < 0 {
        push_char(&mut s, '-');
        let magnitude: u64 = (-(v as i64)) as u64;
        push_digits(magnitude, 10, &mut s);
    } else {
        push_digits(v as u64, 10, &mut s);
    }
    assert(s@ =~= decimal(v as int));
    s
}

/// The 32 bits of `v` as an unsigned number.
pub fn bits(v: i32) -> (b: u32)
    ensures
        b == bits_of(v),
{
    if v < 0 {
        ((v as i64) + 0x1_0000_0000i64) as u32
    } else {
        v as u32
    }
}

/// `prefix`, then the 32 bits of `v` in the given base.
pub fn radix_text(prefix: &str, v: i32, base: u64) -> (s: String)
    requires
        2 <= base <= 16,
    ensures
        s@ == prefix@ + digits(bits_of(v), base as nat),
{
    let mut s = String::from_str(prefix);
    push_digits(bits(v) as u64, base, &mut s);
    s
}

/// The character numbered `v` between single quotes, when there is such a
/// character.
pub fn quoted_text(v: i32) -> (s: Option<String>)
    ensures
        s.is_some() == is_scalar_value(v as int),
        s.is_some() ==> s.unwrap()@ == quoted(v as int),
{
    if v < 0 {
        return None;
    }
    match char_from_u32(v as u32) {
        Some(c) => {
            let mut s = String::new();
            push_char(&mut s, '\'');
            push_char(&mut s, c);
            push_char(&mut s, '\'');
            assert(s@ =~= quoted(v as int));
            Some(s)
        },
        None => None,
    }
}

/// The value of the character `c` as a digit: `0` to `9`, then `a` to `f`
/// in either case. Other characters are no digits.
pub open spec fn digit_value(c: char) -> Option<nat> {
    let n = c as int;
    if 0x30 <= n <= 0x39 {
        Some((n - 0x30) as nat)
    } else if 0x61 <= n <= 0x66 {
        Some((n - 0x61 + 10) as nat)
    } else if 0x41 <= n <= 0x46 {
        Some((n - 0x41 + 10) as nat)
    } else {
        None
    }
}

/// Whether `c` is a digit of the given base.
pub open spec fn is_digit(c: char, base: nat) -> bool {
    digit_value(c).is_some() && digit_value(c).unwrap() < base
}

/// Whether `s` is one or more digits of the given base.
pub open spec fn all_digits(s: Seq<char>, base: nat) -> bool {
    s.len() > 0 && forall|i: int| 0 <= i < s.len() ==> is_digit(#[trigger] s[i], base)
}

/// The number that the digits `s` write in the given base.
pub open spec fn number(s: Seq<char>, base: nat) -> nat
    decreases s.len(),
{
    if s.len() == 0 {
        0
    } else {
        number(s.drop_last(), base) * base + digit_value(s.last()).unwrap_or(0)
    }
}

/// The number that `s` writes as digits of the given base behind an
/// optional minus sign, and behind an optional plus sign where `plus` says
/// that one is accepted. `None` where `s` is not of that form.
pub open spec fn signed_number(s: Seq<char>, base: nat, plus: bool) -> Option<int> {
    if s.len() > 0 && s[0] == '-' {
        if all_digits(s.skip(1), base) {
            Some(-(number(s.skip(1), base) as int))
        } else {
            None
        }
    } else if plus && s.len() > 0 && s[0] == '+' {
        if all_digits(s.skip(1), base) {
            Some(number(s.skip(1), base) as int)
        } else {
            None
        }
    } else if all_digits(s, base) {
        Some(number(s, base) as int)
    } else {
        None
    }
}

/// A signed number as a 32-bit value, where it is one.
pub open spec fn as_i32(v: Option<int>) -> Option<i32> {
    match v {
        Some(n) => if i32::MIN <= n <= i32::MAX {
            Some(n as i32)
        } else {
            None
        },
        None => None,
    }
}

/// Whether `s` begins with the two characters `a` and `b`.
pub open spec fn has_prefix(s: Seq<char>, a: char, b: char) -> bool {
    s.len() >= 2 && s[0] == a && s[1] == b
}

/// Whether `s` is one character of one byte between single quotes.
pub open spec fn is_quoted_char(s: Seq<char>) -> bool {
    s.len() == 3 && s[0] == '\'' && s[2] == '\'' && (s[1] as int) < 0x80
}

/// The value that a text entered for a memory cell stands for: a decimal
/// number with an optional minus sign; a binary number behind `0b` or a
/// hexadecimal number behind `0x`, each with an optional sign; or one
/// character of one byte between single quotes, which stands for its
/// number. A number has to fit into 32 bits with sign. Any other text
/// stands for nothing.
pub open spec fn parsed_value(s: Seq<char>) -> Option<i32> {
    if signed_number(s, 10, false).is_some() {
        as_i32(signed_number(s, 10, false))
    } else if has_prefix(s, '0', 'b') {
        as_i32(signed_number(s.skip(2), 2, true))
    } else if has_prefix(s, '0', 'x') {
        as_i32(signed_number(s.skip(2), 16, true))
    } else if is_quoted_char(s) {
        Some(s[1] as i32)
    } else {
        None
    }
}

/// The digits that write a number are digits, and they write that number.
pub proof fn lemma_digits_write_their_number(n: nat, base: nat)
    requires
        2 <= base <= 16,
    ensures
        all_digits(digits(n, base), base),
        number(digits(n, base), base) == n,
        digits(n, base)[0] != '-',
        digits(n, base)[0] != '+',
    decreases n,
{
    let d = digits(n, base);
    if n < base {
        assert(d =~= seq![digit_char(n)]);
        assert(digit_value(digit_char(n)) == Some(n));
        assert(d.drop_last() =~= Seq::<char>::empty());
        assert(number(d.drop_last(), base) == 0);
        assert(number(d, base) == 0 * base + n);
    } else {
        let higher = digits(n / base, base);
        let low = n % base;
        assert(n / base < n) by {
            vstd::arithmetic::div_mod::lemma_div_decreases(n as int, base as int);
            vstd::arithmetic::div_mod::lemma_div_pos_is_pos(n as int, base as int);
        }
        lemma_digits_write_their_number(n / base, base);
        assert(d == higher.push(digit_char(low)));
        assert(low < base) by {
            vstd::arithmetic::div_mod::lemma_mod_bound(n as int, base as int);
        }
        assert(digit_value(digit_char(low)) == Some(low));
        assert(d.drop_last() =~= higher);
        assert(d.last() == digit_char(low));
        assert(number(d, base) == (n / base) * base + low);
        assert((n / base) * base + low == n) by {
            vstd::arithmetic::div_mod::lemma_fundamental_div_mod(n as int, base as int);
            assert((n / base) * base == base * (n / base)) by (nonlinear_arith);
        }
        assert forall|i: int| 0 <= i < d.len() implies is_digit(#[trigger] d[i], base) by {
            if i < higher.len() {
                assert(d[i] == higher[i]);
            }
        }
        assert(d[0] == higher[0]);
    }
}

/// A number written in decimal is read back as that number.
pub proof fn lemma_decimal_reads_back(v: i32)
    ensures
        parsed_value(decimal(v as int)) == Some(v),
{
    let s = decimal(v as int);
    if v < 0 {
        let m = (-(v as int)) as nat;
        lemma_digits_write_their_number(m, 10);
        assert(s[0] == '-');
        assert(s.skip(1) =~= digits(m, 10));
    } else {
        lemma_digits_write_their_number(v as nat, 10);
    }
}

/// A number that is not negative, written in hexadecimal behind `0x` or in
/// binary behind `0b`, is read back as that number.
pub proof fn lemma_radix_reads_back(v: i32)
    requires
        v >= 0,
    ensures
        parsed_value(seq!['0', 'x'] + digits(bits_of(v), 16)) == Some(v),
        parsed_value(seq!['0', 'b'] + digits(bits_of(v), 2)) == Some(v),
{
    let hex = seq!['0', 'x'] + digits(bits_of(v), 16);
    lemma_digits_write_their_number(v as nat, 16);
    assert(hex[0] == '0' && hex[1] == 'x');
    assert(!is_digit(hex[1], 10));
    assert(hex.skip(2) =~= digits(v as nat, 16));
    assert(signed_number(hex, 10, false).is_none());
    let bin = seq!['0', 'b'] + digits(bits_of(v), 2);
    lemma_digits_write_their_number(v as nat, 2);
    assert(bin[0] == '0' && bin[1] == 'b');
    assert(!is_digit(bin[1], 10));
    assert(bin.skip(2) =~= digits(v as nat, 2));
    assert(signed_number(bin, 10, false).is_none());
}

/// A character of one byte, written between quotes, is read back as its
/// number.
pub proof fn lemma_quoted_reads_back(v: i32)
    requires
        0 <= v < 0x80,
    ensures
        parsed_value(quoted(v as int)) == Some(v),
{
    let s = quoted(v as int);
    assert(s[0] == '\'' && s[2] == '\'' && s.len() == 3);
    assert(!is_digit(s[0], 10));
    assert(signed_number(s, 10, false).is_none());
    assert(s[1] as int == v);
}

/// The value of `c` as a digit.
fn digit_of_char(c: char) -> (d: Option<u8>)
    ensures
        d.is_some() == digit_value(c).is_some(),
        d.is_some() ==> d.unwrap() == digit_value(c).unwrap(),
{
    let n = c as u32;
    if 0x30 <= n && n <= 0x39 {
        Some((n - 0x30) as u8)
    } else if 0x61 <= n && n <= 0x66 {
        Some((n - 0x61 + 10) as u8)
    } else if 0x41 <= n && n <= 0x46 {
        Some((n - 0x41 + 10) as u8)
    } else {
        None
    }
}

/// The number of the character `c`.
fn code_of(c: char) -> (n: u32)
    ensures
        n == c as int,
{
    c as u32
}

/// The characters of a text.
fn chars_of(text: &str) -> (v: Vec<char>)
    ensures
        v@ == text@,
{
    let n = text.unicode_len();
    let mut v: Vec<char> = Vec::new();
    let mut i: usize = 0;
    while i < n
        invariant
            i <= n,
            n == text@.len(),
            v@.len() == i,
            forall|k: int| 0 <= k < i ==> v@[k] == text@[k],
        decreases n - i,
    {
        v.push(text.get_char(i));
        i += 1;
    }
    assert(v@ =~= text@);
    v
}

/// One more than the largest magnitude that a 32-bit value can have.
const MAGNITUDE_CAP: u64 = 0x8000_0001;

/// Reads the characters from position `from` on as digits of the given
/// base. Returns their number, or the cap where the number is the cap or
/// more; `None` where they are not one or more digits.
fn read_digits(s: &Vec<char>, from: usize, base: u64) -> (r: Option<u64>)
    requires
        from <= s@.len(),
        2 <= base <= 16,
    ensures
        r.is_some() == all_digits(s@.skip(from as int), base as nat),
        r.is_some() ==> r.unwrap() == if number(s@.skip(from as int), base as nat)
            < MAGNITUDE_CAP {
            number(s@.skip(from as int), base as nat)
        } else {
            MAGNITUDE_CAP as nat
        },
{
    let ghost t = s@.skip(from as int);
    if from == s.len() {
        return None;
    }
    let mut acc: u64 = 0;
    let mut i: usize = from;
    while i < s.len()
        invariant
            from <= i <= s.len(),
            2 <= base <= 16,
            t == s@.skip(from as int),
            forall|k: int| 0 <= k < i - from ==> is_digit(#[trigger] t[k], base as nat),
            acc <= MAGNITUDE_CAP,
            acc == if number(t.subrange(0, i - from), base as nat) < MAGNITUDE_CAP {
                number(t.subrange(0, i - from), base as nat)
            } else {
                MAGNITUDE_CAP as nat
            },
        decreases s.len() - i,
    {
        let d = match digit_of_char(s[i]) {
            Some(d) => d,
            None => {
                assert(!is_digit(t[i - from], base as nat));
                return None;
            },
        };
        if d as u64 >= base {
            assert(!is_digit(t[i - from], base as nat));
            return None;
        }
        proof {
            let before = t.subrange(0, i - from);
            let after = t.subrange(0, i - from + 1);
            assert(after.drop_last() =~= before);
            assert(after.last() == t[i - from]);
            let a = number(before, base as nat);
            assert(number(after, base as nat) == a * base + d);
            if a >= MAGNITUDE_CAP {
                assert(a * base + d >= MAGNITUDE_CAP) by (nonlinear_arith)
                    requires
                        a >= MAGNITUDE_CAP,
                        base >= 2,
                        d >= 0,
                ;
                assert(acc * base + d >= MAGNITUDE_CAP) by (nonlinear_arith)
                    requires
                        acc == MAGNITUDE_CAP,
                        base >= 2,
                        d >= 0,
                ;
            }
            assert(acc * base + d <= 0x8000_0001 * 16 + 16) by (nonlinear_arith)
                requires
                    acc <= 0x8000_0001,
                    base <= 16,
                    d < 16,
            ;
        }
        let next = acc * base + d as u64;
        acc = if next < MAGNITUDE_CAP {
            next
        } else {
            MAGNITUDE_CAP
        };
        i += 1;
    }
    assert(t.subrange(0, i - from) =~= t);
    Some(acc)
}

/// Reads the characters from position `from` on as a signed number of the
/// given base that fits into 32 bits.
fn read_signed(s: &Vec<char>, from: usize, base: u64, plus: bool) -> (r: Option<i32>)
    requires
        from <= s@.len(),
        2 <= base <= 16,
    ensures
        r == as_i32(signed_number(s@.skip(from as int), base as nat, plus)),
        r.is_some() ==> signed_number(s@.skip(from as int), base as nat, plus).is_some(),
{
    let ghost t = s@.skip(from as int);
    if from < s.len() && s[from] == '-' {
        assert(t[0] == '-');
        assert(t.skip(1) =~= s@.skip(from + 1));
        match read_digits(s, from + 1, base) {
            Some(m) => {
                if m <= 0x8000_0000 {
                    Some((-(m as i64)) as i32)
                } else {
                    None
                }
            },
            None => None,
        }
    } else if plus && from < s.len() && s[from] == '+' {
        assert(t[0] == '+');
        assert(t.skip(1) =~= s@.skip(from + 1));
        match read_digits(s, from + 1, base) {
            Some(m) => {
                if m <= 0x7FFF_FFFF {
                    Some(m as i32)
                } else {
                    None
                }
            },
            None => None,
        }
    } else {
        proof {
            if from < s@.len() {
                assert(t[0] == s@[from as int]);
            }
        }
        match read_digits(s, from, base) {
            Some(m) => {
                if m <= 0x7FFF_FFFF {
                    Some(m as i32)
                } else {
                    None
                }
            },
            None => None,
        }
    }
}

/// Whether the characters from position `from` on are a signed number of
/// the given base, whatever its size.
fn is_signed(s: &Vec<char>, from: usize, base: u64, plus: bool) -> (b: bool)
    requires
        from <= s@.len(),
        2 <= base <= 16,
    ensures
        b == signed_number(s@.skip(from as int), base as nat, plus).is_some(),
{
    let ghost t = s@.skip(from as int);
    if from < s.len() && s[from] == '-' {
        assert(t[0] == '-');
        assert(t.skip(1) =~= s@.skip(from + 1));
        read_digits(s, from + 1, base).is_some()
    } else if plus && from < s.len() && s[from] == '+' {
        assert(t[0] == '+');
        assert(t.skip(1) =~= s@.skip(from + 1));
        read_digits(s, from + 1, base).is_some()
    } else {
        proof {
            if from < s@.len() {
                assert(t[0] == s@[from as int]);
            }
        }
        read_digits(s, from, base).is_some()
    }
}

/// Reads a text entered for a memory cell.
pub fn parse_value(text: &str) -> (value: Option<i32>)
    ensures
        value == parsed_value(text@),
{
    let s = chars_of(text);
    assert(s@.skip(0) =~= s@);
    if is_signed(&s, 0, 10, false) {
        read_signed(&s, 0, 10, false)
    } else if s.len() >= 2 && s[0] == '0' && s[1] == 'b' {
        read_signed(&s, 2, 2, true)
    } else if s.len() >= 2 && s[0] == '0' && s[1] == 'x' {
        read_signed(&s, 2, 16, true)
    } else if s.len() == 3 && s[0] == '\'' && s[2] == '\'' {
        let c: char = s[1];
        let n: u32 = code_of(c);
        if n < 0x80 {
            assert(is_quoted_char(s@));
            assert(n as i32 == c as i32);
            Some(n as i32)
        } else {
            assert(!is_quoted_char(s@));
            None
        }
    } else {
        assert(!is_quoted_char(s@));
        None
    }
}

} // verus!
