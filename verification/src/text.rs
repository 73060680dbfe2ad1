//! Character-level helpers shared by the protocol modules: turning a string
//! into its characters, building strings, and reading and writing unsigned
//! numbers in decimal, hexadecimal and binary.

use vstd::prelude::*;

verus! {

/// Appends one character to a string.
///
/// Trusted: calls `String::push`, which std documents as appending the given
/// char to the end of the string.
#[verifier::external_body]
pub fn push_char(s: &mut String, c: char)
    ensures
        final(s)@ == old(s)@.push(c),
{
    s.push(c);
}

/// The characters of a string, in order.
pub fn chars_of(s: &str) -> (res: Vec<char>)
    ensures
        res@ == s@,
{
    let mut res: Vec<char> = Vec::new();
    for c in it: s.chars()
        invariant
            res@ == it.seq().take(it.index() as int),
    {
        res.push(c);
    }
    res
}

/// Whether two character sequences are equal.
pub fn chars_equal(a: &Vec<char>, b: &Vec<char>) -> (res: bool)
    ensures
        res == (a@ == b@),
{
    if a.len() != b.len() {
        return false;
    }
    let mut i: usize = 0;
    while i < a.len()
        invariant
            a.len() == b.len(),
            i <= a.len(),
            forall|j: int| 0 <= j < i ==> a@[j] == b@[j],
        decreases a.len() - i,
    {
        if a[i] != b[i] {
            return false;
        }
        i = i + 1;
    }
    assert(a@ =~= b@);
    true
}

/// Appends the characters `cs[from..to]` to `s`.
pub fn push_chars(s: &mut String, cs: &Vec<char>, from: usize, to: usize)
    requires
        from <= to <= cs.len(),
    ensures
        final(s)@ == old(s)@ + cs@.subrange(from as int, to as int),
{
    let mut i = from;
    while i < to
        invariant
            from <= i <= to <= cs.len(),
            s@ == old(s)@ + cs@.subrange(from as int, i as int),
        decreases to - i,
    {
        push_char(s, cs[i]);
        assert(cs@.subrange(from as int, i + 1) == cs@.subrange(from as int, i as int).push(cs@[i as int]));
        i = i + 1;
    }
}

/// The string made of `cs[from..to]`.
pub fn string_of(cs: &Vec<char>, from: usize, to: usize) -> (res: String)
    requires
        from <= to <= cs.len(),
    ensures
        res@ == cs@.subrange(from as int, to as int),
{
    let mut s = String::new();
    push_chars(&mut s, cs, from, to);
    s
}

/// The digit character for `d`: `0`-`9`, then upper-case `A`-`Z`.
pub open spec fn digit_char(d: nat) -> char {
    if d < 10 {
        (d + 48) as char
    } else {
        (d + 55) as char
    }
}

/// `n` written in decimal, without leading zeros.
pub open spec fn decimal(n: nat) -> Seq<char>
    decreases n,
{
    if n < 10 {
        seq![digit_char(n)]
    } else {
        decimal(n / 10).push(digit_char(n % 10))
    }
}

/// `n` written in upper-case hexadecimal, without leading zeros.
pub open spec fn hex_upper(n: nat) -> Seq<char>
    decreases n,
{
    if n < 16 {
        seq![digit_char(n)]
    } else {
        hex_upper(n / 16).push(digit_char(n % 16))
    }
}

/// The binary digit for a bit value.
pub open spec fn bit_char(bit: nat) -> char {
    if bit == 0 {
        '0'
    } else {
        '1'
    }
}

/// `b` written as eight binary digits, most significant first.
pub open spec fn binary8(b: u8) -> Seq<char> {
    seq![
        bit_char((b / 128) as nat % 2),
        bit_char((b / 64) as nat % 2),
        bit_char((b / 32) as nat % 2),
        bit_char((b / 16) as nat % 2),
        bit_char((b / 8) as nat % 2),
        bit_char((b / 4) as nat % 2),
        bit_char((b / 2) as nat % 2),
        bit_char(b as nat % 2),
    ]
}

fn digit_char_exec(d: u8) -> (c: char)
    requires
        d < 36,
    ensures
        c == digit_char(d as nat),
{
    if d < 10 {
        (d + 48) as char
    } else {
        (d + 55) as char
    }
}

/// Appends `n` in decimal to `s`.
pub fn push_decimal(s: &mut String, n: u64)
    ensures
        final(s)@ == old(s)@ + decimal(n as nat),
    decreases n,
{
    if n >= 10 {
        push_decimal(s, n / 10);
    }
    push_char(s, digit_char_exec((n % 10) as u8));
    assert(s@ == old(s)@ + decimal(n as nat));
}

/// Appends `n` in upper-case hexadecimal to `s`.
pub fn push_hex_upper(s: &mut String, n: u64)
    ensures
        final(s)@ == old(s)@ + hex_upper(n as nat),
    decreases n,
{
    if n >= 16 {
        push_hex_upper(s, n / 16);
    }
    push_char(s, digit_char_exec((n % 16) as u8));
    assert(s@ == old(s)@ + hex_upper(n as nat));
}

/// `n` in decimal.
pub fn decimal_string(n: u64) -> (res: String)
    ensures
        res@ == decimal(n as nat),
{
    let mut s = String::new();
    push_decimal(&mut s, n);
    assert(s@ == decimal(n as nat));
    s
}

/// `b` as eight binary digits, most significant first.
pub fn binary8_string(b: u8) -> (res: String)
    ensures
        res@ == binary8(b),
{
    let mut s = String::new();
    push_char(&mut s, if (b / 128) % 2 == 0 { '0' } else { '1' });
    push_char(&mut s, if (b / 64) % 2 == 0 { '0' } else { '1' });
    push_char(&mut s, if (b / 32) % 2 == 0 { '0' } else { '1' });
    push_char(&mut s, if (b / 16) % 2 == 0 { '0' } else { '1' });
    push_char(&mut s, if (b / 8) % 2 == 0 { '0' } else { '1' });
    push_char(&mut s, if (b / 4) % 2 == 0 { '0' } else { '1' });
    push_char(&mut s, if (b / 2) % 2 == 0 { '0' } else { '1' });
    push_char(&mut s, if b % 2 == 0 { '0' } else { '1' });
    assert(s@ == binary8(b));
    s
}

/// The value of digit `c` in base `radix`, as `char::to_digit` gives it:
/// `0`-`9`, then `a`-`z` or `A`-`Z` for 10 to 35, when below `radix`.
pub open spec fn digit_value(c: char, radix: nat) -> Option<nat> {
    let d: int = if '0' <= c <= '9' {
        c as int - 48
    } else if 'a' <= c <= 'z' {
        c as int - 87
    } else if 'A' <= c <= 'Z' {
        c as int - 55
    } else {
        36
    };
    if d < radix {
        Some(d as nat)
    } else {
        None
    }
}

/// The value of a string of digits in base `radix`; `None` when a character
/// is not such a digit. The empty string has the value 0.
pub open spec fn digits_value(s: Seq<char>, radix: nat) -> Option<nat>
    decreases s.len(),
{
    if s.len() == 0 {
        Some(0)
    } else {
        match (digits_value(s.drop_last(), radix), digit_value(s.last(), radix)) {
            (Some(v), Some(d)) => Some(v * radix + d),
            _ => None,
        }
    }
}

/// What std's `from_str_radix` gives for an unsigned integer type whose
/// largest value is `max`: an optional `+`, then at least one digit in base
/// `radix`, and a value no larger than `max`; otherwise an error (`None`).
pub open spec fn parse_unsigned_spec(s: Seq<char>, radix: nat, max: nat) -> Option<nat> {
    let digits = if s.len() > 0 && s[0] == '+' {
        s.drop_first()
    } else {
        s
    };
    if digits.len() == 0 {
        None
    } else {
        match digits_value(digits, radix) {
            Some(v) => if v <= max {
                Some(v)
            } else {
                None
            },
            None => None,
        }
    }
}

/// Upper-case hexadecimal reads back, as `from_str_radix(_, 16)` reads it,
/// to the number it was written from.
pub proof fn lemma_hex_upper_reads_back(n: nat)
    ensures
        hex_upper(n).len() > 0,
        hex_upper(n)[0] != '+',
        digits_value(hex_upper(n), 16) == Some(n),
    decreases n,
{
    let d = n % 16;
    assert(digit_value(digit_char(d), 16) == Some(d));
    assert(hex_upper(n).last() == digit_char(d));
    if n < 16 {
        assert(hex_upper(n).drop_last() =~= Seq::<char>::empty());
        assert(digits_value(Seq::<char>::empty(), 16) == Some(0nat));
        assert(digits_value(hex_upper(n), 16) == Some(0 * 16 + d));
    } else {
        lemma_hex_upper_reads_back(n / 16);
        assert(hex_upper(n).drop_last() == hex_upper(n / 16));
        assert(hex_upper(n)[0] == hex_upper(n / 16)[0]);
        assert(digits_value(hex_upper(n), 16) == Some((n / 16) * 16 + d));
    }
}

/// Decimal reads back, as `from_str_radix(_, 10)` reads it, to the number
/// it was written from.
pub proof fn lemma_decimal_reads_back(n: nat)
    ensures
        decimal(n).len() > 0,
        decimal(n)[0] != '+',
        digits_value(decimal(n), 10) == Some(n),
    decreases n,
{
    let d = n % 10;
    assert(digit_value(digit_char(d), 10) == Some(d));
    assert(decimal(n).last() == digit_char(d));
    if n < 10 {
        assert(decimal(n).drop_last() =~= Seq::<char>::empty());
        assert(digits_value(Seq::<char>::empty(), 10) == Some(0nat));
        assert(digits_value(decimal(n), 10) == Some(0 * 10 + d));
    } else {
        lemma_decimal_reads_back(n / 10);
        assert(decimal(n).drop_last() == decimal(n / 10));
        assert(decimal(n)[0] == decimal(n / 10)[0]);
        assert(digits_value(decimal(n), 10) == Some((n / 10) * 10 + d));
    }
}

/// A prefix of valid digits is worth no more than the whole string.
proof fn lemma_digits_value_prefix(s: Seq<char>, radix: nat, k: int)
    requires
        0 <= k <= s.len(),
        radix >= 1,
        digits_value(s, radix) is Some,
    ensures
        digits_value(s.take(k), radix) is Some,
        digits_value(s.take(k), radix).unwrap() <= digits_value(s, radix).unwrap(),
    decreases s.len(),
{
    if k < s.len() {
        let v = digits_value(s.drop_last(), radix).unwrap();
        let d = digit_value(s.last(), radix).unwrap();
        assert(s.drop_last().take(k) == s.take(k));
        lemma_digits_value_prefix(s.drop_last(), radix, k);
        assert(v * radix + d >= v) by (nonlinear_arith)
            requires
                radix >= 1,
        ;
    } else {
        assert(s.take(k) == s);
    }
}

fn digit_value_exec(c: char, radix: u32) -> (res: Option<u32>)
    requires
        2 <= radix <= 36,
    ensures
        res matches Some(d) ==> digit_value(c, radix as nat) == Some(d as nat),
        res is None ==> digit_value(c, radix as nat) is None,
{
    let d: u32 = if '0' <= c && c <= '9' {
        (c as u32) - 48
    } else if 'a' <= c && c <= 'z' {
        (c as u32) - 87
    } else if 'A' <= c && c <= 'Z' {
        (c as u32) - 55
    } else {
        36
    };
    if d < radix {
        Some(d)
    } else {
        None
    }
}

/// Reads `cs[from..to]` as an unsigned number in base `radix` no larger
/// than `max`, with the rules of std's `from_str_radix` for unsigned types.
pub fn parse_unsigned(cs: &Vec<char>, from: usize, to: usize, radix: u32, max: u64) -> (res:
    Option<u64>)
    requires
        from <= to <= cs.len(),
        2 <= radix <= 36,
    ensures
        res matches Some(v) ==> parse_unsigned_spec(
            cs@.subrange(from as int, to as int),
            radix as nat,
            max as nat,
        ) == Some(v as nat),
        res is None ==> parse_unsigned_spec(
            cs@.subrange(from as int, to as int),
            radix as nat,
            max as nat,
        ) is None,
{
    let ghost s = cs@.subrange(from as int, to as int);
    let start = if from < to && cs[from] == '+' {
        from + 1
    } else {
        from
    };
    let ghost digits = cs@.subrange(start as int, to as int);
    assert(digits == (if s.len() > 0 && s[0] == '+' {
        s.drop_first()
    } else {
        s
    }));
    if start == to {
        return None;
    }
    let mut acc: u64 = 0;
    let mut i = start;
    while i < to
        invariant
            start <= i <= to <= cs.len(),
            digits == cs@.subrange(start as int, to as int),
            s == cs@.subrange(from as int, to as int),
            digits == (if s.len() > 0 && s[0] == '+' {
                s.drop_first()
            } else {
                s
            }),
            digits.len() > 0,
            digits_value(digits.take(i - start), radix as nat) == Some(acc as nat),
            acc <= max,
            2 <= radix <= 36,
        decreases to - i,
    {
        let ghost prefix = digits.take(i - start + 1);
        assert(prefix.drop_last() == digits.take(i - start));
        assert(prefix.last() == cs@[i as int]);
        match digit_value_exec(cs[i], radix) {
            None => {
                proof {
                    assert(digits_value(prefix, radix as nat) is None);
                    if digits_value(digits, radix as nat) is Some {
                        lemma_digits_value_prefix(digits, radix as nat, i - start + 1);
                    }
                }
                return None;
            },
            Some(d) => {
                assert((acc as int) * (radix as int) <= 0xffff_ffff_ffff_ffff * 36) by (nonlinear_arith)
                    requires
                        acc <= 0xffff_ffff_ffff_ffff,
                        radix <= 36,
                ;
                let next: u128 = (acc as u128) * (radix as u128) + (d as u128);
                assert(next == acc * radix + d);
                if next > max as u128 {
                    proof {
                        assert(digits_value(prefix, radix as nat) == Some(next as nat));
                        if digits_value(digits, radix as nat) is Some {
                            lemma_digits_value_prefix(digits, radix as nat, i - start + 1);
                        }
                    }
                    return None;
                }
                acc = next as u64;
                i = i + 1;
            },
        }
    }
    assert(digits.take(to - start) == digits);
    Some(acc)
}

} // verus!
