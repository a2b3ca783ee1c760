//! Numbers written as text, and read back.

use vstd::prelude::*;

use crate::text::chars::{chars_of, trimmed};

verus! {

// ---------------------------------------------------------------------------
// Digits

/// The value of a digit in a radix of up to sixteen, if it is one.
pub open spec fn digit_value(c: char, radix: int) -> Option<int> {
    let v = if '0' <= c <= '9' {
        c as int - '0' as int
    } else if 'a' <= c <= 'f' {
        c as int - 'a' as int + 10
    } else if 'A' <= c <= 'F' {
        c as int - 'A' as int + 10
    } else {
        99
    };
    if v < radix {
        Some(v)
    } else {
        None
    }
}

/// The value of the digit `c` in `radix`, if it is one.
pub fn digit_of(c: char, radix: u32) -> (r: Option<u32>)
    requires
        radix <= 16,
    ensures
        match r {
            Some(v) => digit_value(c, radix as int) == Some(v as int) && v < radix,
            None => digit_value(c, radix as int) is None,
        },
{
    let v: u32 = if '0' <= c && c <= '9' {
        c as u32 - 48
    } else if 'a' <= c && c <= 'f' {
        c as u32 - 97 + 10
    } else if 'A' <= c && c <= 'F' {
        c as u32 - 65 + 10
    } else {
        99
    };
    if v < radix {
        Some(v)
    } else {
        None
    }
}

/// The digit character for a value below ten.
pub open spec fn digit_char(v: int) -> char {
    (48u8 + v as u8) as char
}

/// The lower-case hexadecimal digit for a value below sixteen.
pub open spec fn hex_char(v: int) -> char {
    if v < 10 {
        (48u8 + v as u8) as char
    } else {
        (87u8 + v as u8) as char
    }
}

/// The upper-case hexadecimal digit for a value below sixteen.
pub open spec fn upper_hex_char(v: int) -> char {
    if v < 10 {
        (48u8 + v as u8) as char
    } else {
        (55u8 + v as u8) as char
    }
}

/// The digit character for `v`.
pub fn digit_char_of(v: u8) -> (r: char)
    requires
        v < 10,
    ensures
        r == digit_char(v as int),
{
    (48 + v) as char
}

/// The lower-case hexadecimal digit for `v`.
pub fn hex_char_of(v: u8) -> (r: char)
    requires
        v < 16,
    ensures
        r == hex_char(v as int),
{
    if v < 10 {
        (48 + v) as char
    } else {
        (87 + v) as char
    }
}

/// The upper-case hexadecimal digit for `v`.
pub fn upper_hex_char_of(v: u8) -> (r: char)
    requires
        v < 16,
    ensures
        r == upper_hex_char(v as int),
{
    if v < 10 {
        (48 + v) as char
    } else {
        (55 + v) as char
    }
}

// ---------------------------------------------------------------------------
// Writing

/// The decimal digits of `n`, without leading zeros.
pub open spec fn decimal(n: nat) -> Seq<char>
    decreases n,
{
    if n < 10 {
        seq![digit_char(n as int)]
    } else {
        decimal(n / 10).push(digit_char(n as int % 10))
    }
}

/// The decimal digits of `n`, after a `-` when it is negative.
pub open spec fn signed_decimal(n: int) -> Seq<char> {
    if n < 0 {
        seq!['-'] + decimal((-n) as nat)
    } else {
        decimal(n as nat)
    }
}

/// `s` with zeros in front up to `width` characters.
pub open spec fn zero_padded(s: Seq<char>, width: nat) -> Seq<char>
    decreases width - s.len(),
{
    if s.len() >= width {
        s
    } else {
        zero_padded(seq!['0'] + s, width)
    }
}

/// The lower-case hexadecimal digits of `n`, without leading zeros.
pub open spec fn hexadecimal(n: nat) -> Seq<char>
    decreases n,
{
    if n < 16 {
        seq![hex_char(n as int)]
    } else {
        hexadecimal(n / 16).push(hex_char(n as int % 16))
    }
}

/// The decimal digits of `n`.
pub fn decimal_of(n: u64) -> (r: String)
    ensures
        r@ == decimal(n as nat),
    decreases n,
{
    if n < 10 {
        let mut out = String::new();
        out.push(digit_char_of(n as u8));
        assert(out@ == seq![digit_char(n as int)]);
        out
    } else {
        let mut out = decimal_of(n / 10);
        out.push(digit_char_of((n % 10) as u8));
        out
    }
}

/// The decimal digits of `n`, after a `-` when it is negative.
pub fn signed_decimal_of(n: i64) -> (r: String)
    requires
        n > i64::MIN,
    ensures
        r@ == signed_decimal(n as int),
{
    if n < 0 {
        let mut out = String::new();
        out.push('-');
        let digits = decimal_of((-n) as u64);
        out.append(digits.as_str());
        assert(out@ == seq!['-'] + digits@);
        out
    } else {
        decimal_of(n as u64)
    }
}

/// The lower-case hexadecimal digits of `n`.
pub fn hexadecimal_of(n: u64) -> (r: String)
    ensures
        r@ == hexadecimal(n as nat),
    decreases n,
{
    if n < 16 {
        let mut out = String::new();
        out.push(hex_char_of(n as u8));
        assert(out@ == seq![hex_char(n as int)]);
        out
    } else {
        let mut out = hexadecimal_of(n / 16);
        out.push(hex_char_of((n % 16) as u8));
        out
    }
}

/// `digits` with zeros in front up to `width` characters.
pub fn zero_pad(digits: &str, width: usize) -> (r: String)
    ensures
        r@ == zero_padded(digits@, width as nat),
{
    let len = digits.unicode_len();
    let mut out = String::new();
    let mut i: usize = len;
    let ghost full = zero_padded(digits@, width as nat);
    assert(out@ + digits@ == digits@);
    while i < width
        invariant
            len == digits@.len(),
            len <= i,
            (out@ + digits@).len() == i,
            forall|k: int| 0 <= k < out@.len() ==> out@[k] == '0',
            zero_padded(out@ + digits@, width as nat) == full,
        decreases width - i,
    {
        let ghost before = out@;
        out.push('0');
        proof {
            let a = seq!['0'] + (before + digits@);
            let b = out@ + digits@;
            assert forall|k: int| 0 <= k < a.len() implies a[k] == b[k] by {
                if k <= before.len() {
                    assert(b[k] == out@[k]);
                }
            }
            assert(a =~= b);
        }
        i += 1;
    }
    out.append(digits);
    out
}

/// The decimal digits of `n` with zeros in front up to `width` characters.
pub fn padded_decimal_of(n: u64, width: usize) -> (r: String)
    ensures
        r@ == zero_padded(decimal(n as nat), width as nat),
{
    zero_pad(decimal_of(n).as_str(), width)
}

// ---------------------------------------------------------------------------
// Reading

/// Every character of `s` is a digit in `radix`.
pub open spec fn all_digits(s: Seq<char>, radix: int) -> bool {
    forall|i: int| 0 <= i < s.len() ==> digit_value(#[trigger] s[i], radix) is Some
}

/// The number that the digits `s` write in `radix`.
pub open spec fn digits_number(s: Seq<char>, radix: int) -> int
    decreases s.len(),
{
    if s.len() == 0 {
        0
    } else {
        digits_number(s.drop_last(), radix) * radix + digit_value(s.last(), radix).unwrap_or(0)
    }
}

/// `s` without one leading sign character `sign`.
pub open spec fn unsigned_part(s: Seq<char>, sign: char) -> Seq<char> {
    if s.len() > 0 && s[0] == sign {
        s.drop_first()
    } else {
        s
    }
}

/// The number in `0..=max` that `s` writes: digits, after an optional `+`.
pub open spec fn read_unsigned(s: Seq<char>, radix: int, max: int) -> Option<int> {
    let digits = unsigned_part(s, '+');
    if digits.len() > 0 && all_digits(digits, radix) && digits_number(digits, radix) <= max {
        Some(digits_number(digits, radix))
    } else {
        None
    }
}

/// The 32-bit integer that `s` writes: decimal digits, after an optional sign.
pub open spec fn read_i32(s: Seq<char>) -> Option<int> {
    let negative = s.len() > 0 && s[0] == '-';
    let digits = if negative {
        s.drop_first()
    } else {
        unsigned_part(s, '+')
    };
    let value = if negative {
        -digits_number(digits, 10)
    } else {
        digits_number(digits, 10)
    };
    if digits.len() > 0 && all_digits(digits, 10) && i32::MIN <= value <= i32::MAX {
        Some(value)
    } else {
        None
    }
}

/// More digits never make the number smaller.
proof fn lemma_digits_number_grows(s: Seq<char>, n: int, radix: int)
    requires
        0 <= n <= s.len(),
        2 <= radix <= 16,
        all_digits(s, radix),
    ensures
        0 <= digits_number(s.take(n), radix) <= digits_number(s, radix),
    decreases s.len(),
{
    if n == s.len() {
        assert(s.take(n) == s);
        if s.len() > 0 {
            let t = s.drop_last();
            assert(all_digits(t, radix)) by {
                assert forall|i: int| 0 <= i < t.len() implies digit_value(
                    #[trigger] t[i],
                    radix,
                ) is Some by {
                    assert(t[i] == s[i]);
                }
            }
            lemma_digits_number_grows(t, t.len() as int, radix);
            assert(t.take(t.len() as int) == t);
            assert(digits_number(t, radix) * radix >= 0) by (nonlinear_arith)
                requires
                    digits_number(t, radix) >= 0,
                    radix >= 0,
            ;
            assert(digit_value(s[s.len() - 1], radix) is Some);
        }
    } else {
        let t = s.drop_last();
        assert(all_digits(t, radix)) by {
            assert forall|i: int| 0 <= i < t.len() implies digit_value(
                #[trigger] t[i],
                radix,
            ) is Some by {
                assert(t[i] == s[i]);
            }
        }
        lemma_digits_number_grows(t, n, radix);
        assert(t.take(n) == s.take(n));
        assert(digit_value(s[s.len() - 1], radix) is Some);
        let v = digits_number(t, radix);
        assert(v * radix >= v) by (nonlinear_arith)
            requires
                v >= 0,
                radix >= 1,
        ;
    }
}

/// The number that `cs[from..]` writes in `radix`, if there are digits and
/// nothing else and the number is at most `max`.
fn read_digits(cs: &Vec<char>, from: usize, radix: u32, max: u64) -> (r: Option<u64>)
    requires
        from <= cs.len(),
        2 <= radix <= 16,
        max <= u64::MAX,
    ensures
        ({
            let digits = cs@.skip(from as int);
            let n = digits_number(digits, radix as int);
            let good = digits.len() > 0 && all_digits(digits, radix as int) && n <= max;
            match r {
                Some(v) => good && v == n,
                None => !good,
            }
        }),
{
    let ghost digits = cs@.skip(from as int);
    if from == cs.len() {
        return None;
    }
    let mut value: u64 = 0;
    let mut over = false;
    let mut i: usize = from;
    assert(digits.take(0) == Seq::<char>::empty());
    while i < cs.len()
        invariant
            digits == cs@.skip(from as int),
            from <= i <= cs.len(),
            2 <= radix <= 16,
            all_digits(digits.take(i - from), radix as int),
            !over ==> value == digits_number(digits.take(i - from), radix as int) && value <= max,
            over ==> digits_number(digits.take(i - from), radix as int) > max,
        decreases cs.len() - i,
    {
        let ghost head = digits.take(i - from);
        let ghost next = digits.take(i - from + 1);
        assert(next.drop_last() == head);
        assert(next.last() == cs@[i as int]);
        match digit_of(cs[i], radix) {
            None => {
                assert(digits[i - from] == cs@[i as int]);
                assert(!all_digits(digits, radix as int));
                return None;
            },
            Some(d) => {
                assert(all_digits(next, radix as int)) by {
                    assert forall|k: int| 0 <= k < next.len() implies digit_value(
                        #[trigger] next[k],
                        radix as int,
                    ) is Some by {
                        if k < head.len() {
                            assert(next[k] == head[k]);
                        }
                    }
                }
                proof {
                    let v = digits_number(head, radix as int);
                    lemma_digits_number_grows(head, head.len() as int, radix as int);
                    assert(head.take(head.len() as int) == head);
                    assert(v * radix >= v) by (nonlinear_arith)
                        requires
                            v >= 0,
                            radix >= 1,
                    ;
                    assert(!over ==> value * radix == v * radix);
                    assert(value * radix <= u64::MAX * 16) by (nonlinear_arith)
                        requires
                            0 <= value <= u64::MAX,
                            0 <= radix <= 16,
                    ;
                }
                if !over {
                    let wide: u128 = (value as u128) * (radix as u128) + d as u128;
                    if wide > max as u128 {
                        over = true;
                    } else {
                        value = wide as u64;
                    }
                }
            },
        }
        i += 1;
    }
    assert(digits.take(cs.len() - from) == digits);
    if over {
        None
    } else {
        Some(value)
    }
}

/// The number up to `max` that `s` writes in `radix`, after an optional `+`.
pub fn parse_unsigned(s: &str, radix: u32, max: u64) -> (r: Option<u64>)
    requires
        2 <= radix <= 16,
    ensures
        match r {
            Some(v) => read_unsigned(s@, radix as int, max as int) == Some(v as int),
            None => read_unsigned(s@, radix as int, max as int) is None,
        },
        r matches Some(v) ==> v <= max,
{
    let cs = chars_of(s);
    let from: usize = if cs.len() > 0 && cs[0] == '+' {
        1
    } else {
        0
    };
    assert(cs@.skip(from as int) == unsigned_part(s@, '+'));
    read_digits(&cs, from, radix, max)
}

/// The 32-bit unsigned integer that `s` writes in decimal.
pub fn parse_u32(s: &str) -> (r: Option<u32>)
    ensures
        match r {
            Some(v) => read_unsigned(s@, 10, u32::MAX as int) == Some(v as int),
            None => read_unsigned(s@, 10, u32::MAX as int) is None,
        },
{
    match parse_unsigned(s, 10, u32::MAX as u64) {
        Some(v) => Some(v as u32),
        None => None,
    }
}

/// The 32-bit signed integer that `s` writes in decimal.
pub fn parse_i32(s: &str) -> (r: Option<i32>)
    ensures
        match r {
            Some(v) => read_i32(s@) == Some(v as int),
            None => read_i32(s@) is None,
        },
{
    let cs = chars_of(s);
    if cs.len() > 0 && cs[0] == '-' {
        assert(cs@.skip(1) == s@.drop_first());
        proof {
            lemma_digits_sign(s@.drop_first());
        }
        match read_digits(&cs, 1, 10, 0x8000_0000) {
            Some(v) => Some((-(v as i64)) as i32),
            None => None,
        }
    } else {
        let from: usize = if cs.len() > 0 && cs[0] == '+' {
            1
        } else {
            0
        };
        assert(cs@.skip(from as int) == unsigned_part(s@, '+'));
        proof {
            lemma_digits_sign(unsigned_part(s@, '+'));
        }
        match read_digits(&cs, from, 10, 0x7fff_ffff) {
            Some(v) => Some(v as i32),
            None => None,
        }
    }
}

proof fn lemma_digits_sign(s: Seq<char>)
    ensures
        all_digits(s, 10) ==> digits_number(s, 10) >= 0,
{
    if all_digits(s, 10) {
        lemma_digits_number_grows(s, s.len() as int, 10);
        assert(s.take(s.len() as int) == s);
    }
}

// ---------------------------------------------------------------------------
// Reading back what was written

/// Decimal digits read back as the number they were written for.
pub proof fn lemma_decimal_reads_back(n: nat)
    ensures
        decimal(n).len() > 0,
        all_digits(decimal(n), 10),
        digits_number(decimal(n), 10) == n,
        forall|i: int| 0 <= i < decimal(n).len() ==> '0' <= #[trigger] decimal(n)[i] <= '9',
    decreases n,
{
    let s = decimal(n);
    if n < 10 {
        assert(s.drop_last() == Seq::<char>::empty());
        assert(digits_number(s.drop_last(), 10) == 0);
    } else {
        lemma_decimal_reads_back(n / 10);
        assert(s.drop_last() == decimal(n / 10));
        assert forall|i: int| 0 <= i < s.len() implies '0' <= #[trigger] s[i] <= '9' && digit_value(
            s[i],
            10,
        ) is Some by {
            if i < s.len() - 1 {
                assert(s[i] == decimal(n / 10)[i]);
            }
        }
    }
}

/// A written unsigned number is read back.
pub proof fn lemma_unsigned_round_trip(n: nat, max: int)
    requires
        n <= max,
    ensures
        read_unsigned(decimal(n), 10, max) == Some(n as int),
{
    lemma_decimal_reads_back(n);
    assert(decimal(n)[0] != '+');
}

/// A written signed number is read back.
pub proof fn lemma_signed_round_trip(n: int)
    requires
        i32::MIN <= n <= i32::MAX,
    ensures
        read_i32(signed_decimal(n)) == Some(n),
{
    let m = if n < 0 {
        (-n) as nat
    } else {
        n as nat
    };
    lemma_decimal_reads_back(m);
    assert(decimal(m)[0] != '+' && decimal(m)[0] != '-');
    if n < 0 {
        assert(signed_decimal(n).drop_first() == decimal(m));
    }
}

/// Hexadecimal digits read back as the number they were written for.
pub proof fn lemma_hexadecimal_reads_back(n: nat)
    ensures
        hexadecimal(n).len() > 0,
        all_digits(hexadecimal(n), 16),
        digits_number(hexadecimal(n), 16) == n,
    decreases n,
{
    let s = hexadecimal(n);
    if n < 16 {
        assert(s.drop_last() == Seq::<char>::empty());
        assert(digits_number(s.drop_last(), 16) == 0);
    } else {
        lemma_hexadecimal_reads_back(n / 16);
        assert(s.drop_last() == hexadecimal(n / 16));
        assert forall|i: int| 0 <= i < s.len() implies digit_value(#[trigger] s[i], 16) is Some by {
            if i < s.len() - 1 {
                assert(s[i] == hexadecimal(n / 16)[i]);
            }
        }
    }
}

/// A zero in front of digits does not change the number.
proof fn lemma_leading_zero(s: Seq<char>, radix: int)
    requires
        radix >= 2,
    ensures
        digits_number(seq!['0'] + s, radix) == digits_number(s, radix),
    decreases s.len(),
{
    let z = seq!['0'] + s;
    if s.len() == 0 {
        assert(z.drop_last() == Seq::<char>::empty());
        assert(digits_number(z.drop_last(), radix) == 0);
    } else {
        lemma_leading_zero(s.drop_last(), radix);
        assert(z.drop_last() =~= seq!['0'] + s.drop_last());
    }
}

/// Zero padding does not change the number that digits write.
pub proof fn lemma_padding_reads_back(s: Seq<char>, width: nat, radix: int)
    requires
        2 <= radix <= 16,
        all_digits(s, radix),
    ensures
        all_digits(zero_padded(s, width), radix),
        digits_number(zero_padded(s, width), radix) == digits_number(s, radix),
        zero_padded(s, width).len() >= s.len(),
    decreases width - s.len(),
{
    if s.len() < width {
        let z = seq!['0'] + s;
        lemma_leading_zero(s, radix);
        assert forall|i: int| 0 <= i < z.len() implies digit_value(
            #[trigger] z[i],
            radix,
        ) is Some by {
            if i > 0 {
                assert(z[i] == s[i - 1]);
            }
        }
        lemma_padding_reads_back(z, width, radix);
    }
}

/// The text of a number holds digits and a minus sign only.
pub proof fn lemma_signed_plain(n: int, c: char)
    requires
        !('0' <= c <= '9'),
        c != '-',
    ensures
        signed_decimal(n).len() > 0,
        !signed_decimal(n).contains(c),
        trimmed(signed_decimal(n)),
{
    let m = if n < 0 {
        (-n) as nat
    } else {
        n as nat
    };
    lemma_decimal_reads_back(m);
    let text = signed_decimal(n);
    assert(text.last() == decimal(m).last());
    if text.contains(c) {
        let i = choose|i: int| 0 <= i < text.len() && text[i] == c;
        if n < 0 {
            assert(decimal(m)[i - 1] == c);
        }
    }
}

// ---------------------------------------------------------------------------
// Laws

/// The digits are `0` to `9`, and in hexadecimal `a` to `f` in either case; each is
/// read as its value, and written as it is read.
pub proof fn law_digits_have_their_values(c: char, v: int)
    ensures
        '0' <= c <= '9' ==> digit_value(c, 10) == Some(c as int - 48) && digit_value(c, 16) == Some(
            c as int - 48,
        ),
        !('0' <= c <= '9') ==> digit_value(c, 10) is None,
        'a' <= c <= 'f' ==> digit_value(c, 16) == Some(c as int - 97 + 10),
        'A' <= c <= 'F' ==> digit_value(c, 16) == Some(c as int - 65 + 10),
        !('0' <= c <= '9' || 'a' <= c <= 'f' || 'A' <= c <= 'F') ==> digit_value(c, 16) is None,
        0 <= v < 10 ==> digit_value(digit_char(v), 10) == Some(v),
        0 <= v < 16 ==> digit_value(hex_char(v), 16) == Some(v) && digit_value(
            upper_hex_char(v),
            16,
        ) == Some(v),
        10 <= v < 16 ==> 'a' <= hex_char(v) <= 'f' && 'A' <= upper_hex_char(v) <= 'F',
{
}

/// A number that is written is read back, with a sign or without, and what is
/// greater than the greatest allowed is not read.
pub proof fn law_written_numbers_are_read_back(n: nat, max: int)
    ensures
        n <= max ==> read_unsigned(decimal(n), 10, max) == Some(n as int),
        n > max ==> read_unsigned(decimal(n), 10, max) is None,
        digits_number(decimal(n), 10) == n,
        decimal(n).len() > 0,
        decimal(n)[0] != '0' || n == 0,
        read_unsigned(seq![], 10, max) is None,
    decreases n,
{
    lemma_decimal_reads_back(n);
    let d = decimal(n);
    assert(d[0] != '+') by {
        assert(digit_value(d[0], 10) is Some);
    }
    assert(unsigned_part(d, '+') == d);
    assert(unsigned_part(seq![], '+').len() == 0);
    if n >= 10 {
        law_written_numbers_are_read_back(n / 10, max);
        assert(d[0] == decimal(n / 10)[0]);
    }
}

} // verus!
