//! Fixed-width hexadecimal text for 64-bit words.
use vstd::prelude::*;
use vstd::arithmetic::div_mod::lemma_breakdown;

verus! {

/// 16^n.
pub open spec fn pow16(n: nat) -> nat
    decreases n,
{
    if n == 0 {
        1
    } else {
        16 * pow16((n - 1) as nat)
    }
}

/// The lowercase hexadecimal digit of a value in 0..16.
pub open spec fn hex_digit_char(d: int) -> char {
    if d < 10 {
        (48 + d) as char
    } else {
        (87 + d) as char
    }
}

/// The last `n` hexadecimal digits of `v`, most significant first, in
/// lowercase and padded with zeros.
pub open spec fn hex_chars(v: nat, n: nat) -> Seq<char>
    decreases n,
{
    if n == 0 {
        Seq::empty()
    } else {
        hex_chars(v / 16, (n - 1) as nat).push(hex_digit_char((v % 16) as int))
    }
}

/// A hexadecimal digit, in either case.
pub open spec fn is_hex_digit(c: char) -> bool {
    ('0' <= c <= '9') || ('a' <= c <= 'f') || ('A' <= c <= 'F')
}

/// The value of a hexadecimal digit.
pub open spec fn hex_digit_value(c: char) -> nat {
    if '0' <= c <= '9' {
        (c as int - 48) as nat
    } else if 'a' <= c <= 'f' {
        (c as int - 87) as nat
    } else if 'A' <= c <= 'F' {
        (c as int - 55) as nat
    } else {
        0
    }
}

/// Every character of `s` is a hexadecimal digit.
pub open spec fn all_hex(s: Seq<char>) -> bool {
    forall|i: int| 0 <= i < s.len() ==> is_hex_digit(#[trigger] s[i])
}

/// The number that the hexadecimal digits `s` write, most significant first.
pub open spec fn hex_value(s: Seq<char>) -> nat
    decreases s.len(),
{
    if s.len() == 0 {
        0
    } else {
        hex_value(s.drop_last()) * 16 + hex_digit_value(s.last())
    }
}

/// 16^16 is 2^64.
pub proof fn lemma_pow16_word()
    ensures
        pow16(16) == 0x1_0000_0000_0000_0000,
        pow16(15) == 0x1000_0000_0000_0000,
{
    reveal_with_fuel(pow16, 17);
}

/// Writing `v` in `n` digits and reading the digits back gives `v` modulo
/// 16^n.
pub proof fn lemma_hex_chars(v: nat, n: nat)
    ensures
        hex_chars(v, n).len() == n,
        all_hex(hex_chars(v, n)),
        hex_value(hex_chars(v, n)) == v % pow16(n),
    decreases n,
{
    if n > 0 {
        let m = (n - 1) as nat;
        lemma_hex_chars(v / 16, m);
        let d = (v % 16) as int;
        let c = hex_digit_char(d);
        assert(is_hex_digit(c) && hex_digit_value(c) == d);
        let s = hex_chars(v, n);
        assert(s.drop_last() =~= hex_chars(v / 16, m));
        lemma_pow16_pos(m);
        lemma_breakdown(v as int, 16, pow16(m) as int);
    }
}

/// 16^n is positive.
pub proof fn lemma_pow16_pos(n: nat)
    ensures
        pow16(n) > 0,
    decreases n,
{
    if n > 0 {
        lemma_pow16_pos((n - 1) as nat);
    }
}

/// A `u64` written as sixteen lowercase hexadecimal digits, zero-padded,
/// most significant first.
pub fn hex16(v: u64) -> (r: String)
    ensures
        r@ == hex_chars(v as nat, 16),
{
    let digits: &str = "0123456789abcdef";
    proof {
        reveal_strlit("0123456789abcdef");
        lemma_pow16_word();
    }
    assert(digits.is_ascii());
    let mut s = String::new();
    let mut div: u64 = 0x1000_0000_0000_0000;
    let mut i: usize = 0;
    while i < 16
        invariant
            i <= 16,
            digits@ == "0123456789abcdef"@,
            digits.is_ascii(),
            digits@.len() == 16,
            forall|k: int| 0 <= k < 16 ==> #[trigger] digits@[k] == hex_digit_char(k),
            pow16(15) == 0x1000_0000_0000_0000,
            i < 16 ==> div == pow16((15 - i) as nat),
            i < 16 ==> s@ == hex_chars(v as nat / (div as nat * 16), i as nat),
            i == 16 ==> s@ == hex_chars(v as nat, 16),
        decreases 16 - i,
    {
        proof {
            lemma_pow16_pos((15 - i) as nat);
            vstd::arithmetic::div_mod::lemma_div_denominator(v as int, div as int, 16);
        }
        let x = v / div;
        let d = (x % 16) as usize;
        let c = digits.substring_ascii(d, d + 1);
        assert(c@ =~= seq![hex_digit_char(d as int)]);
        s.append(c);
        assert(s@ =~= hex_chars(x as nat, (i + 1) as nat));
        if i < 15 {
            assert(pow16((15 - i) as nat) == 16 * pow16((15 - (i + 1)) as nat));
            div = div / 16;
        } else {
            assert(div == 1);
        }
        i = i + 1;
    }
    s
}

/// 16^n grows with n.
pub proof fn lemma_pow16_monotone(a: nat, b: nat)
    requires
        a <= b,
    ensures
        pow16(a) <= pow16(b),
    decreases b,
{
    if a < b {
        lemma_pow16_monotone(a, (b - 1) as nat);
        lemma_pow16_pos((b - 1) as nat);
    }
}

/// The value of one hexadecimal digit, or `None` for any other byte.
pub fn hex_digit(b: u8) -> (r: Option<u64>)
    ensures
        match r {
            Some(d) => is_hex_digit(b as char) && d == hex_digit_value(b as char),
            None => !is_hex_digit(b as char),
        },
{
    if 48 <= b && b <= 57 {
        Some((b - 48) as u64)
    } else if 97 <= b && b <= 102 {
        Some((b - 87) as u64)
    } else if 65 <= b && b <= 70 {
        Some((b - 55) as u64)
    } else {
        None
    }
}

/// Reads the sixteen hexadecimal digits of `s` that start at character
/// `start`, or returns `None` when one of them is not a hexadecimal digit.
pub fn parse_hex_word(s: &str, start: usize) -> (r: Option<u64>)
    requires
        s.is_ascii(),
        start + 16 <= s@.len(),
        start + 16 <= usize::MAX,
    ensures
        match r {
            Some(v) => all_hex(s@.subrange(start as int, start + 16))
                && v == hex_value(s@.subrange(start as int, start + 16)),
            None => !all_hex(s@.subrange(start as int, start + 16)),
        },
{
    let end: usize = start + 16;
    let mut acc: u64 = 0;
    let mut i: usize = start;
    while i < end
        invariant
            start <= i <= end,
            end == start + 16,
            end <= s@.len(),
            s.is_ascii(),
            all_hex(s@.subrange(start as int, i as int)),
            acc == hex_value(s@.subrange(start as int, i as int)),
            acc < pow16((i - start) as nat),
        decreases end - i,
    {
        let b = s.get_ascii(i);
        let ghost c = s@[i as int];
        assert(c as u8 == b);
        assert('\0' <= c <= '\u{7f}');
        assert(b as char == c);
        match hex_digit(b) {
            None => {
                assert(s@.subrange(start as int, end as int)[i - start] == c);
                return None;
            },
            Some(d) => {
                proof {
                    lemma_pow16_monotone((i - start) as nat, 15);
                    lemma_pow16_word();
                }
                let ghost prev = s@.subrange(start as int, i as int);
                let ghost next = s@.subrange(start as int, i + 1);
                assert(next.drop_last() =~= prev);
                assert(next.last() == c);
                acc = acc * 16 + d;
                i = i + 1;
                assert forall|k: int| 0 <= k < next.len() implies is_hex_digit(#[trigger] next[k]) by {
                    if k < prev.len() {
                        assert(next[k] == prev[k]);
                    }
                }
            },
        }
    }
    Some(acc)
}

} // verus!
