use vstd::prelude::*;
use crate::text::{trim_bounds, trimmed};

verus! {

/// `s` without the `#` at its start.
pub open spec fn without_hashes(s: Seq<char>) -> Seq<char>
    decreases s.len(),
{
    if s.len() > 0 && s[0] == '#' {
        without_hashes(s.drop_first())
    } else {
        s
    }
}

/// The value of a hexadecimal digit, if `c` is one.
pub open spec fn hex_digit(c: char) -> Option<nat> {
    if '0' <= c <= '9' {
        Some(((c as u32) - ('0' as u32)) as nat)
    } else if 'a' <= c <= 'f' {
        Some(((c as u32) - ('a' as u32) + 10) as nat)
    } else if 'A' <= c <= 'F' {
        Some(((c as u32) - ('A' as u32) + 10) as nat)
    } else {
        None
    }
}

/// The number that the hexadecimal digits `s` write, if all of them are digits.
pub open spec fn hex_value(s: Seq<char>) -> Option<nat>
    decreases s.len(),
{
    if s.len() == 0 {
        Some(0)
    } else {
        match (hex_value(s.drop_last()), hex_digit(s.last())) {
            (Some(v), Some(d)) => Some(v * 16 + d),
            _ => None,
        }
    }
}

/// What `u32::from_str_radix(s, 16)` gives for a six-character `s`: an optional `+`
/// and hexadecimal digits.
pub open spec fn radix16(s: Seq<char>) -> Option<nat> {
    let d = if s.len() > 0 && s[0] == '+' {
        s.drop_first()
    } else {
        s
    };
    if d.len() == 0 {
        None
    } else {
        hex_value(d)
    }
}

/// The colour that a theme entry such as `#b5bd68` names: white space trimmed, the
/// leading `#` dropped, six characters read as a hexadecimal number.
pub open spec fn hex_rgb(s: Seq<char>) -> Option<(u8, u8, u8)> {
    let t = without_hashes(trimmed(s));
    if t.len() != 6 {
        None
    } else {
        match radix16(t) {
            Some(v) => Some(((v / 65536 % 256) as u8, (v / 256 % 256) as u8, (v % 256) as u8)),
            None => None,
        }
    }
}

fn hex_digit_exec(c: char) -> (r: Option<u32>)
    ensures
        match hex_digit(c) {
            Some(d) => r == Some(d as u32),
            None => r is None,
        },
{
    if '0' <= c && c <= '9' {
        Some(c as u32 - '0' as u32)
    } else if 'a' <= c && c <= 'f' {
        Some(c as u32 - 'a' as u32 + 10)
    } else if 'A' <= c && c <= 'F' {
        Some(c as u32 - 'A' as u32 + 10)
    } else {
        None
    }
}

proof fn lemma_hex_value_bound(s: Seq<char>)
    ensures
        hex_value(s) matches Some(v) ==> v < pow16(s.len()),
    decreases s.len(),
{
    if s.len() > 0 {
        lemma_hex_value_bound(s.drop_last());
        if let Some(v) = hex_value(s) {
            let w = hex_value(s.drop_last())->0;
            let d = hex_digit(s.last())->0;
            assert(d < 16);
            assert(v == w * 16 + d);
            assert(w * 16 + d < pow16(s.len())) by (nonlinear_arith)
                requires
                    w < pow16((s.len() - 1) as nat),
                    d < 16,
                    pow16(s.len()) == pow16((s.len() - 1) as nat) * 16,
            ;
        }
    }
}

pub open spec fn pow16(n: nat) -> nat
    decreases n,
{
    if n == 0 {
        1
    } else {
        pow16((n - 1) as nat) * 16
    }
}

/// Reads a theme colour such as `#b5bd68` as red, green and blue.
pub fn parse_hex_rgb(s: &str) -> (r: Option<(u8, u8, u8)>)
    ensures
        r == hex_rgb(s@),
{
    let n = s.unicode_len();
    let (a0, b) = trim_bounds(s, 0, n);
    assert(s@.subrange(0, n as int) =~= s@);
    let mut a = a0;
    while a < b && s.get_char(a) == '#'
        invariant
            a0 <= a <= b <= s@.len(),
            without_hashes(s@.subrange(a0 as int, b as int)) == without_hashes(s@.subrange(a as int, b as int)),
        decreases b - a,
    {
        assert(s@.subrange(a as int, b as int).drop_first() =~= s@.subrange(a + 1, b as int));
        a = a + 1;
    }
    let ghost t = s@.subrange(a as int, b as int);
    assert(t == without_hashes(trimmed(s@)));
    if b - a != 6 {
        return None;
    }
    let mut i = a;
    if s.get_char(i) == '+' {
        i = i + 1;
    }
    let ghost d = s@.subrange(i as int, b as int);
    assert(d =~= if t.len() > 0 && t[0] == '+' {
        t.drop_first()
    } else {
        t
    });
    let mut v: u32 = 0;
    let start = i;
    while i < b
        invariant
            a <= start <= i <= b <= s@.len(),
            b - a == 6,
            t == s@.subrange(a as int, b as int),
            t == without_hashes(trimmed(s@)),
            d == (if t.len() > 0 && t[0] == '+' {
                t.drop_first()
            } else {
                t
            }),
            hex_value(s@.subrange(start as int, i as int)) == Some(v as nat),
            d == s@.subrange(start as int, b as int),
        decreases b - i,
    {
        let ghost pre = s@.subrange(start as int, i as int);
        assert(s@.subrange(start as int, i + 1).drop_last() =~= pre);
        match hex_digit_exec(s.get_char(i)) {
            Some(x) => {
                proof {
                    lemma_hex_value_bound(pre);
                    assert(pow16(pre.len()) <= pow16(6)) by {
                        lemma_pow16_mono(pre.len(), 6);
                    }
                    assert(pow16(0) == 1);
                    assert(pow16(1) == 16);
                    assert(pow16(2) == 256);
                    assert(pow16(3) == 4096);
                    assert(pow16(4) == 65536);
                    assert(pow16(5) == 1048576);
                    assert(pow16(6) == 16777216);
                }
                assert(v * 16 + x < 0x1_0000_0000) by (nonlinear_arith)
                    requires
                        v < 16777216,
                        x < 16,
                ;
                v = v * 16 + x;
            },
            None => {
                proof {
                    lemma_hex_prefix_fails(d, (i - start) as nat);
                    assert(d.subrange(0, (i - start) + 1) =~= s@.subrange(start as int, i + 1));
                }
                return None;
            },
        }
        i = i + 1;
    }
    if i == start {
        return None;
    }
    let r = ((v / 65536 % 256) as u8, (v / 256 % 256) as u8, (v % 256) as u8);
    Some(r)
}

proof fn lemma_pow16_mono(m: nat, n: nat)
    requires
        m <= n,
    ensures
        pow16(m) <= pow16(n),
    decreases n,
{
    if m < n {
        lemma_pow16_mono(m, (n - 1) as nat);
    }
}

/// A digit string whose prefix holds a non-digit has no value.
proof fn lemma_hex_prefix_fails(s: Seq<char>, k: nat)
    requires
        k < s.len(),
        hex_digit(s[k as int]) is None,
    ensures
        hex_value(s) is None,
    decreases s.len(),
{
    if k < s.len() - 1 {
        assert(s.drop_last()[k as int] == s[k as int]);
        lemma_hex_prefix_fails(s.drop_last(), k);
    }
}

} // verus!
