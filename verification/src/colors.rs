//! Parsing of the `#rrggbb` colours that plugins send to the host.
use vstd::prelude::*;
use crate::text::chars_of;

verus! {

/// The value of a hexadecimal digit (`0-9`, `a-f`, `A-F`).
pub open spec fn hex_digit_value(c: char) -> Option<int> {
    if '0' <= c && c <= '9' {
        Some(c as int - '0' as int)
    } else if 'a' <= c && c <= 'f' {
        Some(c as int - 'a' as int + 10)
    } else if 'A' <= c && c <= 'F' {
        Some(c as int - 'A' as int + 10)
    } else {
        None
    }
}

/// Every character of `s` is a hexadecimal digit.
pub open spec fn all_hex(s: Seq<char>) -> bool {
    forall|i: int| 0 <= i < s.len() ==> (#[trigger] hex_digit_value(s[i])) is Some
}

/// The number written by the hexadecimal digits `s`, most significant first.
pub open spec fn hex_value(s: Seq<char>) -> int
    decreases s.len(),
{
    if s.len() == 0 {
        0
    } else {
        hex_value(s.drop_last()) * 16 + match hex_digit_value(s.last()) {
            Some(d) => d,
            None => 0,
        }
    }
}

/// A hexadecimal number: at least one hexadecimal digit and nothing else
/// (no sign), with a value that fits in 32 bits.
pub open spec fn parse_hex_u32(s: Seq<char>) -> Option<u32> {
    if s.len() == 0 || !all_hex(s) || hex_value(s) > u32::MAX as int {
        None
    } else {
        Some(hex_value(s) as u32)
    }
}

/// `hex_value` never decreases when digits are appended.
proof fn lemma_hex_value_grows(s: Seq<char>, n: int)
    requires
        0 <= n <= s.len(),
    ensures
        hex_value(s.subrange(0, n)) <= hex_value(s),
        hex_value(s.subrange(0, n)) >= 0,
    decreases s.len() - n,
{
    if n < s.len() {
        lemma_hex_value_grows(s, n + 1);
        let prefix = s.subrange(0, n + 1);
        assert(prefix.drop_last() =~= s.subrange(0, n));
        lemma_hex_value_nonnegative(s.subrange(0, n));
    } else {
        assert(s.subrange(0, n) =~= s);
        lemma_hex_value_nonnegative(s);
    }
}

proof fn lemma_hex_value_nonnegative(s: Seq<char>)
    ensures
        hex_value(s) >= 0,
    decreases s.len(),
{
    if s.len() > 0 {
        lemma_hex_value_nonnegative(s.drop_last());
    }
}

/// The value of one hexadecimal digit.
fn digit_value(c: char) -> (result: Option<u32>)
    ensures
        match hex_digit_value(c) {
            Some(d) => result == Some(d as u32),
            None => result is None,
        },
{
    if '0' <= c && c <= '9' {
        Some(c as u32 - '0' as u32)
    } else if 'a' <= c && c <= 'f' {
        Some(c as u32 - 'a' as u32 + 10)
    } else if 'A' <= c && c <= 'F' {
        Some(c as u32 - 'A' as u32 + 10)
    } else {
        None
    }
}

/// Parses `s` as a hexadecimal number made of digits only.
pub fn parse_hex_u32_exec(s: &[char]) -> (result: Option<u32>)
    ensures
        result == parse_hex_u32(s@),
{
    if s.len() == 0 {
        return None;
    }
    let mut value: u64 = 0;
    let mut i: usize = 0;
    while i < s.len()
        invariant
            i <= s.len(),
            value as int == hex_value(s@.subrange(0, i as int)),
            value <= u32::MAX,
            all_hex(s@.subrange(0, i as int)),
        decreases s.len() - i,
    {
        let ghost prefix = s@.subrange(0, i + 1);
        assert(prefix.drop_last() =~= s@.subrange(0, i as int));
        assert(prefix.last() == s@[i as int]);
        match digit_value(s[i]) {
            None => {
                assert(hex_digit_value(s@[i as int]) is None);
                return None;
            },
            Some(d) => {
                let next: u64 = value * 16 + d as u64;
                if next > u32::MAX as u64 {
                    proof {
                        assert(hex_value(prefix) == value * 16 + d);
                        lemma_hex_value_grows(s@, i + 1);
                    }
                    return None;
                }
                value = next;
                i = i + 1;
                assert(all_hex(s@.subrange(0, i as int))) by {
                    assert forall|k: int| 0 <= k < i implies (#[trigger] hex_digit_value(
                        s@.subrange(0, i as int)[k],
                    )) is Some by {
                        if k < i - 1 {
                            assert(s@.subrange(0, i as int)[k] == s@.subrange(0, i - 1)[k]);
                        }
                    }
                }
            },
        }
    }
    assert(s@.subrange(0, s@.len() as int) =~= s@);
    Some(value as u32)
}

/// A number in base 16 as `u32::from_str_radix(s, 16)` reads it: an
/// optional leading `+`, then hexadecimal digits only.
pub open spec fn parse_radix16(s: Seq<char>) -> Option<u32> {
    if s.len() > 0 && s[0] == '+' {
        parse_hex_u32(s.drop_first())
    } else {
        parse_hex_u32(s)
    }
}

/// A plugin control colour: `#` followed by a number in base 16 as
/// `u32::from_str_radix` reads it.
pub open spec fn spec_parse_color(value: Seq<char>) -> Option<u32> {
    if value.len() > 0 && value[0] == '#' {
        parse_radix16(value.drop_first())
    } else {
        None
    }
}

/// `s[from..]`.
fn tail_from(s: &[char], from: usize) -> (result: Vec<char>)
    requires
        from <= s.len(),
    ensures
        result@ == s@.subrange(from as int, s@.len() as int),
{
    crate::text::copy_range(s, from, s.len())
}

/// Parses a plugin control colour such as `#ff3b30`.
pub fn parse_color(value: &str) -> (result: Option<u32>)
    ensures
        result == spec_parse_color(value@),
{
    let chars = chars_of(value);
    if chars.len() == 0 || chars[0] != '#' {
        return None;
    }
    let rest = tail_from(&chars, 1);
    assert(rest@ =~= chars@.drop_first());
    if rest.len() > 0 && rest[0] == '+' {
        let digits = tail_from(&rest, 1);
        assert(digits@ =~= rest@.drop_first());
        parse_hex_u32_exec(&digits)
    } else {
        parse_hex_u32_exec(&rest)
    }
}

/// A marker colour: `#` followed by exactly six hexadecimal digits.
pub open spec fn spec_parse_hex_color(value: Seq<char>) -> Option<u32> {
    if value.len() == 7 && value[0] == '#' {
        parse_hex_u32(value.drop_first())
    } else {
        None
    }
}

/// Parses an annotation tool colour, which must be written `#rrggbb`.
pub fn parse_hex_color(value: &str) -> (result: Option<u32>)
    ensures
        result == spec_parse_hex_color(value@),
{
    let chars = chars_of(value);
    if chars.len() != 7 || chars[0] != '#' {
        return None;
    }
    let rest = tail_from(&chars, 1);
    assert(rest@ =~= chars@.drop_first());
    parse_hex_u32_exec(&rest)
}


/// The accent colours the user can pick.
#[derive(Debug, Clone, Copy, PartialEq, Eq, Structural)]
pub enum ThemeAccent {
    Blue,
    Green,
    Orange,
    Rose,
}

/// The palette value of each accent, as `0xrrggbb`.
pub fn accent_color(accent: ThemeAccent) -> (result: u32)
    ensures
        result == match accent {
            ThemeAccent::Blue => 0x2389dau32,
            ThemeAccent::Green => 0x2a9d8fu32,
            ThemeAccent::Orange => 0xf2a900u32,
            ThemeAccent::Rose => 0xe56b8cu32,
        },
{
    match accent {
        ThemeAccent::Blue => 0x2389da,
        ThemeAccent::Green => 0x2a9d8f,
        ThemeAccent::Orange => 0xf2a900,
        ThemeAccent::Rose => 0xe56b8c,
    }
}

} // verus!
