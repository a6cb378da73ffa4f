//! The values of the primitive types of the language, read from the bytes of
//! a member.
use vstd::prelude::*;
use crate::bytes::{byte_limit, le_value, lemma_le_value_bound};
use crate::text::{decimal, digit_char, push_text, same_text, string_of};

verus! {

/// A primitive type whose values can be written without the help of a
/// debugger.
#[derive(Debug, Clone, Copy, PartialEq, Eq)]
pub enum Primitive {
    Bool,
    /// An unsigned integer of the given number of bytes.
    Unsigned(u8),
    /// A signed integer of the given number of bytes, in two's complement.
    Signed(u8),
}

/// The primitive type with the name `name`.
pub open spec fn primitive_of(name: Seq<char>) -> Option<Primitive> {
    if name == "bool"@ {
        Some(Primitive::Bool)
    } else if name == "u8"@ {
        Some(Primitive::Unsigned(1))
    } else if name == "i8"@ {
        Some(Primitive::Signed(1))
    } else if name == "u16"@ {
        Some(Primitive::Unsigned(2))
    } else if name == "i16"@ {
        Some(Primitive::Signed(2))
    } else if name == "u32"@ {
        Some(Primitive::Unsigned(4))
    } else if name == "i32"@ {
        Some(Primitive::Signed(4))
    } else if name == "u64"@ {
        Some(Primitive::Unsigned(8))
    } else if name == "i64"@ {
        Some(Primitive::Signed(8))
    } else if name == "u128"@ {
        Some(Primitive::Unsigned(16))
    } else if name == "i128"@ {
        Some(Primitive::Signed(16))
    } else {
        None
    }
}

/// How the value of the primitive type `p` that `bytes` holds in
/// little-endian order is written; nothing where `bytes` does not hold a
/// value of the type.
pub open spec fn primitive_text_of(p: Primitive, bytes: Seq<u8>) -> Option<Seq<char>> {
    match p {
        Primitive::Bool => if bytes.len() == 1 && bytes[0] == 0 {
            Some("false"@)
        } else if bytes.len() == 1 && bytes[0] == 1 {
            Some("true"@)
        } else {
            None
        },
        Primitive::Unsigned(width) => if bytes.len() == width && width <= 16 {
            Some(decimal(le_value(bytes)))
        } else {
            None
        },
        Primitive::Signed(width) => if bytes.len() == width && 0 < width <= 16 {
            if 2 * le_value(bytes) < byte_limit(width as nat) {
                Some(decimal(le_value(bytes)))
            } else {
                Some("-"@ + decimal((byte_limit(width as nat) - le_value(bytes)) as nat))
            }
        } else {
            None
        },
    }
}

/// The primitive type with the name `name`.
pub fn primitive_named(name: &str) -> (found: Option<Primitive>)
    ensures
        found == primitive_of(name@),
{
    if same_text(name, "bool") {
        Some(Primitive::Bool)
    } else if same_text(name, "u8") {
        Some(Primitive::Unsigned(1))
    } else if same_text(name, "i8") {
        Some(Primitive::Signed(1))
    } else if same_text(name, "u16") {
        Some(Primitive::Unsigned(2))
    } else if same_text(name, "i16") {
        Some(Primitive::Signed(2))
    } else if same_text(name, "u32") {
        Some(Primitive::Unsigned(4))
    } else if same_text(name, "i32") {
        Some(Primitive::Signed(4))
    } else if same_text(name, "u64") {
        Some(Primitive::Unsigned(8))
    } else if same_text(name, "i64") {
        Some(Primitive::Signed(8))
    } else if same_text(name, "u128") {
        Some(Primitive::Unsigned(16))
    } else if same_text(name, "i128") {
        Some(Primitive::Signed(16))
    } else {
        None
    }
}

/// Sixteen bytes hold what a `u128` holds.
proof fn lemma_byte_limit_u128(n: nat)
    requires
        n <= 16,
    ensures
        byte_limit(n) <= 0x1_0000_0000_0000_0000_0000_0000_0000_0000,
        n == 16 ==> byte_limit(n) == 0x1_0000_0000_0000_0000_0000_0000_0000_0000,
        n == 8 ==> byte_limit(n) == 0x1_0000_0000_0000_0000,
        n == 4 ==> byte_limit(n) == 0x1_0000_0000,
        n == 2 ==> byte_limit(n) == 0x1_0000,
        n == 1 ==> byte_limit(n) == 0x100,
{
    reveal_with_fuel(byte_limit, 18);
}

/// The number that at most sixteen bytes hold in little-endian order.
fn read_wide(bytes: &[u8]) -> (value: u128)
    requires
        bytes@.len() <= 16,
    ensures
        value == le_value(bytes@),
{
    let n = bytes.len();
    let mut value: u128 = 0;
    let mut k: usize = n;
    proof {
        assert(bytes@.skip(n as int) =~= Seq::<u8>::empty());
    }
    while k > 0
        invariant
            k <= n <= 16,
            n == bytes@.len(),
            value == le_value(bytes@.skip(k as int)),
        decreases k,
    {
        k -= 1;
        proof {
            let rest = bytes@.skip(k as int);
            assert(rest.drop_first() =~= bytes@.skip(k as int + 1));
            lemma_le_value_bound(rest);
            lemma_byte_limit_u128(rest.len());
        }
        value = value * 256 + bytes[k] as u128;
    }
    proof {
        assert(bytes@.skip(0) =~= bytes@);
    }
    value
}

fn wide_digit(d: u128) -> (c: char)
    requires
        d < 10,
    ensures
        c == digit_char(d as nat),
{
    if d == 0 {
        '0'
    } else if d == 1 {
        '1'
    } else if d == 2 {
        '2'
    } else if d == 3 {
        '3'
    } else if d == 4 {
        '4'
    } else if d == 5 {
        '5'
    } else if d == 6 {
        '6'
    } else if d == 7 {
        '7'
    } else if d == 8 {
        '8'
    } else {
        '9'
    }
}

/// Appends the decimal notation of `n` to `out`.
fn push_wide_decimal(out: &mut Vec<char>, n: u128)
    ensures
        final(out)@ == old(out)@ + decimal(n as nat),
    decreases n,
{
    if n >= 10 {
        push_wide_decimal(out, n / 10);
    }
    out.push(wide_digit(n % 10));
    proof {
        if n >= 10 {
            assert(old(out)@ + decimal(n as nat) == (old(out)@ + decimal((n / 10) as nat)).push(
                digit_char((n % 10) as nat),
            ));
        } else {
            assert(old(out)@ + decimal(n as nat) == old(out)@.push(digit_char(n as nat)));
        }
    }
}

/// Writes the value of the primitive type `p` that `bytes` holds in
/// little-endian order.
pub fn primitive_text(p: Primitive, bytes: &[u8]) -> (text: Option<String>)
    ensures
        crate::cache::text_view(text) == primitive_text_of(p, bytes@),
{
    let mut out: Vec<char> = Vec::new();
    match p {
        Primitive::Bool => {
            if bytes.len() != 1 || bytes[0] > 1 {
                return None;
            }
            if bytes[0] == 0 {
                push_text(&mut out, "false");
            } else {
                push_text(&mut out, "true");
            }
        },
        Primitive::Unsigned(width) => {
            if bytes.len() != width as usize || width > 16 {
                return None;
            }
            push_wide_decimal(&mut out, read_wide(bytes));
        },
        Primitive::Signed(width) => {
            if bytes.len() != width as usize || width == 0 || width > 16 {
                return None;
            }
            let value = read_wide(bytes);
            proof {
                lemma_le_value_bound(bytes@);
                lemma_byte_limit_u128(width as nat);
                reveal_with_fuel(byte_limit, 18);
            }
            let negative = bytes[width as usize - 1] >= 128;
            proof {
                lemma_top_byte(bytes@);
            }
            if !negative {
                push_wide_decimal(&mut out, value);
            } else {
                push_text(&mut out, "-");
                let magnitude = if width == 16 {
                    // The limit of sixteen bytes does not fit into a `u128`.
                    (u128::MAX - value) + 1
                } else {
                    small_limit(width) - value
                };
                push_wide_decimal(&mut out, magnitude);
            }
        },
    }
    proof {
        assert(Seq::<char>::empty() + out@ == out@);
    }
    Some(string_of(&out))
}

/// The smallest number that `width` bytes cannot hold, for less than
/// sixteen bytes.
fn small_limit(width: u8) -> (limit: u128)
    requires
        0 < width < 16,
    ensures
        limit == byte_limit(width as nat),
{
    let mut limit: u128 = 1;
    let mut k: u8 = 0;
    while k < width
        invariant
            k <= width < 16,
            limit == byte_limit(k as nat),
        decreases width - k,
    {
        proof {
            lemma_byte_limit_u128(k as nat + 2);
            reveal_with_fuel(byte_limit, 3);
        }
        limit = limit * 256;
        k += 1;
    }
    limit
}

/// A number is in the upper half of what its bytes can hold if and only if
/// the highest bit of its last byte is set.
proof fn lemma_top_byte(s: Seq<u8>)
    requires
        s.len() > 0,
    ensures
        (s.last() >= 128) <==> (2 * le_value(s) >= byte_limit(s.len())),
    decreases s.len(),
{
    reveal_with_fuel(byte_limit, 2);
    reveal_with_fuel(le_value, 2);
    if s.len() == 1 {
        assert(s.drop_first().len() == 0);
        assert(le_value(s) == s[0]);
        assert(byte_limit(1) == 256);
    } else {
        let rest = s.drop_first();
        lemma_top_byte(rest);
        lemma_le_value_bound(rest);
        assert(rest.last() == s.last());
        assert(le_value(s) == s[0] + 256 * le_value(rest));
        assert(byte_limit(s.len()) == 256 * byte_limit(rest.len()));
        let v = le_value(rest) as int;
        let b = byte_limit(rest.len()) as int;
        let x = s[0] as int;
        if 2 * v >= b {
            assert(2 * (x + 256 * v) >= 256 * b) by (nonlinear_arith)
                requires
                    2 * v >= b,
                    x >= 0,
            ;
        } else {
            // The limit is even, so twice a number below its half is below
            // it by at least two.
            lemma_limit_is_even(rest.len());
            assert(2 * (x + 256 * v) < 256 * b) by (nonlinear_arith)
                requires
                    2 * v + 2 <= b,
                    0 <= x < 256,
            ;
        }
    }
}

/// The limit of at least one byte is even.
proof fn lemma_limit_is_even(n: nat)
    requires
        n > 0,
    ensures
        byte_limit(n) % 2 == 0,
{
    reveal_with_fuel(byte_limit, 2);
    let b = byte_limit((n - 1) as nat) as int;
    assert((256 * b) % 2 == 0) by (nonlinear_arith);
}

} // verus!
