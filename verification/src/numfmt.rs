//! Decimal text of integers, and the FNV-1a hash.

use vstd::prelude::*;

verus! {

pub open spec fn digit_char(d: int) -> char {
    (d + 48) as char
}

/// The decimal digits of a natural number (no sign, no leading zeros).
pub open spec fn nat_digits(n: nat) -> Seq<char>
    decreases n,
{
    if n < 10 {
        seq![digit_char(n as int)]
    } else {
        nat_digits(n / 10) + seq![digit_char((n % 10) as int)]
    }
}

/// The decimal text of an integer, with a `-` for negatives.
pub open spec fn int_text(v: int) -> Seq<char> {
    if v < 0 {
        seq!['-'] + nat_digits((-v) as nat)
    } else {
        nat_digits(v as nat)
    }
}

fn u64_text(n: u64) -> (r: String)
    ensures
        r@ == nat_digits(n as nat),
    decreases n,
{
    let mut s = if n >= 10 {
        u64_text(n / 10)
    } else {
        String::new()
    };
    let d = (n % 10) as u8;
    let c = (d + 48) as char;
    crate::text::push_char(&mut s, c);
    proof {
        if n < 10 {
            assert(s@ =~= seq![digit_char(n as int)]);
        } else {
            assert(s@ =~= nat_digits((n / 10) as nat) + seq![digit_char((n % 10) as int)]);
        }
    }
    s
}

/// The decimal text of an `i64`.
pub fn i64_text(v: i64) -> (r: String)
    ensures
        r@ == int_text(v as int),
{
    if v < 0 {
        let mag: u64 = if v == i64::MIN {
            9223372036854775808u64
        } else {
            (-v) as u64
        };
        let digits = u64_text(mag);
        let mut s = String::new();
        crate::text::push_char(&mut s, '-');
        crate::text::append_str(&mut s, digits.as_str());
        s
    } else {
        u64_text(v as u64)
    }
}

/// The decimal text of a `usize`.
pub fn usize_text(v: usize) -> (r: String)
    ensures
        r@ == int_text(v as int),
{
    u64_text(v as u64)
}

pub open spec fn fnv_offset_basis() -> u64 {
    0xcbf29ce484222325
}

pub open spec fn fnv_prime() -> u64 {
    0x00000100000001b3
}

/// FNV-1a, 64-bit, of a byte sequence.
pub open spec fn fnv1a(bytes: Seq<u8>) -> u64
    decreases bytes.len(),
{
    if bytes.len() == 0 {
        fnv_offset_basis()
    } else {
        vstd::wrapping::u64_specs::wrapping_mul(
            fnv1a(bytes.drop_last()) ^ (bytes.last() as u64),
            fnv_prime(),
        )
    }
}

/// FNV-1a, 64-bit.
pub fn fnv1a_64(bytes: &[u8]) -> (r: u64)
    ensures
        r == fnv1a(bytes@),
{
    let mut hash: u64 = 0xcbf29ce484222325;
    let mut i: usize = 0;
    while i < bytes.len()
        invariant
            i <= bytes@.len(),
            hash == fnv1a(bytes@.take(i as int)),
        decreases bytes@.len() - i,
    {
        proof {
            assert(bytes@.take(i + 1).drop_last() =~= bytes@.take(i as int));
        }
        hash = hash ^ (bytes[i] as u64);
        hash = hash.wrapping_mul(0x00000100000001b3);
        i = i + 1;
    }
    proof {
        assert(bytes@.take(bytes@.len() as int) =~= bytes@);
    }
    hash
}

} // verus!
