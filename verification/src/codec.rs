//! The byte layout of ledger values: integers of fixed width, least
//! significant byte first, and byte strings behind their length in eight bytes.

use vstd::prelude::*;

verus! {

/// The `width` lowest bytes of a number, least significant first.
pub open spec fn le_bytes(value: nat, width: nat) -> Seq<u8>
    decreases width,
{
    if width == 0 {
        Seq::empty()
    } else {
        seq![(value % 256) as u8] + le_bytes(value / 256, (width - 1) as nat)
    }
}

/// The number that `i32` bytes stand for in two's complement.
pub open spec fn unsigned32(value: i32) -> nat {
    if value >= 0 {
        value as nat
    } else {
        (value + 0x1_0000_0000) as nat
    }
}

/// The number that `i64` bytes stand for in two's complement.
pub open spec fn unsigned64(value: i64) -> nat {
    if value >= 0 {
        value as nat
    } else {
        (value + 0x1_0000_0000_0000_0000) as nat
    }
}

/// A byte string behind its length.
pub open spec fn framed(bytes: Seq<u8>) -> Seq<u8> {
    le_bytes(bytes.len(), 8) + bytes
}

pub proof fn lemma_le_bytes_len(value: nat, width: nat)
    ensures
        le_bytes(value, width).len() == width,
    decreases width,
{
    if width > 0 {
        lemma_le_bytes_len(value / 256, (width - 1) as nat);
    }
}

/// Splitting off the lowest `low` bytes of a number.
pub proof fn lemma_le_bytes_push(value: nat, low: nat, scale: nat)
    requires
        scale == vstd::arithmetic::power::pow(256, low),
    ensures
        le_bytes(value, low + 1) == le_bytes(value, low).push(((value / scale) % 256) as u8),
    decreases low,
{
    if low == 0 {
        assert(vstd::arithmetic::power::pow(256, 0) == 1) by {
            vstd::arithmetic::power::lemma_pow0(256);
        }
        assert(le_bytes(value / 256, 0) =~= Seq::<u8>::empty());
        assert(le_bytes(value, 1) =~= seq![(value % 256) as u8]);
        assert(le_bytes(value, 0).push(((value / 1) % 256) as u8) =~= seq![(value % 256) as u8]);
    } else {
        let inner = vstd::arithmetic::power::pow(256, (low - 1) as nat) as nat;
        vstd::arithmetic::power::lemma_pow_positive(256, (low - 1) as nat);
        assert(scale == 256 * inner) by {
            vstd::arithmetic::power::lemma_pow1(256);
            vstd::arithmetic::power::lemma_pow_adds(256, 1, (low - 1) as nat);
        }
        lemma_le_bytes_push(value / 256, (low - 1) as nat, inner);
        assert((value / 256) / inner == value / scale) by {
            vstd::arithmetic::div_mod::lemma_div_denominator(value as int, 256, inner as int);
        }
        assert(le_bytes(value, low + 1) =~= le_bytes(value, low).push(((value / scale) % 256) as u8));
    }
}

/// Appends the eight bytes of an unsigned number.
pub fn put_u64(out: &mut Vec<u8>, value: u64)
    ensures
        final(out)@ == old(out)@ + le_bytes(value as nat, 8),
{
    let ghost start = out@;
    let mut rest: u64 = value;
    let mut i: usize = 0;
    let ghost mut scale: nat = 1;
    proof {
        vstd::arithmetic::power::lemma_pow0(256);
        assert(start + le_bytes(value as nat, 0) =~= start);
    }
    while i < 8
        invariant
            i <= 8,
            scale == vstd::arithmetic::power::pow(256, i as nat),
            scale > 0,
            rest as nat == value as nat / scale,
            out@ == start + le_bytes(value as nat, i as nat),
        decreases 8 - i,
    {
        let byte: u8 = (rest % 256) as u8;
        out.push(byte);
        proof {
            lemma_le_bytes_push(value as nat, i as nat, scale);
            assert(out@ =~= start + le_bytes(value as nat, (i + 1) as nat));
            vstd::arithmetic::power::lemma_pow1(256);
            vstd::arithmetic::power::lemma_pow_adds(256, i as nat, 1);
            vstd::arithmetic::div_mod::lemma_div_denominator(value as int, scale as int, 256);
            scale = scale * 256;
        }
        rest = rest / 256;
        i += 1;
    }
}

/// Appends the four bytes of an unsigned number.
pub fn put_u32(out: &mut Vec<u8>, value: u32)
    ensures
        final(out)@ == old(out)@ + le_bytes(value as nat, 4),
{
    let ghost start = out@;
    let mut rest: u32 = value;
    let mut i: usize = 0;
    let ghost mut scale: nat = 1;
    proof {
        vstd::arithmetic::power::lemma_pow0(256);
        assert(start + le_bytes(value as nat, 0) =~= start);
    }
    while i < 4
        invariant
            i <= 4,
            scale == vstd::arithmetic::power::pow(256, i as nat),
            scale > 0,
            rest as nat == value as nat / scale,
            out@ == start + le_bytes(value as nat, i as nat),
        decreases 4 - i,
    {
        let byte: u8 = (rest % 256) as u8;
        out.push(byte);
        proof {
            lemma_le_bytes_push(value as nat, i as nat, scale);
            assert(out@ =~= start + le_bytes(value as nat, (i + 1) as nat));
            vstd::arithmetic::power::lemma_pow1(256);
            vstd::arithmetic::power::lemma_pow_adds(256, i as nat, 1);
            vstd::arithmetic::div_mod::lemma_div_denominator(value as int, scale as int, 256);
            scale = scale * 256;
        }
        rest = rest / 256;
        i += 1;
    }
}

/// Appends the four bytes of a signed number, in two's complement.
pub fn put_i32(out: &mut Vec<u8>, value: i32)
    ensures
        final(out)@ == old(out)@ + le_bytes(unsigned32(value), 4),
{
    let bits: u32 = if value >= 0 {
        value as u32
    } else {
        (value as i64 + 0x1_0000_0000i64) as u32
    };
    put_u32(out, bits);
}

/// Appends the eight bytes of a signed number, in two's complement.
pub fn put_i64(out: &mut Vec<u8>, value: i64)
    ensures
        final(out)@ == old(out)@ + le_bytes(unsigned64(value), 8),
{
    let bits: u64 = if value >= 0 {
        value as u64
    } else {
        (value as i128 + 0x1_0000_0000_0000_0000i128) as u64
    };
    put_u64(out, bits);
}

/// Appends a byte string as it is.
pub fn put_raw(out: &mut Vec<u8>, bytes: &[u8])
    ensures
        final(out)@ == old(out)@ + bytes@,
{
    let ghost start = out@;
    let mut i: usize = 0;
    assert(start + bytes@.subrange(0, 0) =~= start);
    while i < bytes.len()
        invariant
            i <= bytes@.len(),
            out@ == start + bytes@.subrange(0, i as int),
        decreases bytes@.len() - i,
    {
        out.push(bytes[i]);
        assert(out@ =~= start + bytes@.subrange(0, i + 1));
        i += 1;
    }
    assert(bytes@.subrange(0, bytes@.len() as int) =~= bytes@);
}

/// Appends a byte string behind its length.
pub fn put_framed(out: &mut Vec<u8>, bytes: &[u8])
    ensures
        final(out)@ == old(out)@ + framed(bytes@),
{
    let ghost start = out@;
    put_u64(out, bytes.len() as u64);
    put_raw(out, bytes);
    assert(out@ =~= start + framed(bytes@));
}

/// The number that `width` bytes at position `at` denote, least significant
/// first.
pub open spec fn le_value(input: Seq<u8>, at: int, width: nat) -> nat
    decreases width,
{
    if width == 0 {
        0
    } else {
        input[at] as nat + 256 * le_value(input, at + 1, (width - 1) as nat)
    }
}

/// The signed number that four bytes with this unsigned value stand for.
pub open spec fn signed32(value: nat) -> i32 {
    if value < 0x8000_0000 {
        value as i32
    } else {
        (value - 0x1_0000_0000) as i32
    }
}

/// The signed number that eight bytes with this unsigned value stand for.
pub open spec fn signed64(value: nat) -> i64 {
    if value < 0x8000_0000_0000_0000 {
        value as i64
    } else {
        (value - 0x1_0000_0000_0000_0000) as i64
    }
}

/// A byte string behind its length, read at position `at`: the string and
/// the position behind it.
pub open spec fn parse_framed(input: Seq<u8>, at: int) -> Option<(Seq<u8>, int)> {
    if at < 0 || at + 8 > input.len() {
        None
    } else {
        let n = le_value(input, at, 8);
        if at + 8 + n > input.len() {
            None
        } else {
            Some((input.subrange(at + 8, at + 8 + n), at + 8 + n))
        }
    }
}

/// Reads the unsigned number in the eight bytes at `at`, where the input has
/// them.
pub fn read_u64(input: &[u8], at: usize) -> (value: Option<u64>)
    ensures
        value.is_some() == (at + 8 <= input@.len()),
        value.is_some() ==> value.unwrap() as nat == le_value(input@, at as int, 8),
{
    if at > input.len() || input.len() - at < 8 {
        return None;
    }
    let b0: u64 = input[at] as u64;
    let b1: u64 = input[at + 1] as u64;
    let b2: u64 = input[at + 2] as u64;
    let b3: u64 = input[at + 3] as u64;
    let b4: u64 = input[at + 4] as u64;
    let b5: u64 = input[at + 5] as u64;
    let b6: u64 = input[at + 6] as u64;
    let b7: u64 = input[at + 7] as u64;
    let high: u64 = b4 + 256 * (b5 + 256 * (b6 + 256 * b7));
    let value: u64 = b0 + 256 * (b1 + 256 * (b2 + 256 * (b3 + 256 * high)));
    proof {
        reveal_with_fuel(le_value, 9);
    }
    Some(value)
}

/// Reads the unsigned number in the four bytes at `at`, where the input has
/// them.
pub fn read_u32(input: &[u8], at: usize) -> (value: Option<u32>)
    ensures
        value.is_some() == (at + 4 <= input@.len()),
        value.is_some() ==> value.unwrap() as nat == le_value(input@, at as int, 4),
{
    if at > input.len() || input.len() - at < 4 {
        return None;
    }
    let b0: u32 = input[at] as u32;
    let b1: u32 = input[at + 1] as u32;
    let b2: u32 = input[at + 2] as u32;
    let b3: u32 = input[at + 3] as u32;
    let value: u32 = b0 + 256 * (b1 + 256 * (b2 + 256 * b3));
    proof {
        reveal_with_fuel(le_value, 5);
    }
    Some(value)
}

/// Reads the signed number in the four bytes at `at`.
pub fn read_i32(input: &[u8], at: usize) -> (value: Option<i32>)
    ensures
        value.is_some() == (at + 4 <= input@.len()),
        value.is_some() ==> value.unwrap() == signed32(le_value(input@, at as int, 4)),
{
    match read_u32(input, at) {
        Some(bits) => {
            if bits < 0x8000_0000 {
                Some(bits as i32)
            } else {
                Some((bits as i64 - 0x1_0000_0000i64) as i32)
            }
        },
        None => None,
    }
}

/// Reads the signed number in the eight bytes at `at`.
pub fn read_i64(input: &[u8], at: usize) -> (value: Option<i64>)
    ensures
        value.is_some() == (at + 8 <= input@.len()),
        value.is_some() ==> value.unwrap() == signed64(le_value(input@, at as int, 8)),
{
    match read_u64(input, at) {
        Some(bits) => {
            if bits < 0x8000_0000_0000_0000 {
                Some(bits as i64)
            } else {
                Some((bits as i128 - 0x1_0000_0000_0000_0000i128) as i64)
            }
        },
        None => None,
    }
}

/// Reads a byte string behind its length at `at`: the string and the
/// position behind it.
pub fn read_framed(input: &[u8], at: usize) -> (read: Option<(Vec<u8>, usize)>)
    ensures
        read.is_some() == parse_framed(input@, at as int).is_some(),
        read.is_some() ==> read.unwrap().0@ == parse_framed(input@, at as int).unwrap().0
            && read.unwrap().1 as int == parse_framed(input@, at as int).unwrap().1
            && read.unwrap().1 <= input@.len(),
{
    match read_u64(input, at) {
        None => None,
        Some(n) => {
            let total: usize = input.len();
            let start: usize = at + 8;
            if n > (total - start) as u64 {
                return None;
            }
            let end: usize = start + n as usize;
            let mut bytes: Vec<u8> = Vec::new();
            let mut i: usize = start;
            assert(bytes@ =~= input@.subrange(start as int, i as int));
            while i < end
                invariant
                    start <= i <= end <= input@.len(),
                    bytes@ == input@.subrange(start as int, i as int),
                decreases end - i,
            {
                bytes.push(input[i]);
                assert(bytes@ =~= input@.subrange(start as int, i + 1));
                i += 1;
            }
            Some((bytes, end))
        },
    }
}

} // verus!
