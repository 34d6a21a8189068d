//! Reading integers out of a constant's raw bytes, and widening them.

use vstd::prelude::*;

verus! {

/// The byte order of the target.
#[derive(Clone, Copy, Debug, PartialEq, Eq, Structural)]
pub enum Endian {
    Little,
    Big,
}

/// 256 to the power `n`: the number of values that `n` bytes can hold.
pub open spec fn pow256(n: nat) -> nat
    decreases n,
{
    if n == 0 {
        1
    } else {
        256 * pow256((n - 1) as nat)
    }
}

/// The unsigned integer that `bytes` hold, least significant byte first.
pub open spec fn le_value(bytes: Seq<u8>) -> nat
    decreases bytes.len(),
{
    if bytes.len() == 0 {
        0
    } else {
        bytes[0] as nat + 256 * le_value(bytes.drop_first())
    }
}

/// The unsigned integer that `bytes` hold, most significant byte first.
pub open spec fn be_value(bytes: Seq<u8>) -> nat
    decreases bytes.len(),
{
    if bytes.len() == 0 {
        0
    } else {
        256 * be_value(bytes.drop_last()) + bytes.last() as nat
    }
}

/// The unsigned integer that `bytes` hold in the given byte order.
pub open spec fn uint_value(endian: Endian, bytes: Seq<u8>) -> nat {
    match endian {
        Endian::Little => le_value(bytes),
        Endian::Big => be_value(bytes),
    }
}

/// The integer that the two's complement pattern `bits` of `size` bytes stands for.
pub open spec fn signed_value(bits: nat, size: nat) -> int {
    if 2 * bits < pow256(size) {
        bits as int
    } else {
        bits - pow256(size)
    }
}

/// The low `size` bytes of `value`, widened to 16 bytes by repeating the sign bit.
pub open spec fn sign_extended(value: nat, size: nat) -> nat {
    if size == 0 {
        0
    } else {
        let low = value % pow256(size);
        if 2 * low < pow256(size) {
            low
        } else {
            (low + pow256(16) - pow256(size)) as nat
        }
    }
}

/// The signed 64-bit addend that an unsigned pointer-sized integer stands for.
pub open spec fn addend_of(value: nat) -> int {
    signed_value(value % pow256(8), 8)
}

pub proof fn lemma_pow256_values()
    ensures
        pow256(0) == 0x1,
        pow256(1) == 0x100,
        pow256(2) == 0x1_0000,
        pow256(3) == 0x100_0000,
        pow256(4) == 0x1_0000_0000,
        pow256(5) == 0x100_0000_0000,
        pow256(6) == 0x1_0000_0000_0000,
        pow256(7) == 0x100_0000_0000_0000,
        pow256(8) == 0x1_0000_0000_0000_0000,
        pow256(9) == 0x100_0000_0000_0000_0000,
        pow256(10) == 0x1_0000_0000_0000_0000_0000,
        pow256(11) == 0x100_0000_0000_0000_0000_0000,
        pow256(12) == 0x1_0000_0000_0000_0000_0000_0000,
        pow256(13) == 0x100_0000_0000_0000_0000_0000_0000,
        pow256(14) == 0x1_0000_0000_0000_0000_0000_0000_0000,
        pow256(15) == 0x100_0000_0000_0000_0000_0000_0000_0000,
        pow256(16) == 0x1_0000_0000_0000_0000_0000_0000_0000_0000,
{
    reveal_with_fuel(pow256, 18);
}

pub proof fn lemma_pow256_monotonic(a: nat, b: nat)
    requires
        a <= b,
    ensures
        0 < pow256(a) <= pow256(b),
    decreases b,
{
    if b == 0 {
    } else if a == b {
        lemma_pow256_monotonic(0, (b - 1) as nat);
    } else {
        lemma_pow256_monotonic(a, (b - 1) as nat);
    }
}

/// An integer read from `n` bytes is below 256 to the `n`.
pub proof fn lemma_le_value_bound(bytes: Seq<u8>)
    ensures
        le_value(bytes) < pow256(bytes.len()),
    decreases bytes.len(),
{
    if bytes.len() > 0 {
        lemma_le_value_bound(bytes.drop_first());
    }
}

/// An integer read from `n` bytes is below 256 to the `n`.
pub proof fn lemma_be_value_bound(bytes: Seq<u8>)
    ensures
        be_value(bytes) < pow256(bytes.len()),
    decreases bytes.len(),
{
    if bytes.len() > 0 {
        lemma_be_value_bound(bytes.drop_last());
    }
}

pub proof fn lemma_uint_value_bound(endian: Endian, bytes: Seq<u8>)
    ensures
        uint_value(endian, bytes) < pow256(bytes.len()),
{
    lemma_le_value_bound(bytes);
    lemma_be_value_bound(bytes);
}

/// 256 to the power `n`, for at most 15 bytes.
fn byte_modulus(n: u8) -> (m: u128)
    requires
        n <= 15,
    ensures
        m == pow256(n as nat),
{
    let mut m: u128 = 1;
    let mut i: u8 = 0;
    while i < n
        invariant
            i <= n <= 15,
            m == pow256(i as nat),
        decreases n - i,
    {
        proof {
            lemma_pow256_monotonic(i as nat, 15);
            lemma_pow256_values();
        }
        m = m * 256;
        i = i + 1;
    }
    m
}

/// Reads an unsigned integer of up to 16 bytes in the target's byte order.
pub fn read_target_uint(endian: Endian, source: &[u8]) -> (value: u128)
    requires
        source@.len() <= 16,
    ensures
        value == uint_value(endian, source@),
{
    let n = source.len();
    let mut value: u128 = 0;
    match endian {
        Endian::Little => {
            let mut i: usize = n;
            while i > 0
                invariant
                    i <= n,
                    n == source@.len(),
                    n <= 16,
                    value == le_value(source@.skip(i as int)),
                decreases i,
            {
                i = i - 1;
                proof {
                    let rest = source@.skip(i as int);
                    assert(rest.drop_first() =~= source@.skip(i + 1));
                    lemma_le_value_bound(rest.drop_first());
                    lemma_pow256_monotonic(rest.drop_first().len(), 15);
                    lemma_pow256_values();
                }
                value = value * 256 + source[i] as u128;
            }
            assert(source@.skip(0) =~= source@);
        },
        Endian::Big => {
            let mut i: usize = 0;
            while i < n
                invariant
                    i <= n,
                    n == source@.len(),
                    n <= 16,
                    value == be_value(source@.take(i as int)),
                decreases n - i,
            {
                proof {
                    let next = source@.take(i + 1);
                    assert(next.drop_last() =~= source@.take(i as int));
                    lemma_be_value_bound(next.drop_last());
                    lemma_pow256_monotonic(next.drop_last().len(), 15);
                    lemma_pow256_values();
                }
                value = value * 256 + source[i] as u128;
                i = i + 1;
            }
            assert(source@.take(n as int) =~= source@);
        },
    }
    value
}

/// Widens the low `size` bytes of `value` to 16 bytes, repeating the sign bit.
pub fn sign_extend(value: u128, size: u8) -> (extended: u128)
    requires
        size <= 16,
    ensures
        extended == sign_extended(value as nat, size as nat),
{
    if size == 0 {
        return 0;
    }
    if size == 16 {
        proof {
            lemma_pow256_values();
        }
        return value;
    }
    let modulus = byte_modulus(size);
    proof {
        lemma_pow256_monotonic(size as nat, 15);
        lemma_pow256_monotonic(1, size as nat);
        lemma_pow256_values();
    }
    let low = value % modulus;
    if low < modulus / 2 {
        low
    } else {
        low + (u128::MAX - modulus + 1)
    }
}

/// The signed 64-bit addend that a pointer-sized unsigned integer stands for.
pub fn addend_from_uint(value: u128) -> (addend: i64)
    ensures
        addend == addend_of(value as nat),
{
    proof {
        lemma_pow256_values();
    }
    let low: u128 = value % 0x1_0000_0000_0000_0000;
    if low < 0x8000_0000_0000_0000 {
        low as i64
    } else {
        let shifted: u128 = low - 0x8000_0000_0000_0000;
        let positive: i64 = shifted as i64;
        positive + i64::MIN
    }
}

/// Sign extension keeps the number that the pattern stands for.
pub proof fn lemma_sign_extend_keeps_value(value: nat, size: nat)
    requires
        1 <= size <= 16,
    ensures
        sign_extended(value, size) < pow256(16),
        signed_value(sign_extended(value, size), 16) == signed_value(value % pow256(size), size),
{
    lemma_pow256_monotonic(size, 16);
    lemma_pow256_monotonic(1, size);
    lemma_pow256_values();
    let low = value % pow256(size);
    assert(low < pow256(size));
}

/// A negative number of `size` bytes is widened to the 16-byte pattern of the
/// same number: its low `size` bytes are the two's complement of its absolute
/// value, and every byte above them is 0xff.
pub proof fn lemma_sign_extend_negative(number: int, size: nat)
    requires
        1 <= size <= 16,
        number < 0,
        -number * 2 <= pow256(size),
    ensures
        sign_extended((pow256(size) + number) as nat, size) == pow256(16) + number,
        sign_extended((pow256(size) + number) as nat, size) % pow256(size) == pow256(size)
            - (-number),
{
    lemma_pow256_monotonic(size, 16);
    lemma_pow256_monotonic(1, size);
    lemma_pow256_values();
    let modulus = pow256(size);
    let bits = (modulus + number) as nat;
    assert(bits % modulus == bits) by {
        vstd::arithmetic::div_mod::lemma_small_mod(bits, modulus);
    }
    let extended = sign_extended(bits, size);
    assert(extended == pow256(16) + number);
    lemma_pow256_divides(size, 16);
    let k = pow256(16) / modulus;
    assert(pow256(16) == k * modulus);
    assert(extended == (k - 1) * modulus + bits) by (nonlinear_arith)
        requires
            extended == pow256(16) + number,
            pow256(16) == k * modulus,
            bits == modulus + number,
    ;
    assert(((k - 1) * modulus + bits) % (modulus as int) == bits % modulus) by {
        vstd::arithmetic::div_mod::lemma_mod_multiples_vanish(
            k - 1,
            bits as int,
            modulus as int,
        );
    }
}

/// A smaller power of 256 divides a larger one.
pub proof fn lemma_pow256_divides(a: nat, b: nat)
    requires
        a <= b,
    ensures
        pow256(a) > 0,
        pow256(b) % pow256(a) == 0,
        pow256(b) == (pow256(b) / pow256(a)) * pow256(a),
    decreases b - a,
{
    lemma_pow256_monotonic(a, b);
    if a == b {
        vstd::arithmetic::div_mod::lemma_mod_self_0(pow256(a) as int);
        vstd::arithmetic::div_mod::lemma_div_basics(pow256(a) as int);
    } else {
        lemma_pow256_divides(a, (b - 1) as nat);
        let p = pow256(a) as int;
        let q = pow256((b - 1) as nat) as int;
        let k = q / p;
        assert(q == k * p);
        assert(pow256(b) == (256 * k) * p) by (nonlinear_arith)
            requires
                pow256(b) == 256 * q,
                q == k * p,
        ;
        vstd::arithmetic::div_mod::lemma_fundamental_div_mod_converse(
            pow256(b) as int,
            p,
            256 * k,
            0,
        );
    }
}

/// An unsigned integer below 2^63 is its own addend.
pub proof fn lemma_addend_of_small(value: nat)
    requires
        value < 0x8000_0000_0000_0000,
    ensures
        addend_of(value) == value,
{
    lemma_pow256_values();
    vstd::arithmetic::div_mod::lemma_small_mod(value, pow256(8));
}

} // verus!
