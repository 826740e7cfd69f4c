use vstd::prelude::*;

verus! {

/// The sum of two numbers in 32 bits: what is carried out of the highest bit
/// is lost.
pub open spec fn wrapping_sum(a: u32, b: u32) -> u32 {
    ((a + b) % 0x1_0000_0000) as u32
}

/// The product of two numbers in 32 bits.
pub open spec fn wrapping_product(a: u32, b: u32) -> u32 {
    ((a * b) % 0x1_0000_0000) as u32
}

/// The Gray code of a number: each bit is the exclusive or of the bit and
/// the next higher one.
pub open spec fn gray(n: u32) -> u32 {
    n ^ (n >> 1)
}

/// Adding the carries, moved up by one bit, to the sum without carries
/// gives the sum.
proof fn lemma_carry_step(x: u32, y: u32)
    ensures
        wrapping_sum(x ^ y, (x & y) << 1) == wrapping_sum(x, y),
{
    assert(((x ^ y) + ((x & y) << 1)) % 0x1_0000_0000 == (x + y) % 0x1_0000_0000) by (bit_vector);
}

/// Carries whose lowest `k` bits are clear have, moved up by one bit, their
/// lowest `k + 1` bits clear.
proof fn lemma_carry_moves_up(x: u32, y: u32, k: u32)
    requires
        k < 32,
        ((y as u64) >> k) << k == y as u64,
    ensures
        ((((x & y) << 1) as u64) >> ((k + 1) as u32)) << ((k + 1) as u32) == ((x & y) << 1) as u64,
{
    let k1 = (k + 1) as u32;
    assert(((((x & y) << 1) as u64) >> k1) << k1 == ((x & y) << 1) as u64) by (bit_vector)
        requires
            k < 32,
            k1 == k + 1,
            ((y as u64) >> k) << k == y as u64,
    ;
}

/// Adds two numbers with the bitwise operations alone.
pub fn adder(a: u32, b: u32) -> (sum: u32)
    ensures
        sum == wrapping_sum(a, b),
{
    let mut a: u32 = a;
    let mut b: u32 = b;
    let mut carry: u32;
    let ghost first = wrapping_sum(a, b);
    let ghost mut k: u32 = 0;
    assert(((b as u64) >> 0) << 0 == b as u64) by (bit_vector);
    while b != 0
        invariant
            wrapping_sum(a, b) == first,
            k <= 32,
            ((b as u64) >> k) << k == b as u64,
            k == 32 ==> b == 0,
        decreases 32 - k,
    {
        proof {
            lemma_carry_step(a, b);
            lemma_carry_moves_up(a, b, k);
        }
        carry = a & b;
        a = a ^ b;
        b = carry << 1;
        proof {
            k = (k + 1) as u32;
            assert(k == 32 && ((b as u64) >> k) << k == b as u64 ==> b == 0) by (bit_vector);
        }
    }
    a
}

/// One step of the multiplication: the lowest bit of the multiplier is
/// taken off, the multiplicand doubled.
proof fn lemma_multiply_step(result: u32, multiplicand: u32, multiplier: u32)
    requires
        multiplier > 0,
    ensures
        multiplier >> 1 == multiplier / 2,
        (multiplier & 1) == multiplier % 2,
        (multiplicand << 1) == (2 * multiplicand) % 0x1_0000_0000,
        (result + multiplicand * multiplier) % 0x1_0000_0000 == ((if multiplier & 1 == 1 {
            wrapping_sum(result, multiplicand)
        } else {
            result
        }) + (multiplicand << 1) * (multiplier >> 1)) % 0x1_0000_0000,
{
    let n = 0x1_0000_0000int;
    let m = multiplicand as int;
    let q = (multiplier / 2) as int;
    let t = (multiplier % 2) as int;
    let r = result as int;
    assert(multiplier >> 1 == multiplier / 2) by (bit_vector);
    assert((multiplier & 1) == multiplier % 2) by (bit_vector);
    assert((multiplicand << 1) == (2 * multiplicand) % 0x1_0000_0000) by (bit_vector);
    let doubled = (2 * m) % n;
    let added = if t == 1 {
        (r + m) % n
    } else {
        r
    };
    assert(m * (2 * q + t) == 2 * m * q + m * t) by (nonlinear_arith);
    assert((r + m * t) % n == added % n) by {
        if t == 1 {
            vstd::arithmetic::div_mod::lemma_mod_twice(r + m, n);
            assert(m * t == m) by (nonlinear_arith)
                requires
                    t == 1,
            ;
        } else {
            assert(m * t == 0) by (nonlinear_arith)
                requires
                    t == 0,
            ;
        }
    }
    assert((2 * m * q) % n == (doubled * q) % n) by {
        vstd::arithmetic::div_mod::lemma_mul_mod_noop_left(2 * m, q, n);
    }
    assert((r + m * t + 2 * m * q) % n == (added + doubled * q) % n) by {
        vstd::arithmetic::div_mod::lemma_add_mod_noop(r + m * t, 2 * m * q, n);
        vstd::arithmetic::div_mod::lemma_add_mod_noop(added, doubled * q, n);
    }
}

/// Multiplies two numbers with shifts and the adder alone.
pub fn multiplier(a: u32, b: u32) -> (product: u32)
    ensures
        product == wrapping_product(a, b),
{
    let mut result: u32 = 0;
    let mut multiplicand: u32 = a;
    let mut multiplier: u32 = b;
    while multiplier > 0
        invariant
            (result + multiplicand * multiplier) % 0x1_0000_0000 == (a * b) % 0x1_0000_0000,
        decreases multiplier,
    {
        proof {
            lemma_multiply_step(result, multiplicand, multiplier);
        }
        if (multiplier & 1) == 1 {
            result = adder(result, multiplicand);
        }
        multiplicand = multiplicand << 1;
        multiplier = multiplier >> 1;
    }
    assert(multiplicand * multiplier == 0) by (nonlinear_arith)
        requires
            multiplier == 0,
    ;
    result
}

/// Two numbers that follow each other have Gray codes that differ in one
/// bit: the difference is a power of two.
pub proof fn lemma_gray_neighbours(n: u32)
    requires
        n < u32::MAX,
    ensures
        ({
            let d = gray(n) ^ gray((n + 1) as u32);
            d != 0 && d & ((d - 1) as u32) == 0
        }),
{
    let m = (n + 1) as u32;
    let d = (n ^ (n >> 1)) ^ (m ^ (m >> 1));
    assert(d != 0 && d & ((d - 1) as u32) == 0) by (bit_vector)
        requires
            n < 0xffff_ffffu32,
            m == n + 1,
            d == (n ^ (n >> 1)) ^ (m ^ (m >> 1)),
    ;
}

/// Different numbers have different Gray codes.
pub proof fn lemma_gray_distinct(a: u32, b: u32)
    requires
        gray(a) == gray(b),
    ensures
        a == b,
{
    assert((a ^ (a >> 1)) == (b ^ (b >> 1)) ==> a == b) by (bit_vector);
}

/// The Gray code of a number.
pub fn gray_code(n: u32) -> (g: u32)
    ensures
        g == gray(n),
{
    n ^ (n >> 1)
}

} // verus!
