use vstd::prelude::*;

verus! {

/// Bit `i` of `n`, as 0 or 1.
pub open spec fn bit_of(n: u32, i: u32) -> u32 {
    (n >> i) & 1
}

/// Whether bit `i` of `x` stands at place `2 i` of `packed` and bit `i` of
/// `y` at place `2 i + 1`.
pub open spec fn pair_at(packed: u32, x: u32, y: u32, i: u32) -> bool {
    bit_of(packed, (2 * i) as u32) == bit_of(x, i) && bit_of(packed, (2 * i + 1) as u32) == bit_of(
        y,
        i,
    )
}

/// Whether the lowest `n` pairs of bits of `packed` are the lowest `n` bits
/// of `x` and of `y` in turn.
pub open spec fn interleaves_below(packed: u32, x: u32, y: u32, n: u32) -> bool {
    forall|i: u32| 0 <= i < n ==> #[trigger] pair_at(packed, x, y, i)
}

/// Whether `packed` holds the bits of `x` and `y` in turn: bit `i` of `x`
/// at place `2 i`, bit `i` of `y` at place `2 i + 1`.
pub open spec fn interleaves(packed: u32, x: u16, y: u16) -> bool {
    interleaves_below(packed, x as u32, y as u32, 16)
}

/// Setting the two bits of one step leaves the lower bits as they were.
proof fn lemma_interleave_step(packed: u32, x: u32, y: u32, i: u32, k: u32) -> (next: u32)
    requires
        i < 16,
        k < i,
        packed >> ((2 * i) as u32) == 0,
    ensures
        next == packed | (bit_of(x, i) << ((2 * i) as u32)) | (bit_of(y, i) << ((2 * i + 1) as u32)),
        bit_of(next, (2 * k) as u32) == bit_of(packed, (2 * k) as u32),
        bit_of(next, (2 * k + 1) as u32) == bit_of(packed, (2 * k + 1) as u32),
{
    let low = (2 * i) as u32;
    let high = (2 * i + 1) as u32;
    let a = (2 * k) as u32;
    let b = (2 * k + 1) as u32;
    let next = packed | (((x >> i) & 1) << low) | (((y >> i) & 1) << high);
    assert(((next >> a) & 1) == ((packed >> a) & 1) && ((next >> b) & 1) == ((packed >> b) & 1))
        by (bit_vector)
        requires
            i < 16,
            k < i,
            low == 2 * i,
            high == 2 * i + 1,
            a == 2 * k,
            b == 2 * k + 1,
            next == packed | (((x >> i) & 1) << low) | (((y >> i) & 1) << high),
    ;
    next
}

/// The two bits of one step land at their places, and nothing above them is
/// set.
proof fn lemma_interleave_top(packed: u32, x: u32, y: u32, i: u32) -> (next: u32)
    requires
        i < 16,
        packed >> ((2 * i) as u32) == 0,
    ensures
        next == packed | (bit_of(x, i) << ((2 * i) as u32)) | (bit_of(y, i) << ((2 * i + 1) as u32)),
        bit_of(next, (2 * i) as u32) == bit_of(x, i),
        bit_of(next, (2 * i + 1) as u32) == bit_of(y, i),
        i < 15 ==> next >> ((2 * i + 2) as u32) == 0,
{
    let low = (2 * i) as u32;
    let high = (2 * i + 1) as u32;
    let above = (2 * i + 2) as u32;
    let next = packed | (((x >> i) & 1) << low) | (((y >> i) & 1) << high);
    assert(((next >> low) & 1) == ((x >> i) & 1) && ((next >> high) & 1) == ((y >> i) & 1) && (i
        < 15 ==> next >> above == 0)) by (bit_vector)
        requires
            i < 16,
            low == 2 * i,
            high == 2 * i + 1,
            above == 2 * i + 2,
            packed >> low == 0,
            next == packed | (((x >> i) & 1) << low) | (((y >> i) & 1) << high),
    ;
    next
}

/// The bits of `x` and `y` in turn, those of `x` at the even places.
pub fn interleave(x: u16, y: u16) -> (packed: u32)
    ensures
        interleaves(packed, x, y),
{
    let mut packed: u32 = 0;
    let wide_x = x as u32;
    let wide_y = y as u32;
    let mut i: u32 = 0;
    assert(0u32 >> 0u32 == 0) by (bit_vector);
    while i < 16
        invariant
            i <= 16,
            i < 16 ==> packed >> ((2 * i) as u32) == 0,
            interleaves_below(packed, wide_x, wide_y, i),
        decreases 16 - i,
    {
        let ghost before = packed;
        packed = packed | (((wide_x >> i) & 1) << (2 * i)) | (((wide_y >> i) & 1) << (2 * i + 1));
        proof {
            let next = lemma_interleave_top(before, wide_x, wide_y, i);
            assert(next == packed);
            assert forall|k: u32| 0 <= k < i + 1 implies #[trigger] pair_at(
                packed,
                wide_x,
                wide_y,
                k,
            ) by {
                if k < i {
                    let same = lemma_interleave_step(before, wide_x, wide_y, i, k);
                    assert(pair_at(before, wide_x, wide_y, k));
                }
            }
            assert(interleaves_below(packed, wide_x, wide_y, (i + 1) as u32));
        }
        i += 1;
    }
    assert(interleaves(packed, x, y));
    packed
}

/// Setting bit `i` of a number with nothing at or above that place gives
/// that bit the value set, leaves the lower bits and sets nothing above.
proof fn lemma_set_bit(acc: u32, b: u32, i: u32, k: u32) -> (next: u32)
    requires
        i < 16,
        k <= i,
        b <= 1,
        acc >> i == 0,
    ensures
        next == acc | (b << i),
        k < i ==> bit_of(next, k) == bit_of(acc, k),
        bit_of(next, i) == b,
        next >> ((i + 1) as u32) == 0,
{
    let above = (i + 1) as u32;
    let next = acc | (b << i);
    assert((k < i ==> ((next >> k) & 1) == ((acc >> k) & 1)) && ((next >> i) & 1) == b && next
        >> above == 0) by (bit_vector)
        requires
            i < 16,
            k <= i,
            b <= 1,
            above == i + 1,
            acc >> i == 0,
            next == acc | (b << i),
    ;
    next
}

/// The numbers whose bits stand in turn in `packed`: the first from the
/// even places, the second from the odd ones.
pub fn deinterleave(packed: u32) -> (r: (u16, u16))
    ensures
        interleaves(packed, r.0, r.1),
{
    let mut x: u32 = 0;
    let mut y: u32 = 0;
    let mut i: u32 = 0;
    assert(0u32 >> 0u32 == 0) by (bit_vector);
    while i < 16
        invariant
            i <= 16,
            x >> i == 0,
            y >> i == 0,
            interleaves_below(packed, x, y, i),
        decreases 16 - i,
    {
        let ghost old_x = x;
        let ghost old_y = y;
        let even = (packed >> (2 * i)) & 1;
        let odd = (packed >> (2 * i + 1)) & 1;
        proof {
            let low = (2 * i) as u32;
            let high = (2 * i + 1) as u32;
            assert(((packed >> low) & 1) <= 1 && ((packed >> high) & 1) <= 1) by (bit_vector);
        }
        x = x | (even << i);
        y = y | (odd << i);
        proof {
            let next_x = lemma_set_bit(old_x, even, i, i);
            let next_y = lemma_set_bit(old_y, odd, i, i);
            assert forall|k: u32| 0 <= k < i + 1 implies #[trigger] pair_at(packed, x, y, k) by {
                if k < i {
                    let same_x = lemma_set_bit(old_x, even, i, k);
                    let same_y = lemma_set_bit(old_y, odd, i, k);
                    assert(pair_at(packed, old_x, old_y, k));
                }
            }
        }
        i += 1;
    }
    assert(x <= 0xffff && y <= 0xffff) by (bit_vector)
        requires
            x >> 16 == 0,
            y >> 16 == 0,
    ;
    (x as u16, y as u16)
}

/// Numbers of 16 bits that agree in every bit are equal.
proof fn lemma_equal_bits(a: u32, b: u32)
    requires
        a <= 0xffff,
        b <= 0xffff,
        forall|i: u32| 0 <= i < 16 ==> #[trigger] bit_of(a, i) == bit_of(b, i),
    ensures
        a == b,
{
    assert(bit_of(a, 0) == bit_of(b, 0));
    assert(bit_of(a, 1) == bit_of(b, 1));
    assert(bit_of(a, 2) == bit_of(b, 2));
    assert(bit_of(a, 3) == bit_of(b, 3));
    assert(bit_of(a, 4) == bit_of(b, 4));
    assert(bit_of(a, 5) == bit_of(b, 5));
    assert(bit_of(a, 6) == bit_of(b, 6));
    assert(bit_of(a, 7) == bit_of(b, 7));
    assert(bit_of(a, 8) == bit_of(b, 8));
    assert(bit_of(a, 9) == bit_of(b, 9));
    assert(bit_of(a, 10) == bit_of(b, 10));
    assert(bit_of(a, 11) == bit_of(b, 11));
    assert(bit_of(a, 12) == bit_of(b, 12));
    assert(bit_of(a, 13) == bit_of(b, 13));
    assert(bit_of(a, 14) == bit_of(b, 14));
    assert(bit_of(a, 15) == bit_of(b, 15));
    assert(a == b) by (bit_vector)
        requires
            a <= 0xffff,
            b <= 0xffff,
            (a >> 0) & 1 == (b >> 0) & 1,
            (a >> 1) & 1 == (b >> 1) & 1,
            (a >> 2) & 1 == (b >> 2) & 1,
            (a >> 3) & 1 == (b >> 3) & 1,
            (a >> 4) & 1 == (b >> 4) & 1,
            (a >> 5) & 1 == (b >> 5) & 1,
            (a >> 6) & 1 == (b >> 6) & 1,
            (a >> 7) & 1 == (b >> 7) & 1,
            (a >> 8) & 1 == (b >> 8) & 1,
            (a >> 9) & 1 == (b >> 9) & 1,
            (a >> 10) & 1 == (b >> 10) & 1,
            (a >> 11) & 1 == (b >> 11) & 1,
            (a >> 12) & 1 == (b >> 12) & 1,
            (a >> 13) & 1 == (b >> 13) & 1,
            (a >> 14) & 1 == (b >> 14) & 1,
            (a >> 15) & 1 == (b >> 15) & 1,
    ;
}

/// One packed number holds one pair of numbers only.
pub proof fn lemma_interleave_inverts(packed: u32, x1: u16, y1: u16, x2: u16, y2: u16)
    requires
        interleaves(packed, x1, y1),
        interleaves(packed, x2, y2),
    ensures
        x1 == x2,
        y1 == y2,
{
    assert forall|i: u32| 0 <= i < 16 implies #[trigger] bit_of(x1 as u32, i) == bit_of(
        x2 as u32,
        i,
    ) by {
        assert(pair_at(packed, x1 as u32, y1 as u32, i));
        assert(pair_at(packed, x2 as u32, y2 as u32, i));
    }
    assert forall|i: u32| 0 <= i < 16 implies #[trigger] bit_of(y1 as u32, i) == bit_of(
        y2 as u32,
        i,
    ) by {
        assert(pair_at(packed, x1 as u32, y1 as u32, i));
        assert(pair_at(packed, x2 as u32, y2 as u32, i));
    }
    lemma_equal_bits(x1 as u32, x2 as u32);
    lemma_equal_bits(y1 as u32, y2 as u32);
}

/// Two numbers hold one packed number only.
pub proof fn lemma_interleave_unique(one: u32, other: u32, x: u16, y: u16)
    requires
        interleaves(one, x, y),
        interleaves(other, x, y),
    ensures
        one == other,
{
    assert(pair_at(one, x as u32, y as u32, 0) && pair_at(other, x as u32, y as u32, 0));
    assert(pair_at(one, x as u32, y as u32, 1) && pair_at(other, x as u32, y as u32, 1));
    assert(pair_at(one, x as u32, y as u32, 2) && pair_at(other, x as u32, y as u32, 2));
    assert(pair_at(one, x as u32, y as u32, 3) && pair_at(other, x as u32, y as u32, 3));
    assert(pair_at(one, x as u32, y as u32, 4) && pair_at(other, x as u32, y as u32, 4));
    assert(pair_at(one, x as u32, y as u32, 5) && pair_at(other, x as u32, y as u32, 5));
    assert(pair_at(one, x as u32, y as u32, 6) && pair_at(other, x as u32, y as u32, 6));
    assert(pair_at(one, x as u32, y as u32, 7) && pair_at(other, x as u32, y as u32, 7));
    assert(pair_at(one, x as u32, y as u32, 8) && pair_at(other, x as u32, y as u32, 8));
    assert(pair_at(one, x as u32, y as u32, 9) && pair_at(other, x as u32, y as u32, 9));
    assert(pair_at(one, x as u32, y as u32, 10) && pair_at(other, x as u32, y as u32, 10));
    assert(pair_at(one, x as u32, y as u32, 11) && pair_at(other, x as u32, y as u32, 11));
    assert(pair_at(one, x as u32, y as u32, 12) && pair_at(other, x as u32, y as u32, 12));
    assert(pair_at(one, x as u32, y as u32, 13) && pair_at(other, x as u32, y as u32, 13));
    assert(pair_at(one, x as u32, y as u32, 14) && pair_at(other, x as u32, y as u32, 14));
    assert(pair_at(one, x as u32, y as u32, 15) && pair_at(other, x as u32, y as u32, 15));
    assert(one == other) by (bit_vector)
        requires
            (one >> 0) & 1 == (other >> 0) & 1,
            (one >> 1) & 1 == (other >> 1) & 1,
            (one >> 2) & 1 == (other >> 2) & 1,
            (one >> 3) & 1 == (other >> 3) & 1,
            (one >> 4) & 1 == (other >> 4) & 1,
            (one >> 5) & 1 == (other >> 5) & 1,
            (one >> 6) & 1 == (other >> 6) & 1,
            (one >> 7) & 1 == (other >> 7) & 1,
            (one >> 8) & 1 == (other >> 8) & 1,
            (one >> 9) & 1 == (other >> 9) & 1,
            (one >> 10) & 1 == (other >> 10) & 1,
            (one >> 11) & 1 == (other >> 11) & 1,
            (one >> 12) & 1 == (other >> 12) & 1,
            (one >> 13) & 1 == (other >> 13) & 1,
            (one >> 14) & 1 == (other >> 14) & 1,
            (one >> 15) & 1 == (other >> 15) & 1,
            (one >> 16) & 1 == (other >> 16) & 1,
            (one >> 17) & 1 == (other >> 17) & 1,
            (one >> 18) & 1 == (other >> 18) & 1,
            (one >> 19) & 1 == (other >> 19) & 1,
            (one >> 20) & 1 == (other >> 20) & 1,
            (one >> 21) & 1 == (other >> 21) & 1,
            (one >> 22) & 1 == (other >> 22) & 1,
            (one >> 23) & 1 == (other >> 23) & 1,
            (one >> 24) & 1 == (other >> 24) & 1,
            (one >> 25) & 1 == (other >> 25) & 1,
            (one >> 26) & 1 == (other >> 26) & 1,
            (one >> 27) & 1 == (other >> 27) & 1,
            (one >> 28) & 1 == (other >> 28) & 1,
            (one >> 29) & 1 == (other >> 29) & 1,
            (one >> 30) & 1 == (other >> 30) & 1,
            (one >> 31) & 1 == (other >> 31) & 1,
    ;
}

} // verus!
