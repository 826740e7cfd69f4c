use ready_set_boole::curve::{deinterleave, interleave};

#[test]
fn reversible_reversible() {
    for x in (0..=u16::MAX).step_by(42) {
        for y in (0..=u16::MAX).step_by(127) {
            let n = interleave(x, y) as f64 / (u32::MAX as f64);
            assert_eq!((x, y), deinterleave((n * (u32::MAX as f64)) as u32));
        }
    }
}

#[test]
fn interleave_puts_the_first_number_at_the_even_bits() {
    assert_eq!(interleave(0, 0), 0);
    assert_eq!(interleave(1, 0), 1);
    assert_eq!(interleave(0, 1), 2);
    assert_eq!(interleave(0b11, 0b00), 0b0101);
    assert_eq!(interleave(0b00, 0b11), 0b1010);
    assert_eq!(interleave(u16::MAX, 0), 0x5555_5555);
    assert_eq!(interleave(0, u16::MAX), 0xaaaa_aaaa);
    assert_eq!(interleave(u16::MAX, u16::MAX), u32::MAX);
    assert_eq!(interleave(0x8000, 0), 0x4000_0000);
}

#[test]
fn deinterleave_takes_the_numbers_apart() {
    assert_eq!(deinterleave(0), (0, 0));
    assert_eq!(deinterleave(0b0110), (0b10, 0b01));
    assert_eq!(deinterleave(u32::MAX), (u16::MAX, u16::MAX));
    assert_eq!(deinterleave(0x5555_5555), (u16::MAX, 0));
    assert_eq!(deinterleave(0x8000_0000), (0, 0x8000));
}

#[test]
fn interleave_and_deinterleave_are_inverse() {
    for x in (0..=u16::MAX).step_by(257) {
        for y in (0..=u16::MAX).step_by(263) {
            assert_eq!(deinterleave(interleave(x, y)), (x, y));
        }
    }
    for packed in (0..=u32::MAX).step_by(0x00fe_dcbb) {
        let (x, y) = deinterleave(packed);
        assert_eq!(interleave(x, y), packed);
    }
}
