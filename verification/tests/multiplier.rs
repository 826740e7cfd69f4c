use ready_set_boole::multiplier;

#[test]
fn simple_multiplication() {
    for a in 0..u8::MAX as u32 {
        for b in 0..u8::MAX as u32 {
            assert_eq!(multiplier(a, b), a.wrapping_mul(b));
        }
    }

}

#[test]
fn max_multiplication() {
    let a = u32::MAX;
    let b = 1;
    let result = multiplier(a, b);
    assert_eq!(result, a * b);
}


#[test]
fn multiplication_wraps_around() {
    assert_eq!(multiplier(u32::MAX, u32::MAX), 1);
    assert_eq!(multiplier(0x1_0000, 0x1_0000), 0);
    assert_eq!(multiplier(0xdead_beef, 0x1234_5678), 0xdead_beefu32.wrapping_mul(0x1234_5678));
    assert_eq!(multiplier(0, 12345), 0);
    assert_eq!(multiplier(12345, 0), 0);
    assert_eq!(multiplier(6, 7), 42);
}
