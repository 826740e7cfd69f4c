use std::u8;
use ready_set_boole::adder;

#[test]
fn simple_addition() {
    for a in 0..u8::MAX as u32 {
        for b in 0..u8::MAX as u32 {
            assert_eq!(adder(a, b), a.wrapping_add(b));
        }
    }
}

#[test]
fn max_value_addition() {
    let a = u32::MAX;
    let b = 1;
    let result = adder(a, b);
    assert_eq!(result, 0);
}


#[test]
fn addition_wraps_around() {
    assert_eq!(adder(u32::MAX, u32::MAX), u32::MAX - 1);
    assert_eq!(adder(0x8000_0000, 0x8000_0000), 0);
    assert_eq!(adder(0xdead_beef, 0x1234_5678), 0xdead_beefu32.wrapping_add(0x1234_5678));
    assert_eq!(adder(0, 0), 0);
    assert_eq!(adder(1, 0xffff_fffe), u32::MAX);
}
