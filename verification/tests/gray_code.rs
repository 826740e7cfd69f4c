use ready_set_boole::gray_code;

#[test]
fn test_zero() {
    assert_eq!(gray_code(0), 0);
}

#[test]
fn test_one() {
    assert_eq!(gray_code(1), 1);
}

#[test]
fn test_small_numbers() {
    assert_eq!(gray_code(2), 3);
    assert_eq!(gray_code(3), 2);
    assert_eq!(gray_code(4), 6);
    assert_eq!(gray_code(5), 7);
}

#[test]
fn test_adjacent_values() {
    for a in 0..u8::MAX as u32 {
        let ga = gray_code(a);
        let gb = gray_code(a + 1);
        let diff = ga ^ gb;
        assert_eq!(diff.count_ones(),  1, "{ga:b} {gb:b}");
    }
}

#[test]
fn gray_codes_are_distinct() {
    let mut seen = std::collections::HashSet::new();
    for n in 0..4096u32 {
        assert!(seen.insert(gray_code(n)));
    }
    assert_eq!(gray_code(u32::MAX), 0x8000_0000);
}

#[test]
fn neighbours_differ_in_one_bit_at_the_top() {
    let a = gray_code(u32::MAX - 1);
    let b = gray_code(u32::MAX);
    assert_eq!((a ^ b).count_ones(), 1);
    let c = gray_code(0x7fff_ffff);
    let d = gray_code(0x8000_0000);
    assert_eq!((c ^ d).count_ones(), 1);
}
