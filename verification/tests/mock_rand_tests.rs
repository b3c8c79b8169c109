use session_relay::mock_rand::mock_rand_bits;
use session_relay::mock_rand::HALF_BITS;

fn fraction(n: u8) -> f32 {
    2.0 * (f32::from_bits(mock_rand_bits(n)) - 0.5)
}

#[test]
fn bits_of_zero_are_one_half() {
    assert_eq!(mock_rand_bits(0), 0x3f00_0000);
    assert_eq!(mock_rand_bits(0), HALF_BITS);
    assert_eq!(f32::from_bits(mock_rand_bits(0)), 0.5);
}

#[test]
fn bits_known_values() {
    assert_eq!(mock_rand_bits(1), 0x3f00_8000);
    assert_eq!(mock_rand_bits(128), 0x3f40_0000);
    assert_eq!(mock_rand_bits(255), 0x3f7f_8000);
}

#[test]
fn bits_are_base_or_shifted_byte() {
    for n in 0..=255u8 {
        let base: u32 = 0b0_01111110_00000000000000000000000;
        assert_eq!(mock_rand_bits(n), base | ((n as u32) << 15));
    }
}

#[test]
fn fraction_is_the_byte_over_256() {
    for n in 0..=255u8 {
        assert_eq!(fraction(n), n as f32 / 256.0);
    }
    assert_eq!(fraction(0), 0.0);
    assert_eq!(fraction(128), 0.5);
    assert!(fraction(255) < 1.0);
}
