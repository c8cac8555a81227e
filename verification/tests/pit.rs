use harlan::arch::pit::PIT_INPUT_FREQUENCY_HZ;

#[test]
fn divisor_for_100hz_matches_hand_computed_value() {
    // 1_193_182 / 100 = 11931.82, truncated by integer division.
    assert_eq!(PIT_INPUT_FREQUENCY_HZ / 100, 11931);
}
