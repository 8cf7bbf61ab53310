use reel::peripheral::ble_addr;

#[test]
fn ble_address_sets_static_random_bits() {
    assert_eq!(
        ble_addr(0x1234_5678, 0x9abc_def0),
        [0x78, 0x56, 0x34, 0x12, 0xf0, 0xde]
    );
    assert_eq!(ble_addr(0, 0), [0, 0, 0, 0, 0, 0xc0]);
    assert_eq!(ble_addr(u32::MAX, u32::MAX), [0xff; 6]);
}
