//! Left-half (BLE peripheral) helpers: the static random BLE address derived
//! from the chip's factory device identifier.

use vstd::prelude::*;

verus! {

/// The device identifier with the two address-type bits of a static random
/// BLE address set.
pub open spec fn static_address(device_id_low: u32, device_id_high: u32) -> u64 {
    (((device_id_high as u64) << 32u64) | (device_id_low as u64)) | 0x0000_c000_0000_0000u64
}

/// Byte `k` (little endian) of `v`.
pub open spec fn byte_of(v: u64, k: u64) -> u8 {
    ((v >> (8 * k)) & 0xff) as u8
}

/// The six little-endian bytes of the static random address built from the
/// factory device identifier words `DEVICEID[0]` (low) and `DEVICEID[1]` (high).
pub fn ble_addr(device_id_low: u32, device_id_high: u32) -> (addr: [u8; 6])
    ensures
        addr@ == seq![
            byte_of(static_address(device_id_low, device_id_high), 0),
            byte_of(static_address(device_id_low, device_id_high), 1),
            byte_of(static_address(device_id_low, device_id_high), 2),
            byte_of(static_address(device_id_low, device_id_high), 3),
            byte_of(static_address(device_id_low, device_id_high), 4),
            byte_of(static_address(device_id_low, device_id_high), 5),
        ],
{
    let high = device_id_high as u64;
    let addr = high << 32u64 | device_id_low as u64;
    let addr = addr | 0x0000_c000_0000_0000u64;
    let bytes = [
        (addr & 0xff) as u8,
        ((addr >> 8u64) & 0xff) as u8,
        ((addr >> 16u64) & 0xff) as u8,
        ((addr >> 24u64) & 0xff) as u8,
        ((addr >> 32u64) & 0xff) as u8,
        ((addr >> 40u64) & 0xff) as u8,
    ];
    proof {
        assert(addr >> 0u64 == addr) by (bit_vector);
    }
    assert(bytes@ =~= seq![
        byte_of(static_address(device_id_low, device_id_high), 0),
        byte_of(static_address(device_id_low, device_id_high), 1),
        byte_of(static_address(device_id_low, device_id_high), 2),
        byte_of(static_address(device_id_low, device_id_high), 3),
        byte_of(static_address(device_id_low, device_id_high), 4),
        byte_of(static_address(device_id_low, device_id_high), 5),
    ]);
    bytes
}

/// The address is a static random one: the two most significant bits of its
/// last byte are set, and its first four bytes are the low identifier word.
pub proof fn lemma_ble_addr_is_static_random(device_id_low: u32, device_id_high: u32)
    ensures
        byte_of(static_address(device_id_low, device_id_high), 5) & 0xc0u8 == 0xc0u8,
        byte_of(static_address(device_id_low, device_id_high), 0) == (device_id_low & 0xff) as u8,
        byte_of(static_address(device_id_low, device_id_high), 3) == (device_id_low >> 24u32) as u8,
{
    let a = static_address(device_id_low, device_id_high);
    let lo = device_id_low;
    let hi = device_id_high;
    assert(a == (((hi as u64) << 32u64) | (lo as u64)) | 0x0000_c000_0000_0000u64);
    assert((((((((hi as u64) << 32u64) | (lo as u64)) | 0x0000_c000_0000_0000u64) >> 40u64) & 0xff) as u8)
        & 0xc0u8 == 0xc0u8) by (bit_vector);
    assert((((((((hi as u64) << 32u64) | (lo as u64)) | 0x0000_c000_0000_0000u64) >> 0u64) & 0xff) as u8)
        == (lo & 0xff) as u8) by (bit_vector);
    assert((((((((hi as u64) << 32u64) | (lo as u64)) | 0x0000_c000_0000_0000u64) >> 24u64) & 0xff) as u8)
        == (lo >> 24u32) as u8) by (bit_vector);
}

} // verus!
