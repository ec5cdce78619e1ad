//! Values the central half derives at start-up.
use vstd::prelude::*;

verus! {

pub const TRACKBALL_DEVICE_ID: u8 = 0;
/// The trackball (PMW3610) runs at 250 Hz.
pub const TRACKBALL_REPORT_HZ: u16 = 250;
pub const AML_TRIGGER_DEVICE_ID: u8 = 1;
pub const AML_TRIGGER_THRESHOLD: u16 = 3;
pub const NRF52840_FLASH_SIZE: u32 = 1024 * 1024;
pub const L2CAP_TXQ: u8 = 3;
pub const L2CAP_RXQ: u8 = 3;
pub const L2CAP_MTU: usize = 251;
pub const BLE_DEFAULT_TX_POWER_DBM: i8 = 0;

/// Byte `k` (little-endian) of `v`.
pub open spec fn le_byte(v: u32, k: int) -> u8 {
    ((v as int / pow256(k)) % 256) as u8
}

pub open spec fn pow256(k: int) -> int
    decreases k,
{
    if k <= 0 {
        1
    } else {
        256 * pow256(k - 1)
    }
}

/// The static random BLE address of a device with identifier words `(id0, id1)`: the 48 low
/// bits of `id1:id0`, little-endian, with the two top bits set as a static address requires.
pub open spec fn ble_address(id0: u32, id1: u32) -> Seq<u8> {
    seq![le_byte(id0, 0), le_byte(id0, 1), le_byte(id0, 2), le_byte(id0, 3), le_byte(id1, 0), le_byte(id1, 1) | 0xc0u8]
}

fn byte_of(v: u32, k: u32) -> (r: u8)
    requires
        k < 4,
    ensures
        r == le_byte(v, k as int),
{
    let shifted = v >> (8 * k);
    proof {
        assert(pow256(0) == 1);
        assert(pow256(1) == 256);
        assert(pow256(2) == 65536);
        assert(pow256(3) == 16777216);
        if k == 0 {
            assert(v >> 0u32 == v / 1) by (bit_vector);
        } else if k == 1 {
            assert(v >> 8u32 == v / 256) by (bit_vector);
        } else if k == 2 {
            assert(v >> 16u32 == v / 65536) by (bit_vector);
        } else {
            assert(v >> 24u32 == v / 16777216) by (bit_vector);
        }
        assert(shifted & 0xff == shifted % 256) by (bit_vector);
    }
    (shifted & 0xff) as u8
}

/// The BLE address (see [`ble_address`]).
pub fn ble_addr(id0: u32, id1: u32) -> (r: [u8; 6])
    ensures
        r@ == ble_address(id0, id1),
{
    let r = [byte_of(id0, 0), byte_of(id0, 1), byte_of(id0, 2), byte_of(id0, 3), byte_of(id1, 0), byte_of(id1, 1) | 0xc0];
    proof {
        assert(r@ =~= ble_address(id0, id1));
    }
    r
}

} // verus!
