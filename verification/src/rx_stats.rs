//! The system page's get-RX-stats payload.

use vstd::prelude::*;

use crate::heapless_vec::{stats_bytes, stats_from_slice};

verus! {

pub const SCHEMA_VERSION: u8 = 1;

pub const PAYLOAD_LENGTH: usize = 9;

/// The four little-endian bytes of `value`.
pub open spec fn le_u32_bytes(value: u32) -> Seq<u8> {
    seq![
        (value % 0x100) as u8,
        ((value / 0x100) % 0x100) as u8,
        ((value / 0x1_0000) % 0x100) as u8,
        ((value / 0x100_0000) % 0x100) as u8,
    ]
}

/// The value of four little-endian bytes.
pub open spec fn le_u32_value(bytes: Seq<u8>) -> int {
    bytes[0] + 0x100 * bytes[1] + 0x1_0000 * bytes[2] + 0x100_0000 * bytes[3]
}

/// The get-RX-stats payload: schema version, then both counters little-endian.
pub open spec fn stats_payload(pio_fifo_overflows: u32, software_ring_overflows: u32) -> Seq<u8> {
    seq![SCHEMA_VERSION] + le_u32_bytes(pio_fifo_overflows) + le_u32_bytes(software_ring_overflows)
}

/// The little-endian bytes of a counter read back give the counter.
pub proof fn lemma_le_u32_roundtrip(value: u32)
    ensures
        le_u32_value(le_u32_bytes(value)) == value,
{
    let b = le_u32_bytes(value);
    assert(b[0] + 0x100 * b[1] + 0x1_0000 * b[2] + 0x100_0000 * b[3] == value) by (nonlinear_arith)
        requires
            b[0] == value % 0x100,
            b[1] == (value / 0x100) % 0x100,
            b[2] == (value / 0x1_0000) % 0x100,
            b[3] == (value / 0x100_0000) % 0x100,
            value < 0x1_0000_0000,
    ;
}

/// Both counters can be read back from a stats payload: the schema byte, then
/// the PIO FIFO overflow count at bytes 1..5 and the software ring count at 5..9.
pub proof fn lemma_stats_payload_fields(pio_fifo_overflows: u32, software_ring_overflows: u32)
    ensures
        ({
            let p = stats_payload(pio_fifo_overflows, software_ring_overflows);
            &&& p.len() == PAYLOAD_LENGTH
            &&& p[0] == SCHEMA_VERSION
            &&& le_u32_value(p.subrange(1, 5)) == pio_fifo_overflows
            &&& le_u32_value(p.subrange(5, 9)) == software_ring_overflows
        }),
{
    let p = stats_payload(pio_fifo_overflows, software_ring_overflows);
    lemma_le_u32_roundtrip(pio_fifo_overflows);
    lemma_le_u32_roundtrip(software_ring_overflows);
    assert(p.subrange(1, 5) =~= le_u32_bytes(pio_fifo_overflows));
    assert(p.subrange(5, 9) =~= le_u32_bytes(software_ring_overflows));
}

fn le_u32(value: u32) -> (b: [u8; 4])
    ensures
        b@ == le_u32_bytes(value),
{
    let b0 = (value & 0xff) as u8;
    let b1 = ((value >> 8) & 0xff) as u8;
    let b2 = ((value >> 16) & 0xff) as u8;
    let b3 = ((value >> 24) & 0xff) as u8;
    assert(b0 == value % 0x100 && b1 == (value / 0x100) % 0x100 && b2 == (value / 0x1_0000) % 0x100
        && b3 == (value / 0x100_0000) % 0x100) by (bit_vector)
        requires
            b0 == (value & 0xff) as u8,
            b1 == ((value >> 8) & 0xff) as u8,
            b2 == ((value >> 16) & 0xff) as u8,
            b3 == ((value >> 24) & 0xff) as u8,
    ;
    let b = [b0, b1, b2, b3];
    assert(b@ =~= le_u32_bytes(value));
    b
}

/// Encode cumulative ASIC receive loss counters for the control protocol.
pub fn encode(pio_fifo_overflows: u32, software_ring_overflows: u32) -> (payload: heapless::Vec<u8, 9>)
    ensures
        stats_bytes(payload) == stats_payload(pio_fifo_overflows, software_ring_overflows),
{
    let fifo = le_u32(pio_fifo_overflows);
    let ring = le_u32(software_ring_overflows);
    let bytes = [SCHEMA_VERSION, fifo[0], fifo[1], fifo[2], fifo[3], ring[0], ring[1], ring[2], ring[3]];
    assert(bytes@ =~= stats_payload(pio_fifo_overflows, software_ring_overflows));
    stats_from_slice(bytes.as_slice()).unwrap()
}

} // verus!
