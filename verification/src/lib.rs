//! Host-independent protocol logic of the Bonanza bridge firmware: the ESP-side
//! 9-bit pair decoder, the control-serial packet framing and command parsing,
//! the system-page payload encoders and the safety timing calculations.

pub mod uart_codec;
pub mod safety_timing;
pub mod heapless_vec;
pub mod info;
pub mod rx_stats;
pub mod control;
