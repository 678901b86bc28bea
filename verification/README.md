# bonanza-bridge-fw

RP2040 bridge firmware between an ESP32S3 and a BZM2 ASIC. The protocol logic
is a verified library under `src/`; the firmware around it is under `app/`.

- `src/uart_codec.rs`: the ESP-side `[low byte, bit 8]` pair decoder, the RX
  word extraction and the fixed-capacity byte batch, with the stream laws of
  the decoder (chunking, resynchronisation, round trip of the wire encoding).
- `src/control/`: control-serial packet extraction, command parsing per page,
  and response framing.
- `src/info.rs`, `src/rx_stats.rs`: system-page payloads.
- `src/safety_timing.rs`: safety-service deadline and tach conversion.
- `src/heapless_vec.rs`: contracts for the `heapless::Vec` calls the library makes.
- `app/`: the Embassy tasks, PIO UART, DMA ring and GPIO/PWM handling.
