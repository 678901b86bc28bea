use bonanza_bridge_fw::uart_codec::{asic_rx_word_to_u16, asic_rx_word_to_u8, ByteBatch, NineBitPairDecoder};

#[test]
fn byte_batch_reports_full_without_overwriting_or_panicking() {
    let mut batch = ByteBatch::<2>::new();

    assert_eq!(batch.try_push(0x11), Ok(()));
    assert_eq!(batch.try_push(0x22), Ok(()));
    assert!(batch.is_full());
    assert_eq!(batch.try_push(0x33), Err(0x33));
    assert_eq!(batch.as_slice(), &[0x11, 0x22]);
}

#[test]
fn byte_batch_can_be_reused_after_a_full_flush() {
    let mut batch = ByteBatch::<2>::new();

    batch.try_push(0x11).unwrap();
    batch.try_push(0x22).unwrap();
    batch.clear();
    assert!(!batch.is_full());
    assert_eq!(batch.as_slice(), &[]);
    assert_eq!(batch.try_push(0x33), Ok(()));
    assert_eq!(batch.as_slice(), &[0x33]);
}

#[test]
fn raw_rx_forwarding_drops_only_the_ninth_bit() {
    assert_eq!(asic_rx_word_to_u16(0x1a5 << 23), 0x1a5);
    assert_eq!(asic_rx_word_to_u16(0x082 << 23), 0x082);
    assert_eq!(asic_rx_word_to_u8(0x1a5 << 23), 0xa5);
    assert_eq!(asic_rx_word_to_u8(0x0a5 << 23), 0xa5);
}

#[test]
fn complete_pairs_decode_to_nine_bit_words() {
    let mut decoder = NineBitPairDecoder::new();
    let mut words = [0u16; 3];
    let count = decoder.decode(&[0x55, 1, 0xaa, 0, 0xff, 1], &mut words);

    assert_eq!(count, 3);
    assert_eq!(words, [0x155, 0x0aa, 0x1ff]);
    assert!(!decoder.has_pending_byte());
}

#[test]
fn stale_pending_byte_resynchronizes_on_the_next_complete_pair() {
    let mut decoder = NineBitPairDecoder::new();
    let mut words = [0u16; 2];

    assert_eq!(decoder.decode(&[0x7e], &mut words), 0);
    assert!(decoder.has_pending_byte());

    let count = decoder.decode(&[0xfa, 1, 0xf0, 0], &mut words);
    assert_eq!(count, 2);
    assert_eq!(words, [0x1fa, 0x0f0]);
    assert!(!decoder.has_pending_byte());
}

#[test]
fn dropped_byte_resynchronizes_without_masking_invalid_bit_byte() {
    let mut decoder = NineBitPairDecoder::new();
    let mut words = [0u16; 3];

    // The bit byte for 0x155 was lost. 0xaa cannot be a bit-8 byte, so it
    // becomes the low byte for the next valid pair.
    let count = decoder.decode(&[0x55, 0xaa, 0, 0xff, 1], &mut words);
    assert_eq!(count, 2);
    assert_eq!(&words[..count], &[0x0aa, 0x1ff]);
    assert!(!decoder.has_pending_byte());
}

#[test]
fn split_pairs_are_preserved_across_reads() {
    let mut decoder = NineBitPairDecoder::new();
    let mut words = [0u16; 2];

    assert_eq!(decoder.decode(&[0x12], &mut words), 0);
    assert!(decoder.has_pending_byte());
    assert_eq!(decoder.decode(&[1, 0x34, 0], &mut words), 2);
    assert_eq!(words, [0x112, 0x034]);
    assert!(!decoder.has_pending_byte());
}

#[test]
fn empty_reads_do_not_lose_pending_data() {
    let mut decoder = NineBitPairDecoder::new();
    let mut words = [0u16; 1];

    assert_eq!(decoder.decode(&[0x5a], &mut words), 0);
    assert_eq!(decoder.decode(&[], &mut words), 0);
    assert!(decoder.has_pending_byte());
    assert_eq!(decoder.decode(&[1], &mut words), 1);
    assert_eq!(words[0], 0x15a);
}
