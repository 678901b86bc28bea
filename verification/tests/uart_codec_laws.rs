use bonanza_bridge_fw::uart_codec::{asic_rx_word_to_u16, asic_rx_word_to_u8, ByteBatch, NineBitPairDecoder};

#[test]
fn readme_pair_examples_decode() {
    let mut decoder = NineBitPairDecoder::new();
    let mut words = [0u16; 2];
    assert_eq!(decoder.decode(&[0x55, 0x01, 0xaa, 0x00], &mut words), 2);
    assert_eq!(words, [0x155, 0x0aa]);
}

#[test]
fn chunked_input_decodes_like_one_read() {
    let stream = [0x10u8, 1, 0x20, 0, 0x30, 5, 0x40, 1, 0x50, 0];
    let mut whole = NineBitPairDecoder::new();
    let mut whole_words = [0u16; 10];
    let whole_count = whole.decode(&stream, &mut whole_words);

    for split in 0..=stream.len() {
        let mut chunked = NineBitPairDecoder::new();
        let mut first = [0u16; 10];
        let mut second = [0u16; 10];
        let a = chunked.decode(&stream[..split], &mut first);
        let b = chunked.decode(&stream[split..], &mut second);
        let mut joined = first[..a].to_vec();
        joined.extend_from_slice(&second[..b]);
        assert_eq!(joined.as_slice(), &whole_words[..whole_count]);
        assert_eq!(chunked.has_pending_byte(), whole.has_pending_byte());
    }
    assert_eq!(&whole_words[..whole_count], &[0x110, 0x020, 0x140, 0x050]);
}

#[test]
fn encoded_words_decode_back() {
    let words = [0x000u16, 0x1ff, 0x100, 0x0ff, 0x155];
    let mut bytes = Vec::new();
    for w in words {
        bytes.push((w & 0xff) as u8);
        bytes.push((w >> 8) as u8);
    }
    let mut decoder = NineBitPairDecoder::new();
    let mut out = [0u16; 5];
    assert_eq!(decoder.decode(&bytes, &mut out), 5);
    assert_eq!(out, words);
    assert!(!decoder.has_pending_byte());
}

#[test]
fn full_output_keeps_a_single_remaining_byte() {
    let mut decoder = NineBitPairDecoder::new();
    let mut words = [0u16; 1];
    assert_eq!(decoder.decode(&[0x01, 1, 0x77], &mut words), 1);
    assert_eq!(words, [0x101]);
    assert!(decoder.has_pending_byte());
    assert_eq!(decoder.decode(&[0], &mut words), 1);
    assert_eq!(words, [0x077]);
}

#[test]
fn full_output_drops_a_longer_remainder() {
    let mut decoder = NineBitPairDecoder::new();
    let mut words = [0u16; 1];
    assert_eq!(decoder.decode(&[0x01, 1, 0x77, 0], &mut words), 1);
    assert_eq!(words, [0x101]);
    assert!(!decoder.has_pending_byte());
}

#[test]
fn no_output_room_keeps_a_pending_byte_untouched() {
    let mut decoder = NineBitPairDecoder::new();
    let mut words = [0u16; 1];
    assert_eq!(decoder.decode(&[0x42], &mut words), 0);
    let mut none: [u16; 0] = [];
    assert_eq!(decoder.decode(&[1, 2, 3], &mut none), 0);
    assert!(decoder.has_pending_byte());
    assert_eq!(decoder.decode(&[1], &mut words), 1);
    assert_eq!(words, [0x142]);
}

#[test]
fn untouched_output_slots_keep_their_values() {
    let mut decoder = NineBitPairDecoder::new();
    let mut words = [0xbeefu16; 3];
    assert_eq!(decoder.decode(&[0x02, 0], &mut words), 1);
    assert_eq!(words, [0x002, 0xbeef, 0xbeef]);
}

#[test]
fn rx_word_ignores_bits_below_the_autopushed_word() {
    assert_eq!(asic_rx_word_to_u16(0xffff_ffff), 0x1ff);
    assert_eq!(asic_rx_word_to_u16(0x007f_ffff), 0);
    assert_eq!(asic_rx_word_to_u8(0xffff_ffff), 0xff);
    assert_eq!(asic_rx_word_to_u8(0x8000_0000), 0x00);
}

#[test]
fn byte_batch_fills_to_its_capacity() {
    let mut batch = ByteBatch::<3>::new();
    assert!(!batch.is_full());
    for b in [1u8, 2, 3] {
        assert_eq!(batch.try_push(b), Ok(()));
    }
    assert!(batch.is_full());
    assert_eq!(batch.try_push(4), Err(4));
    assert_eq!(batch.as_slice(), &[1, 2, 3]);
}

#[test]
fn bridge_reads_of_64_bytes_fit_32_words_even_with_a_pending_byte() {
    let mut decoder = NineBitPairDecoder::new();
    let mut words = [0u16; 32];
    assert_eq!(decoder.decode(&[0x33], &mut words), 0);
    let mut read = [0u8; 64];
    for (i, b) in read.iter_mut().enumerate() {
        *b = if i % 2 == 0 { 1 } else { (i as u8) | 0x80 };
    }
    // The pending 0x33 pairs with the first bit byte, then 31 pairs follow and
    // the final byte stays pending: nothing is lost.
    assert_eq!(decoder.decode(&read, &mut words), 32);
    assert_eq!(words[0], 0x133);
    assert_eq!(words[31], 0x100 | 0xbd);
    assert!(decoder.has_pending_byte());
    let mut one = [0u16; 1];
    assert_eq!(decoder.decode(&[1], &mut one), 1);
    assert_eq!(one[0], 0x1bf);
}

#[test]
fn byte_batch_holds_the_pushes_since_the_last_clear() {
    let mut batch = ByteBatch::<3>::new();
    batch.try_push(9).unwrap();
    batch.clear();
    for b in [1u8, 2, 3, 4, 5] {
        let _ = batch.try_push(b);
    }
    assert_eq!(batch.as_slice(), &[1, 2, 3]);
    batch.clear();
    batch.try_push(6).unwrap();
    assert_eq!(batch.as_slice(), &[6]);
}
