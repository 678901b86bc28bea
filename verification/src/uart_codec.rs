//! Pure ESP-side byte-pair decoding for the ASIC 9-bit UART.

use vstd::prelude::*;

verus! {

/// The nine-bit word made of a low byte and a bit-8 byte of the wire pair.
pub open spec fn pair_word(low: u8, bit8: u8) -> u16 {
    (low as int + 0x100 * bit8 as int) as u16
}

/// What the decoder does with a stream of bytes when its output has room for
/// every word: each byte either completes the pending low byte into a word
/// (when it is a valid bit-8 byte, zero or one) or becomes the pending low byte.
pub open spec fn stream_decode(pending: Option<u8>, input: Seq<u8>) -> (Seq<u16>, Option<u8>)
    decreases input.len(),
{
    if input.len() == 0 {
        (Seq::empty(), pending)
    } else if pending is Some && input[0] <= 1 {
        let rest = stream_decode(None, input.drop_first());
        (seq![pair_word(pending->0, input[0])] + rest.0, rest.1)
    } else {
        stream_decode(Some(input[0]), input.drop_first())
    }
}

/// One call of `NineBitPairDecoder::decode` with room for `room` words: the
/// words written and the pending byte left behind. Once the output is full,
/// a single remaining byte is kept as the pending low byte and a longer
/// remainder is dropped; a full output with a byte already pending leaves the
/// decoder unchanged.
pub open spec fn bounded_decode(pending: Option<u8>, input: Seq<u8>, room: nat) -> (Seq<u16>, Option<u8>)
    decreases input.len(),
{
    if input.len() == 0 {
        (Seq::empty(), pending)
    } else if room == 0 {
        if pending is Some {
            (Seq::empty(), pending)
        } else if input.len() == 1 {
            (Seq::empty(), Some(input[0]))
        } else {
            (Seq::empty(), None)
        }
    } else if pending is Some && input[0] <= 1 {
        let rest = bounded_decode(None, input.drop_first(), (room - 1) as nat);
        (seq![pair_word(pending->0, input[0])] + rest.0, rest.1)
    } else {
        bounded_decode(Some(input[0]), input.drop_first(), room)
    }
}

/// The wire encoding of nine-bit words: each word becomes its low byte
/// followed by its bit 8.
pub open spec fn encode_words(words: Seq<u16>) -> Seq<u8>
    decreases words.len(),
{
    if words.len() == 0 {
        Seq::empty()
    } else {
        seq![(words[0] % 0x100) as u8, (words[0] / 0x100) as u8] + encode_words(words.drop_first())
    }
}

/// Whether a call has room for every word its input can complete: each word
/// takes two bytes (or one byte after a pending low byte), and one byte left
/// over is kept pending.
pub open spec fn room_suffices(pending: Option<u8>, input_len: nat, room: nat) -> bool {
    input_len + (if pending is Some { 1int } else { 0int }) <= 2 * room + 1
}

/// Enough output room never changes what a call decodes: with room for every
/// word its input can complete, one call behaves as the stream decoder. This
/// covers the bridge's reads of 64 bytes into 32 words, whatever is pending.
pub proof fn lemma_ample_room_is_stream_decode(pending: Option<u8>, input: Seq<u8>, room: nat)
    requires
        room_suffices(pending, input.len(), room),
    ensures
        bounded_decode(pending, input, room) == stream_decode(pending, input),
    decreases input.len(),
{
    if input.len() > 0 {
        if room == 0 {
            assert(pending is None && input.len() == 1);
            assert(input.drop_first().len() == 0);
            assert(stream_decode(pending, input) == stream_decode(Some(input[0]), input.drop_first()));
        } else if pending is Some && input[0] <= 1 {
            lemma_ample_room_is_stream_decode(None, input.drop_first(), (room - 1) as nat);
        } else {
            lemma_ample_room_is_stream_decode(Some(input[0]), input.drop_first(), room);
        }
    }
}

/// Splitting a byte stream into chunks does not change the decoded words: the
/// pending byte carried from one chunk to the next joins it exactly as if the
/// chunks had arrived as one.
pub proof fn lemma_chunked_stream_decode(pending: Option<u8>, first: Seq<u8>, second: Seq<u8>)
    ensures
        ({
            let a = stream_decode(pending, first);
            let b = stream_decode(a.1, second);
            stream_decode(pending, first + second) == (a.0 + b.0, b.1)
        }),
    decreases first.len(),
{
    if first.len() == 0 {
        assert(first + second =~= second);
        let b = stream_decode(pending, second);
        assert(Seq::<u16>::empty() + b.0 =~= b.0);
    } else {
        assert((first + second).drop_first() =~= first.drop_first() + second);
        assert((first + second)[0] == first[0]);
        if pending is Some && first[0] <= 1 {
            lemma_chunked_stream_decode(None, first.drop_first(), second);
            let r = stream_decode(None, first.drop_first());
            let b = stream_decode(r.1, second);
            let w = seq![pair_word(pending->0, first[0])];
            assert(w + (r.0 + b.0) =~= (w + r.0) + b.0);
        } else {
            lemma_chunked_stream_decode(Some(first[0]), first.drop_first(), second);
        }
    }
}

/// Two calls, each with room for the words its input can complete, decode a
/// stream split across them exactly as the stream decoder decodes the whole,
/// and so as one call on the whole stream with room for its words would.
pub proof fn lemma_two_calls_decode_as_one(
    pending: Option<u8>,
    first: Seq<u8>,
    second: Seq<u8>,
    first_room: nat,
    second_room: nat,
    whole_room: nat,
)
    requires
        room_suffices(pending, first.len(), first_room),
        room_suffices(bounded_decode(pending, first, first_room).1, second.len(), second_room),
        room_suffices(pending, first.len() + second.len(), whole_room),
    ensures
        ({
            let a = bounded_decode(pending, first, first_room);
            let b = bounded_decode(a.1, second, second_room);
            &&& stream_decode(pending, first + second) == (a.0 + b.0, b.1)
            &&& bounded_decode(pending, first + second, whole_room) == (a.0 + b.0, b.1)
        }),
{
    lemma_ample_room_is_stream_decode(pending, first, first_room);
    let a = stream_decode(pending, first);
    lemma_ample_room_is_stream_decode(a.1, second, second_room);
    lemma_ample_room_is_stream_decode(pending, first + second, whole_room);
    lemma_chunked_stream_decode(pending, first, second);
}

/// Decoding the wire encoding of nine-bit words, starting with nothing
/// pending, gives back exactly those words and leaves nothing pending.
pub proof fn lemma_encode_words_roundtrip(words: Seq<u16>)
    requires
        forall|i: int| 0 <= i < words.len() ==> words[i] < 0x200,
    ensures
        stream_decode(None, encode_words(words)) == (words, None::<u8>),
    decreases words.len(),
{
    if words.len() > 0 {
        let rest = words.drop_first();
        let w = words[0];
        let lo = (w % 0x100) as u8;
        let hi = (w / 0x100) as u8;
        let enc = encode_words(words);
        assert(forall|i: int| 0 <= i < rest.len() ==> rest[i] == words[i + 1]);
        lemma_encode_words_roundtrip(rest);
        assert(enc[0] == lo && enc[1] == hi);
        assert(enc.drop_first().drop_first() =~= encode_words(rest));
        assert(enc.drop_first()[0] == hi);
        assert(hi <= 1);
        assert(lo as int + 0x100 * hi as int == w) by (nonlinear_arith)
            requires lo == w % 0x100, hi == w / 0x100, w < 0x200;
        assert(pair_word(lo, hi) == w);
        assert(stream_decode(None, enc) == stream_decode(Some(lo), enc.drop_first()));
        let tail = stream_decode(None, enc.drop_first().drop_first());
        assert(stream_decode(Some(lo), enc.drop_first()) == (seq![pair_word(lo, hi)] + tail.0, tail.1));
        assert(seq![w] + rest =~= words);
    } else {
        assert(encode_words(words) =~= Seq::<u8>::empty());
    }
}

/// Whatever is pending, a byte that cannot be a bit-8 byte followed by a
/// valid bit-8 byte decodes to exactly their word and restores alignment for
/// everything that follows.
pub proof fn lemma_resynchronizes_on_valid_pair(pending: Option<u8>, low: u8, bit8: u8, rest: Seq<u8>)
    requires
        low > 1,
        bit8 <= 1,
    ensures
        ({
            let after = stream_decode(None, rest);
            stream_decode(pending, seq![low, bit8] + rest) == (seq![pair_word(low, bit8)] + after.0, after.1)
        }),
{
    let input = seq![low, bit8] + rest;
    assert(input[0] == low);
    assert(input.drop_first()[0] == bit8);
    assert(input.drop_first().drop_first() =~= rest);
    let after = stream_decode(None, rest);
    assert(stream_decode(pending, input) == stream_decode(Some(low), input.drop_first()));
    assert(stream_decode(Some(low), input.drop_first()) == (seq![pair_word(low, bit8)] + after.0, after.1));
}

/// An empty read leaves the decoder exactly as it was.
pub proof fn lemma_empty_input_keeps_pending(pending: Option<u8>, room: nat)
    ensures
        bounded_decode(pending, Seq::empty(), room) == (Seq::<u16>::empty(), pending),
{
}

/// Every decoded word fits in nine bits.
pub proof fn lemma_decoded_words_are_nine_bit(pending: Option<u8>, input: Seq<u8>, room: nat)
    ensures
        forall|i: int| 0 <= i < bounded_decode(pending, input, room).0.len()
            ==> #[trigger] bounded_decode(pending, input, room).0[i] < 0x200,
    decreases input.len(),
{
    if input.len() > 0 && room > 0 {
        if pending is Some && input[0] <= 1 {
            lemma_decoded_words_are_nine_bit(None, input.drop_first(), (room - 1) as nat);
            let r = bounded_decode(None, input.drop_first(), (room - 1) as nat);
            let w = seq![pair_word(pending->0, input[0])];
            assert(pair_word(pending->0, input[0]) < 0x200);
            assert(bounded_decode(pending, input, room).0 == w + r.0);
            assert forall|i: int| 0 <= i < (w + r.0).len() implies (w + r.0)[i] < 0x200 by {
                if i > 0 {
                    assert((w + r.0)[i] == r.0[i - 1]);
                }
            }
        } else {
            lemma_decoded_words_are_nine_bit(Some(input[0]), input.drop_first(), room);
            assert(bounded_decode(pending, input, room) == bounded_decode(Some(input[0]), input.drop_first(), room));
        }
    }
}

/// Fixed-capacity interrupt batch that cannot index past its backing array
/// when a hardware FIFO refills while it is being drained.
pub struct ByteBatch<const N: usize> {
    bytes: [u8; N],
    length: usize,
}

/// A call made on a batch: a push of a byte, or a clear.
pub enum BatchEvent {
    Push(u8),
    Clear,
}

/// The contents after a push: the byte is appended while there is room and
/// refused, leaving the contents as they were, once the batch is full.
pub open spec fn after_push(contents: Seq<u8>, byte: u8, capacity: nat) -> Seq<u8> {
    if contents.len() < capacity {
        contents.push(byte)
    } else {
        contents
    }
}

/// The contents of a new batch of `capacity` bytes after the calls `events`.
pub open spec fn replay_batch(events: Seq<BatchEvent>, capacity: nat) -> Seq<u8>
    decreases events.len(),
{
    if events.len() == 0 {
        Seq::empty()
    } else {
        match events.last() {
            BatchEvent::Push(byte) => after_push(replay_batch(events.drop_last(), capacity), byte, capacity),
            BatchEvent::Clear => Seq::empty(),
        }
    }
}

/// The bytes pushed since the last clear, in call order.
pub open spec fn pushes_since_clear(events: Seq<BatchEvent>) -> Seq<u8>
    decreases events.len(),
{
    if events.len() == 0 {
        Seq::empty()
    } else {
        match events.last() {
            BatchEvent::Push(byte) => pushes_since_clear(events.drop_last()).push(byte),
            BatchEvent::Clear => Seq::empty(),
        }
    }
}

/// Whatever calls were made on a batch, it holds the bytes pushed since the
/// last clear (or since it was created), in call order, up to its capacity:
/// pushes into a full batch are refused and never overwrite.
pub proof fn lemma_batch_holds_pushes_since_clear(events: Seq<BatchEvent>, capacity: nat)
    ensures
        ({
            let pushed = pushes_since_clear(events);
            let held = replay_batch(events, capacity);
            &&& held.len() <= capacity
            &&& held == (if pushed.len() <= capacity { pushed } else { pushed.take(capacity as int) })
        }),
    decreases events.len(),
{
    if events.len() > 0 {
        let prior = events.drop_last();
        lemma_batch_holds_pushes_since_clear(prior, capacity);
        match events.last() {
            BatchEvent::Push(byte) => {
                let p = pushes_since_clear(prior);
                if p.len() >= capacity {
                    assert(p.push(byte).take(capacity as int) =~= p.take(capacity as int));
                }
            },
            BatchEvent::Clear => {},
        }
    }
}

impl<const N: usize> View for ByteBatch<N> {
    type V = Seq<u8>;

    /// The bytes pushed since the batch was created or last cleared.
    closed spec fn view(&self) -> Seq<u8> {
        self.bytes@.subrange(0, self.length as int)
    }
}

impl<const N: usize> ByteBatch<N> {
    #[verifier::type_invariant]
    spec fn inv(self) -> bool {
        self.length <= N
    }

    pub fn new() -> (batch: Self)
        requires
            N != 0,
        ensures
            batch@ == Seq::<u8>::empty(),
    {
        let batch = Self { bytes: [0; N], length: 0 };
        assert(batch@ =~= Seq::<u8>::empty());
        batch
    }

    pub fn try_push(&mut self, byte: u8) -> (r: Result<(), u8>)
        ensures
            old(self)@.len() == N ==> r == Err::<(), u8>(byte) && final(self)@ == old(self)@,
            old(self)@.len() < N ==> r == Ok::<(), u8>(()) && final(self)@ == old(self)@.push(byte),
            final(self)@ == after_push(old(self)@, byte, N as nat),
            old(self)@.len() <= N,
            final(self)@.len() <= N,
    {
        proof { use_type_invariant(&*self); }
        if self.length == N {
            return Err(byte);
        }
        let ghost before = self@;
        self.bytes[self.length] = byte;
        self.length += 1;
        assert(self@ =~= before.push(byte));
        Ok(())
    }

    pub fn as_slice(&self) -> (s: &[u8])
        ensures
            s@ == self@,
            s@.len() <= N,
    {
        proof { use_type_invariant(self); }
        let all = self.bytes.as_slice();
        &all[0..self.length]
    }

    pub fn is_full(&self) -> (r: bool)
        ensures
            r == (self@.len() == N),
            self@.len() <= N,
    {
        proof { use_type_invariant(self); }
        self.length == N
    }

    pub fn clear(&mut self)
        ensures
            final(self)@ == Seq::<u8>::empty(),
    {
        self.length = 0;
        assert(self@ =~= Seq::<u8>::empty());
    }
}

/// The nine-bit UART word that autopush leaves in bits 31:23 of a raw RX FIFO word.
pub open spec fn rx_word_bits(word: u32) -> int {
    (word as int / 0x80_0000) % 0x200
}

/// Right-shift autopush at nine bits places the complete UART word in bits
/// 31:23. The first serial bit remains bit 0 after extraction.
pub fn asic_rx_word_to_u16(word: u32) -> (r: u16)
    ensures
        r == rx_word_bits(word),
        r < 0x200,
{
    let r = ((word >> 23) & 0x1ff) as u16;
    assert(((word >> 23) & 0x1ff) as u16 == (word as int / 0x80_0000) % 0x200 && ((word >> 23) & 0x1ff) < 0x200) by (bit_vector);
    r
}

/// Extract only the eight payload bits forwarded by the BIRDS-compatible RX
/// path. PIO still samples all nine data bits before requiring the stop bit.
pub fn asic_rx_word_to_u8(word: u32) -> (r: u8)
    ensures
        r == rx_word_bits(word) % 0x100,
{
    let w = asic_rx_word_to_u16(word);
    assert((w as u8) == w % 0x100) by (bit_vector);
    w as u8
}

#[derive(Default)]
pub struct NineBitPairDecoder {
    pending_low_byte: Option<u8>,
}

impl View for NineBitPairDecoder {
    type V = Option<u8>;

    /// The low byte held over for the next call, if any.
    closed spec fn view(&self) -> Option<u8> {
        self.pending_low_byte
    }
}

proof fn lemma_pair_word(low: u8, bit8: u8)
    requires
        bit8 <= 1,
    ensures
        (low as u16 | ((bit8 as u16) << 8u16)) == pair_word(low, bit8),
{
    assert((low as u16 | ((bit8 as u16) << 8u16)) == (low as int + 0x100 * bit8 as int) as u16)
        by (bit_vector)
        requires
            bit8 <= 1,
    ;
}

impl NineBitPairDecoder {
    pub fn new() -> (d: Self)
        ensures
            d@ == None::<u8>,
    {
        Self { pending_low_byte: None }
    }

    /// Decode `[low byte, bit 8]` pairs into 9-bit words. A low byte split
    /// across input chunks is retained for the next call. The bit-8 byte is
    /// constrained by the ESP/bridge wire contract to exactly zero or one.
    /// If an ESP reset or dropped UART byte leaves the stream out of phase,
    /// an invalid bit-8 byte becomes the next low-byte candidate so the next
    /// valid bit-8 byte restores alignment without resetting the bridge.
    pub fn decode(&mut self, input: &[u8], output: &mut [u16]) -> (count: usize)
        ensures
            ({
                let r = bounded_decode(old(self)@, input@, old(output)@.len());
                &&& count == r.0.len()
                &&& count <= old(output)@.len()
                &&& final(self)@ == r.1
                &&& final(output)@.len() == old(output)@.len()
                &&& final(output)@.subrange(0, count as int) == r.0
                &&& final(output)@.subrange(count as int, final(output)@.len() as int)
                    == old(output)@.subrange(count as int, old(output)@.len() as int)
            }),
    {
        let ghost p0 = self.pending_low_byte;
        let ghost out0 = output@;
        let ghost room = output@.len();
        let mut input_index: usize = 0;
        let mut output_length: usize = 0;

        if let Some(low_byte) = self.pending_low_byte.take() {
            if input.len() == 0 || output.len() == 0 {
                self.pending_low_byte = Some(low_byte);
                return 0;
            }
            if input[0] <= 1 {
                proof { lemma_pair_word(low_byte, input@[0]); }
                output[output_length] = low_byte as u16 | ((input[0] as u16) << 8);
                output_length += 1;
            } else {
                self.pending_low_byte = Some(input[0]);
            }
            input_index = 1;
            assert(input@.skip(1) =~= input@.drop_first());
        } else {
            assert(input@.skip(0) =~= input@);
        }

        while input_index < input.len() && output_length < output.len()
            invariant_except_break
                input_index <= input@.len(),
                output_length <= input_index,
                output@.len() == room,
                room == out0.len(),
                output_length <= room,
                output_length == room ==> self.pending_low_byte is None,
                ({
                    let whole = bounded_decode(p0, input@, room);
                    let rest = bounded_decode(
                        self.pending_low_byte,
                        input@.skip(input_index as int),
                        (room - output_length) as nat,
                    );
                    &&& whole.0 == output@.subrange(0, output_length as int) + rest.0
                    &&& whole.1 == rest.1
                }),
                output@.subrange(output_length as int, room as int) == out0.subrange(output_length as int, room as int),
            ensures
                input_index <= input@.len(),
                output@.len() == room,
                output_length <= room,
                input_index < input@.len() ==> output_length == room && self.pending_low_byte is None,
                ({
                    let whole = bounded_decode(p0, input@, room);
                    let rest = bounded_decode(
                        self.pending_low_byte,
                        input@.skip(input_index as int),
                        (room - output_length) as nat,
                    );
                    &&& whole.0 == output@.subrange(0, output_length as int) + rest.0
                    &&& whole.1 == rest.1
                }),
                output@.subrange(output_length as int, room as int) == out0.subrange(output_length as int, room as int),
            decreases input@.len() - input_index,
        {
            let ghost ii = input_index;
            let ghost pend = self.pending_low_byte;
            let ghost suffix = input@.skip(ii as int);
            let ghost left = (room - output_length) as nat;
            assert(suffix.len() > 0 && left > 0);
            let low_byte = match self.pending_low_byte.take() {
                Some(low_byte) => low_byte,
                None => {
                    let low_byte = input[input_index];
                    input_index += 1;
                    if input_index == input.len() {
                        self.pending_low_byte = Some(low_byte);
                        assert(input@.skip(ii as int).drop_first() =~= input@.skip(input_index as int));
                        break;
                    }
                    assert(input@.skip(ii as int).drop_first() =~= input@.skip(input_index as int));
                    low_byte
                }
            };
            let ghost ij = input_index;
            let bit_8 = input[input_index];
            input_index += 1;
            assert(input@.skip(ij as int).drop_first() =~= input@.skip(input_index as int));
            proof {
                let pair_start = input@.skip(ij as int);
                assert(pair_start[0] == bit_8);
                if pend is None {
                    assert(bounded_decode(None, suffix, left) == bounded_decode(Some(low_byte), pair_start, left));
                } else {
                    assert(pair_start == suffix);
                }
            }
            if bit_8 <= 1 {
                proof { lemma_pair_word(low_byte, bit_8); }
                let ghost before = output@;
                let ghost done = before.subrange(0, output_length as int);
                output[output_length] = low_byte as u16 | ((bit_8 as u16) << 8);
                output_length += 1;
                assert(output@.subrange(0, output_length as int) =~= done.push(pair_word(low_byte, bit_8)));
                assert forall|k: int| output_length <= k < room implies output@[k] == out0[k] by {
                    assert(before.subrange((output_length - 1) as int, room as int)[k - (output_length - 1)]
                        == out0.subrange((output_length - 1) as int, room as int)[k - (output_length - 1)]);
                }
                assert(output@.subrange(output_length as int, room as int)
                    =~= out0.subrange(output_length as int, room as int));
                proof {
                    let r = bounded_decode(None, input@.skip(input_index as int), (room - output_length) as nat);
                    assert(done.push(pair_word(low_byte, bit_8)) + r.0 =~= done + (seq![pair_word(low_byte, bit_8)] + r.0));
                }
            } else {
                self.pending_low_byte = Some(bit_8);
            }
        }

        if input_index < input.len() {
            // The bridge's input and output buffers are sized so output space
            // cannot be exhausted before all complete input pairs are decoded.
            if input_index + 1 == input.len() {
                self.pending_low_byte = Some(input[input_index]);
            }
        }
        assert(output@.subrange(0, output_length as int) + Seq::<u16>::empty()
            =~= output@.subrange(0, output_length as int));
        output_length
    }

    pub fn has_pending_byte(&self) -> (r: bool)
        ensures
            r == self@ is Some,
    {
        self.pending_low_byte.is_some()
    }
}

} // verus!
