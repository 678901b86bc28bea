//! The control-serial protocol: packet framing, command parsing and response
//! framing.
//!
//! A request packet is `[len lo, len hi, id, bus, page, command, data...]`
//! where the length counts the whole packet; a response is
//! `[len lo, len hi, id, payload...]` with the request's id echoed.

use vstd::prelude::*;

use crate::heapless_vec::{frame_bytes, frame_from_slice, payload_as_slice, payload_bytes};

pub mod adc;
pub mod fan;
pub mod gpio;
pub mod system;

verus! {

pub const SYSTEM_COMMAND: u8 = 0;

pub const GPIO_COMMAND: u8 = 6;

pub const FAN_COMMAND: u8 = 9;

/// Capacity of the receive buffer that packets are assembled in.
pub const FRAME_BUFFER_LEN: usize = 4098;

/// The shortest packet: length, id, bus, page and command.
pub const MIN_PACKET_LEN: usize = 6;

#[derive(Debug, Clone, Copy, PartialEq, Eq, Structural)]
pub enum CommandError {
    Timeout,
    Invalid,
    Denied,
    Fault,
}

#[derive(Debug, Clone, Copy, PartialEq, Eq, Structural)]
pub enum CommandInner {
    System(system::Command),
    Gpio(gpio::Command),
    Fan(fan::Command),
}

#[derive(Debug, Clone, Copy, PartialEq, Eq, Structural)]
pub struct Command {
    pub id: u8,
    pub _bus: u8,
    pub inner: CommandInner,
}

#[derive(Debug, Clone, Copy, PartialEq, Eq, Structural)]
pub enum ReadPacketResult {
    Command(Command),
    Error { id: u8, error: CommandError },
}

/// The error code byte sent for each error.
pub open spec fn error_code(error: CommandError) -> u8 {
    match error {
        CommandError::Timeout => 0x10,
        CommandError::Invalid => 0x11,
        CommandError::Denied => 0x12,
        CommandError::Fault => 0x13,
    }
}

/// The little-endian 16-bit value of two bytes.
pub open spec fn le_u16_value(lo: u8, hi: u8) -> int {
    lo + 0x100 * hi
}

/// A response frame: its total length little-endian, the echoed id, then the payload.
pub open spec fn response_frame(id: u8, payload: Seq<u8>) -> Seq<u8> {
    let len = payload.len() + 3;
    seq![(len % 0x100) as u8, (len / 0x100) as u8, id] + payload
}

/// The command that a packet body `[id, bus, page, command, data...]` names.
pub open spec fn parse_command(buf: Seq<u8>) -> Result<Command, CommandError>
    recommends
        buf.len() >= 3,
{
    let id = buf[0];
    let bus = buf[1];
    let rest = buf.subrange(3, buf.len() as int);
    if buf[2] == SYSTEM_COMMAND {
        match system::parse(rest) {
            Ok(c) => Ok(Command { id, _bus: bus, inner: CommandInner::System(c) }),
            Err(e) => Err(e),
        }
    } else if buf[2] == GPIO_COMMAND {
        match gpio::parse(rest) {
            Ok(c) => Ok(Command { id, _bus: bus, inner: CommandInner::Gpio(c) }),
            Err(e) => Err(e),
        }
    } else if buf[2] == FAN_COMMAND {
        match fan::parse(rest) {
            Ok(c) => Ok(Command { id, _bus: bus, inner: CommandInner::Fan(c) }),
            Err(e) => Err(e),
        }
    } else {
        Err(CommandError::Invalid)
    }
}

/// What a complete packet body yields: its command, or its id with the error.
pub open spec fn packet_result(body: Seq<u8>) -> ReadPacketResult {
    match parse_command(body) {
        Ok(c) => ReadPacketResult::Command(c),
        Err(e) => ReadPacketResult::Error { id: body[0], error: e },
    }
}

/// The id reported for a broken packet: its id byte once received, else 0xff.
pub open spec fn partial_packet_id(buf: Seq<u8>, num_read: nat) -> u8 {
    if num_read >= 3 {
        buf[2]
    } else {
        0xff
    }
}

/// The length field of the packet at the front of the buffer.
pub open spec fn packet_len_field(buf: Seq<u8>) -> int {
    le_u16_value(buf[0], buf[1])
}

/// The buffer after removing a packet of `len` bytes from the front of the
/// `num_read` bytes received: the excess bytes move to the front and the rest
/// of the buffer is left as it was.
pub open spec fn drop_packet(buf: Seq<u8>, len: int, num_read: int) -> Seq<u8> {
    Seq::new(buf.len(), |i: int| if i < num_read - len { buf[len + i] } else { buf[i] })
}

/// A request packet: its total length little-endian, id, bus, page, then the
/// command byte and its data.
pub open spec fn request_packet(id: u8, bus: u8, page: u8, command: Seq<u8>) -> Seq<u8> {
    let len = command.len() + 5;
    seq![(len % 0x100) as u8, (len / 0x100) as u8, id, bus, page] + command
}

/// Every response frame starts with its own total length, little-endian,
/// followed by the id of the request it answers and then the payload.
pub proof fn lemma_response_frame_header(id: u8, payload: Seq<u8>)
    requires
        payload.len() <= 256,
    ensures
        ({
            let f = response_frame(id, payload);
            &&& f.len() == payload.len() + 3
            &&& le_u16_value(f[0], f[1]) == f.len()
            &&& f[2] == id
            &&& f.subrange(3, f.len() as int) == payload
        }),
{
    let f = response_frame(id, payload);
    let len = payload.len() + 3;
    assert((len % 0x100) as u8 + 0x100 * ((len / 0x100) as u8) == len) by (nonlinear_arith)
        requires len <= 259;
    assert(f.subrange(3, f.len() as int) =~= payload);
}

/// A request packet received at the front of the buffer, followed by any
/// further bytes, is recognised by its length field as one complete packet
/// whose body is its id, bus, page and command bytes, and taking it out
/// leaves exactly the following bytes at the front.
pub proof fn lemma_request_packet_is_extracted(
    buf: Seq<u8>,
    num_read: nat,
    id: u8,
    bus: u8,
    page: u8,
    command: Seq<u8>,
    rest: Seq<u8>,
)
    requires
        buf.len() == FRAME_BUFFER_LEN,
        command.len() >= 1,
        num_read == request_packet(id, bus, page, command).len() + rest.len(),
        num_read <= FRAME_BUFFER_LEN,
        buf.subrange(0, num_read as int) == request_packet(id, bus, page, command) + rest,
    ensures
        ({
            let packet = request_packet(id, bus, page, command);
            let len = packet_len_field(buf);
            &&& len == packet.len()
            &&& MIN_PACKET_LEN <= len <= FRAME_BUFFER_LEN
            &&& num_read >= len
            &&& buf.subrange(2, len) == seq![id, bus, page] + command
            &&& drop_packet(buf, len, num_read as int).subrange(0, rest.len() as int) == rest
        }),
{
    let packet = request_packet(id, bus, page, command);
    let whole = packet + rest;
    let plen = command.len() + 5;
    assert(buf[0] == whole[0] && buf[1] == whole[1]) by {
        assert(buf.subrange(0, num_read as int)[0] == buf[0]);
        assert(buf.subrange(0, num_read as int)[1] == buf[1]);
    }
    assert((plen % 0x100) as u8 + 0x100 * ((plen / 0x100) as u8) == plen) by (nonlinear_arith)
        requires plen <= 4098;
    assert(packet_len_field(buf) == plen);
    assert forall|k: int| 0 <= k < num_read implies buf[k] == whole[k] by {
        assert(buf.subrange(0, num_read as int)[k] == buf[k]);
    }
    assert(buf.subrange(2, plen as int) =~= seq![id, bus, page] + command);
    assert(drop_packet(buf, plen as int, num_read as int).subrange(0, rest.len() as int) =~= rest);
}

impl Command {
    pub fn from_bytes(buf: &[u8]) -> (r: Result<Self, CommandError>)
        requires
            buf@.len() >= 3,
            buf@[2] == FAN_COMMAND ==> buf@.len() >= 4,
        ensures
            r == parse_command(buf@),
    {
        let id = buf[0];
        let rest = &buf[3..buf.len()];
        match buf[2] {
            SYSTEM_COMMAND => match system::Command::from_bytes(rest) {
                Ok(c) => Ok(Self { id, _bus: buf[1], inner: CommandInner::System(c) }),
                Err(e) => Err(e),
            },
            GPIO_COMMAND => match gpio::Command::from_bytes(rest) {
                Ok(c) => Ok(Self { id, _bus: buf[1], inner: CommandInner::Gpio(c) }),
                Err(e) => Err(e),
            },
            FAN_COMMAND => match fan::Command::from_bytes(rest) {
                Ok(c) => Ok(Self { id, _bus: buf[1], inner: CommandInner::Fan(c) }),
                Err(e) => Err(e),
            },
            _ => Err(CommandError::Invalid),
        }
    }
}

fn frame(id: u8, payload: &[u8]) -> (f: heapless::Vec<u8, 260>)
    requires
        payload@.len() <= 256,
    ensures
        frame_bytes(f) == response_frame(id, payload@),
{
    let len = payload.len() + 3;
    let mut buf = [0u8; 259];
    buf[0] = (len & 0xff) as u8;
    buf[1] = (len >> 8) as u8;
    buf[2] = id;
    assert((len & 0xff) as u8 == (len % 0x100) as u8 && (len >> 8) as u8 == (len / 0x100) as u8) by (bit_vector)
        requires len <= 259;
    let ghost header = seq![(len % 0x100) as u8, (len / 0x100) as u8, id];
    let mut i: usize = 0;
    while i < payload.len()
        invariant
            i <= payload@.len() <= 256,
            len == payload@.len() + 3,
            header == seq![(len % 0x100) as u8, (len / 0x100) as u8, id],
            buf@.subrange(0, i + 3) == header + payload@.subrange(0, i as int),
        decreases payload@.len() - i,
    {
        let ghost before = buf@;
        buf[i + 3] = payload[i];
        i += 1;
        assert(buf@.subrange(0, i + 3) =~= before.subrange(0, i + 2).push(payload@[i - 1]));
        assert(payload@.subrange(0, i as int) =~= payload@.subrange(0, (i - 1) as int).push(payload@[i - 1]));
    }
    assert(payload@.subrange(0, payload@.len() as int) =~= payload@);
    let all = buf.as_slice();
    frame_from_slice(&all[0..len]).unwrap()
}

impl CommandError {
    /// The response frame for this error: the id and the error code.
    pub fn encode(&self, id: u8) -> (f: heapless::Vec<u8, 260>)
        ensures
            frame_bytes(f) == response_frame(id, seq![error_code(*self)]),
    {
        let code: u8 = match self {
            CommandError::Timeout => 0x10,
            CommandError::Invalid => 0x11,
            CommandError::Denied => 0x12,
            CommandError::Fault => 0x13,
        };
        let payload = [code];
        assert(payload@ =~= seq![error_code(*self)]);
        frame(id, payload.as_slice())
    }
}

/// The response frame for a handled command: its payload on success, else its error code.
pub fn encode_response(id: u8, result: Result<heapless::Vec<u8, 256>, CommandError>) -> (f: heapless::Vec<u8, 260>)
    ensures
        match result {
            Ok(payload) => frame_bytes(f) == response_frame(id, payload_bytes(payload)),
            Err(e) => frame_bytes(f) == response_frame(id, seq![error_code(e)]),
        },
{
    match result {
        Ok(payload) => frame(id, payload_as_slice(&payload)),
        Err(err) => err.encode(id),
    }
}

/// Take the first complete packet out of the receive buffer, whose first
/// `num_read` bytes have been received. A length field outside 6..=4098 is
/// answered with `Invalid` and the buffer discarded; a packet not yet complete
/// waits; a complete packet yields its command or error and the bytes received
/// after it move to the front.
pub fn try_extract_packet(buf: &mut [u8; 4098], num_read: &mut usize) -> (r: Option<ReadPacketResult>)
    requires
        *old(num_read) <= FRAME_BUFFER_LEN,
    ensures
        ({
            let n = *old(num_read) as int;
            let b = old(buf)@;
            let len = packet_len_field(b);
            if n < 2 {
                &&& r is None
                &&& *final(num_read) == n
                &&& final(buf)@ == b
            } else if len < MIN_PACKET_LEN || len > FRAME_BUFFER_LEN {
                &&& r == Some(ReadPacketResult::Error { id: partial_packet_id(b, n as nat), error: CommandError::Invalid })
                &&& *final(num_read) == 0
                &&& final(buf)@ == b
            } else if n < len {
                &&& r is None
                &&& *final(num_read) == n
                &&& final(buf)@ == b
            } else {
                &&& r == Some(packet_result(b.subrange(2, len)))
                &&& *final(num_read) == n - len
                &&& final(buf)@ == drop_packet(b, len, n)
            }
        }),
{
    let n = *num_read;
    if n < 2 {
        return None;
    }

    let packet_len = buf[0] as usize + 256 * (buf[1] as usize);
    if packet_len < MIN_PACKET_LEN || packet_len > buf.len() {
        let id = if n >= 3 { buf[2] } else { 0xff };
        *num_read = 0;
        return Some(ReadPacketResult::Error { id, error: CommandError::Invalid });
    }

    if n < packet_len {
        return None;
    }

    let id = buf[2];
    let all = buf.as_slice();
    let result = match Command::from_bytes(&all[2..packet_len]) {
        Ok(cmd) => ReadPacketResult::Command(cmd),
        Err(error) => ReadPacketResult::Error { id, error },
    };

    let excess = n - packet_len;
    let ghost b = buf@;
    let mut i: usize = 0;
    while i < excess
        invariant
            i <= excess,
            excess == n - packet_len,
            6 <= packet_len <= n <= 4098,
            b.len() == 4098,
            buf@.len() == 4098,
            forall|k: int| 0 <= k < i ==> buf@[k] == b[packet_len + k],
            forall|k: int| i <= k < 4098 ==> buf@[k] == b[k],
        decreases excess - i,
    {
        let byte = buf[packet_len + i];
        buf[i] = byte;
        i += 1;
    }
    assert(buf@ =~= drop_packet(b, packet_len as int, n as int));
    *num_read = excess;

    Some(result)
}

/// What a receive timeout does to a partly received packet: nothing when the
/// buffer is empty, else a `Timeout` error for it and the buffer discarded.
pub fn timeout_packet_result(buf: &[u8; 4098], num_read: &mut usize) -> (r: Option<ReadPacketResult>)
    ensures
        *old(num_read) == 0 ==> r is None && *final(num_read) == 0,
        *old(num_read) > 0 ==> r == Some(ReadPacketResult::Error {
            id: partial_packet_id(buf@, *old(num_read) as nat),
            error: CommandError::Timeout,
        }) && *final(num_read) == 0,
{
    if *num_read == 0 {
        return None;
    }
    let id = if *num_read >= 3 { buf[2] } else { 0xff };
    *num_read = 0;
    Some(ReadPacketResult::Error { id, error: CommandError::Timeout })
}

} // verus!
