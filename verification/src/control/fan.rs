//! Fan page commands.

use vstd::prelude::*;

use super::CommandError;
use crate::safety_timing::{fan_rpm_from_half_second_pulses, TachCounter};

verus! {

pub const MAX_FAN_PERCENT: u8 = 100;

#[derive(Debug, Clone, Copy, PartialEq, Eq, Structural)]
pub enum Command {
    /// Fan speed, 0-100 percent.
    SetSpeed(u8),
    GetTach,
}

/// The fan command a request's command bytes name: `0x10` with a speed of
/// at most 100 percent, or `0x20`; bytes after those are ignored.
pub open spec fn parse(buf: Seq<u8>) -> Result<Command, CommandError>
    recommends
        buf.len() >= 1,
{
    if buf[0] == 0x10 {
        if buf.len() < 2 || buf[1] > MAX_FAN_PERCENT {
            Err(CommandError::Invalid)
        } else {
            Ok(Command::SetSpeed(buf[1]))
        }
    } else if buf[0] == 0x20 {
        Ok(Command::GetTach)
    } else {
        Err(CommandError::Invalid)
    }
}

/// A set-speed request keeps the requested percentage exactly, for every
/// percentage 0..=100 and whatever bytes follow it; above 100 it is refused.
pub proof fn lemma_set_speed_keeps_the_percentage(speed: u8, rest: Seq<u8>)
    ensures
        speed <= 100 ==> parse(seq![0x10u8, speed] + rest) == Ok::<Command, CommandError>(Command::SetSpeed(speed)),
        speed > 100 ==> parse(seq![0x10u8, speed] + rest) == Err::<Command, CommandError>(CommandError::Invalid),
        parse(seq![0x10u8]) == Err::<Command, CommandError>(CommandError::Invalid),
        parse(seq![0x20u8] + rest) == Ok::<Command, CommandError>(Command::GetTach),
{
    let b = seq![0x10u8, speed] + rest;
    assert(b[0] == 0x10 && b[1] == speed && b.len() >= 2);
    assert((seq![0x20u8] + rest)[0] == 0x20);
}

impl Command {
    pub fn from_bytes(buf: &[u8]) -> (r: Result<Self, CommandError>)
        requires
            buf@.len() >= 1,
        ensures
            r == parse(buf@),
            buf@[0] == 0x10 && buf@.len() >= 2 && buf@[1] <= 100
                ==> r == Ok::<Command, CommandError>(Command::SetSpeed(buf@[1])),
            buf@[0] == 0x10 && (buf@.len() < 2 || buf@[1] > 100)
                ==> r == Err::<Command, CommandError>(CommandError::Invalid),
    {
        match buf[0] {
            0x10 => {
                if buf.len() < 2 {
                    return Err(CommandError::Invalid);
                }
                let speed = buf[1];
                if speed > MAX_FAN_PERCENT {
                    return Err(CommandError::Invalid);
                }
                Ok(Command::SetSpeed(speed))
            },
            0x20 => Ok(Command::GetTach),
            _ => Err(CommandError::Invalid),
        }
    }
}

/// The fan speed reported for a completed half-second tach measurement, or
/// `Invalid` when it does not fit the 16-bit wire field.
pub fn measured_rpm(counter: &TachCounter) -> (r: Result<u16, CommandError>)
    ensures
        counter.pulses() * 60 <= u16::MAX ==> r == Ok::<u16, CommandError>((counter.pulses() * 60) as u16),
        counter.pulses() * 60 > u16::MAX ==> r == Err::<u16, CommandError>(CommandError::Invalid),
{
    match fan_rpm_from_half_second_pulses(counter.pulse_count()) {
        Some(rpm) => Ok(rpm),
        None => Err(CommandError::Invalid),
    }
}

} // verus!
