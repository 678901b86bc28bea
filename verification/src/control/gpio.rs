//! GPIO page commands.

use vstd::prelude::*;

use super::CommandError;

verus! {

#[derive(Debug, Clone, Copy, PartialEq, Eq, Structural)]
pub enum Command {
    Set5vEn { level: bool },
    Get5vEn,
    SetAsicRst { level: bool },
    GetAsicRst,
    GetAsicTrip,
}

/// The GPIO command a request's command bytes name: a pin selector alone
/// reads the pin, followed by one level byte it sets the pin (any non-zero
/// level is high); the trip input is read-only.
pub open spec fn parse(buf: Seq<u8>) -> Result<Command, CommandError> {
    if buf.len() == 1 && buf[0] == 0x01 {
        Ok(Command::Get5vEn)
    } else if buf.len() == 2 && buf[0] == 0x01 {
        Ok(Command::Set5vEn { level: buf[1] > 0 })
    } else if buf.len() == 1 && buf[0] == 0x02 {
        Ok(Command::GetAsicRst)
    } else if buf.len() == 2 && buf[0] == 0x02 {
        Ok(Command::SetAsicRst { level: buf[1] > 0 })
    } else if buf.len() == 1 && buf[0] == 0x03 {
        Ok(Command::GetAsicTrip)
    } else {
        Err(CommandError::Invalid)
    }
}

/// A set command carries the requested level in its second byte: zero is
/// low and any other value is high, for both 5v_en and asic_rst; a lone pin
/// byte reads that pin back.
pub proof fn lemma_set_level_is_the_level_byte(level: u8)
    ensures
        parse(seq![0x01u8, level]) == Ok::<Command, CommandError>(Command::Set5vEn { level: level != 0 }),
        parse(seq![0x02u8, level]) == Ok::<Command, CommandError>(Command::SetAsicRst { level: level != 0 }),
        parse(seq![0x01u8, 0u8]) == Ok::<Command, CommandError>(Command::Set5vEn { level: false }),
        parse(seq![0x02u8, 1u8]) == Ok::<Command, CommandError>(Command::SetAsicRst { level: true }),
        parse(seq![0x01u8]) == Ok::<Command, CommandError>(Command::Get5vEn),
        parse(seq![0x02u8]) == Ok::<Command, CommandError>(Command::GetAsicRst),
        parse(seq![0x03u8]) == Ok::<Command, CommandError>(Command::GetAsicTrip),
        parse(seq![0x03u8, level]) == Err::<Command, CommandError>(CommandError::Invalid),
{
}

impl Command {
    pub fn from_bytes(buf: &[u8]) -> (r: Result<Self, CommandError>)
        ensures
            r == parse(buf@),
            buf@.len() == 2 && buf@[0] == 0x01 ==> r == Ok::<Command, CommandError>(Command::Set5vEn { level: buf@[1] != 0 }),
            buf@.len() == 2 && buf@[0] == 0x02 ==> r == Ok::<Command, CommandError>(Command::SetAsicRst { level: buf@[1] != 0 }),
    {
        if buf.len() == 1 {
            match buf[0] {
                0x01 => Ok(Self::Get5vEn),
                0x02 => Ok(Self::GetAsicRst),
                0x03 => Ok(Self::GetAsicTrip),
                _ => Err(CommandError::Invalid),
            }
        } else if buf.len() == 2 {
            match buf[0] {
                0x01 => Ok(Self::Set5vEn { level: buf[1] > 0 }),
                0x02 => Ok(Self::SetAsicRst { level: buf[1] > 0 }),
                _ => Err(CommandError::Invalid),
            }
        } else {
            Err(CommandError::Invalid)
        }
    }
}

} // verus!
