//! ADC page commands.

use vstd::prelude::*;

use super::CommandError;

verus! {

#[derive(Debug, Clone, Copy, PartialEq, Eq, Structural)]
pub enum Command {
    ReadDomain1,
    ReadDomain2,
    ReadDomain3,
}

/// The ADC command a request's command bytes name: exactly one of `0x50`,
/// `0x51`, `0x52`.
pub open spec fn parse(buf: Seq<u8>) -> Result<Command, CommandError> {
    if buf.len() == 1 && buf[0] == 0x50 {
        Ok(Command::ReadDomain1)
    } else if buf.len() == 1 && buf[0] == 0x51 {
        Ok(Command::ReadDomain2)
    } else if buf.len() == 1 && buf[0] == 0x52 {
        Ok(Command::ReadDomain3)
    } else {
        Err(CommandError::Invalid)
    }
}

impl Command {
    pub fn from_bytes(buf: &[u8]) -> (r: Result<Self, CommandError>)
        ensures
            r == parse(buf@),
    {
        if buf.len() != 1 {
            return Err(CommandError::Invalid);
        }
        match buf[0] {
            0x50 => Ok(Self::ReadDomain1),
            0x51 => Ok(Self::ReadDomain2),
            0x52 => Ok(Self::ReadDomain3),
            _ => Err(CommandError::Invalid),
        }
    }
}

} // verus!
