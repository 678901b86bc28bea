//! System page commands.

use vstd::prelude::*;

use super::CommandError;

verus! {

#[derive(Debug, Clone, Copy, PartialEq, Eq, Structural)]
pub enum Command {
    GetInfo,
    GetRxStats,
}

/// The system command a request's command bytes name.
pub open spec fn parse(buf: Seq<u8>) -> Result<Command, CommandError> {
    if buf =~= seq![0x01u8] {
        Ok(Command::GetInfo)
    } else if buf =~= seq![0x02u8] {
        Ok(Command::GetRxStats)
    } else {
        Err(CommandError::Invalid)
    }
}

impl Command {
    pub fn from_bytes(buf: &[u8]) -> (r: Result<Self, CommandError>)
        ensures
            r == parse(buf@),
    {
        if buf.len() == 1 && buf[0] == 0x01 {
            assert(buf@ =~= seq![0x01u8]);
            Ok(Self::GetInfo)
        } else if buf.len() == 1 && buf[0] == 0x02 {
            assert(buf@ =~= seq![0x02u8]);
            Ok(Self::GetRxStats)
        } else {
            assert(!(buf@ =~= seq![0x01u8]));
            assert(!(buf@ =~= seq![0x02u8]));
            Err(CommandError::Invalid)
        }
    }
}

} // verus!
