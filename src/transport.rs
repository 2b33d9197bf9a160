//! Completion polling for one security-protocol command.
use vstd::prelude::*;
use crate::session::TransportFailure;

verus! {

/// What to do after one look at the device's completion flag.
#[derive(Clone, Copy, Debug, PartialEq, Eq, Structural)]
pub enum PollAction {
    /// Not complete yet: wait one more interval and look again.
    Wait,
    /// Complete, successfully.
    Done,
    /// Stop: the command failed or ran out of time.
    Fail(TransportFailure),
}

/// The decision after `waited` intervals out of `limit`, given the completion
/// status if the command has completed (zero meaning success).
pub open spec fn poll_spec(waited: u64, limit: u64, completion: Option<u32>) -> PollAction {
    match completion {
        Some(0) => PollAction::Done,
        Some(c) => PollAction::Fail(TransportFailure::Hardware(c)),
        None => if waited >= limit {
            PollAction::Fail(TransportFailure::Timeout)
        } else {
            PollAction::Wait
        },
    }
}

pub fn poll_step(waited: u64, limit: u64, completion: Option<u32>) -> (r: PollAction)
    ensures
        r == poll_spec(waited, limit, completion),
{
    match completion {
        Some(0) => PollAction::Done,
        Some(c) => PollAction::Fail(TransportFailure::Hardware(c)),
        None => if waited >= limit {
            PollAction::Fail(TransportFailure::Timeout)
        } else {
            PollAction::Wait
        },
    }
}

/// Polling ends within `limit + 1` looks: a command that never completes is
/// reported as timed out once `limit` intervals have passed.
pub proof fn polling_is_bounded(waited: u64, limit: u64)
    ensures
        waited >= limit ==> poll_spec(waited, limit, None) == PollAction::Fail(
            TransportFailure::Timeout,
        ),
        waited < limit ==> poll_spec(waited, limit, None) == PollAction::Wait,
{
}

/// The security protocol that carries TCG traffic.
pub const TCG_PROTOCOL: u32 = 0x01;

/// The NVMe admin command that fills one security-protocol exchange.
#[derive(Clone, Copy, Debug, PartialEq, Eq, Structural)]
pub struct SecurityCommand {
    pub opcode: u8,
    pub cdw10: u32,
    pub cdw11: u32,
}

/// Security Send (0x81) or Security Receive (0x82) of `len` bytes on `com_id`:
/// the protocol in the top byte of CDW10, the ComID below it, the length in CDW11.
pub open spec fn security_command_spec(send: bool, com_id: u16, len: u32) -> SecurityCommand {
    SecurityCommand {
        opcode: if send { 0x81 } else { 0x82 },
        cdw10: (TCG_PROTOCOL * 0x100_0000 + com_id * 0x100) as u32,
        cdw11: len,
    }
}

pub fn security_command(send: bool, com_id: u16, len: u32) -> (r: SecurityCommand)
    ensures
        r == security_command_spec(send, com_id, len),
{
    SecurityCommand {
        opcode: if send { 0x81 } else { 0x82 },
        cdw10: TCG_PROTOCOL * 0x100_0000 + com_id as u32 * 0x100,
        cdw11: len,
    }
}

} // verus!
