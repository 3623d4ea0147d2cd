use vstd::prelude::*;

verus! {

/// Identifies the worker that owns a message channel.
#[derive(Debug, Clone, Copy, PartialEq, Eq, Hash, Structural)]
pub enum IttiTrxTag {
    PduSessionMgmt,
    NasDecoer,
    Listener,
    GtpUdp,
}

/// A NAS session-management PDU waiting to be decoded.
#[derive(Debug, Clone)]
pub struct NasDecoerSdu {
    pub sdu: Vec<u8>,
}

} // verus!
