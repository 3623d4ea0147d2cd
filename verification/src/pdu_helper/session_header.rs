use vstd::prelude::*;

verus! {

/// Extended protocol discriminator octet of a 5GS session-management message.
pub type ExtendedProtocolDiscriminator = u8;

/// PDU session identity octet.
pub type PDUSessionIdentity = u8;

/// Procedure transaction identity octet.
pub type ProcedureTransactionIdentity = u8;

/// The session-management message types of 3GPP TS 24.501.
#[derive(Debug, Clone, Copy, PartialEq, Eq, Structural)]
pub enum SessionMessageType {
    Unknown,
    EstablishmentRequest,
    EstablishmentAccept,
    EstablishmentReject,
    AuthenticationCommand,
    AuthenticationComplete,
    AuthenticationResult,
    ModificationRequest,
    ModificationReject,
    ModificationCommand,
    ModificationComplete,
    ModificationCommandReject,
    ReleaseRequest,
    ReleaseReject,
    ReleaseCommand,
    ReleaseComplete,
}

impl SessionMessageType {
    /// The message type of a message that has not been decoded yet.
    pub fn default() -> (r: SessionMessageType)
        ensures
            r == SessionMessageType::Unknown,
    {
        SessionMessageType::Unknown
    }
}

/// The session-management message type a message type octet names
/// (3GPP TS 24.501, table 9.7.2); other octets are unknown.
pub open spec fn session_message_type_of(code: u8) -> SessionMessageType {
    if code == 0xc1 {
        SessionMessageType::EstablishmentRequest
    } else if code == 0xc2 {
        SessionMessageType::EstablishmentAccept
    } else if code == 0xc3 {
        SessionMessageType::EstablishmentReject
    } else if code == 0xc5 {
        SessionMessageType::AuthenticationCommand
    } else if code == 0xc6 {
        SessionMessageType::AuthenticationComplete
    } else if code == 0xc7 {
        SessionMessageType::AuthenticationResult
    } else if code == 0xc9 {
        SessionMessageType::ModificationRequest
    } else if code == 0xca {
        SessionMessageType::ModificationReject
    } else if code == 0xcb {
        SessionMessageType::ModificationCommand
    } else if code == 0xcc {
        SessionMessageType::ModificationComplete
    } else if code == 0xcd {
        SessionMessageType::ModificationCommandReject
    } else if code == 0xd1 {
        SessionMessageType::ReleaseRequest
    } else if code == 0xd2 {
        SessionMessageType::ReleaseReject
    } else if code == 0xd3 {
        SessionMessageType::ReleaseCommand
    } else if code == 0xd4 {
        SessionMessageType::ReleaseComplete
    } else {
        SessionMessageType::Unknown
    }
}

/// The message type octets of 3GPP TS 24.501, table 9.7.2: 0xC1 to 0xC3 establishment
/// request, accept, reject; 0xC5 to 0xC7 authentication command, complete, result; 0xC9 to
/// 0xCD modification request, reject, command, complete, command reject; 0xD1 to 0xD4
/// release request, reject, command, complete. Every other octet is an unknown type.
pub proof fn lemma_session_message_type_octets(code: u8)
    ensures
        session_message_type_of(code) == SessionMessageType::EstablishmentRequest <==> code == 0xc1,
        session_message_type_of(code) == SessionMessageType::EstablishmentAccept <==> code == 0xc2,
        session_message_type_of(code) == SessionMessageType::EstablishmentReject <==> code == 0xc3,
        session_message_type_of(code) == SessionMessageType::AuthenticationCommand <==> code == 0xc5,
        session_message_type_of(code) == SessionMessageType::AuthenticationComplete <==> code == 0xc6,
        session_message_type_of(code) == SessionMessageType::AuthenticationResult <==> code == 0xc7,
        session_message_type_of(code) == SessionMessageType::ModificationRequest <==> code == 0xc9,
        session_message_type_of(code) == SessionMessageType::ModificationReject <==> code == 0xca,
        session_message_type_of(code) == SessionMessageType::ModificationCommand <==> code == 0xcb,
        session_message_type_of(code) == SessionMessageType::ModificationComplete <==> code == 0xcc,
        session_message_type_of(code) == SessionMessageType::ModificationCommandReject <==> code == 0xcd,
        session_message_type_of(code) == SessionMessageType::ReleaseRequest <==> code == 0xd1,
        session_message_type_of(code) == SessionMessageType::ReleaseReject <==> code == 0xd2,
        session_message_type_of(code) == SessionMessageType::ReleaseCommand <==> code == 0xd3,
        session_message_type_of(code) == SessionMessageType::ReleaseComplete <==> code == 0xd4,
{
}

impl SessionMessageType {
    /// The message type a message type octet names (see `session_message_type_of`).
    pub fn from_u8(code: u8) -> (r: SessionMessageType)
        ensures
            r == session_message_type_of(code),
    {
        match code {
            0xc1 => SessionMessageType::EstablishmentRequest,
            0xc2 => SessionMessageType::EstablishmentAccept,
            0xc3 => SessionMessageType::EstablishmentReject,
            0xc5 => SessionMessageType::AuthenticationCommand,
            0xc6 => SessionMessageType::AuthenticationComplete,
            0xc7 => SessionMessageType::AuthenticationResult,
            0xc9 => SessionMessageType::ModificationRequest,
            0xca => SessionMessageType::ModificationReject,
            0xcb => SessionMessageType::ModificationCommand,
            0xcc => SessionMessageType::ModificationComplete,
            0xcd => SessionMessageType::ModificationCommandReject,
            0xd1 => SessionMessageType::ReleaseRequest,
            0xd2 => SessionMessageType::ReleaseReject,
            0xd3 => SessionMessageType::ReleaseCommand,
            0xd4 => SessionMessageType::ReleaseComplete,
            _ => SessionMessageType::Unknown,
        }
    }

    /// The type of a plain session-management message: its fourth octet, after the
    /// protocol discriminator, PDU session identity and procedure transaction identity.
    /// A message shorter than four octets has an unknown type.
    pub fn of_message(data: &[u8]) -> (r: SessionMessageType)
        ensures
            r == if data@.len() >= 4 {
                session_message_type_of(data@[3])
            } else {
                SessionMessageType::Unknown
            },
    {
        if data.len() >= 4 {
            SessionMessageType::from_u8(data[3])
        } else {
            SessionMessageType::Unknown
        }
    }
}

} // verus!
