//! The message kinds of the CM protocol and their numbers.

use vstd::prelude::*;

verus! {

/// A message kind that this library knows.
#[derive(Debug, Clone, Copy, PartialEq, Eq, Structural)]
pub enum EMsg {
    Multi,
    ServiceMethodResponse,
    ServiceMethodCallFromClient,
    ServiceMethodSendToClient,
    ClientHeartBeat,
    ClientLogOff,
    ClientLogOnResponse,
    ClientGetDepotDecryptionKey,
    ClientGetDepotDecryptionKeyResponse,
    ClientLogon,
    ClientRequestFreeLicense,
    ClientRequestFreeLicenseResponse,
    ClientPICSProductInfoRequest,
    ClientPICSProductInfoResponse,
    ClientPICSAccessTokenRequest,
    ClientPICSAccessTokenResponse,
    ServiceMethodCallFromClientNonAuthed,
}

/// The number that stands for a message kind on the wire.
pub open spec fn emsg_number(emsg: EMsg) -> nat {
    match emsg {
        EMsg::Multi => 1,
        EMsg::ServiceMethodResponse => 147,
        EMsg::ServiceMethodCallFromClient => 151,
        EMsg::ServiceMethodSendToClient => 152,
        EMsg::ClientHeartBeat => 703,
        EMsg::ClientLogOff => 706,
        EMsg::ClientLogOnResponse => 751,
        EMsg::ClientGetDepotDecryptionKey => 5438,
        EMsg::ClientGetDepotDecryptionKeyResponse => 5439,
        EMsg::ClientLogon => 5514,
        EMsg::ClientRequestFreeLicense => 5572,
        EMsg::ClientRequestFreeLicenseResponse => 5573,
        EMsg::ClientPICSProductInfoRequest => 8903,
        EMsg::ClientPICSProductInfoResponse => 8904,
        EMsg::ClientPICSAccessTokenRequest => 8905,
        EMsg::ClientPICSAccessTokenResponse => 8906,
        EMsg::ServiceMethodCallFromClientNonAuthed => 9804,
    }
}

/// Distinct message kinds have distinct numbers.
pub proof fn emsg_numbers_are_distinct(a: EMsg, b: EMsg)
    requires
        emsg_number(a) == emsg_number(b),
    ensures
        a == b,
{
}

impl EMsg {
    /// The number of this kind on the wire.
    pub fn to_u32(self) -> (n: u32)
        ensures
            n == emsg_number(self),
    {
        match self {
            EMsg::Multi => 1,
            EMsg::ServiceMethodResponse => 147,
            EMsg::ServiceMethodCallFromClient => 151,
            EMsg::ServiceMethodSendToClient => 152,
            EMsg::ClientHeartBeat => 703,
            EMsg::ClientLogOff => 706,
            EMsg::ClientLogOnResponse => 751,
            EMsg::ClientGetDepotDecryptionKey => 5438,
            EMsg::ClientGetDepotDecryptionKeyResponse => 5439,
            EMsg::ClientLogon => 5514,
            EMsg::ClientRequestFreeLicense => 5572,
            EMsg::ClientRequestFreeLicenseResponse => 5573,
            EMsg::ClientPICSProductInfoRequest => 8903,
            EMsg::ClientPICSProductInfoResponse => 8904,
            EMsg::ClientPICSAccessTokenRequest => 8905,
            EMsg::ClientPICSAccessTokenResponse => 8906,
            EMsg::ServiceMethodCallFromClientNonAuthed => 9804,
        }
    }

    /// The kind with this number, if the library knows one.
    pub fn from_u32(n: u32) -> (r: Option<EMsg>)
        ensures
            r matches Some(emsg) ==> emsg_number(emsg) == n,
            r is None ==> forall|kind: EMsg| #[trigger] emsg_number(kind) != n,
    {
        match n {
            1 => Some(EMsg::Multi),
            147 => Some(EMsg::ServiceMethodResponse),
            151 => Some(EMsg::ServiceMethodCallFromClient),
            152 => Some(EMsg::ServiceMethodSendToClient),
            703 => Some(EMsg::ClientHeartBeat),
            706 => Some(EMsg::ClientLogOff),
            751 => Some(EMsg::ClientLogOnResponse),
            5438 => Some(EMsg::ClientGetDepotDecryptionKey),
            5439 => Some(EMsg::ClientGetDepotDecryptionKeyResponse),
            5514 => Some(EMsg::ClientLogon),
            5572 => Some(EMsg::ClientRequestFreeLicense),
            5573 => Some(EMsg::ClientRequestFreeLicenseResponse),
            8903 => Some(EMsg::ClientPICSProductInfoRequest),
            8904 => Some(EMsg::ClientPICSProductInfoResponse),
            8905 => Some(EMsg::ClientPICSAccessTokenRequest),
            8906 => Some(EMsg::ClientPICSAccessTokenResponse),
            9804 => Some(EMsg::ServiceMethodCallFromClientNonAuthed),
            _ => None,
        }
    }
}

} // verus!
