use vstd::prelude::*;

verus! {

/// The kinds of request of the framed transport, by their one-byte code.
#[derive(Clone, Copy, Debug, PartialEq, Eq, Structural)]
pub enum RequestType {
    P2PDiscover,
    NewTransaction,
    NewBlock,
    SyncRequest,
    InitialBlockDownload,
}

/// The code of a request kind.
pub open spec fn request_code(t: RequestType) -> u8 {
    match t {
        RequestType::P2PDiscover => 0,
        RequestType::NewTransaction => 1,
        RequestType::NewBlock => 2,
        RequestType::SyncRequest => 3,
        RequestType::InitialBlockDownload => 4,
    }
}

impl RequestType {
    /// The request kind of a code; codes above 4 name none.
    pub fn try_from_u8(value: u8) -> (r: Result<RequestType, ()>)
        ensures
            value <= 4 ==> r is Ok && request_code(r->Ok_0) == value,
            value > 4 ==> r is Err,
    {
        match value {
            0 => Ok(RequestType::P2PDiscover),
            1 => Ok(RequestType::NewTransaction),
            2 => Ok(RequestType::NewBlock),
            3 => Ok(RequestType::SyncRequest),
            4 => Ok(RequestType::InitialBlockDownload),
            _ => Err(()),
        }
    }

    /// The code of the request kind.
    pub fn into_u8(self) -> (r: u8)
        ensures
            r == request_code(self),
    {
        match self {
            RequestType::P2PDiscover => 0,
            RequestType::NewTransaction => 1,
            RequestType::NewBlock => 2,
            RequestType::SyncRequest => 3,
            RequestType::InitialBlockDownload => 4,
        }
    }
}

/// Distinct request kinds have distinct codes, each at most 4, so reading
/// back a written code gives the kind it was written from.
pub proof fn law_request_code_round_trip(a: RequestType, b: RequestType)
    ensures
        request_code(a) <= 4,
        request_code(a) == request_code(b) ==> a == b,
{
}

} // verus!
