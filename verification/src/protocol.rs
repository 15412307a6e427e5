use vstd::prelude::*;

verus! {

/// A client request. The binary front end carries a mirror of these
/// types with the codec derives; this crate holds the bare data and the
/// answer each request gets.
pub enum Request {
    /// Upload a path.
    Upload(Upload),
    /// Check whether a server is active.
    Ping,
}

/// A server response.
#[derive(PartialEq, Eq, Structural, Clone, Copy, Debug)]
pub enum Response {
    /// Response for an upload request.
    Upload,
    /// Response for a ping.
    Pong,
}

/// Contents of an upload request.
pub struct Upload {
    /// The store path to upload.
    pub path: String,
}

/// The answer the server owes a request: uploads are acknowledged with
/// an upload response, pings with a pong, nothing else.
pub open spec fn response_spec(req: Request) -> Response {
    match req {
        Request::Upload(_) => Response::Upload,
        Request::Ping => Response::Pong,
    }
}

/// Answer one request.
pub fn response_for(req: &Request) -> (r: Response)
    ensures
        r == response_spec(*req),
{
    match req {
        Request::Upload(_) => Response::Upload,
        Request::Ping => Response::Pong,
    }
}

} // verus!
