//! The response envelope that answers a request.

use vstd::prelude::*;

verus! {

/// The answer to a file-transfer request.
#[derive(Debug)]
pub enum FileResponse {
    FileCreated(String),
}

/// What a response says.
#[derive(Debug)]
pub enum ResponseBody {
    File(FileResponse),
    /// Success, with nothing more to say.
    Success,
    /// Failure, with its account.
    Failure(String),
}

/// A response: who answers, their token, and the answer.
#[derive(Debug)]
pub struct Response {
    pub peer_id: String,
    pub secret: String,
    pub body: ResponseBody,
}

impl Response {
    pub fn new(peer_id: String, secret: String, body: ResponseBody) -> (r: Response)
        ensures
            r.peer_id == peer_id,
            r.secret == secret,
            r.body == body,
    {
        Response { peer_id, secret, body }
    }

    /// A response that reports success.
    pub fn create_ok_response(peer_id: String, secret: String) -> (r: Response)
        ensures
            r.peer_id == peer_id,
            r.secret == secret,
            r.body is Success,
    {
        Response::new(peer_id, secret, ResponseBody::Success)
    }
}

} // verus!
