//! The request envelope that a peer sends.

use vstd::prelude::*;

use crate::transfer::{CreateFile, FileChunk};

verus! {

/// What a request asks for.
#[derive(Debug)]
pub enum RequestBody {
    Connect,
    Chat(String),
    File(FileRequest),
    /// Success, with nothing more to say.
    Success,
    /// Failure, with its account.
    Failure(String),
}

/// The file-transfer requests.
#[derive(Debug)]
pub enum FileRequest {
    CreateFile(CreateFile),
    FileCreated(String),
    FileChunk(FileChunk),
}

/// A request: who sends it, their token, and what they ask for.
#[derive(Debug)]
pub struct Request {
    pub peer_id: String,
    pub secret: String,
    pub body: RequestBody,
}

impl Request {
    pub fn new(peer_id: String, secret: String, body: RequestBody) -> (r: Request)
        ensures
            r.peer_id == peer_id,
            r.secret == secret,
            r.body == body,
    {
        Request { peer_id, secret, body }
    }
}

} // verus!
