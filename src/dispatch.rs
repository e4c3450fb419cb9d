//! Routing of a received request to the registry and the file-transfer
//! logic, and the response that answers it.
//!
//! Requests that need the file system are answered in two steps: the
//! dispatcher says what to do, and once it is done the outcome is turned into
//! the response.

use vstd::prelude::*;

use crate::peer::{chat_added, file_added, Peers, PeersView};
use crate::request::{FileRequest, Request, RequestBody};
use crate::response::{FileResponse, Response, ResponseBody};
use crate::text::push_str;
use crate::transfer::{error_text, CreateFile, FileChunk, FileError};

verus! {

/// What the dispatcher asks for.
#[derive(Debug)]
pub enum Dispatch {
    /// Answer with this response.
    Reply(Response),
    /// Create the download artifacts for this file, then answer with
    /// `file_created`.
    CreateFile(CreateFile),
    /// Check and write this chunk, then answer with `chunk_written`.
    WriteChunk(FileChunk),
}

/// The account sent back for a request that the dispatcher does not serve.
pub open spec fn unhandled_text() -> Seq<char> {
    "Unhandled request body!"@
}

/// A response from the local peer.
pub open spec fn answers(r: Response, peers: PeersView, body: ResponseBody) -> bool {
    &&& r.peer_id@ == peers.self_peer.id
    &&& r.secret@ == peers.self_peer.secret
    &&& r.body == body
}

fn reply(peers: &Peers, body: ResponseBody) -> (r: Response)
    ensures
        answers(r, peers@, body),
{
    let me = peers.self_peer();
    Response::new(me.id, me.secret, body)
}

fn unhandled() -> (r: String)
    ensures
        r@ == unhandled_text(),
{
    let mut r = String::new();
    push_str(&mut r, "Unhandled request body!");
    r
}

/// Routes a request. `Connect` is acknowledged; `Chat` is appended to the
/// sender's chat and acknowledged; a file creation or a chunk is handed on;
/// anything else is refused.
pub fn dispatch_request(peers: &mut Peers, request: Request) -> (r: Dispatch)
    requires
        old(peers).wf(),
    ensures
        final(peers).wf(),
        match request.body {
            RequestBody::Connect => {
                &&& final(peers)@ == old(peers)@
                &&& r matches Dispatch::Reply(a) && answers(a, old(peers)@, ResponseBody::Success)
            },
            RequestBody::Chat(text) => {
                &&& chat_added(old(peers)@, final(peers)@, request.peer_id@, request.peer_id@, text@)
                &&& r matches Dispatch::Reply(a) && answers(a, old(peers)@, ResponseBody::Success)
            },
            RequestBody::File(FileRequest::CreateFile(f)) => {
                &&& final(peers)@ == old(peers)@
                &&& r == Dispatch::CreateFile(f)
            },
            RequestBody::File(FileRequest::FileChunk(c)) => {
                &&& final(peers)@ == old(peers)@
                &&& r == Dispatch::WriteChunk(c)
            },
            _ => {
                &&& final(peers)@ == old(peers)@
                &&& r matches Dispatch::Reply(a) && a.body matches ResponseBody::Failure(t) && {
                    &&& t@ == unhandled_text()
                    &&& answers(a, old(peers)@, a.body)
                }
            },
        },
{
    match request.body {
        RequestBody::Connect => Dispatch::Reply(reply(peers, ResponseBody::Success)),
        RequestBody::Chat(text) => {
            let a = reply(peers, ResponseBody::Success);
            peers.add_chat(request.peer_id.as_str(), request.peer_id.as_str(), text);
            Dispatch::Reply(a)
        },
        RequestBody::File(FileRequest::CreateFile(f)) => Dispatch::CreateFile(f),
        RequestBody::File(FileRequest::FileChunk(c)) => Dispatch::WriteChunk(c),
        _ => Dispatch::Reply(reply(peers, ResponseBody::Failure(unhandled()))),
    }
}

/// Answers a file creation asked for by peer `peer_id`, once the artifacts
/// were made under `outcome`'s file id or could not be. On success the file
/// is recorded in that peer's chat and the id is sent back; on failure the
/// error's account is.
pub fn file_created(
    peers: &mut Peers,
    peer_id: &str,
    file: CreateFile,
    outcome: Result<String, FileError>,
) -> (r: Response)
    requires
        old(peers).wf(),
    ensures
        final(peers).wf(),
        match outcome {
            Ok(file_id) => {
                &&& file_added(old(peers)@, final(peers)@, peer_id@, peer_id@, file.filename@)
                &&& answers(r, old(peers)@, ResponseBody::File(FileResponse::FileCreated(file_id)))
            },
            Err(e) => {
                &&& final(peers)@ == old(peers)@
                &&& r.body matches ResponseBody::Failure(t) && t@ == error_text(e)
                &&& answers(r, old(peers)@, r.body)
            },
        },
{
    match outcome {
        Ok(file_id) => {
            let a = reply(peers, ResponseBody::File(FileResponse::FileCreated(file_id)));
            peers.add_file(peer_id, peer_id, file);
            a
        },
        Err(e) => reply(peers, ResponseBody::Failure(e.message())),
    }
}

/// Answers a chunk once it was written, or could not be.
pub fn chunk_written(peers: &Peers, outcome: Result<(), FileError>) -> (r: Response)
    ensures
        match outcome {
            Ok(()) => answers(r, peers@, ResponseBody::Success),
            Err(e) => r.body matches ResponseBody::Failure(t) && t@ == error_text(e) && answers(
                r,
                peers@,
                r.body,
            ),
        },
{
    match outcome {
        Ok(()) => reply(peers, ResponseBody::Success),
        Err(e) => reply(peers, ResponseBody::Failure(e.message())),
    }
}

} // verus!
