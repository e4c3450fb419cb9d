//! The requests that the local peer starts: a connect, a chat message, and
//! the announcement of a file to send.

use vstd::prelude::*;

use crate::peer::{chat_added, file_added, find_peer, Peers, PeersView, ServiceAddress};
use crate::request::{FileRequest, Request, RequestBody};
use crate::response::{FileResponse, ResponseBody};
use crate::transfer::CreateFile;

verus! {

/// A request from the local peer.
pub open spec fn sent_by_self(q: Request, peers: PeersView, body: RequestBody) -> bool {
    &&& q.peer_id@ == peers.self_peer.id
    &&& q.secret@ == peers.self_peer.secret
    &&& q.body == body
}

fn request_from_self(peers: &Peers, body: RequestBody) -> (q: Request)
    ensures
        sent_by_self(q, peers@, body),
{
    let me = peers.self_peer();
    Request::new(me.id, me.secret, body)
}

/// Where to send a `Connect` to peer `peer_id`, and the request; nothing if
/// the peer is unknown.
pub fn connect_request(peers: &Peers, peer_id: &str) -> (r: Option<(ServiceAddress, Request)>)
    ensures
        match find_peer(peers@, peer_id@) {
            None => r is None,
            Some(p) => r matches Some((a, q)) && a == p.address && sent_by_self(
                q,
                peers@,
                RequestBody::Connect,
            ),
        },
{
    match peers.find_peer_address(peer_id) {
        None => None,
        Some(address) => Some((address, request_from_self(peers, RequestBody::Connect))),
    }
}

/// Records a chat message from `sender_id` in the chat with peer `peer_id`,
/// and returns where to send it and the request that carries it; nothing is
/// recorded or sent if the peer is unknown.
pub fn chat_request(peers: &mut Peers, peer_id: &str, sender_id: &str, text: String) -> (r: Option<
    (ServiceAddress, Request),
>)
    requires
        old(peers).wf(),
    ensures
        final(peers).wf(),
        chat_added(old(peers)@, final(peers)@, peer_id@, sender_id@, text@),
        match find_peer(old(peers)@, peer_id@) {
            None => r is None,
            Some(p) => r matches Some((a, q)) && {
                &&& a == p.address
                &&& q.body matches RequestBody::Chat(t) && t@ == text@
                &&& sent_by_self(q, old(peers)@, q.body)
            },
        },
{
    let address = peers.find_peer_address(peer_id);
    let q = request_from_self(peers, RequestBody::Chat(text.clone()));
    peers.add_chat(peer_id, sender_id, text);
    match address {
        None => None,
        Some(a) => Some((a, q)),
    }
}

/// Records a file offered by `sender_id` in the chat with peer `peer_id`,
/// and returns where to announce it and the `CreateFile` request; nothing is
/// recorded or sent if the peer is unknown.
pub fn file_request(peers: &mut Peers, peer_id: &str, sender_id: &str, file: CreateFile) -> (r:
    Option<(ServiceAddress, Request)>)
    requires
        old(peers).wf(),
    ensures
        final(peers).wf(),
        file_added(old(peers)@, final(peers)@, peer_id@, sender_id@, file.filename@),
        match find_peer(old(peers)@, peer_id@) {
            None => r is None,
            Some(p) => r matches Some((a, q)) && {
                &&& a == p.address
                &&& q.body matches RequestBody::File(FileRequest::CreateFile(c)) && {
                    &&& c.filename@ == file.filename@
                    &&& c.file_length == file.file_length
                }
                &&& sent_by_self(q, old(peers)@, q.body)
            },
        },
{
    let address = peers.find_peer_address(peer_id);
    let announced = CreateFile { filename: file.filename.clone(), file_length: file.file_length };
    let q = request_from_self(peers, RequestBody::File(FileRequest::CreateFile(announced)));
    peers.add_file(peer_id, sender_id, file);
    match address {
        None => None,
        Some(a) => Some((a, q)),
    }
}

/// The file id that the receiver assigned, if the answer to a `CreateFile`
/// carries one.
pub fn created_file_id(body: ResponseBody) -> (r: Option<String>)
    ensures
        match body {
            ResponseBody::File(FileResponse::FileCreated(id)) => r == Some(id),
            _ => r is None,
        },
{
    match body {
        ResponseBody::File(FileResponse::FileCreated(id)) => Some(id),
        _ => None,
    }
}

} // verus!
