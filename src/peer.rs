//! The peer registry: the local peer, the remote peers in the order they were
//! first seen, and each one's chat log.

use vstd::prelude::*;

use crate::chat::{just_created, Chat, ContentView, Message, MessageView};
use crate::discovery::DiscoveryMessage;
use crate::ids::{is_uuid_v4_text, new_id};
use crate::text::{chars_of, push_str, same_text, string_of};
use crate::transfer::CreateFile;

verus! {

/// Where a peer's responder listens: an IPv4 address (as a number, most
/// significant octet first) and a port.
#[derive(Debug, Clone, Copy, PartialEq, Eq, Structural)]
pub struct ServiceAddress {
    pub ip: u32,
    pub port: u16,
}

/// A peer: its identity, where it listens, and the chat held with it.
#[derive(Debug)]
pub struct Peer {
    pub id: String,
    pub name: String,
    pub secret: String,
    pub address: ServiceAddress,
    pub chat: Chat,
}

pub ghost struct PeerView {
    pub id: Seq<char>,
    pub name: Seq<char>,
    pub secret: Seq<char>,
    pub address: ServiceAddress,
    pub chat: Seq<MessageView>,
}

impl View for Peer {
    type V = PeerView;

    open spec fn view(&self) -> PeerView {
        PeerView {
            id: self.id@,
            name: self.name@,
            secret: self.secret@,
            address: self.address,
            chat: self.chat@,
        }
    }
}

impl Clone for Peer {
    fn clone(&self) -> (r: Self)
        ensures
            r@ == self@,
    {
        Peer {
            id: self.id.clone(),
            name: self.name.clone(),
            secret: self.secret.clone(),
            address: self.address,
            chat: self.chat.clone(),
        }
    }
}

impl Peer {
    /// A peer with an empty chat.
    pub fn new(id: String, name: String, secret: String, address: ServiceAddress) -> (r: Peer)
        ensures
            r@ == (PeerView {
                id: id@,
                name: name@,
                secret: secret@,
                address,
                chat: Seq::empty(),
            }),
    {
        Peer { id, name, secret, address, chat: Chat::new() }
    }

    /// The name followed by the first four characters of the id in
    /// parentheses, as peers are listed to the user.
    pub fn label(&self) -> (r: String)
        ensures
            r@ == self.name@ + seq![' ', '('] + self.id@.take(
                if self.id@.len() < 4 {
                    self.id@.len() as int
                } else {
                    4
                },
            ) + seq![')'],
    {
        let mut r = self.name.clone();
        push_str(&mut r, " (");
        let id = chars_of(self.id.as_str());
        let n: usize = if id.len() < 4 {
            id.len()
        } else {
            4
        };
        let short = string_of(&id.as_slice()[0..n]);
        push_str(&mut r, short.as_str());
        push_str(&mut r, ")");
        proof {
            reveal_strlit(" (");
            reveal_strlit(")");
            assert(short@ =~= self.id@.take(n as int));
        }
        r
    }
}

/// The name a peer goes by unless it is given another.
pub open spec fn default_name() -> Seq<char> {
    seq!['B', 'u', 'd', 'd', 'y']
}

/// The local peer: fresh id and secret, the default name, and its responder
/// listening on every interface at `server_port`.
pub fn create_self_peer(server_port: u16) -> (r: Peer)
    ensures
        is_uuid_v4_text(r@.id),
        is_uuid_v4_text(r@.secret),
        r@.name == default_name(),
        r@.address == (ServiceAddress { ip: 0, port: server_port }),
        r@.chat == Seq::<MessageView>::empty(),
{
    let mut name = String::new();
    push_str(&mut name, "Buddy");
    proof {
        reveal_strlit("Buddy");
        assert(name@ =~= default_name());
    }
    Peer::new(new_id(), name, new_id(), ServiceAddress { ip: 0, port: server_port })
}

/// The registry as values: the local peer and the remote peers.
pub ghost struct PeersView {
    pub self_peer: PeerView,
    pub items: Seq<PeerView>,
}

/// The position of the peer with this id among `items`, if any.
pub open spec fn peer_index(items: Seq<PeerView>, id: Seq<char>) -> Option<int>
    decreases items.len(),
{
    if items.len() == 0 {
        None
    } else if items[0].id == id {
        Some(0)
    } else {
        match peer_index(items.drop_first(), id) {
            Some(i) => Some(i + 1),
            None => None,
        }
    }
}

/// The record kept for a peer id, if any.
pub open spec fn find_peer(r: PeersView, id: Seq<char>) -> Option<PeerView> {
    match peer_index(r.items, id) {
        Some(i) => Some(r.items[i]),
        None => None,
    }
}

/// Ids are unique among the remote peers, and none is the local peer's.
pub open spec fn registry_wf(r: PeersView) -> bool {
    &&& forall|i: int, j: int|
        0 <= i < j < r.items.len() ==> #[trigger] r.items[i].id != #[trigger] r.items[j].id
    &&& forall|i: int| 0 <= i < r.items.len() ==> #[trigger] r.items[i].id != r.self_peer.id
}

/// The registry after `register(peer)`: the local peer and known ids are
/// left alone, a new id is added at the end.
pub open spec fn registered(r: PeersView, peer: PeerView) -> PeersView {
    if peer.id == r.self_peer.id || peer_index(r.items, peer.id) is Some {
        r
    } else {
        PeersView { items: r.items.push(peer), ..r }
    }
}

/// The peer that a beacon announces, reached at the beacon's source address.
pub open spec fn announced_peer(id: Seq<char>, name: Seq<char>, service_port: u16, source_ip: u32) -> PeerView {
    PeerView {
        id,
        name,
        secret: Seq::empty(),
        address: ServiceAddress { ip: source_ip, port: service_port },
        chat: Seq::empty(),
    }
}

/// `p` with `m` appended to its chat.
pub open spec fn with_message(p: PeerView, m: MessageView) -> PeerView {
    PeerView { chat: p.chat.push(m), ..p }
}

/// The registry after `m` was appended to the chat of the peer at `i`.
pub open spec fn appended(r: PeersView, i: int, m: MessageView) -> PeersView {
    PeersView { items: r.items.update(i, with_message(r.items[i], m)), ..r }
}

/// `after` is `before` with a text message from `sender` holding `text`
/// appended to the chat of peer `peer_id`, or `before` itself if that peer
/// is unknown.
pub open spec fn chat_added(
    before: PeersView,
    after: PeersView,
    peer_id: Seq<char>,
    sender: Seq<char>,
    text: Seq<char>,
) -> bool {
    match peer_index(before.items, peer_id) {
        None => after == before,
        Some(i) => {
            let m = after.items[i].chat.last();
            &&& after == appended(before, i, m)
            &&& m.sender == sender
            &&& m.content == (ContentView::Text { text })
            &&& is_uuid_v4_text(m.id)
        },
    }
}

/// `after` is `before` with a file message from `sender` for `filename`,
/// under a fresh file id and labelled `Just created.`, appended to the chat
/// of peer `peer_id`, or `before` itself if that peer is unknown.
pub open spec fn file_added(
    before: PeersView,
    after: PeersView,
    peer_id: Seq<char>,
    sender: Seq<char>,
    filename: Seq<char>,
) -> bool {
    match peer_index(before.items, peer_id) {
        None => after == before,
        Some(i) => {
            let m = after.items[i].chat.last();
            &&& after == appended(before, i, m)
            &&& m.sender == sender
            &&& m.content matches ContentView::File { file_id, filename: f, progress } && {
                &&& is_uuid_v4_text(file_id)
                &&& f == filename
                &&& progress == just_created()
            }
            &&& is_uuid_v4_text(m.id)
        },
    }
}

/// Finds the first index whose id is `id`, as `peer_index` does.
proof fn lemma_peer_index_at(items: Seq<PeerView>, id: Seq<char>, i: int)
    requires
        0 <= i <= items.len(),
        forall|k: int| 0 <= k < i ==> #[trigger] items[k].id != id,
        i < items.len() ==> items[i].id == id,
    ensures
        peer_index(items, id) == (if i < items.len() {
            Some(i)
        } else {
            None::<int>
        }),
    decreases i,
{
    if i > 0 {
        let t = items.drop_first();
        assert forall|k: int| 0 <= k < i - 1 implies #[trigger] t[k].id != id by {
            assert(t[k] == items[k + 1]);
        }
        lemma_peer_index_at(t, id, i - 1);
        assert(items[0].id != id);
    }
}

/// `peer_index` names a peer with that id.
proof fn lemma_peer_index_valid(items: Seq<PeerView>, id: Seq<char>)
    ensures
        peer_index(items, id) matches Some(i) ==> 0 <= i < items.len() && items[i].id == id,
        peer_index(items, id) is None ==> forall|k: int| 0 <= k < items.len() ==> #[trigger] items[k].id != id,
    decreases items.len(),
{
    if items.len() > 0 {
        let t = items.drop_first();
        lemma_peer_index_valid(t, id);
        if peer_index(items, id) is None {
            assert forall|k: int| 0 <= k < items.len() implies #[trigger] items[k].id != id by {
                if k > 0 {
                    assert(items[k] == t[k - 1]);
                }
            }
        }
    }
}

/// The registry after the same beacon arrived from each of `sources` in turn.
pub open spec fn after_beacons(
    r: PeersView,
    id: Seq<char>,
    name: Seq<char>,
    service_port: u16,
    sources: Seq<u32>,
) -> PeersView
    decreases sources.len(),
{
    if sources.len() == 0 {
        r
    } else {
        registered(
            after_beacons(r, id, name, service_port, sources.drop_last()),
            announced_peer(id, name, service_port, sources.last()),
        )
    }
}

/// Registration keeps the registry's invariant.
pub proof fn lemma_registered_wf(r: PeersView, peer: PeerView)
    requires
        registry_wf(r),
    ensures
        registry_wf(registered(r, peer)),
{
    lemma_peer_index_valid(r.items, peer.id);
}

/// A beacon that carries the local peer's id leaves the registry unchanged,
/// whatever its name, port and source.
pub proof fn lemma_own_beacon_ignored(
    r: PeersView,
    id: Seq<char>,
    name: Seq<char>,
    service_port: u16,
    source_ip: u32,
)
    requires
        id == r.self_peer.id,
    ensures
        registered(r, announced_peer(id, name, service_port, source_ip)) == r,
{
}

/// Once registration has run, the registry holds a record under the
/// registered id, unless that id is the local peer's: a snapshot taken after
/// `register` shows the peer.
pub proof fn lemma_snapshot_shows_registration(r: PeersView, peer: PeerView)
    requires
        registry_wf(r),
        peer.id != r.self_peer.id,
    ensures
        find_peer(registered(r, peer), peer.id) is Some,
        find_peer(r, peer.id) is None ==> find_peer(registered(r, peer), peer.id) == Some(peer),
{
    lemma_peer_index_valid(r.items, peer.id);
    if peer_index(r.items, peer.id) is None {
        let items = r.items.push(peer);
        assert forall|k: int| 0 <= k < r.items.len() implies #[trigger] items[k].id != peer.id by {
            assert(items[k] == r.items[k]);
        }
        lemma_peer_index_at(items, peer.id, r.items.len() as int);
    }
}

/// Once a message is appended to a peer's chat, a snapshot shows it as the
/// last message of that peer.
pub proof fn lemma_snapshot_shows_message(r: PeersView, id: Seq<char>, m: MessageView)
    requires
        registry_wf(r),
        peer_index(r.items, id) is Some,
    ensures
        find_peer(appended(r, peer_index(r.items, id)->0, m), id) matches Some(p) && p.chat.last()
            == m,
{
    lemma_peer_index_valid(r.items, id);
    let i = peer_index(r.items, id)->0;
    let s = appended(r, i, m);
    assert forall|k: int| 0 <= k < i implies #[trigger] s.items[k].id != id by {
        assert(s.items[k] == r.items[k]);
        assert(r.items[k].id != r.items[i].id);
    }
    lemma_peer_index_at(s.items, id, i);
}

/// Of two registrations under one id, the first stays: after `register(p1)`
/// then `register(p2)`, the record under that id is `p1`.
pub proof fn lemma_first_registration_wins(r: PeersView, p1: PeerView, p2: PeerView)
    requires
        registry_wf(r),
        p1.id == p2.id,
        p1.id != r.self_peer.id,
        find_peer(r, p1.id) is None,
    ensures
        find_peer(registered(registered(r, p1), p2), p1.id) == Some(p1),
{
    lemma_snapshot_shows_registration(r, p1);
}

/// The same beacon arriving any number of times, from any sources, registers
/// at most one peer: the registry is as after its first arrival.
pub proof fn lemma_repeated_beacon(
    r: PeersView,
    id: Seq<char>,
    name: Seq<char>,
    service_port: u16,
    sources: Seq<u32>,
)
    requires
        registry_wf(r),
        sources.len() >= 1,
    ensures
        after_beacons(r, id, name, service_port, sources) == after_beacons(
            r,
            id,
            name,
            service_port,
            sources.take(1),
        ),
        after_beacons(r, id, name, service_port, sources).items.len() <= r.items.len() + 1,
    decreases sources.len(),
{
    let first = sources.take(1);
    assert(first.drop_last() =~= Seq::<u32>::empty());
    let s1 = after_beacons(r, id, name, service_port, first);
    lemma_registered_wf(r, announced_peer(id, name, service_port, first.last()));
    assert(after_beacons(r, id, name, service_port, first.drop_last()) == r);
    assert(s1 == registered(r, announced_peer(id, name, service_port, first.last())));
    if sources.len() > 1 {
        lemma_repeated_beacon(r, id, name, service_port, sources.drop_last());
        assert(sources.drop_last().take(1) =~= first);
        if id != r.self_peer.id {
            lemma_snapshot_shows_registration(r, announced_peer(id, name, service_port, first.last()));
            assert(peer_index(s1.items, id) is Some);
        }
        assert(registered(s1, announced_peer(id, name, service_port, sources.last())) == s1);
    } else {
        assert(sources =~= first);
    }
}

/// The registry of known peers.
///
/// Every mutation yields a registry whose `watch_peers` snapshot already holds
/// it; the caller hands that snapshot on to whoever watches the peers.
#[derive(Debug)]
pub struct Peers {
    self_peer: Peer,
    items: Vec<Peer>,
}

impl View for Peers {
    type V = PeersView;

    closed spec fn view(&self) -> PeersView {
        PeersView { self_peer: self.self_peer@, items: self.items@.map_values(|p: Peer| p@) }
    }
}

impl Peers {
    /// The registry's invariant: unique remote ids, none of them local.
    pub open spec fn wf(&self) -> bool {
        registry_wf(self@)
    }

    /// A registry that knows only the local peer.
    pub fn new(self_peer: Peer) -> (r: Peers)
        ensures
            r@ == (PeersView { self_peer: self_peer@, items: Seq::empty() }),
            r.wf(),
    {
        let r = Peers { self_peer, items: Vec::new() };
        proof {
            assert(r@.items =~= Seq::<PeerView>::empty());
        }
        r
    }

    /// A copy of the local peer.
    pub fn self_peer(&self) -> (r: Peer)
        ensures
            r@ == self@.self_peer,
    {
        self.self_peer.clone()
    }

    /// The index of the peer with this id.
    fn index_of(&self, id: &str) -> (r: Option<usize>)
        ensures
            r matches Some(i) ==> peer_index(self@.items, id@) == Some(i as int),
            r is None ==> peer_index(self@.items, id@) is None,
            r matches Some(i) ==> i < self.items@.len() == self@.items.len() && self@.items[i as int].id == id@,
    {
        proof {
            lemma_peer_index_valid(self@.items, id@);
        }
        let mut i: usize = 0;
        while i < self.items.len()
            invariant
                i <= self.items@.len() == self@.items.len(),
                forall|k: int| 0 <= k < i ==> #[trigger] self@.items[k].id != id@,
            decreases self.items@.len() - i,
        {
            proof {
                assert(self@.items[i as int] == self.items@[i as int]@);
            }
            if same_text(self.items[i].id.as_str(), id) {
                proof {
                    lemma_peer_index_at(self@.items, id@, i as int);
                }
                return Some(i);
            }
            i += 1;
        }
        proof {
            lemma_peer_index_at(self@.items, id@, i as int);
        }
        None
    }

    /// Adds a peer unless it is the local peer or its id is already known:
    /// the first record under an id stays.
    pub fn register(&mut self, peer: Peer)
        requires
            old(self).wf(),
        ensures
            final(self).wf(),
            final(self)@ == registered(old(self)@, peer@),
    {
        if same_text(peer.id.as_str(), self.self_peer.id.as_str()) {
            return;
        }
        match self.index_of(peer.id.as_str()) {
            Some(_) => {},
            None => {
                proof {
                    lemma_peer_index_valid(self@.items, peer@.id);
                }
                let ghost before = self@;
                self.items.push(peer);
                proof {
                    assert(self@.items =~= before.items.push(peer@));
                    assert(registry_wf(self@));
                }
            },
        }
    }

    /// A copy of the record kept for a peer id.
    pub fn find_by_id(&self, id: &str) -> (r: Option<Peer>)
        ensures
            match find_peer(self@, id@) {
                Some(p) => r matches Some(q) && q@ == p,
                None => r is None,
            },
    {
        match self.index_of(id) {
            Some(i) => Some(self.items[i].clone()),
            None => None,
        }
    }

    /// Where the peer with this id listens.
    pub fn find_peer_address(&self, peer_id: &str) -> (r: Option<ServiceAddress>)
        ensures
            match find_peer(self@, peer_id@) {
                Some(p) => r == Some(p.address),
                None => r is None,
            },
    {
        match self.index_of(peer_id) {
            Some(i) => Some(self.items[i].address),
            None => None,
        }
    }

    /// Appends a message to the chat of the peer at `i`.
    fn append(&mut self, i: usize, m: Message)
        requires
            old(self).wf(),
            i < old(self)@.items.len(),
        ensures
            final(self).wf(),
            final(self)@ == appended(old(self)@, i as int, m@),
    {
        let ghost before = self@;
        self.items[i].chat.push(m);
        proof {
            assert(self@.items =~= before.items.update(i as int, with_message(before.items[i as int], m@)));
            assert(registry_wf(self@));
        }
    }

    /// Appends a text message from `sender_id` to the chat of peer
    /// `peer_id`; nothing happens if that peer is unknown.
    pub fn add_chat(&mut self, peer_id: &str, sender_id: &str, chat: String)
        requires
            old(self).wf(),
        ensures
            final(self).wf(),
            chat_added(old(self)@, final(self)@, peer_id@, sender_id@, chat@),
    {
        match self.index_of(peer_id) {
            None => {},
            Some(i) => {
                let m = Message::new_text(sender_id, chat);
                self.append(i, m);
            },
        }
    }

    /// Appends a file message from `sender_id` to the chat of peer `peer_id`,
    /// under a fresh file id and with the progress label `Just created.`;
    /// nothing happens if that peer is unknown.
    pub fn add_file(&mut self, peer_id: &str, sender_id: &str, file: CreateFile)
        requires
            old(self).wf(),
        ensures
            final(self).wf(),
            file_added(old(self)@, final(self)@, peer_id@, sender_id@, file.filename@),
    {
        match self.index_of(peer_id) {
            None => {},
            Some(i) => {
                let mut progress = String::new();
                push_str(&mut progress, "Just created.");
                proof {
                    reveal_strlit("Just created.");
                    assert(progress@ =~= just_created());
                }
                let m = Message::new_file(sender_id, new_id(), file.filename, progress);
                self.append(i, m);
            },
        }
    }

    /// Takes in a beacon received from `source_ip`. A beacon of the local
    /// peer or of a known peer changes nothing; one of a new peer registers
    /// it, reached at the source address and the announced port. Returns
    /// whether a peer was added.
    pub fn handle_discovery(&mut self, message: &DiscoveryMessage, source_ip: u32) -> (added: bool)
        requires
            old(self).wf(),
        ensures
            final(self).wf(),
            final(self)@ == registered(
                old(self)@,
                announced_peer(message.id@, message.name@, message.service_port, source_ip),
            ),
            added == (final(self)@.items.len() == old(self)@.items.len() + 1),
    {
        let address = ServiceAddress { ip: source_ip, port: message.service_port };
        let peer = Peer::new(message.id.clone(), message.name.clone(), String::new(), address);
        let before_len = self.items.len();
        self.register(peer);
        proof {
            assert(peer@ == announced_peer(message.id@, message.name@, message.service_port, source_ip));
        }
        self.items.len() != before_len
    }

    /// The current peers, in the order they were first seen: the value a new
    /// watcher of the registry starts from.
    pub fn watch_peers(&self) -> (r: Vec<Peer>)
        ensures
            r@.map_values(|p: Peer| p@) == self@.items,
    {
        let mut r: Vec<Peer> = Vec::new();
        let mut i: usize = 0;
        while i < self.items.len()
            invariant
                i <= self.items@.len(),
                r@.len() == i,
                forall|k: int| 0 <= k < i ==> #[trigger] r@[k]@ == self.items@[k]@,
            decreases self.items@.len() - i,
        {
            r.push(self.items[i].clone());
            i += 1;
        }
        proof {
            assert(r@.map_values(|p: Peer| p@) =~= self@.items);
        }
        r
    }
}

} // verus!
