use mojika::chat::{Chat, Content, Message};
use mojika::discovery::DiscoveryMessage;
use mojika::peer::{create_self_peer, Peer, Peers, ServiceAddress};
use mojika::transfer::CreateFile;

fn addr(ip: u32, port: u16) -> ServiceAddress {
    ServiceAddress { ip, port }
}

fn peer(id: &str, name: &str) -> Peer {
    Peer::new(id.to_string(), name.to_string(), String::new(), addr(0x7f000001, 5000))
}

fn is_uuid(s: &str) -> bool {
    let b = s.as_bytes();
    b.len() == 36
        && b.iter().enumerate().all(|(i, c)| {
            if i == 8 || i == 13 || i == 18 || i == 23 {
                *c == b'-'
            } else {
                c.is_ascii_digit() || (b'a'..=b'f').contains(c)
            }
        })
        && b[14] == b'4'
        && matches!(b[19], b'8' | b'9' | b'a' | b'b')
}

#[test]
fn new_text_message_has_fresh_id() {
    let m = Message::new_text("A", "hello".to_string());
    assert_eq!(m.sender, "A");
    assert!(matches!(&m.content, Content::Text { text } if text == "hello"));
    assert!(is_uuid(&m.id));
    let n = Message::new_text("A", "hello".to_string());
    assert_ne!(m.id, n.id);
}

#[test]
fn new_file_message_keeps_fields() {
    let m = Message::new_file("B", "f1".to_string(), "note.txt".to_string(), "Just created.".to_string());
    assert_eq!(m.sender, "B");
    match &m.content {
        Content::File { file_id, filename, progress } => {
            assert_eq!(file_id, "f1");
            assert_eq!(filename, "note.txt");
            assert_eq!(progress, "Just created.");
        }
        _ => panic!("expected a file message"),
    }
    assert!(is_uuid(&m.id));
}

#[test]
fn chat_starts_empty() {
    assert!(Chat::new().messages.is_empty());
    assert!(Chat::default().messages.is_empty());
}

#[test]
fn self_peer_is_fresh() {
    let me = create_self_peer(5001);
    assert!(is_uuid(&me.id));
    assert!(is_uuid(&me.secret));
    assert_ne!(me.id, me.secret);
    assert_eq!(me.name, "Buddy");
    assert_eq!(me.address, addr(0, 5001));
    assert!(me.chat.messages.is_empty());
}

#[test]
fn peer_label_shows_short_id() {
    assert_eq!(peer("abcdef", "Buddy").label(), "Buddy (abcd)");
    assert_eq!(peer("ab", "X").label(), "X (ab)");
}

#[test]
fn register_skips_self() {
    let mut peers = Peers::new(peer("me", "Me"));
    peers.register(peer("me", "Other"));
    assert!(peers.watch_peers().is_empty());
    assert!(peers.find_by_id("me").is_none());
}

#[test]
fn own_beacon_leaves_registry_unchanged() {
    let mut peers = Peers::new(peer("A", "Me"));
    peers.register(peer("B", "Bee"));
    let beacon = DiscoveryMessage::new("A".to_string(), "Me".to_string(), 5001);
    assert!(!peers.handle_discovery(&beacon, 0x0a000001));
    assert_eq!(peers.watch_peers().len(), 1);
}

#[test]
fn first_registration_wins() {
    let mut peers = Peers::new(peer("me", "Me"));
    peers.register(Peer::new("X".to_string(), "first".to_string(), "s1".to_string(), addr(1, 1)));
    peers.register(Peer::new("X".to_string(), "second".to_string(), "s2".to_string(), addr(2, 2)));
    let found = peers.find_by_id("X").unwrap();
    assert_eq!(found.name, "first");
    assert_eq!(found.secret, "s1");
    assert_eq!(found.address, addr(1, 1));
    assert_eq!(peers.watch_peers().len(), 1);
}

#[test]
fn snapshot_holds_every_mutation() {
    let mut peers = Peers::new(peer("me", "Me"));
    peers.register(peer("B", "Bee"));
    let snap = peers.watch_peers();
    assert_eq!(snap.len(), 1);
    assert_eq!(snap[0].id, "B");
    peers.add_chat("B", "me", "hi".to_string());
    let snap = peers.watch_peers();
    assert_eq!(snap[0].chat.messages.len(), 1);
    assert!(matches!(&snap[0].chat.messages[0].content, Content::Text { text } if text == "hi"));
    peers.add_file("B", "me", CreateFile { filename: "a.txt".to_string(), file_length: 3 });
    let snap = peers.watch_peers();
    assert_eq!(snap[0].chat.messages.len(), 2);
}

#[test]
fn repeated_beacon_registers_once() {
    let mut peers = Peers::new(peer("A", "Me"));
    let beacon = DiscoveryMessage::new("B".to_string(), "Bee".to_string(), 5002);
    assert!(peers.handle_discovery(&beacon, 0xc0a80002));
    for i in 0..10u32 {
        assert!(!peers.handle_discovery(&beacon, 0xc0a80002 + i));
    }
    let snap = peers.watch_peers();
    assert_eq!(snap.len(), 1);
    assert_eq!(snap[0].address, addr(0xc0a80002, 5002));
    assert_eq!(snap[0].name, "Bee");
    assert_eq!(snap[0].secret, "");
}

#[test]
fn discovery_pair() {
    let a_self = Peer::new("A".to_string(), "Buddy".to_string(), "sa".to_string(), addr(0, 5001));
    let b_self = Peer::new("B".to_string(), "Buddy".to_string(), "sb".to_string(), addr(0, 5002));
    let mut a = Peers::new(a_self);
    let mut b = Peers::new(b_self);
    let beacon_a = DiscoveryMessage::new("A".to_string(), "Buddy".to_string(), 5001);
    let beacon_b = DiscoveryMessage::new("B".to_string(), "Buddy".to_string(), 5002);
    // multicast loopback: each host hears both beacons
    for _ in 0..2 {
        a.handle_discovery(&beacon_a, 0x0a000001);
        a.handle_discovery(&beacon_b, 0x0a000002);
        b.handle_discovery(&beacon_a, 0x0a000001);
        b.handle_discovery(&beacon_b, 0x0a000002);
    }
    assert_eq!(a.find_peer_address("B"), Some(addr(0x0a000002, 5002)));
    assert_eq!(b.find_peer_address("A"), Some(addr(0x0a000001, 5001)));
    assert!(a.find_by_id("A").is_none());
    assert!(b.find_by_id("B").is_none());
}

#[test]
fn chat_and_file_for_unknown_peer_do_nothing() {
    let mut peers = Peers::new(peer("me", "Me"));
    peers.register(peer("B", "Bee"));
    peers.add_chat("Z", "me", "hi".to_string());
    peers.add_file("Z", "me", CreateFile { filename: "a".to_string(), file_length: 1 });
    assert!(peers.find_by_id("B").unwrap().chat.messages.is_empty());
    assert!(peers.find_peer_address("Z").is_none());
}

#[test]
fn add_file_records_just_created() {
    let mut peers = Peers::new(peer("me", "Me"));
    peers.register(peer("B", "Bee"));
    peers.add_file("B", "me", CreateFile { filename: "note.txt".to_string(), file_length: 150_000 });
    let b = peers.find_by_id("B").unwrap();
    let m = &b.chat.messages[0];
    assert_eq!(m.sender, "me");
    assert!(is_uuid(&m.id));
    match &m.content {
        Content::File { file_id, filename, progress } => {
            assert!(is_uuid(file_id));
            assert_eq!(filename, "note.txt");
            assert_eq!(progress, "Just created.");
        }
        _ => panic!("expected a file message"),
    }
}

#[test]
fn self_peer_is_kept() {
    let peers = Peers::new(peer("me", "Me"));
    let me = peers.self_peer();
    assert_eq!(me.id, "me");
    assert_eq!(me.name, "Me");
}
