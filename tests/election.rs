use tp2::errors::Error;
use tp2::local_server::leader_election::{Election, FindNew, RingKind, RingMessage};

fn msg(kind: RingKind, ids: Vec<u64>) -> RingMessage {
    RingMessage { kind, ids }
}

#[test]
fn next_wraps_round_the_ring() {
    let e = Election::new(0, 4);
    assert_eq!(e.next(0), 1);
    assert_eq!(e.next(2), 3);
    assert_eq!(e.next(3), 0);
}

#[test]
fn single_node_elects_itself_without_messages() {
    let mut e = Election::new(0, 1);
    match e.find_new() {
        FindNew::SelfElected => {}
        _ => panic!("a lone node sends nothing"),
    }
    assert_eq!(e.leader_id, Some(0));
    assert_eq!(e.am_i_leader(), Some(true));
}

#[test]
fn find_new_sends_an_election_to_the_successor() {
    let mut e = Election::new(2, 4);
    match e.find_new() {
        FindNew::Send { to, msg } => {
            assert_eq!(to, 3);
            assert_eq!(msg.kind, RingKind::Election);
            assert_eq!(msg.ids, vec![2]);
        }
        _ => panic!("expected an election message"),
    }
    assert_eq!(e.leader_id, None);
    assert_eq!(e.am_i_leader(), None);
}

#[test]
fn stopped_node_does_not_elect() {
    let mut e = Election::new(1, 3);
    e.stop();
    assert!(matches!(e.find_new(), FindNew::Suspended));
    assert_eq!(e.leader_id, Some(1));
    let r = e.on_message(msg(RingKind::Coordinator, vec![2]));
    assert!(!r.ack_sender && r.forward.is_none());
    assert_eq!(e.leader_id, Some(1));
    e.up();
    assert!(matches!(e.find_new(), FindNew::Send { .. }));
}

#[test]
fn full_ring_from_two_elects_three() {
    let n: u64 = 4;
    let mut nodes: Vec<Election> = (0..n).map(|i| Election::new(i, n)).collect();
    let (mut at, mut m) = match nodes[2].find_new() {
        FindNew::Send { to, msg } => (to, msg),
        _ => panic!("expected an election message"),
    };
    let mut hops = 0;
    loop {
        let r = nodes[at as usize].on_message(m);
        assert!(r.ack_sender);
        match r.forward {
            Some(f) => {
                at = nodes[at as usize].next(at);
                m = f;
            }
            None => break,
        }
        hops += 1;
        assert!(hops < 20);
    }
    for node in &nodes {
        assert_eq!(node.leader_id, Some(3));
    }
    assert_eq!(nodes[3].am_i_leader(), Some(true));
    assert_eq!(nodes[2].am_i_leader(), Some(false));
}

#[test]
fn election_that_came_back_announces_the_maximum() {
    let mut e = Election::new(1, 4);
    let r = e.on_message(msg(RingKind::Election, vec![1, 2, 3, 0]));
    let f = r.forward.unwrap();
    assert_eq!(f.kind, RingKind::Coordinator);
    assert_eq!(f.ids, vec![3]);
}

#[test]
fn ack_is_recorded() {
    let mut e = Election::new(0, 3);
    e.clear_ack();
    assert!(!e.acked_by(1));
    let r = e.on_message(msg(RingKind::Ack, vec![1]));
    assert!(!r.ack_sender && r.forward.is_none());
    assert!(e.acked_by(1));
    assert!(!e.acked_by(2));
}

#[test]
fn next_hop_skips_a_dead_node_and_gives_up_at_home() {
    let e = Election::new(0, 3);
    assert_eq!(e.next_hop(1), Some(2));
    assert_eq!(e.next_hop(2), None);
}

#[test]
fn ring_message_bytes() {
    let m = msg(RingKind::Coordinator, vec![3, 258]);
    let b = m.to_bytes();
    assert_eq!(b.len(), 1 + 8 + 16);
    assert_eq!(b[0], b'C');
    assert_eq!(&b[1..9], &2u64.to_le_bytes());
    assert_eq!(&b[17..25], &258u64.to_le_bytes());
    let mut padded = b.clone();
    padded.extend_from_slice(&[0, 0, 0]);
    let back = RingMessage::parse_message(&padded).unwrap();
    assert_eq!(back.kind, RingKind::Coordinator);
    assert_eq!(back.ids, vec![3, 258]);
}

#[test]
fn ring_message_errors() {
    assert_eq!(RingMessage::parse_message(&[b'E', 1, 0]).err().map(|_| ()), Some(()));
    let mut b = msg(RingKind::Election, vec![1, 2]).to_bytes();
    b.truncate(20);
    assert!(matches!(RingMessage::parse_message(&b), Err(Error::CantParseMessage)));
    let mut z = msg(RingKind::Ack, vec![1]).to_bytes();
    z[0] = b'X';
    assert!(matches!(RingMessage::parse_message(&z), Err(Error::CantParseMessage)));
}

#[test]
fn ring_message_without_ids() {
    let m = msg(RingKind::Election, vec![]);
    let b = m.to_bytes();
    assert_eq!(b.len(), 9);
    let back = RingMessage::parse_message(&b).unwrap();
    assert_eq!(back.kind, RingKind::Election);
    assert!(back.ids.is_empty());
    let mut e = Election::new(0, 2);
    let r = e.on_message(back);
    assert!(!r.ack_sender && r.forward.is_none());
}

#[test]
fn next_takes_any_id() {
    let e = Election::new(0, 4);
    assert_eq!(e.next(9), 2);
}
