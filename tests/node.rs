use tp2::action::Action;
use tp2::local_server::server::Server;
use tp2::message_sender::{set_duration, MessageSender};
use tp2::errors::Error;

fn balance(s: &mut Server, c: u32) -> (i32, bool) {
    s.points_handler.get_client(c)
}

#[test]
fn block_then_complete_with_points() {
    let mut a = Server::new(0, 2);
    let step = a.on_coffee_machine_message("complete 7 600 cash 0".to_string(), true);
    assert_eq!(step.replies, vec!["ACK".to_string()]);
    assert_eq!(step.rebroadcast, vec!["complete 7 600 cash 0".to_string()]);
    let step = a.on_coffee_machine_message("block 7 0".to_string(), true);
    assert_eq!(step.replies, vec!["ACK".to_string()]);
    assert_eq!(balance(&mut a, 7), (600, true));
    let step = a.on_coffee_machine_message("complete 7 500 points 0".to_string(), true);
    assert_eq!(step.replies, vec!["ACK".to_string()]);
    assert!(step.to_coffee_machine.is_empty());
    assert_eq!(balance(&mut a, 7), (100, false));
    assert_eq!(a.log.len(), 3);
}

#[test]
fn complete_with_too_few_points_is_declined() {
    let mut a = Server::new(0, 2);
    let step = a.on_coffee_machine_message("block 7 0".to_string(), true);
    assert_eq!(step.replies, vec!["ACK".to_string()]);
    let step = a.on_coffee_machine_message("complete 7 500 points 0".to_string(), true);
    assert_eq!(step.replies, vec!["notEnough 7".to_string()]);
    assert_eq!(balance(&mut a, 7).0, 0);
}

#[test]
fn cash_credit_stops_at_the_largest_balance() {
    let mut a = Server::new(0, 1);
    a.on_coffee_machine_message("complete 1 4294967295 cash 0".to_string(), true);
    let step = a.on_coffee_machine_message("complete 1 5 cash 0".to_string(), true);
    assert_eq!(step.replies, vec!["ACK".to_string()]);
    assert_eq!(balance(&mut a, 1), (i32::MAX, false));
}

#[test]
fn second_block_is_declined() {
    let mut a = Server::new(0, 2);
    a.on_coffee_machine_message("block 3 0".to_string(), true);
    let step = a.on_coffee_machine_message("block 3 0".to_string(), true);
    assert_eq!(step.replies, vec!["alreadyBlocked 3".to_string()]);
    let step = a.on_coffee_machine_message("fail 3 0".to_string(), true);
    assert_eq!(step.replies, vec!["ACK".to_string()]);
    assert_eq!(balance(&mut a, 3), (0, false));
}

#[test]
fn follower_forwards_while_up() {
    let mut b = Server::new(1, 2);
    let step = b.on_coffee_machine_message("block 3 1".to_string(), false);
    assert!(step.forward_to_leader);
    assert!(step.replies.is_empty());
    assert_eq!(balance(&mut b, 3), (0, false));
}

#[test]
fn follower_answers_its_own_coffee_machine() {
    let mut b = Server::new(1, 3);
    let step = b.on_peer_message("complete 4 50 cash 1".to_string(), false);
    assert_eq!(step.to_coffee_machine, vec!["ACK".to_string()]);
    assert!(step.rebroadcast.is_empty());
    assert_eq!(balance(&mut b, 4), (50, false));
    let step = b.on_peer_message("block 4 2".to_string(), false);
    assert!(step.to_coffee_machine.is_empty());
    assert_eq!(step.replies, vec!["ACK".to_string()]);
}

#[test]
fn down_then_up_flushes_the_quarantine_once() {
    let mut a = Server::new(0, 2);
    let mut b = Server::new(1, 2);
    let step = b.on_coffee_machine_message("DOWN".to_string(), false);
    assert_eq!(step.availability, Some(Action::Down));
    assert!(b.down);
    let step = b.on_coffee_machine_message("complete 9 100 cash 1".to_string(), false);
    assert_eq!(step.replies, vec!["ACK".to_string()]);
    assert_eq!(b.log_down, vec!["complete 9 100 cash 1".to_string()]);
    assert!(b.log.is_empty());
    assert_eq!(balance(&mut b, 9), (100, false));
    let step = b.on_coffee_machine_message("UP".to_string(), false);
    assert_eq!(step.availability, Some(Action::Up));
    let resync = b.begin_resync(false);
    assert_eq!(resync.sync_request, Some("SYNC 0".to_string()));
    assert_eq!(resync.down_log, vec!["complete 9 100 cash 1".to_string()]);
    assert!(!resync.to_all_peers);
    assert!(!b.down);
    let replay = a.on_peer_message(resync.sync_request.unwrap(), true);
    assert_eq!(replay.replies, vec!["SYNCSTART".to_string(), "SYNCEND".to_string()]);
    let mut rebroadcast = vec![];
    for line in resync.down_log {
        let step = a.on_peer_message(line, true);
        rebroadcast.extend(step.rebroadcast);
    }
    assert_eq!(balance(&mut a, 9), (100, false));
    assert_eq!(rebroadcast, vec!["complete 9 100 cash 1".to_string()]);
    assert!(b.begin_resync(false).down_log.is_empty());
    for line in replay.replies {
        b.on_peer_message(line, false);
    }
    assert!(!b.sync);
    for line in rebroadcast {
        let step = b.on_peer_message(line, false);
        assert_eq!(step.replies, vec!["ACK".to_string()]);
    }
    assert_eq!(balance(&mut b, 9), (100, false));
    assert_eq!(b.log, vec!["complete 9 100 cash 1".to_string()]);
    assert!(b.flushed.is_empty());
}

#[test]
fn echo_during_replay_is_not_applied_twice() {
    let mut b = Server::new(1, 2);
    b.on_coffee_machine_message("DOWN".to_string(), false);
    b.on_coffee_machine_message("complete 9 100 cash 1".to_string(), false);
    b.on_coffee_machine_message("UP".to_string(), false);
    b.begin_resync(false);
    b.on_peer_message("SYNCSTART".to_string(), false);
    let step = b.on_peer_message("complete 9 100 cash 1".to_string(), false);
    assert_eq!(step.replies, vec!["ACK".to_string()]);
    assert!(step.to_coffee_machine.is_empty());
    assert_eq!(b.msg_queue.len(), 0);
    assert!(b.flushed.is_empty());
    b.on_peer_message("SYNCEND".to_string(), false);
    assert!(!b.sync);
    assert_eq!(balance(&mut b, 9), (100, false));
}

#[test]
fn fresh_request_is_applied_whatever_is_pending() {
    let mut b = Server::new(1, 2);
    b.on_coffee_machine_message("DOWN".to_string(), false);
    b.on_coffee_machine_message("complete 9 100 cash 1".to_string(), false);
    b.on_coffee_machine_message("UP".to_string(), false);
    b.begin_resync(false);
    assert_eq!(b.flushed, vec!["complete 9 100 cash 1".to_string()]);
    b.sync = false;
    let step = b.on_coffee_machine_message("complete 9 100 cash 1".to_string(), true);
    assert_eq!(step.replies, vec!["ACK".to_string()]);
    assert_eq!(balance(&mut b, 9), (200, false));
    assert!(b.flushed.is_empty());
}

#[test]
fn going_down_forgets_pending_lines() {
    let mut b = Server::new(1, 2);
    b.on_coffee_machine_message("DOWN".to_string(), false);
    b.on_coffee_machine_message("block 3 1".to_string(), false);
    b.on_coffee_machine_message("UP".to_string(), false);
    b.begin_resync(false);
    b.on_coffee_machine_message("DOWN".to_string(), false);
    assert!(b.flushed.is_empty());
    let step = b.on_coffee_machine_message("fail 3 1".to_string(), false);
    assert_eq!(step.replies, vec!["ACK".to_string()]);
    assert_eq!(b.msg_queue.len(), 1);
    assert_eq!(balance(&mut b, 3), (0, true));
    let (_, outcome) = b.replay_timed_out(false);
    assert_eq!(outcome, Err(Error::Timeout));
    assert_eq!(balance(&mut b, 3), (0, false));
    assert_eq!(b.log_down, vec!["fail 3 1".to_string()]);
}

#[test]
fn stalled_replay_ends_with_timeout() {
    let mut a = Server::new(0, 2);
    let (step, outcome) = a.replay_timed_out(true);
    assert_eq!(outcome, Ok(()));
    assert!(step.replies.is_empty() && step.rebroadcast.is_empty());
    a.sync = true;
    a.on_peer_message("complete 2 10 cash 1".to_string(), true);
    let (step, outcome) = a.replay_timed_out(true);
    assert_eq!(outcome, Err(Error::Timeout));
    assert!(!a.sync);
    assert_eq!(step.rebroadcast, vec!["complete 2 10 cash 1".to_string()]);
    assert_eq!(balance(&mut a, 2), (10, false));
}

#[test]
fn leader_that_comes_back_sends_its_quarantine_to_all() {
    let mut a = Server::new(0, 2);
    a.on_coffee_machine_message("DOWN".to_string(), true);
    a.on_coffee_machine_message("complete 2 10 points 0".to_string(), true);
    a.on_coffee_machine_message("fail 2 0".to_string(), true);
    a.on_coffee_machine_message("UP".to_string(), true);
    let resync = a.begin_resync(true);
    assert_eq!(resync.sync_request, None);
    assert!(resync.to_all_peers);
    assert_eq!(
        resync.down_log,
        vec!["complete 2 10 points 0".to_string(), "fail 2 0".to_string()]
    );
    assert!(!a.sync && !a.down);
}

#[test]
fn leader_holds_messages_back_while_replaying() {
    let mut a = Server::new(0, 2);
    a.sync = true;
    let step = a.on_peer_message("complete 2 10 cash 1".to_string(), true);
    assert_eq!(step.replies, vec!["ACK".to_string()]);
    assert!(step.rebroadcast.is_empty());
    assert_eq!(balance(&mut a, 2), (0, false));
    let step = a.on_coffee_machine_message("block 5 0".to_string(), true);
    assert_eq!(step.replies, vec!["ACK".to_string()]);
    let step = a.on_peer_message("SYNCEND".to_string(), true);
    assert!(!a.sync);
    assert_eq!(
        step.rebroadcast,
        vec!["complete 2 10 cash 1".to_string(), "block 5 0".to_string()]
    );
    assert_eq!(step.to_coffee_machine, vec!["ACK".to_string()]);
    assert_eq!(balance(&mut a, 2), (10, false));
    assert_eq!(balance(&mut a, 5), (0, true));
}

#[test]
fn down_node_settles_and_quarantines() {
    let mut b = Server::new(1, 2);
    b.on_coffee_machine_message("DOWN".to_string(), false);
    b.on_coffee_machine_message("complete 9 100 cash 1".to_string(), false);
    let step = b.on_coffee_machine_message("complete 9 30 points 1".to_string(), false);
    assert_eq!(step.replies, vec!["ACK".to_string()]);
    let step = b.on_coffee_machine_message("complete 9 500 points 1".to_string(), false);
    assert_eq!(step.replies, vec!["notEnough 9".to_string()]);
    assert_eq!(balance(&mut b, 9), (70, false));
    assert_eq!(b.log_down.len(), 3);
    assert!(b.log.is_empty());
    let step = b.on_peer_message("block 9 0".to_string(), false);
    assert!(step.replies.is_empty());
}

#[test]
fn peers_and_watermark() {
    let s = Server::new(1, 4);
    assert_eq!(s.peers(), vec![0, 2, 3]);
    assert_eq!(s.watermark(), 0);
}

#[test]
fn answers_to_a_request() {
    assert_eq!(MessageSender::outcome(&"ACK".to_string()), Ok(()));
    assert_eq!(MessageSender::outcome(&"notEnough 3".to_string()), Err(Error::NotEnoughPoints));
    assert_eq!(
        MessageSender::outcome(&"alreadyBlocked 3".to_string()),
        Err(Error::ClientAlreadyBlocked)
    );
    assert_eq!(MessageSender::outcome(&"TRY".to_string()), Err(Error::InvalidMessageFormat));
    assert_eq!(MessageSender::retry_after_timeout(3), Ok(2));
    assert_eq!(MessageSender::retry_after_timeout(1), Err(Error::Timeout));
    assert_eq!(set_duration(None), 10000);
    assert_eq!(set_duration(Some(250)), 250);
}
