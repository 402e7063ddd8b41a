use amethyst_net::event::{keep_alive_due, play_action, read_step, PlayAction, ReadOutcome, ReadStep};
use amethyst_net::framing::RawPacket;
use amethyst_net::packet::Packet;
use amethyst_net::registry::{
    timeout_notices, DisconnectReason, GameProtocol, Registry, Token, SERVER_TOKEN_ID,
};

#[test]
fn tokens_increase_and_skip_the_listener() {
    let mut reg = Registry::new();
    assert_eq!(reg.accept(1), Some(Token(SERVER_TOKEN_ID + 1)));
    assert_eq!(reg.accept(2), Some(Token(2)));
    assert!(reg.remove_login(Token(1)));
    assert_eq!(reg.accept(1), Some(Token(3)));
}

#[test]
fn second_login_from_same_address_is_refused() {
    let mut reg = Registry::new();
    assert_eq!(reg.accept(0x7f000001), Some(Token(1)));
    assert_eq!(reg.accept(0x7f000001), None);
    assert_eq!(reg.next_token, 2);
    assert!(reg.logging_in(0x7f000001));
    assert!(reg.promote(Token(1), 0));
    assert!(!reg.logging_in(0x7f000001));
    assert_eq!(reg.accept(0x7f000001), Some(Token(2)));
}

#[test]
fn promote_moves_between_tables() {
    let mut reg = Registry::new();
    let t = reg.accept(9).unwrap();
    assert!(!reg.promote(Token(77), 5));
    assert!(reg.promote(t, 5));
    assert!(reg.login.is_empty());
    assert_eq!(reg.play.len(), 1);
    assert_eq!(reg.play[0].last_keep_alive, 5);
    assert!(!reg.promote(t, 6));
    assert!(reg.touch(t, 8));
    assert_eq!(reg.play[0].last_keep_alive, 8);
    assert!(!reg.touch(Token(5), 8));
    assert!(reg.remove_play(t));
    assert!(!reg.remove_play(t));
}

#[test]
fn silent_connection_times_out_once() {
    let mut reg = Registry::new();
    let a = reg.accept(1).unwrap();
    let b = reg.accept(2).unwrap();
    reg.promote(a, 0);
    reg.promote(b, 0);
    // keep-alive cycles of 3 s, timeout 10 s; only b answers
    let mut notices = Vec::new();
    for cycle in 1..=5u64 {
        let now = cycle * 3000;
        reg.touch(b, now);
        notices.extend(reg.keep_alive_sweep(now, 10_000));
    }
    assert_eq!(notices.len(), 1);
    assert!(matches!(
        notices[0],
        GameProtocol::ForcedDisconnect { token, reason: DisconnectReason::Timeout } if token == a
    ));
    assert_eq!(reg.play.len(), 1);
    assert_eq!(reg.play[0].token, b);
}

#[test]
fn eviction_keeps_order() {
    let mut reg = Registry::new();
    for ip in 1..=4u128 {
        let t = reg.accept(ip).unwrap();
        reg.promote(t, if ip % 2 == 0 { 100 } else { 0 });
    }
    let gone = reg.evict_stale(50, 50);
    assert_eq!(gone, vec![Token(1), Token(3)]);
    assert_eq!(reg.play.iter().map(|e| e.token).collect::<Vec<_>>(), vec![Token(2), Token(4)]);
    let notices = timeout_notices(&gone);
    assert_eq!(notices.len(), 2);
}

#[test]
fn read_steps() {
    assert_eq!(read_step(true, ReadOutcome::Bytes(0)), ReadStep::PeerGone);
    assert_eq!(read_step(false, ReadOutcome::Bytes(0)), ReadStep::Done);
    assert_eq!(read_step(true, ReadOutcome::Bytes(7)), ReadStep::Append(7));
    assert_eq!(read_step(true, ReadOutcome::WouldBlock), ReadStep::Done);
    assert_eq!(read_step(false, ReadOutcome::Interrupted), ReadStep::Retry);
    assert_eq!(read_step(false, ReadOutcome::Failed), ReadStep::PeerGone);
}

#[test]
fn play_frames_refresh_or_forward() {
    let keep_alive = RawPacket { id: 0, data: &[5] };
    assert!(matches!(play_action(&keep_alive), PlayAction::Refresh));
    let chat = RawPacket { id: 1, data: &[2, b'h', b'i'] };
    assert!(matches!(play_action(&chat), PlayAction::Forward(Packet::ClientChatMessage { .. })));
    let unknown = RawPacket { id: 9, data: &[] };
    assert!(matches!(play_action(&unknown), PlayAction::Ignore));
}

#[test]
fn keep_alive_probe_frame() {
    assert_eq!(amethyst_net::registry::keep_alive_probe(), vec![2, 0, 0]);
}

#[test]
fn keep_alive_due_after_interval() {
    assert!(!keep_alive_due(2999, 0, 3000));
    assert!(keep_alive_due(3000, 0, 3000));
    assert!(!keep_alive_due(5, 10, 3000));
}
