use lobby_core::handler::{handle_close, handle_text};
use lobby_core::lobby::LobbyList;
use lobby_core::messages::{HandlerError, MessageS2C};
use lobby_core::session::User;

fn connect(sink: u64) -> User {
    let mut u = User::new();
    u.attach_sink(sink);
    u
}

#[test]
fn create_room_broadcasts_to_creator_only() {
    let mut list = LobbyList::new();
    let mut alice = connect(1);
    let r = handle_text(&mut list, &mut alice, "{\"type\":\"CreateRoom\",\"name\":\"alice\"}");
    let ds = r.unwrap();
    assert_eq!(ds.len(), 1);
    assert_eq!(ds[0].target, 1);
    let id = alice.lobby.clone().unwrap();
    assert_eq!(
        ds[0].message,
        MessageS2C::PreGameUI { room_id: id.clone(), players: vec!["alice".to_string()] }
    );
    assert_eq!(alice.name, Some("alice".to_string()));
    assert!(list.get_lobby(&id).is_some());
}

#[test]
fn join_with_taken_name_alerts_without_broadcast() {
    let mut list = LobbyList::new();
    let mut alice = connect(1);
    handle_text(&mut list, &mut alice, "{\"type\":\"CreateRoom\",\"name\":\"alice\"}").unwrap();
    let id = alice.lobby.clone().unwrap();
    let mut second = connect(2);
    let text = format!("{{\"type\":\"JoinRoom\",\"name\":\"alice\",\"room_id\":\"{}\"}}", id);
    let ds = handle_text(&mut list, &mut second, &text).unwrap();
    assert_eq!(ds.len(), 1);
    assert_eq!(ds[0].target, 2);
    assert_eq!(ds[0].message, MessageS2C::SendAlert { text: "name taken".to_string() });
    assert_eq!(second.lobby, None);
}

#[test]
fn join_broadcasts_to_both_members() {
    let mut list = LobbyList::new();
    let mut alice = connect(1);
    handle_text(&mut list, &mut alice, "{\"type\":\"CreateRoom\",\"name\":\"alice\"}").unwrap();
    let id = alice.lobby.clone().unwrap();
    let mut bob = connect(2);
    let text = format!("{{\"type\":\"JoinRoom\",\"name\":\"bob\",\"room_id\":\"{}\"}}", id);
    let ds = handle_text(&mut list, &mut bob, &text).unwrap();
    assert_eq!(ds.len(), 2);
    let targets: Vec<u64> = ds.iter().map(|d| d.target).collect();
    assert_eq!(targets, vec![1, 2]);
    for d in &ds {
        assert_eq!(
            d.message,
            MessageS2C::PreGameUI {
                room_id: id.clone(),
                players: vec!["alice".to_string(), "bob".to_string()],
            }
        );
    }
    assert_eq!(bob.lobby, Some(id));
}

#[test]
fn join_of_unknown_lobby_alerts_sender() {
    let mut list = LobbyList::new();
    let mut bob = connect(2);
    let ds = handle_text(
        &mut list,
        &mut bob,
        "{\"type\":\"JoinRoom\",\"name\":\"bob\",\"room_id\":\"does-not-exist\"}",
    )
    .unwrap();
    assert_eq!(ds.len(), 1);
    assert_eq!(ds[0].target, 2);
    assert_eq!(ds[0].message, MessageS2C::SendAlert { text: "lobby not found".to_string() });
    assert_eq!(bob.lobby, None);
}

#[test]
fn disconnect_updates_remaining_members() {
    let mut list = LobbyList::new();
    let mut alice = connect(1);
    handle_text(&mut list, &mut alice, "{\"type\":\"CreateRoom\",\"name\":\"alice\"}").unwrap();
    let id = alice.lobby.clone().unwrap();
    let mut bob = connect(2);
    let text = format!("{{\"type\":\"JoinRoom\",\"name\":\"bob\",\"room_id\":\"{}\"}}", id);
    handle_text(&mut list, &mut bob, &text).unwrap();
    let ds = handle_close(&mut list, &mut bob);
    assert_eq!(ds.len(), 1);
    assert_eq!(ds[0].target, 1);
    assert_eq!(
        ds[0].message,
        MessageS2C::PreGameUI { room_id: id, players: vec!["alice".to_string()] }
    );
    assert_eq!(bob.lobby, None);
}

#[test]
fn empty_name_is_alerted_not_fatal() {
    let mut list = LobbyList::new();
    let mut u = connect(1);
    let ds = handle_text(&mut list, &mut u, "{\"type\":\"CreateRoom\",\"name\":\"  \"}").unwrap();
    assert_eq!(ds.len(), 1);
    assert_eq!(ds[0].message, MessageS2C::SendAlert { text: "name cannot be empty".to_string() });
    assert_eq!(u.name, None);
    let ds2 = handle_text(
        &mut list,
        &mut u,
        "{\"type\":\"JoinRoom\",\"name\":\"\",\"room_id\":\"x\"}",
    )
    .unwrap();
    assert_eq!(ds2[0].message, MessageS2C::SendAlert { text: "name cannot be empty".to_string() });
}

#[test]
fn malformed_frame_is_fatal() {
    let mut list = LobbyList::new();
    let mut u = connect(1);
    let r = handle_text(&mut list, &mut u, "{\"type\":\"CreateRoom\"");
    assert_eq!(r, Err(HandlerError::MalformedMessage));
}

#[test]
fn create_while_in_lobby_is_fatal() {
    let mut list = LobbyList::new();
    let mut alice = connect(1);
    handle_text(&mut list, &mut alice, "{\"type\":\"CreateRoom\",\"name\":\"alice\"}").unwrap();
    let r = handle_text(&mut list, &mut alice, "{\"type\":\"CreateRoom\",\"name\":\"alice\"}");
    assert_eq!(r, Err(HandlerError::AlreadyInLobby));
}

#[test]
fn failed_join_leaves_session_usable() {
    let mut list = LobbyList::new();
    let mut alice = connect(1);
    handle_text(&mut list, &mut alice, "{\"type\":\"CreateRoom\",\"name\":\"alice\"}").unwrap();
    let id = alice.lobby.clone().unwrap();
    let mut second = connect(2);
    let taken = format!("{{\"type\":\"JoinRoom\",\"name\":\"alice\",\"room_id\":\"{}\"}}", id);
    handle_text(&mut list, &mut second, &taken).unwrap();
    // the session is not broken: a second attempt under a free name succeeds
    let retry = format!("{{\"type\":\"JoinRoom\",\"name\":\"carol\",\"room_id\":\"{}\"}}", id);
    let ds = handle_text(&mut list, &mut second, &retry).unwrap();
    assert_eq!(ds.len(), 2);
    assert_eq!(second.lobby, Some(id));
}

#[test]
fn join_room_id_is_trimmed() {
    let mut list = LobbyList::new();
    let mut alice = connect(1);
    handle_text(&mut list, &mut alice, "{\"type\":\"CreateRoom\",\"name\":\"alice\"}").unwrap();
    let id = alice.lobby.clone().unwrap();
    let mut bob = connect(2);
    let text = format!("{{\"type\":\"JoinRoom\",\"name\":\"bob\",\"room_id\":\" {} \"}}", id);
    let ds = handle_text(&mut list, &mut bob, &text).unwrap();
    assert_eq!(ds.len(), 2);
    assert_eq!(bob.lobby, Some(id));
}
