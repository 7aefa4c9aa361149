use lobby_core::lobby::{Lobby, LobbyList};
use lobby_core::messages::{MessageS2C, NameError};
use lobby_core::session::User;

fn named_user(name: &str, sink: u64) -> User {
    let mut u = User::new();
    u.attach_sink(sink);
    u.set_name(name.to_string()).unwrap();
    u
}

#[test]
fn sink_binding_is_first_writer_wins() {
    let mut u = User::new();
    assert_eq!(u.sink, None);
    u.attach_sink(7);
    assert_eq!(u.sink, Some(7));
    u.attach_sink(9);
    assert_eq!(u.sink, Some(7));
}

#[test]
fn set_name_rejects_whitespace_only() {
    let mut u = User::new();
    assert_eq!(u.set_name("   \t\n".to_string()), Err(NameError::EmptyName));
    assert_eq!(u.name, None);
    let mut u2 = User::new();
    assert_eq!(u2.set_name(" alice ".to_string()), Ok(()));
    assert_eq!(u2.name, Some(" alice ".to_string()));
}

#[test]
fn send_message_targets_bound_sink() {
    let u = named_user("alice", 3);
    let d = u.send_message(MessageS2C::SendAlert { text: "hi".to_string() });
    assert_eq!(d.target, 3);
    assert_eq!(d.message, MessageS2C::SendAlert { text: "hi".to_string() });
}

#[test]
fn generated_id_is_short_and_url_safe_ish() {
    let lobby = Lobby::new();
    let id = lobby.id_str();
    assert_eq!(id.chars().count(), 8);
    assert!(id.chars().all(|c| c.is_ascii_alphanumeric() || c == '+' || c == '/'));
}

#[test]
fn join_inserts_and_broadcasts() {
    let mut lobby = Lobby::new();
    let alice = named_user("alice", 1);
    let (ok, ds) = lobby.player_try_join(&alice);
    assert!(ok);
    assert_eq!(ds.len(), 1);
    assert_eq!(ds[0].target, 1);
    assert_eq!(
        ds[0].message,
        MessageS2C::PreGameUI {
            room_id: lobby.id_str().clone(),
            players: vec!["alice".to_string()],
        }
    );
}

#[test]
fn duplicate_name_join_fails_without_broadcast() {
    let mut lobby = Lobby::new();
    let alice1 = named_user("alice", 1);
    let alice2 = named_user("alice", 2);
    let (ok1, _) = lobby.player_try_join(&alice1);
    let (ok2, ds2) = lobby.player_try_join(&alice2);
    assert!(ok1);
    assert!(!ok2);
    assert_eq!(ds2.len(), 0);
}

#[test]
fn leave_removes_and_broadcasts_to_rest() {
    let mut lobby = Lobby::new();
    let alice = named_user("alice", 1);
    let bob = named_user("bob", 2);
    lobby.player_try_join(&alice);
    lobby.player_try_join(&bob);
    let ds = lobby.player_leave(&bob);
    assert_eq!(ds.len(), 1);
    assert_eq!(ds[0].target, 1);
    assert_eq!(
        ds[0].message,
        MessageS2C::PreGameUI {
            room_id: lobby.id_str().clone(),
            players: vec!["alice".to_string()],
        }
    );
}

#[test]
fn leave_of_absent_name_is_noop_with_broadcast() {
    let mut lobby = Lobby::new();
    let alice = named_user("alice", 1);
    let ghost = named_user("nobody", 9);
    lobby.player_try_join(&alice);
    let ds = lobby.player_leave(&ghost);
    assert_eq!(ds.len(), 1);
    assert_eq!(ds[0].target, 1);
}

#[test]
fn resend_ui_reaches_every_member() {
    let mut lobby = Lobby::new();
    lobby.player_try_join(&named_user("alice", 1));
    lobby.player_try_join(&named_user("bob", 2));
    let ds = lobby.resend_ui();
    assert_eq!(ds.len(), 2);
    let targets: Vec<u64> = ds.iter().map(|d| d.target).collect();
    assert_eq!(targets, vec![1, 2]);
    for d in &ds {
        assert_eq!(
            d.message,
            MessageS2C::PreGameUI {
                room_id: lobby.id_str().clone(),
                players: vec!["alice".to_string(), "bob".to_string()],
            }
        );
    }
}

#[test]
fn registry_create_and_lookup() {
    let mut list = LobbyList::new();
    let id = list.create();
    assert_eq!(id.chars().count(), 8);
    let found = list.get_lobby(&id);
    assert!(found.is_some());
    assert_eq!(found.unwrap().id_str(), &id);
    assert!(list.get_lobby("no-such-lobby").is_none());
}

#[test]
fn lookup_trims_input() {
    let mut list = LobbyList::new();
    let id = list.create();
    let padded = format!("  {}\t", id);
    let a = list.get_lobby(&padded).map(|l| l.id_str().clone());
    let b = list.get_lobby(&id).map(|l| l.id_str().clone());
    assert_eq!(a, b);
    assert_eq!(a, Some(id));
}

#[test]
fn join_and_leave_by_id() {
    let mut list = LobbyList::new();
    let id = list.create();
    let alice = named_user("alice", 1);
    let r = list.join_by_id(&id, &alice);
    assert!(r.is_some());
    let (ok, ds) = r.unwrap();
    assert!(ok);
    assert_eq!(ds.len(), 1);
    assert!(list.join_by_id("missing", &alice).is_none());
    let left = list.leave_by_id(&id, &alice);
    assert!(left.is_some());
    assert_eq!(left.unwrap().len(), 0);
}
