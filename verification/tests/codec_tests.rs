use lobby_core::codec::{decode_c2s, decode_s2c, encode_c2s, encode_s2c};
use lobby_core::messages::{MessageC2S, MessageS2C};

#[test]
fn encode_create_room_canonical() {
    let m = MessageC2S::CreateRoom { name: "alice".to_string() };
    assert_eq!(encode_c2s(&m), "{\"type\":\"CreateRoom\",\"name\":\"alice\"}");
}

#[test]
fn encode_join_room_canonical() {
    let m = MessageC2S::JoinRoom { name: "bob".to_string(), room_id: "L1".to_string() };
    assert_eq!(
        encode_c2s(&m),
        "{\"type\":\"JoinRoom\",\"name\":\"bob\",\"room_id\":\"L1\"}"
    );
}

#[test]
fn encode_send_alert_canonical() {
    let m = MessageS2C::SendAlert { text: "name taken".to_string() };
    assert_eq!(encode_s2c(&m), "{\"type\":\"SendAlert\",\"text\":\"name taken\"}");
}

#[test]
fn encode_pregame_ui_canonical() {
    let m = MessageS2C::PreGameUI {
        room_id: "L1".to_string(),
        players: vec!["alice".to_string(), "bob".to_string()],
    };
    assert_eq!(
        encode_s2c(&m),
        "{\"type\":\"PreGameUI\",\"room_id\":\"L1\",\"players\":[\"alice\",\"bob\"]}"
    );
}

#[test]
fn encode_pregame_ui_empty_players() {
    let m = MessageS2C::PreGameUI { room_id: "L1".to_string(), players: vec![] };
    assert_eq!(
        encode_s2c(&m),
        "{\"type\":\"PreGameUI\",\"room_id\":\"L1\",\"players\":[]}"
    );
}

#[test]
fn decode_create_room() {
    let r = decode_c2s("{\"type\":\"CreateRoom\",\"name\":\"alice\"}");
    assert_eq!(r, Some(MessageC2S::CreateRoom { name: "alice".to_string() }));
}

#[test]
fn decode_join_room() {
    let r = decode_c2s("{\"type\":\"JoinRoom\",\"name\":\"bob\",\"room_id\":\"L1\"}");
    assert_eq!(
        r,
        Some(MessageC2S::JoinRoom { name: "bob".to_string(), room_id: "L1".to_string() })
    );
}

#[test]
fn decode_rejects_malformed() {
    assert_eq!(decode_c2s("not a message"), None);
    assert_eq!(decode_c2s(""), None);
    assert_eq!(decode_c2s("{\"type\":\"CreateRoom\",\"name\":\"alice\""), None);
    assert_eq!(decode_c2s("{\"type\":\"Unknown\",\"name\":\"alice\"}"), None);
    assert_eq!(decode_c2s("{\"type\":\"CreateRoom\",\"name\":\"alice\"}x"), None);
}

#[test]
fn round_trip_create_room() {
    let m = MessageC2S::CreateRoom { name: "alice".to_string() };
    assert_eq!(decode_c2s(&encode_c2s(&m)), Some(m));
}

#[test]
fn round_trip_join_room() {
    let m = MessageC2S::JoinRoom { name: "bob".to_string(), room_id: "room 42".to_string() };
    assert_eq!(decode_c2s(&encode_c2s(&m)), Some(m));
}

#[test]
fn round_trip_with_escapes() {
    let m = MessageC2S::CreateRoom { name: "a\"b\\c".to_string() };
    assert_eq!(decode_c2s(&encode_c2s(&m)), Some(m));
    let m2 = MessageC2S::JoinRoom { name: "\\\\".to_string(), room_id: "\"\"".to_string() };
    assert_eq!(decode_c2s(&encode_c2s(&m2)), Some(m2));
}

#[test]
fn round_trip_send_alert() {
    let m = MessageS2C::SendAlert { text: "lobby not found".to_string() };
    assert_eq!(decode_s2c(&encode_s2c(&m)), Some(m));
}

#[test]
fn round_trip_pregame_ui() {
    let m = MessageS2C::PreGameUI {
        room_id: "L1".to_string(),
        players: vec!["alice".to_string(), "b\"ob".to_string(), "".to_string()],
    };
    assert_eq!(decode_s2c(&encode_s2c(&m)), Some(m));
    let empty = MessageS2C::PreGameUI { room_id: "x".to_string(), players: vec![] };
    assert_eq!(decode_s2c(&encode_s2c(&empty)), Some(empty));
}

#[test]
fn encoded_form_is_json() {
    let m = MessageS2C::PreGameUI {
        room_id: "L1".to_string(),
        players: vec!["al\"ice".to_string(), "bob".to_string()],
    };
    let text = encode_s2c(&m);
    let v: serde_json::Value = serde_json::from_str(&text).unwrap();
    assert_eq!(v["type"].as_str().unwrap(), "PreGameUI");
    assert_eq!(v["room_id"].as_str().unwrap(), "L1");
    let players: Vec<&str> = v["players"]
        .as_array()
        .unwrap()
        .iter()
        .map(|p| p.as_str().unwrap())
        .collect();
    assert_eq!(players, vec!["al\"ice", "bob"]);

    let a = MessageC2S::JoinRoom { name: "b\\ob".to_string(), room_id: "L1".to_string() };
    let vt: serde_json::Value = serde_json::from_str(&encode_c2s(&a)).unwrap();
    assert_eq!(vt["type"].as_str().unwrap(), "JoinRoom");
    assert_eq!(vt["name"].as_str().unwrap(), "b\\ob");
    assert_eq!(vt["room_id"].as_str().unwrap(), "L1");
}
