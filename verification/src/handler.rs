//! Dispatch of inbound connection events against the session, registry and
//! lobby state. Each handler returns the deliveries the transport must write;
//! a fatal error means the connection's task must end.

use vstd::prelude::*;
use vstd::string::StringExecFns;

use crate::codec::{decode_c2s, decode_c2s_spec};
use crate::lobby::{
    broadcast_spec, has_name_spec, lookup_in, member_of, remove_name_spec, try_join_spec, LobbyList,
    LobbyV, MemberV,
};
use crate::messages::{deliveries_view, Delivery, DeliveryV, HandlerError, MessageC2S, MessageS2C,
    MsgC2SV, MsgS2CV};
use crate::session::User;
use crate::text::{chars_to_string, trim_chars, trim_spec};

verus! {

pub open spec fn alert_empty_name() -> Seq<char> {
    "name cannot be empty"@
}

pub open spec fn alert_lobby_not_found() -> Seq<char> {
    "lobby not found"@
}

pub open spec fn alert_name_taken() -> Seq<char> {
    "name taken"@
}

/// One alert, addressed to the given sink.
pub open spec fn alert_to(sink: u64, text: Seq<char>) -> Seq<DeliveryV> {
    seq![DeliveryV { target: sink, message: MsgS2CV::SendAlert { text } }]
}

/// The registry invariant: a lobby reachable from a session's lobby
/// reference is also reachable from the registry.
pub open spec fn linked(u: User, ls: Seq<LobbyV>) -> bool {
    u.lobby matches Some(id) ==> lookup_in(ls, id@) is Some
}

/// What a create-room command leaves behind: an alert and no change on an
/// empty name; a fatal error (name recorded) when the session is already in
/// a lobby; otherwise the name recorded, a fresh one-member lobby registered
/// under a fresh id, that id recorded as the session's lobby, and the
/// snapshot broadcast to the creator.
pub open spec fn create_room_post(
    l0: Seq<LobbyV>,
    l1: Seq<LobbyV>,
    u0: User,
    u1: User,
    name: Seq<char>,
    r: Result<Vec<Delivery>, HandlerError>,
) -> bool {
    if trim_spec(name).len() == 0 {
        &&& l1 == l0
        &&& u1 == u0
        &&& r matches Ok(ds) && deliveries_view(ds@) == alert_to(
            u0.sink.unwrap(),
            alert_empty_name(),
        )
    } else if u0.lobby is Some {
        &&& r == Err::<Vec<Delivery>, HandlerError>(HandlerError::AlreadyInLobby)
        &&& l1 == l0
        &&& u1.name is Some && u1.name.unwrap()@ == name
        &&& u1.lobby == u0.lobby
        &&& u1.sink == u0.sink
    } else {
        &&& u1.name is Some && u1.name.unwrap()@ == name
        &&& u1.sink == u0.sink
        &&& u1.lobby is Some
        &&& ({
            let id = u1.lobby.unwrap()@;
            let m = MemberV { name, sink: u0.sink.unwrap() };
            &&& id.len() == 8
            &&& trim_spec(id) == id
            &&& lookup_in(l1, id) == Some(LobbyV { id, members: seq![m] })
            &&& forall|o: Seq<char>| o != id ==> lookup_in(l1, o) == lookup_in(l0, o)
            &&& r matches Ok(ds) && deliveries_view(ds@) == broadcast_spec(id, seq![m])
        })
    }
}

/// What a join-room command leaves behind: an alert and no change on an
/// empty name; a fatal error (name recorded) when already in a lobby; an
/// alert when no lobby has the (trimmed) id; an alert and no membership
/// change when the name is taken there; otherwise membership extended, the
/// lobby recorded as the session's, and the snapshot broadcast to all
/// members including the joiner.
pub open spec fn join_room_post(
    l0: Seq<LobbyV>,
    l1: Seq<LobbyV>,
    u0: User,
    u1: User,
    name: Seq<char>,
    room_id: Seq<char>,
    r: Result<Vec<Delivery>, HandlerError>,
) -> bool {
    let t = trim_spec(room_id);
    if trim_spec(name).len() == 0 {
        &&& l1 == l0
        &&& u1 == u0
        &&& r matches Ok(ds) && deliveries_view(ds@) == alert_to(
            u0.sink.unwrap(),
            alert_empty_name(),
        )
    } else if u0.lobby is Some {
        &&& r == Err::<Vec<Delivery>, HandlerError>(HandlerError::AlreadyInLobby)
        &&& l1 == l0
        &&& u1.name is Some && u1.name.unwrap()@ == name
        &&& u1.lobby == u0.lobby
        &&& u1.sink == u0.sink
    } else if lookup_in(l0, t) is None {
        &&& l1 == l0
        &&& u1.name is Some && u1.name.unwrap()@ == name
        &&& u1.lobby is None
        &&& u1.sink == u0.sink
        &&& r matches Ok(ds) && deliveries_view(ds@) == alert_to(
            u0.sink.unwrap(),
            alert_lobby_not_found(),
        )
    } else {
        let l = lookup_in(l0, t).unwrap();
        let m = MemberV { name, sink: u0.sink.unwrap() };
        if has_name_spec(l.members, name) {
            &&& l1 == l0
            &&& u1.name is Some && u1.name.unwrap()@ == name
            &&& u1.lobby is None
            &&& u1.sink == u0.sink
            &&& r matches Ok(ds) && deliveries_view(ds@) == alert_to(
                u0.sink.unwrap(),
                alert_name_taken(),
            )
        } else {
            &&& u1.name is Some && u1.name.unwrap()@ == name
            &&& u1.sink == u0.sink
            &&& u1.lobby is Some && u1.lobby.unwrap()@ == t
            &&& lookup_in(l1, t) == Some(LobbyV { id: t, members: l.members.push(m) })
            &&& forall|o: Seq<char>| o != t ==> lookup_in(l1, o) == lookup_in(l0, o)
            &&& r matches Ok(ds) && deliveries_view(ds@) == broadcast_spec(t, l.members.push(m))
        }
    }
}

fn alert_delivery(user: &User, text: &str) -> (r: Vec<Delivery>)
    requires
        user.sink is Some,
    ensures
        deliveries_view(r@) == alert_to(user.sink.unwrap(), text@),
{
    let d = user.send_message(MessageS2C::SendAlert { text: String::from_str(text) });
    let mut ds: Vec<Delivery> = Vec::new();
    ds.push(d);
    proof {
        assert(deliveries_view(ds@) =~= alert_to(user.sink.unwrap(), text@));
    }
    ds
}

fn handle_create(list: &mut LobbyList, user: &mut User, name: String) -> (r: Result<
    Vec<Delivery>,
    HandlerError,
>)
    requires
        old(list).wf(),
        old(user).sink is Some,
    ensures
        final(list).wf(),
        create_room_post(old(list)@, final(list)@, *old(user), *final(user), name@, r),
{
    let t = trim_chars(name.as_str());
    if t.len() == 0 {
        return Ok(alert_delivery(user, "name cannot be empty"));
    }
    user.name = Some(name);
    if user.lobby.is_some() {
        return Err(HandlerError::AlreadyInLobby);
    }
    let id = list.create();
    user.lobby = Some(id.clone());
    match list.join_by_id(id.as_str(), user) {
        Some((ok, ds)) => {
            proof {
                assert(ok);
                assert(try_join_spec(Seq::<MemberV>::empty(), member_of(*user)).0 =~= seq![
                    member_of(*user),
                ]);
            }
            Ok(ds)
        },
        None => {
            // unreachable: the lobby was registered under this id just above
            proof {
                assert(false);
            }
            Err(HandlerError::AlreadyInLobby)
        },
    }
}

fn handle_join(list: &mut LobbyList, user: &mut User, name: String, room_id: String) -> (r: Result<
    Vec<Delivery>,
    HandlerError,
>)
    requires
        old(list).wf(),
        old(user).sink is Some,
    ensures
        final(list).wf(),
        join_room_post(old(list)@, final(list)@, *old(user), *final(user), name@, room_id@, r),
{
    let t = trim_chars(name.as_str());
    if t.len() == 0 {
        return Ok(alert_delivery(user, "name cannot be empty"));
    }
    user.name = Some(name);
    if user.lobby.is_some() {
        return Err(HandlerError::AlreadyInLobby);
    }
    match list.join_by_id(room_id.as_str(), user) {
        None => Ok(alert_delivery(user, "lobby not found")),
        Some((false, _ds)) => Ok(alert_delivery(user, "name taken")),
        Some((true, ds)) => {
            let tid = trim_chars(room_id.as_str());
            user.lobby = Some(chars_to_string(&tid));
            Ok(ds)
        },
    }
}

/// Handles one inbound text frame: decodes the command and dispatches it.
/// A frame that does not decode is fatal to the connection, as is a
/// create/join sent while the session is already in a lobby.
pub fn handle_text(list: &mut LobbyList, user: &mut User, text: &str) -> (r: Result<
    Vec<Delivery>,
    HandlerError,
>)
    requires
        old(list).wf(),
        old(user).sink is Some,
    ensures
        final(list).wf(),
        final(user).sink == old(user).sink,
        linked(*old(user), old(list)@) ==> linked(*final(user), final(list)@),
        ({
            let d = decode_c2s_spec(text@);
            &&& (d is None ==> r == Err::<Vec<Delivery>, HandlerError>(
                HandlerError::MalformedMessage,
            ) && final(list)@ == old(list)@ && *final(user) == *old(user))
            &&& (d matches Some(MsgC2SV::CreateRoom { name }) ==> create_room_post(
                old(list)@,
                final(list)@,
                *old(user),
                *final(user),
                name,
                r,
            ))
            &&& (d matches Some(MsgC2SV::JoinRoom { name, room_id }) ==> join_room_post(
                old(list)@,
                final(list)@,
                *old(user),
                *final(user),
                name,
                room_id,
                r,
            ))
        }),
{
    match decode_c2s(text) {
        None => Err(HandlerError::MalformedMessage),
        Some(MessageC2S::CreateRoom { name }) => handle_create(list, user, name),
        Some(MessageC2S::JoinRoom { name, room_id }) => handle_join(list, user, name, room_id),
    }
}

/// What closing a connection leaves behind when the session was in a lobby.
pub open spec fn close_post(
    l0: Seq<LobbyV>,
    l1: Seq<LobbyV>,
    u0: User,
    id: Seq<char>,
    r: Vec<Delivery>,
) -> bool {
    let t = trim_spec(id);
    if lookup_in(l0, t) is None {
        l1 == l0 && r@.len() == 0
    } else {
        let l = lookup_in(l0, t).unwrap();
        let nm = remove_name_spec(l.members, u0.name.unwrap()@);
        &&& lookup_in(l1, t) == Some(LobbyV { id: t, members: nm })
        &&& forall|o: Seq<char>| o != t ==> lookup_in(l1, o) == lookup_in(l0, o)
        &&& deliveries_view(r@) == broadcast_spec(t, nm)
    }
}

/// Handles the connection closing: when the session is in a lobby it leaves
/// it, and the remaining members get the updated snapshot.
pub fn handle_close(list: &mut LobbyList, user: &mut User) -> (r: Vec<Delivery>)
    requires
        old(list).wf(),
        old(user).wf(),
    ensures
        final(list).wf(),
        final(user).name == old(user).name,
        final(user).sink == old(user).sink,
        final(user).lobby is None,
        linked(*final(user), final(list)@),
        old(user).lobby is None ==> final(list)@ == old(list)@ && r@.len() == 0,
        old(user).lobby matches Some(id) ==> close_post(
            old(list)@,
            final(list)@,
            *old(user),
            id@,
            r,
        ),
{
    let lob = user.lobby.take();
    match lob {
        None => Vec::new(),
        Some(id) => match list.leave_by_id(id.as_str(), user) {
            Some(ds) => ds,
            None => Vec::new(),
        },
    }
}

} // verus!
