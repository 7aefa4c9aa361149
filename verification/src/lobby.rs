//! Lobbies and the lobby registry: membership with unique display names,
//! full-membership snapshot broadcasts, and id-keyed lookup.

use vstd::prelude::*;

use base64::Engine;
use rand::Rng;

use crate::messages::{Delivery, DeliveryV, MessageS2C, MsgS2CV};
use crate::messages::deliveries_view;
use crate::session::User;
use crate::text::{is_ws, string_eq_chars, str_to_chars, trim_chars, trim_spec};
use crate::text::{lemma_trim_idempotent, lemma_trim_no_ws};

verus! {

/// One lobby member: the display name and the member session's sink.
pub struct Member {
    pub name: String,
    pub sink: u64,
}

/// Model of a member.
#[verifier::ext_equal]
pub struct MemberV {
    pub name: Seq<char>,
    pub sink: u64,
}

impl View for Member {
    type V = MemberV;

    open spec fn view(&self) -> MemberV {
        MemberV { name: self.name@, sink: self.sink }
    }
}

/// Model of a lobby: its id and its members in join order.
#[verifier::ext_equal]
pub struct LobbyV {
    pub id: Seq<char>,
    pub members: Seq<MemberV>,
}

/// A named group of sessions awaiting a game start, keyed by a generated id.
pub struct Lobby {
    id: String,
    users: Vec<Member>,
}

/// The members' views, in order.
pub open spec fn members_view(users: Seq<Member>) -> Seq<MemberV> {
    users.map(|i: int, m: Member| m@)
}

impl View for Lobby {
    type V = LobbyV;

    closed spec fn view(&self) -> LobbyV {
        LobbyV { id: self.id@, members: members_view(self.users@) }
    }
}

/// The display names of the members, in order.
pub open spec fn names_of(ms: Seq<MemberV>) -> Seq<Seq<char>> {
    ms.map(|i: int, m: MemberV| m.name)
}

/// Whether some member holds this display name.
pub open spec fn has_name_spec(ms: Seq<MemberV>, n: Seq<char>) -> bool {
    exists|i: int| 0 <= i < ms.len() && ms[i].name == n
}

/// No two distinct members hold the same display name.
pub open spec fn unique_names(ms: Seq<MemberV>) -> bool {
    forall|i: int, j: int| 0 <= i < j < ms.len() ==> ms[i].name != ms[j].name
}

/// The atomic check-then-insert of a join: no mutation and failure when the
/// name is taken, insertion at the end and success otherwise.
pub open spec fn try_join_spec(ms: Seq<MemberV>, m: MemberV) -> (Seq<MemberV>, bool) {
    if has_name_spec(ms, m.name) {
        (ms, false)
    } else {
        (ms.push(m), true)
    }
}

/// Removal of the member holding this name, if any.
pub open spec fn remove_name_spec(ms: Seq<MemberV>, n: Seq<char>) -> Seq<MemberV>
    decreases ms.len(),
{
    if ms.len() == 0 {
        ms
    } else if ms[0].name == n {
        ms.drop_first()
    } else {
        seq![ms[0]] + remove_name_spec(ms.drop_first(), n)
    }
}

/// The snapshot message a broadcast delivers: the lobby id and all current
/// member names.
pub open spec fn pregame_spec(id: Seq<char>, ms: Seq<MemberV>) -> MsgS2CV {
    MsgS2CV::PreGameUI { room_id: id, players: names_of(ms) }
}

/// A full-membership broadcast: one delivery per member, to that member's
/// sink, each carrying the same snapshot.
pub open spec fn broadcast_spec(id: Seq<char>, ms: Seq<MemberV>) -> Seq<DeliveryV> {
    ms.map(|i: int, m: MemberV| DeliveryV { target: m.sink, message: pregame_spec(id, ms) })
}

/// The joining session as a member (meaningful when its name and sink are set).
pub open spec fn member_of(player: User) -> MemberV {
    MemberV { name: player.name_view(), sink: player.sink_id() }
}

/// Relies on `rand::thread_rng` and `rand::Rng::fill`: fills a six-byte
/// buffer with random bytes. Nothing is assumed of the values.
#[verifier::external_body]
fn random_id_bytes() -> (r: Vec<u8>)
    ensures
        r@.len() == 6,
{
    let mut data = [0u8; 6];
    rand::thread_rng().fill(&mut data);
    data.to_vec()
}

/// What `base64::engine::general_purpose::STANDARD_NO_PAD.encode` returns:
/// a function of the input bytes alone.
pub uninterp spec fn base64_nopad(bytes: Seq<u8>) -> Seq<char>;

/// Relies on `base64::Engine::encode` with the standard alphabet and no
/// padding: the output is determined by the input bytes; n bytes encode to
/// ceil(4n/3) characters, all from the alphabet `A-Z a-z 0-9 + /` (so none
/// is whitespace).
#[verifier::external_body]
fn base64_encode_nopad(bytes: &Vec<u8>) -> (r: String)
    ensures
        r@ == base64_nopad(bytes@),
        r@.len() == (bytes@.len() * 4 + 2) / 3,
        forall|i: int| 0 <= i < r@.len() ==> !is_ws(r@[i]),
{
    base64::engine::general_purpose::STANDARD_NO_PAD.encode(bytes.as_slice())
}

/// The index of the first member holding this name.
fn find_name(users: &Vec<Member>, name: &String) -> (r: Option<usize>)
    ensures
        match r {
            Some(i) => i < users@.len() && members_view(users@)[i as int].name == name@ && forall|
                j: int,
            | 0 <= j < i ==> members_view(users@)[j].name != name@,
            None => !has_name_spec(members_view(users@), name@),
        },
{
    let mut i: usize = 0;
    while i < users.len()
        invariant
            i <= users.len(),
            forall|j: int| 0 <= j < i ==> members_view(users@)[j].name != name@,
        decreases users.len() - i,
    {
        if users[i].name.eq(name) {
            return Some(i);
        }
        i += 1;
    }
    None
}

/// Clones a vector of strings.
fn clone_strings(v: &Vec<String>) -> (r: Vec<String>)
    ensures
        r.deep_view() == v.deep_view(),
{
    let mut r: Vec<String> = Vec::new();
    let mut i: usize = 0;
    while i < v.len()
        invariant
            i <= v.len(),
            r@.len() == i,
            forall|j: int| 0 <= j < i ==> r@[j]@ == v@[j]@,
        decreases v.len() - i,
    {
        r.push(v[i].clone());
        i += 1;
    }
    proof {
        assert(r.deep_view() =~= v.deep_view());
    }
    r
}

proof fn lemma_unique_remove(ms: Seq<MemberV>, i: int)
    requires
        unique_names(ms),
        0 <= i < ms.len(),
    ensures
        unique_names(ms.remove(i)),
{
    let r = ms.remove(i);
    assert forall|a: int, b: int| 0 <= a < b < r.len() implies r[a].name != r[b].name by {
        let oa: int = if a < i {
            a
        } else {
            a + 1
        };
        let ob: int = if b < i {
            b
        } else {
            b + 1
        };
        assert(r[a] == ms[oa]);
        assert(r[b] == ms[ob]);
    }
}

proof fn lemma_remove_name_gone(ms: Seq<MemberV>, i: int, n: Seq<char>)
    requires
        unique_names(ms),
        0 <= i < ms.len(),
        ms[i].name == n,
    ensures
        !has_name_spec(ms.remove(i), n),
{
    let r = ms.remove(i);
    assert forall|a: int| 0 <= a < r.len() implies r[a].name != n by {
        let oa: int = if a < i {
            a
        } else {
            a + 1
        };
        assert(r[a] == ms[oa]);
    }
}

proof fn lemma_remove_name_at(ms: Seq<MemberV>, i: int, n: Seq<char>)
    requires
        0 <= i < ms.len(),
        ms[i].name == n,
        forall|j: int| 0 <= j < i ==> ms[j].name != n,
    ensures
        remove_name_spec(ms, n) == ms.remove(i),
    decreases i,
{
    if i == 0 {
        assert(ms.remove(0) =~= ms.drop_first());
    } else {
        assert forall|j: int| 0 <= j < i - 1 implies ms.drop_first()[j].name != n by {
            assert(ms.drop_first()[j] == ms[j + 1]);
        }
        assert(ms.drop_first()[i - 1] == ms[i]);
        lemma_remove_name_at(ms.drop_first(), i - 1, n);
        assert(seq![ms[0]] + ms.drop_first().remove(i - 1) =~= ms.remove(i));
    }
}

proof fn lemma_remove_name_absent(ms: Seq<MemberV>, n: Seq<char>)
    requires
        !has_name_spec(ms, n),
    ensures
        remove_name_spec(ms, n) == ms,
    decreases ms.len(),
{
    if ms.len() > 0 {
        assert(ms[0].name != n);
        assert forall|j: int| 0 <= j < ms.drop_first().len() implies ms.drop_first()[j].name
            != n by {
            assert(ms.drop_first()[j] == ms[j + 1]);
        }
        lemma_remove_name_absent(ms.drop_first(), n);
        assert(seq![ms[0]] + ms.drop_first() =~= ms);
    }
}

impl Lobby {
    /// A lobby is well formed when member names are unique.
    pub open spec fn wf(&self) -> bool {
        unique_names(self@.members)
    }

    /// Creates an empty lobby under a fresh random identifier: six random
    /// bytes, base64 encoded without padding (eight non-whitespace
    /// characters). Collisions are treated as negligible; no retry exists.
    pub fn new() -> (r: Lobby)
        ensures
            r.wf(),
            r@.members.len() == 0,
            r@.id.len() == 8,
            forall|i: int| 0 <= i < r@.id.len() ==> !is_ws(r@.id[i]),
            trim_spec(r@.id) == r@.id,
    {
        let bytes = random_id_bytes();
        let id = base64_encode_nopad(&bytes);
        let l = Lobby { id, users: Vec::new() };
        proof {
            assert(l@.members =~= Seq::<MemberV>::empty());
            lemma_trim_no_ws(l@.id);
        }
        l
    }

    /// The lobby's identifier.
    pub fn id_str(&self) -> (r: &String)
        ensures
            r@ == self@.id,
    {
        &self.id
    }

    /// Atomically checks name availability and inserts: fails without
    /// mutation or broadcast when the player's name is taken; otherwise
    /// inserts the player and broadcasts the new membership to all members.
    pub fn player_try_join(&mut self, player: &User) -> (r: (bool, Vec<Delivery>))
        requires
            old(self).wf(),
            player.name is Some,
            player.sink is Some,
        ensures
            final(self).wf(),
            final(self)@.id == old(self)@.id,
            (final(self)@.members, r.0) == try_join_spec(old(self)@.members, member_of(*player)),
            r.0 == !has_name_spec(old(self)@.members, player.name_view()),
            r.0 ==> deliveries_view(r.1@) == broadcast_spec(final(self)@.id, final(self)@.members),
            !r.0 ==> r.1@.len() == 0,
    {
        let name = player.name.as_ref().unwrap().clone();
        if find_name(&self.users, &name).is_some() {
            let none: Vec<Delivery> = Vec::new();
            return (false, none);
        }
        let sink = *player.sink.as_ref().unwrap();
        let ghost oldm = self@.members;
        self.users.push(Member { name, sink });
        proof {
            assert(self@.members =~= oldm.push(member_of(*player)));
            assert forall|i: int, j: int|
                0 <= i < j < self@.members.len() implies self@.members[i].name
                != self@.members[j].name by {
                if j == self@.members.len() - 1 {
                    assert(self@.members[i] == oldm[i]);
                    if oldm[i].name == player.name_view() {
                        assert(has_name_spec(oldm, player.name_view()));
                    }
                } else {
                    assert(self@.members[i] == oldm[i]);
                    assert(self@.members[j] == oldm[j]);
                }
            }
        }
        let ds = self.resend_ui();
        (true, ds)
    }

    /// Removes the player's name from the membership if present (a no-op
    /// otherwise), then broadcasts the remaining membership.
    pub fn player_leave(&mut self, player: &User) -> (r: Vec<Delivery>)
        requires
            old(self).wf(),
            player.name is Some,
        ensures
            final(self).wf(),
            final(self)@.id == old(self)@.id,
            final(self)@.members == remove_name_spec(old(self)@.members, player.name_view()),
            !has_name_spec(final(self)@.members, player.name_view()),
            deliveries_view(r@) == broadcast_spec(final(self)@.id, final(self)@.members),
    {
        let name = player.name.as_ref().unwrap().clone();
        let ghost oldm = self@.members;
        match find_name(&self.users, &name) {
            Some(i) => {
                self.users.remove(i);
                proof {
                    assert(self@.members =~= oldm.remove(i as int));
                    lemma_remove_name_at(oldm, i as int, player.name_view());
                    lemma_unique_remove(oldm, i as int);
                    lemma_remove_name_gone(oldm, i as int, player.name_view());
                }
            },
            None => {
                proof {
                    lemma_remove_name_absent(oldm, player.name_view());
                }
            },
        }
        self.resend_ui()
    }

    /// Composes the current snapshot and addresses one copy to every current
    /// member's sink.
    pub fn resend_ui(&self) -> (r: Vec<Delivery>)
        ensures
            deliveries_view(r@) == broadcast_spec(self@.id, self@.members),
    {
        let mut players: Vec<String> = Vec::new();
        let mut i: usize = 0;
        while i < self.users.len()
            invariant
                i <= self.users.len(),
                players@.len() == i,
                forall|j: int| 0 <= j < i ==> players@[j]@ == members_view(self.users@)[j].name,
            decreases self.users.len() - i,
        {
            players.push(self.users[i].name.clone());
            i += 1;
        }
        proof {
            assert(players.deep_view() =~= names_of(self@.members));
        }
        let mut out: Vec<Delivery> = Vec::new();
        let mut j: usize = 0;
        while j < self.users.len()
            invariant
                j <= self.users.len(),
                players.deep_view() == names_of(self@.members),
                deliveries_view(out@) == broadcast_spec(self@.id, self@.members).take(j as int),
            decreases self.users.len() - j,
        {
            let msg = MessageS2C::PreGameUI {
                room_id: self.id.clone(),
                players: clone_strings(&players),
            };
            let ghost before = out@;
            out.push(Delivery { target: self.users[j].sink, message: msg });
            j += 1;
            proof {
                let bs = broadcast_spec(self@.id, self@.members);
                assert(deliveries_view(out@) =~= deliveries_view(before).push(
                    Delivery { target: self.users[j - 1].sink, message: msg }@,
                ));
                assert(bs[j - 1] == DeliveryV {
                    target: self@.members[j - 1].sink,
                    message: pregame_spec(self@.id, self@.members),
                });
                assert(bs.take(j as int) =~= bs.take(j - 1).push(bs[j - 1]));
            }
        }
        proof {
            assert(broadcast_spec(self@.id, self@.members).take(self.users@.len() as int)
                =~= broadcast_spec(self@.id, self@.members));
        }
        out
    }
}

/// First lobby in the sequence with the given id.
pub open spec fn lookup_in(ls: Seq<LobbyV>, id: Seq<char>) -> Option<LobbyV>
    decreases ls.len(),
{
    if ls.len() == 0 {
        None
    } else if ls[0].id == id {
        Some(ls[0])
    } else {
        lookup_in(ls.drop_first(), id)
    }
}

/// No two registered lobbies share an id.
pub open spec fn unique_ids(ls: Seq<LobbyV>) -> bool {
    forall|i: int, j: int| 0 <= i < j < ls.len() ==> ls[i].id != ls[j].id
}

/// A successful lookup returns a lobby under the looked-up id.
pub proof fn lemma_lookup_id(ls: Seq<LobbyV>, id: Seq<char>)
    ensures
        lookup_in(ls, id) matches Some(l) ==> l.id == id,
    decreases ls.len(),
{
    if ls.len() > 0 && ls[0].id != id {
        lemma_lookup_id(ls.drop_first(), id);
    }
}

proof fn lemma_lookup_at_index(ls: Seq<LobbyV>, id: Seq<char>, i: int)
    requires
        0 <= i < ls.len(),
        ls[i].id == id,
        forall|j: int| 0 <= j < i ==> ls[j].id != id,
    ensures
        lookup_in(ls, id) == Some(ls[i]),
    decreases i,
{
    if i > 0 {
        assert forall|j: int| 0 <= j < i - 1 implies ls.drop_first()[j].id != id by {
            assert(ls.drop_first()[j] == ls[j + 1]);
        }
        assert(ls.drop_first()[i - 1] == ls[i]);
        lemma_lookup_at_index(ls.drop_first(), id, i - 1);
    }
}

proof fn lemma_lookup_none(ls: Seq<LobbyV>, id: Seq<char>)
    requires
        forall|j: int| 0 <= j < ls.len() ==> ls[j].id != id,
    ensures
        lookup_in(ls, id) is None,
    decreases ls.len(),
{
    if ls.len() > 0 {
        assert forall|j: int| 0 <= j < ls.drop_first().len() implies ls.drop_first()[j].id
            != id by {
            assert(ls.drop_first()[j] == ls[j + 1]);
        }
        lemma_lookup_none(ls.drop_first(), id);
    }
}

proof fn lemma_lookup_update(ls: Seq<LobbyV>, i: int, l: LobbyV, o: Seq<char>)
    requires
        0 <= i < ls.len(),
        ls[i].id == l.id,
        forall|j: int| 0 <= j < i ==> ls[j].id != l.id,
    ensures
        lookup_in(ls.update(i, l), l.id) == Some(l),
        o != l.id ==> lookup_in(ls.update(i, l), o) == lookup_in(ls, o),
    decreases ls.len(),
{
    let u = ls.update(i, l);
    if i == 0 {
        assert(u[0] == l);
        assert(u.drop_first() =~= ls.drop_first());
    } else {
        assert(u[0] == ls[0]);
        assert(ls[0].id != l.id);
        assert(u.drop_first() =~= ls.drop_first().update(i - 1, l));
        assert forall|j: int| 0 <= j < i - 1 implies ls.drop_first()[j].id != l.id by {
            assert(ls.drop_first()[j] == ls[j + 1]);
        }
        assert(ls.drop_first()[i - 1] == ls[i]);
        lemma_lookup_update(ls.drop_first(), i - 1, l, o);
    }
}

proof fn lemma_lookup_push(ls: Seq<LobbyV>, l: LobbyV, o: Seq<char>)
    requires
        forall|j: int| 0 <= j < ls.len() ==> ls[j].id != l.id,
    ensures
        lookup_in(ls.push(l), l.id) == Some(l),
        o != l.id ==> lookup_in(ls.push(l), o) == lookup_in(ls, o),
    decreases ls.len(),
{
    let u = ls.push(l);
    if ls.len() == 0 {
        assert(u[0] == l);
        assert(u.drop_first() =~= Seq::<LobbyV>::empty());
    } else {
        assert(u[0] == ls[0]);
        assert(u.drop_first() =~= ls.drop_first().push(l));
        assert forall|j: int| 0 <= j < ls.drop_first().len() implies ls.drop_first()[j].id
            != l.id by {
            assert(ls.drop_first()[j] == ls[j + 1]);
        }
        lemma_lookup_push(ls.drop_first(), l, o);
    }
}

/// The process-wide directory of active lobbies.
pub struct LobbyList {
    lobbies: Vec<Lobby>,
}

/// The lobbies' views, in order.
pub open spec fn lobbies_view(ls: Seq<Lobby>) -> Seq<LobbyV> {
    ls.map(|i: int, l: Lobby| l@)
}

impl View for LobbyList {
    type V = Seq<LobbyV>;

    closed spec fn view(&self) -> Seq<LobbyV> {
        lobbies_view(self.lobbies@)
    }
}

/// The index of the first lobby with the given id.
fn find_id(lobbies: &Vec<Lobby>, id: &Vec<char>) -> (r: Option<usize>)
    ensures
        match r {
            Some(i) => i < lobbies@.len() && lobbies_view(lobbies@)[i as int].id == id@ && forall|
                j: int,
            | 0 <= j < i ==> lobbies_view(lobbies@)[j].id != id@,
            None => forall|j: int| 0 <= j < lobbies@.len() ==> lobbies_view(lobbies@)[j].id != id@,
        },
{
    let mut i: usize = 0;
    while i < lobbies.len()
        invariant
            i <= lobbies.len(),
            forall|j: int| 0 <= j < i ==> lobbies_view(lobbies@)[j].id != id@,
        decreases lobbies.len() - i,
    {
        if string_eq_chars(lobbies[i].id_str(), id) {
            return Some(i);
        }
        i += 1;
    }
    None
}

impl LobbyList {
    /// The registry is well formed when lobby ids are unique and every
    /// lobby's member names are unique.
    pub open spec fn wf(&self) -> bool {
        unique_ids(self@) && forall|i: int|
            0 <= i < self@.len() ==> unique_names(self@[i].members)
    }

    /// An empty registry.
    pub fn new() -> (r: LobbyList)
        ensures
            r.wf(),
            r@.len() == 0,
    {
        let r = LobbyList { lobbies: Vec::new() };
        proof {
            assert(r@ =~= Seq::<LobbyV>::empty());
        }
        r
    }

    /// Generates a lobby with a fresh id and registers it; returns the id.
    /// On the (negligible) chance of an id collision the colliding lobby is
    /// replaced, as a map insert would overwrite it.
    pub fn create(&mut self) -> (id: String)
        requires
            old(self).wf(),
        ensures
            final(self).wf(),
            id@.len() == 8,
            trim_spec(id@) == id@,
            lookup_in(final(self)@, id@) == Some(LobbyV { id: id@, members: Seq::empty() }),
            forall|o: Seq<char>| o != id@ ==> lookup_in(final(self)@, o) == lookup_in(old(self)@, o),
    {
        let l = Lobby::new();
        let id = l.id_str().clone();
        let t = str_to_chars(id.as_str());
        let ghost lv = l@;
        let ghost ls0 = self@;
        proof {
            assert(lv.members =~= Seq::<MemberV>::empty());
        }
        match find_id(&self.lobbies, &t) {
            Some(i) => {
                self.lobbies.remove(i);
                self.lobbies.insert(i, l);
                proof {
                    assert(self@ =~= ls0.update(i as int, lv));
                    lemma_lookup_update(ls0, i as int, lv, id@);
                    assert forall|o: Seq<char>| o != id@ implies lookup_in(self@, o) == lookup_in(
                        ls0,
                        o,
                    ) by {
                        lemma_lookup_update(ls0, i as int, lv, o);
                    }
                    assert forall|a: int, b: int|
                        0 <= a < b < self@.len() implies self@[a].id != self@[b].id by {
                        assert(ls0[a].id == self@[a].id || a == i);
                        assert(ls0[b].id == self@[b].id || b == i);
                    }
                }
            },
            None => {
                self.lobbies.push(l);
                proof {
                    assert(self@ =~= ls0.push(lv));
                    lemma_lookup_push(ls0, lv, id@);
                    assert forall|o: Seq<char>| o != id@ implies lookup_in(self@, o) == lookup_in(
                        ls0,
                        o,
                    ) by {
                        lemma_lookup_push(ls0, lv, o);
                    }
                    assert forall|a: int, b: int|
                        0 <= a < b < self@.len() implies self@[a].id != self@[b].id by {
                        if b < self@.len() - 1 {
                            assert(self@[a] == ls0[a]);
                            assert(self@[b] == ls0[b]);
                        } else {
                            assert(self@[a] == ls0[a]);
                        }
                    }
                }
            },
        }
        id
    }

    /// Looks a lobby up by id, tolerating surrounding whitespace in the
    /// given id (client-side copy/paste).
    pub fn get_lobby(&self, id: &str) -> (r: Option<&Lobby>)
        ensures
            match r {
                Some(l) => lookup_in(self@, trim_spec(id@)) == Some(l@),
                None => lookup_in(self@, trim_spec(id@)) is None,
            },
    {
        let t = trim_chars(id);
        match find_id(&self.lobbies, &t) {
            Some(i) => {
                proof {
                    lemma_lookup_at_index(self@, t@, i as int);
                }
                Some(&self.lobbies[i])
            },
            None => {
                proof {
                    lemma_lookup_none(self@, t@);
                }
                None
            },
        }
    }

    /// Looks the lobby up by id (trimmed) and lets the player try to join
    /// it; `None` when no lobby has that id.
    pub fn join_by_id(&mut self, id: &str, player: &User) -> (r: Option<(bool, Vec<Delivery>)>)
        requires
            old(self).wf(),
            player.name is Some,
            player.sink is Some,
        ensures
            final(self).wf(),
            (r is Some) == (lookup_in(old(self)@, trim_spec(id@)) is Some),
            r is None ==> final(self)@ == old(self)@,
            r matches Some(p) ==> ({
                let t = trim_spec(id@);
                let l = lookup_in(old(self)@, t).unwrap();
                let jr = try_join_spec(l.members, member_of(*player));
                &&& p.0 == !has_name_spec(l.members, player.name_view())
                &&& lookup_in(final(self)@, t) == Some(LobbyV { id: t, members: jr.0 })
                &&& forall|o: Seq<char>| o != t ==> lookup_in(final(self)@, o) == lookup_in(
                    old(self)@,
                    o,
                )
                &&& (p.0 ==> deliveries_view(p.1@) == broadcast_spec(t, jr.0))
                &&& (!p.0 ==> p.1@.len() == 0 && final(self)@ == old(self)@)
            }),
    {
        let t = trim_chars(id);
        let ghost ls0 = self@;
        match find_id(&self.lobbies, &t) {
            None => {
                proof {
                    lemma_lookup_none(ls0, t@);
                }
                None
            },
            Some(i) => {
                proof {
                    lemma_lookup_at_index(ls0, t@, i as int);
                }
                let mut l = self.lobbies.remove(i);
                let (ok, ds) = l.player_try_join(player);
                let ghost lv = l@;
                self.lobbies.insert(i, l);
                proof {
                    assert(self@ =~= ls0.update(i as int, lv));
                    lemma_lookup_update(ls0, i as int, lv, t@);
                    assert forall|o: Seq<char>| o != t@ implies lookup_in(self@, o) == lookup_in(
                        ls0,
                        o,
                    ) by {
                        lemma_lookup_update(ls0, i as int, lv, o);
                    }
                    assert forall|a: int, b: int|
                        0 <= a < b < self@.len() implies self@[a].id != self@[b].id by {
                        assert(ls0[a].id == self@[a].id || a == i);
                        assert(ls0[b].id == self@[b].id || b == i);
                    }
                    assert(lv =~= LobbyV {
                        id: t@,
                        members: try_join_spec(ls0[i as int].members, member_of(*player)).0,
                    });
                    if !ok {
                        assert(lv =~= ls0[i as int]);
                        assert(self@ =~= ls0);
                    }
                }
                Some((ok, ds))
            },
        }
    }

    /// Looks the lobby up by id (trimmed) and removes the player from it,
    /// broadcasting the remaining membership; `None` when no lobby has that
    /// id.
    pub fn leave_by_id(&mut self, id: &str, player: &User) -> (r: Option<Vec<Delivery>>)
        requires
            old(self).wf(),
            player.name is Some,
        ensures
            final(self).wf(),
            (r is Some) == (lookup_in(old(self)@, trim_spec(id@)) is Some),
            r is None ==> final(self)@ == old(self)@,
            r matches Some(ds) ==> ({
                let t = trim_spec(id@);
                let l = lookup_in(old(self)@, t).unwrap();
                let nm = remove_name_spec(l.members, player.name_view());
                &&& lookup_in(final(self)@, t) == Some(LobbyV { id: t, members: nm })
                &&& forall|o: Seq<char>| o != t ==> lookup_in(final(self)@, o) == lookup_in(
                    old(self)@,
                    o,
                )
                &&& deliveries_view(ds@) == broadcast_spec(t, nm)
            }),
    {
        let t = trim_chars(id);
        let ghost ls0 = self@;
        match find_id(&self.lobbies, &t) {
            None => {
                proof {
                    lemma_lookup_none(ls0, t@);
                }
                None
            },
            Some(i) => {
                proof {
                    lemma_lookup_at_index(ls0, t@, i as int);
                }
                let mut l = self.lobbies.remove(i);
                let ds = l.player_leave(player);
                let ghost lv = l@;
                self.lobbies.insert(i, l);
                proof {
                    assert(self@ =~= ls0.update(i as int, lv));
                    lemma_lookup_update(ls0, i as int, lv, t@);
                    assert forall|o: Seq<char>| o != t@ implies lookup_in(self@, o) == lookup_in(
                        ls0,
                        o,
                    ) by {
                        lemma_lookup_update(ls0, i as int, lv, o);
                    }
                    assert forall|a: int, b: int|
                        0 <= a < b < self@.len() implies self@[a].id != self@[b].id by {
                        assert(ls0[a].id == self@[a].id || a == i);
                        assert(ls0[b].id == self@[b].id || b == i);
                    }
                    assert(lv =~= LobbyV {
                        id: t@,
                        members: remove_name_spec(ls0[i as int].members, player.name_view()),
                    });
                }
                Some(ds)
            },
        }
    }
}

/// Name uniqueness: a well-formed lobby never holds two distinct members
/// with the same name; a join with a taken name fails without mutation, and
/// a join with a fresh name inserts it and keeps the names unique.
pub proof fn lemma_name_uniqueness(ms: Seq<MemberV>, m: MemberV)
    requires
        unique_names(ms),
    ensures
        forall|i: int, j: int| 0 <= i < j < ms.len() ==> ms[i].name != ms[j].name,
        has_name_spec(ms, m.name) ==> try_join_spec(ms, m) == (ms, false),
        !has_name_spec(ms, m.name) ==> try_join_spec(ms, m) == (ms.push(m), true)
            && unique_names(ms.push(m)),
{
    if !has_name_spec(ms, m.name) {
        let u = ms.push(m);
        assert forall|i: int, j: int| 0 <= i < j < u.len() implies u[i].name != u[j].name by {
            if j == u.len() - 1 {
                assert(u[i] == ms[i]);
                if ms[i].name == m.name {
                    assert(has_name_spec(ms, m.name));
                }
            } else {
                assert(u[i] == ms[i]);
                assert(u[j] == ms[j]);
            }
        }
    }
}

/// Exactly one of two racing joins with the same name against an empty
/// lobby succeeds: the first inserts, the second finds the name taken.
pub proof fn lemma_join_race_exactly_one(m1: MemberV, m2: MemberV)
    requires
        m1.name == m2.name,
    ensures
        ({
            let r1 = try_join_spec(Seq::empty(), m1);
            let r2 = try_join_spec(r1.0, m2);
            r1.1 && !r2.1 && r2.0 == r1.0
        }),
{
    assert(!has_name_spec(Seq::empty(), m1.name));
    let ms1 = Seq::empty().push(m1);
    assert(ms1[0].name == m2.name);
    assert(has_name_spec(ms1, m2.name));
}

/// Broadcast consistency: a broadcast addresses exactly the current members,
/// one delivery per member at that member's sink, and every copy carries the
/// lobby's id and exactly the current member names.
pub proof fn lemma_broadcast_consistency(id: Seq<char>, ms: Seq<MemberV>)
    ensures
        broadcast_spec(id, ms).len() == ms.len(),
        forall|i: int| 0 <= i < ms.len() ==> broadcast_spec(id, ms)[i] == (DeliveryV {
            target: ms[i].sink,
            message: MsgS2CV::PreGameUI { room_id: id, players: names_of(ms) },
        }),
{
}

/// Lookup trims its input: looking up any id gives the same result as
/// looking up its trimmed form.
pub proof fn lemma_lookup_trims(ls: Seq<LobbyV>, id: Seq<char>)
    ensures
        lookup_in(ls, trim_spec(id)) == lookup_in(ls, trim_spec(trim_spec(id))),
{
    lemma_trim_idempotent(id);
}

} // verus!
