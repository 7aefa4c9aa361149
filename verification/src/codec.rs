//! The wire codec: the pre-game protocol's messages as UTF-8 text frames in a
//! field-tagged object format. Encoding is canonical; decoding accepts the
//! canonical form and inverts encoding exactly (see the round-trip lemmas).

use vstd::prelude::*;
use vstd::string::StrSliceExecFns;
use vstd::string::StringExecFns;

use crate::messages::{MessageC2S, MessageS2C, MsgC2SV, MsgS2CV};
use crate::text::{chars_to_string, str_to_chars};

verus! {

/// How one character appears inside an encoded string: quotes and backslashes
/// are escaped with a backslash, every other character stands for itself.
pub open spec fn escape_char_spec(c: char) -> Seq<char> {
    if c == '"' {
        seq!['\\', '"']
    } else if c == '\\' {
        seq!['\\', '\\']
    } else {
        seq![c]
    }
}

/// A string's characters in their escaped wire form.
pub open spec fn escape_spec(s: Seq<char>) -> Seq<char>
    decreases s.len(),
{
    if s.len() == 0 {
        Seq::empty()
    } else {
        escape_char_spec(s[0]) + escape_spec(s.drop_first())
    }
}

/// Escaping distributes over concatenation.
pub proof fn lemma_escape_concat(a: Seq<char>, b: Seq<char>)
    ensures
        escape_spec(a + b) == escape_spec(a) + escape_spec(b),
    decreases a.len(),
{
    if a.len() == 0 {
        assert(a + b =~= b);
        assert(escape_spec(a) + escape_spec(b) =~= escape_spec(b));
    } else {
        assert((a + b).drop_first() =~= a.drop_first() + b);
        assert((a + b)[0] == a[0]);
        lemma_escape_concat(a.drop_first(), b);
        assert((escape_char_spec(a[0]) + escape_spec(a.drop_first())) + escape_spec(b) =~= escape_char_spec(
            a[0],
        ) + (escape_spec(a.drop_first()) + escape_spec(b)));
    }
}

/// An escaped string between quotes.
pub open spec fn quoted_spec(s: Seq<char>) -> Seq<char> {
    seq!['"'] + escape_spec(s) + seq!['"']
}

/// The elements of a string array, quoted and separated by commas.
pub open spec fn encode_items_spec(ps: Seq<Seq<char>>) -> Seq<char>
    decreases ps.len(),
{
    if ps.len() == 0 {
        Seq::empty()
    } else if ps.len() == 1 {
        quoted_spec(ps[0])
    } else {
        quoted_spec(ps[0]) + seq![','] + encode_items_spec(ps.drop_first())
    }
}

pub open spec fn pre_create() -> Seq<char> {
    "{\"type\":\"CreateRoom\",\"name\":\""@
}

pub open spec fn pre_join() -> Seq<char> {
    "{\"type\":\"JoinRoom\",\"name\":\""@
}

pub open spec fn pre_alert() -> Seq<char> {
    "{\"type\":\"SendAlert\",\"text\":\""@
}

pub open spec fn pre_ui() -> Seq<char> {
    "{\"type\":\"PreGameUI\",\"room_id\":\""@
}

pub open spec fn sep_room() -> Seq<char> {
    ",\"room_id\":\""@
}

pub open spec fn sep_players() -> Seq<char> {
    ",\"players\":["@
}

/// The canonical encoding of a client-to-server command.
pub open spec fn encode_c2s_spec(m: MsgC2SV) -> Seq<char> {
    match m {
        MsgC2SV::CreateRoom { name } => pre_create() + escape_spec(name) + seq!['"', '}'],
        MsgC2SV::JoinRoom { name, room_id } => pre_join() + escape_spec(name) + seq!['"']
            + sep_room() + escape_spec(room_id) + seq!['"', '}'],
    }
}

/// The canonical encoding of a server-to-client notification.
pub open spec fn encode_s2c_spec(m: MsgS2CV) -> Seq<char> {
    match m {
        MsgS2CV::SendAlert { text } => pre_alert() + escape_spec(text) + seq!['"', '}'],
        MsgS2CV::PreGameUI { room_id, players } => pre_ui() + escape_spec(room_id) + seq!['"']
            + sep_players() + encode_items_spec(players) + seq![']', '}'],
    }
}

/// Parses an escaped string body up to and over its closing quote; yields the
/// unescaped content and what follows the closing quote.
pub open spec fn parse_str_body(s: Seq<char>) -> Option<(Seq<char>, Seq<char>)>
    decreases s.len(),
{
    if s.len() == 0 {
        None
    } else if s[0] == '"' {
        Some((Seq::empty(), s.drop_first()))
    } else if s[0] == '\\' {
        if s.len() < 2 {
            None
        } else if s[1] == '"' || s[1] == '\\' {
            match parse_str_body(s.skip(2)) {
                Some(p) => Some((seq![s[1]] + p.0, p.1)),
                None => None,
            }
        } else {
            None
        }
    } else {
        match parse_str_body(s.drop_first()) {
            Some(p) => Some((seq![s[0]] + p.0, p.1)),
            None => None,
        }
    }
}

/// A successful string-body parse consumes at least the closing quote.
pub proof fn lemma_parse_body_consumes(s: Seq<char>)
    ensures
        parse_str_body(s) matches Some(p) ==> p.1.len() < s.len(),
    decreases s.len(),
{
    if s.len() == 0 {
    } else if s[0] == '"' {
    } else if s[0] == '\\' {
        if s.len() >= 2 && (s[1] == '"' || s[1] == '\\') {
            lemma_parse_body_consumes(s.skip(2));
        }
    } else {
        lemma_parse_body_consumes(s.drop_first());
    }
}

/// Parses the elements of a string array up to and over the closing bracket;
/// yields the elements and what follows the bracket.
pub open spec fn parse_str_array(s: Seq<char>) -> Option<(Seq<Seq<char>>, Seq<char>)>
    decreases s.len(),
    via check_parse_str_array_decreases
{
    if s.len() == 0 {
        None
    } else if s[0] == ']' {
        Some((Seq::empty(), s.drop_first()))
    } else if s[0] == '"' {
        match parse_str_body(s.drop_first()) {
            Some(p) => if p.1.len() > 0 && p.1[0] == ']' {
                Some((seq![p.0], p.1.drop_first()))
            } else if p.1.len() > 1 && p.1[0] == ',' && p.1[1] == '"' {
                match parse_str_array(p.1.drop_first()) {
                    Some(q) => Some((seq![p.0] + q.0, q.1)),
                    None => None,
                }
            } else {
                None
            },
            None => None,
        }
    } else {
        None
    }
}

#[via_fn]
proof fn check_parse_str_array_decreases(s: Seq<char>) {
    if s.len() > 0 && s[0] == '"' {
        lemma_parse_body_consumes(s.drop_first());
    }
}

/// Whether `p` is a prefix of `s`.
pub open spec fn starts_with(s: Seq<char>, p: Seq<char>) -> bool {
    s.len() >= p.len() && s.subrange(0, p.len() as int) == p
}

/// The canonical decoding of a client-to-server command.
pub open spec fn decode_c2s_spec(s: Seq<char>) -> Option<MsgC2SV> {
    if starts_with(s, pre_create()) {
        match parse_str_body(s.skip(pre_create().len() as int)) {
            Some(p) => if p.1 == seq!['}'] {
                Some(MsgC2SV::CreateRoom { name: p.0 })
            } else {
                None
            },
            None => None,
        }
    } else if starts_with(s, pre_join()) {
        match parse_str_body(s.skip(pre_join().len() as int)) {
            Some(p) => if starts_with(p.1, sep_room()) {
                match parse_str_body(p.1.skip(sep_room().len() as int)) {
                    Some(q) => if q.1 == seq!['}'] {
                        Some(MsgC2SV::JoinRoom { name: p.0, room_id: q.0 })
                    } else {
                        None
                    },
                    None => None,
                }
            } else {
                None
            },
            None => None,
        }
    } else {
        None
    }
}

/// The canonical decoding of a server-to-client notification.
pub open spec fn decode_s2c_spec(s: Seq<char>) -> Option<MsgS2CV> {
    if starts_with(s, pre_alert()) {
        match parse_str_body(s.skip(pre_alert().len() as int)) {
            Some(p) => if p.1 == seq!['}'] {
                Some(MsgS2CV::SendAlert { text: p.0 })
            } else {
                None
            },
            None => None,
        }
    } else if starts_with(s, pre_ui()) {
        match parse_str_body(s.skip(pre_ui().len() as int)) {
            Some(p) => if starts_with(p.1, sep_players()) {
                match parse_str_array(p.1.skip(sep_players().len() as int)) {
                    Some(q) => if q.1 == seq!['}'] {
                        Some(MsgS2CV::PreGameUI { room_id: p.0, players: q.0 })
                    } else {
                        None
                    },
                    None => None,
                }
            } else {
                None
            },
            None => None,
        }
    } else {
        None
    }
}

/// Parsing a string body inverts escaping: the content comes back exactly,
/// and parsing stops right after the closing quote.
pub proof fn lemma_parse_body_escape(content: Seq<char>, rest: Seq<char>)
    ensures
        parse_str_body(escape_spec(content) + seq!['"'] + rest) == Some((content, rest)),
    decreases content.len(),
{
    let s = escape_spec(content) + seq!['"'] + rest;
    if content.len() == 0 {
        assert(s =~= seq!['"'] + rest);
        assert(s[0] == '"');
        assert(s.drop_first() =~= rest);
    } else {
        let c = content[0];
        let tail = content.drop_first();
        lemma_parse_body_escape(tail, rest);
        let inner = escape_spec(tail) + seq!['"'] + rest;
        if c == '"' || c == '\\' {
            assert(s[0] == '\\');
            assert(s[1] == c);
            assert(s.len() >= 2);
            assert(s.skip(2) =~= inner);
            assert(seq![s[1]] + tail =~= content);
        } else {
            assert(s[0] == c);
            assert(s.drop_first() =~= inner);
            assert(seq![s[0]] + tail =~= content);
        }
    }
}

/// A non-empty encoded item list starts with a quote.
proof fn lemma_encode_items_first(ps: Seq<Seq<char>>)
    requires
        ps.len() >= 1,
    ensures
        encode_items_spec(ps).len() >= 2,
        encode_items_spec(ps)[0] == '"',
{
    assert(quoted_spec(ps[0])[0] == '"');
    assert(quoted_spec(ps[0]).len() >= 2);
}

/// Parsing a string array inverts item encoding: the elements come back
/// exactly, and parsing stops right after the closing bracket.
pub proof fn lemma_parse_array_encode(ps: Seq<Seq<char>>, rest: Seq<char>)
    ensures
        parse_str_array(encode_items_spec(ps) + seq![']'] + rest) == Some((ps, rest)),
    decreases ps.len(),
{
    let s = encode_items_spec(ps) + seq![']'] + rest;
    if ps.len() == 0 {
        assert(s =~= seq![']'] + rest);
        assert(s[0] == ']');
        assert(s.drop_first() =~= rest);
        assert(Seq::<Seq<char>>::empty() =~= ps);
    } else if ps.len() == 1 {
        assert(s[0] == '"');
        lemma_parse_body_escape(ps[0], seq![']'] + rest);
        assert(s.drop_first() =~= escape_spec(ps[0]) + seq!['"'] + (seq![']'] + rest));
        let r = seq![']'] + rest;
        assert(r[0] == ']');
        assert(r.drop_first() =~= rest);
        assert(seq![ps[0]] =~= ps);
    } else {
        let tail = ps.drop_first();
        let r_after = seq![','] + encode_items_spec(tail) + seq![']'] + rest;
        assert(s[0] == '"');
        lemma_parse_body_escape(ps[0], r_after);
        assert(s.drop_first() =~= escape_spec(ps[0]) + seq!['"'] + r_after);
        lemma_encode_items_first(tail);
        assert(r_after[0] == ',');
        assert(r_after[1] == '"');
        assert(r_after.len() > 1);
        lemma_parse_array_encode(tail, rest);
        assert(r_after.drop_first() =~= encode_items_spec(tail) + seq![']'] + rest);
        assert(seq![ps[0]] + tail =~= ps);
    }
}

/// Round trip: decoding the canonical encoding of any client-to-server
/// command yields that command back.
pub proof fn lemma_c2s_round_trip(m: MsgC2SV)
    ensures
        decode_c2s_spec(encode_c2s_spec(m)) == Some(m),
{
    match m {
        MsgC2SV::CreateRoom { name } => {
            let s = encode_c2s_spec(m);
            assert(s.subrange(0, pre_create().len() as int) =~= pre_create());
            assert(starts_with(s, pre_create()));
            assert(s.skip(pre_create().len() as int) =~= escape_spec(name) + seq!['"'] + seq![
                '}',
            ]);
            lemma_parse_body_escape(name, seq!['}']);
        },
        MsgC2SV::JoinRoom { name, room_id } => {
            let s = encode_c2s_spec(m);
            reveal_strlit("{\"type\":\"CreateRoom\",\"name\":\"");
            reveal_strlit("{\"type\":\"JoinRoom\",\"name\":\"");
            assert(pre_join().len() > 9);
            assert(s[9] == pre_join()[9]);
            assert(s[9] == 'J');
            if starts_with(s, pre_create()) {
                assert(s.subrange(0, pre_create().len() as int)[9] == pre_create()[9]);
                assert(s[9] == 'C');
                assert(false);
            }
            assert(s.subrange(0, pre_join().len() as int) =~= pre_join());
            assert(starts_with(s, pre_join()));
            let r_after = sep_room() + escape_spec(room_id) + seq!['"'] + seq!['}'];
            assert(s.skip(pre_join().len() as int) =~= escape_spec(name) + seq!['"'] + r_after);
            lemma_parse_body_escape(name, r_after);
            assert(r_after.subrange(0, sep_room().len() as int) =~= sep_room());
            assert(starts_with(r_after, sep_room()));
            assert(r_after.skip(sep_room().len() as int) =~= escape_spec(room_id) + seq!['"']
                + seq!['}']);
            lemma_parse_body_escape(room_id, seq!['}']);
        },
    }
}

/// Round trip: decoding the canonical encoding of any server-to-client
/// notification yields that notification back.
pub proof fn lemma_s2c_round_trip(m: MsgS2CV)
    ensures
        decode_s2c_spec(encode_s2c_spec(m)) == Some(m),
{
    match m {
        MsgS2CV::SendAlert { text } => {
            let s = encode_s2c_spec(m);
            assert(s.subrange(0, pre_alert().len() as int) =~= pre_alert());
            assert(starts_with(s, pre_alert()));
            assert(s.skip(pre_alert().len() as int) =~= escape_spec(text) + seq!['"'] + seq![
                '}',
            ]);
            lemma_parse_body_escape(text, seq!['}']);
        },
        MsgS2CV::PreGameUI { room_id, players } => {
            let s = encode_s2c_spec(m);
            reveal_strlit("{\"type\":\"SendAlert\",\"text\":\"");
            reveal_strlit("{\"type\":\"PreGameUI\",\"room_id\":\"");
            assert(pre_ui().len() > 9);
            assert(s[9] == pre_ui()[9]);
            assert(s[9] == 'P');
            if starts_with(s, pre_alert()) {
                assert(s.subrange(0, pre_alert().len() as int)[9] == pre_alert()[9]);
                assert(s[9] == 'S');
                assert(false);
            }
            assert(s.subrange(0, pre_ui().len() as int) =~= pre_ui());
            assert(starts_with(s, pre_ui()));
            let r_after = sep_players() + encode_items_spec(players) + seq![']'] + seq!['}'];
            assert(s.skip(pre_ui().len() as int) =~= escape_spec(room_id) + seq!['"'] + r_after);
            lemma_parse_body_escape(room_id, r_after);
            assert(r_after.subrange(0, sep_players().len() as int) =~= sep_players());
            assert(starts_with(r_after, sep_players()));
            assert(r_after.skip(sep_players().len() as int) =~= encode_items_spec(players) + seq![
                ']',
            ] + seq!['}']);
            lemma_parse_array_encode(players, seq!['}']);
        },
    }
}

/// Appending one more element to a non-empty item list appends a comma and
/// the quoted element.
proof fn lemma_encode_items_push(ps: Seq<Seq<char>>, p: Seq<char>)
    requires
        ps.len() >= 1,
    ensures
        encode_items_spec(ps.push(p)) == encode_items_spec(ps) + seq![','] + quoted_spec(p),
    decreases ps.len(),
{
    let e = ps.push(p);
    if ps.len() == 1 {
        assert(e.drop_first() =~= seq![p]);
        assert(e[0] == ps[0]);
        assert(encode_items_spec(seq![p]) == quoted_spec(p));
        assert(encode_items_spec(e) == quoted_spec(e[0]) + seq![','] + encode_items_spec(
            e.drop_first(),
        ));
        assert((quoted_spec(ps[0]) + seq![',']) + quoted_spec(p) =~= quoted_spec(ps[0]) + seq![
            ',',
        ] + quoted_spec(p));
    } else {
        assert(e.drop_first() =~= ps.drop_first().push(p));
        assert(e[0] == ps[0]);
        lemma_encode_items_push(ps.drop_first(), p);
        assert(quoted_spec(ps[0]) + seq![','] + (encode_items_spec(ps.drop_first()) + seq![',']
            + quoted_spec(p)) =~= (quoted_spec(ps[0]) + seq![','] + encode_items_spec(
            ps.drop_first(),
        )) + seq![','] + quoted_spec(p));
    }
}

/// Writes `escape_spec(s@)` at the end of `out`.
fn append_escaped(out: &mut String, s: &String)
    ensures
        final(out)@ == old(out)@ + escape_spec(s@),
{
    let st = s.as_str();
    let n = st.unicode_len();
    let mut i: usize = 0;
    while i < n
        invariant
            i <= n,
            n == st@.len(),
            st@ == s@,
            out@ == old(out)@ + escape_spec(s@.take(i as int)),
        decreases n - i,
    {
        let c = st.get_char(i);
        if c == '"' {
            out.push('\\');
            out.push('"');
        } else if c == '\\' {
            out.push('\\');
            out.push('\\');
        } else {
            out.push(c);
        }
        proof {
            lemma_escape_concat(s@.take(i as int), seq![s@[i as int]]);
            assert(s@.take(i as int).push(s@[i as int]) =~= s@.take(i as int) + seq![
                s@[i as int],
            ]);
            assert(s@.take(i + 1) =~= s@.take(i as int).push(s@[i as int]));
            assert(seq![c].drop_first() =~= Seq::<char>::empty());
            assert(escape_spec(Seq::<char>::empty()) =~= Seq::<char>::empty());
            assert(escape_spec(seq![c]) =~= escape_char_spec(c));
            assert(out@ =~= old(out)@ + escape_spec(s@.take(i + 1)));
        }
        i += 1;
    }
    proof {
        assert(s@.take(n as int) =~= s@);
    }
}

/// Encodes a client-to-server command in canonical form.
pub fn encode_c2s(m: &MessageC2S) -> (r: String)
    ensures
        r@ == encode_c2s_spec(m@),
{
    let mut out = String::new();
    match m {
        MessageC2S::CreateRoom { name } => {
            out.append("{\"type\":\"CreateRoom\",\"name\":\"");
            append_escaped(&mut out, name);
            out.append("\"}");
            proof {
                reveal_strlit("\"}");
                assert("\"}"@ =~= seq!['"', '}']);
                assert(out@ =~= encode_c2s_spec(m@));
            }
        },
        MessageC2S::JoinRoom { name, room_id } => {
            out.append("{\"type\":\"JoinRoom\",\"name\":\"");
            append_escaped(&mut out, name);
            out.append("\",\"room_id\":\"");
            append_escaped(&mut out, room_id);
            out.append("\"}");
            proof {
                reveal_strlit("\"}");
                reveal_strlit("\",\"room_id\":\"");
                reveal_strlit(",\"room_id\":\"");
                assert("\"}"@ =~= seq!['"', '}']);
                assert("\",\"room_id\":\""@ =~= seq!['"'] + sep_room());
                assert(out@ =~= encode_c2s_spec(m@));
            }
        },
    }
    out
}

/// Encodes a server-to-client notification in canonical form.
pub fn encode_s2c(m: &MessageS2C) -> (r: String)
    ensures
        r@ == encode_s2c_spec(m@),
{
    let mut out = String::new();
    match m {
        MessageS2C::SendAlert { text } => {
            out.append("{\"type\":\"SendAlert\",\"text\":\"");
            append_escaped(&mut out, text);
            out.append("\"}");
            proof {
                reveal_strlit("\"}");
                assert("\"}"@ =~= seq!['"', '}']);
                assert(out@ =~= encode_s2c_spec(m@));
            }
        },
        MessageS2C::PreGameUI { room_id, players } => {
            out.append("{\"type\":\"PreGameUI\",\"room_id\":\"");
            append_escaped(&mut out, room_id);
            out.append("\",\"players\":[");
            proof {
                reveal_strlit("\",\"players\":[");
                reveal_strlit(",\"players\":[");
                assert("\",\"players\":["@ =~= seq!['"'] + sep_players());
            }
            let ghost head = pre_ui() + escape_spec(room_id@) + seq!['"'] + sep_players();
            proof {
                assert(out@ =~= head);
            }
            let mut i: usize = 0;
            while i < players.len()
                invariant
                    i <= players.len(),
                    out@ == head + encode_items_spec(players.deep_view().take(i as int)),
                decreases players.len() - i,
            {
                proof {
                    assert(players.deep_view()[i as int] == players@[i as int]@);
                }
                if i > 0 {
                    out.push(',');
                }
                out.push('"');
                append_escaped(&mut out, &players[i]);
                out.push('"');
                proof {
                    let ps = players.deep_view();
                    assert(ps.take(i + 1) =~= ps.take(i as int).push(ps[i as int]));
                    if i == 0 {
                        assert(ps.take(1) =~= seq![ps[0]]);
                        assert(encode_items_spec(seq![ps[0]]) == quoted_spec(ps[0]));
                        assert(out@ =~= head + encode_items_spec(ps.take(1)));
                    } else {
                        lemma_encode_items_push(ps.take(i as int), ps[i as int]);
                        assert(out@ =~= head + encode_items_spec(ps.take(i + 1)));
                    }
                }
                i += 1;
            }
            out.append("]}");
            proof {
                reveal_strlit("]}");
                assert("]}"@ =~= seq![']', '}']);
                assert(players.deep_view().take(players.len() as int) =~= players.deep_view());
                assert(out@ =~= encode_s2c_spec(m@));
            }
        },
    }
    out
}

/// `body_join(acc, r)` prefixes `acc` to the content of a parse result.
spec fn body_join(acc: Seq<char>, r: Option<(Seq<char>, Seq<char>)>) -> Option<
    (Seq<char>, Seq<char>),
> {
    match r {
        Some(p) => Some((acc + p.0, p.1)),
        None => None,
    }
}

proof fn lemma_body_join_unit(r: Option<(Seq<char>, Seq<char>)>)
    ensures
        body_join(Seq::empty(), r) == r,
{
    match r {
        Some(p) => {
            assert(Seq::empty() + p.0 =~= p.0);
        },
        None => {},
    }
}

proof fn lemma_body_join_assoc(acc: Seq<char>, c: char, r: Option<(Seq<char>, Seq<char>)>)
    ensures
        body_join(acc, body_join(seq![c], r)) == body_join(acc.push(c), r),
{
    match r {
        Some(p) => {
            assert(acc + (seq![c] + p.0) =~= acc.push(c) + p.0);
        },
        None => {},
    }
}

/// Parses an escaped string body in `v` starting at `pos`; on success returns
/// the unescaped content and the index just past the closing quote.
fn parse_body_exec(v: &Vec<char>, pos: usize) -> (r: Option<(Vec<char>, usize)>)
    requires
        pos <= v.len(),
    ensures
        match r {
            Some(p) => p.1 <= v.len() && parse_str_body(v@.skip(pos as int)) == Some(
                (p.0@, v@.skip(p.1 as int)),
            ),
            None => parse_str_body(v@.skip(pos as int)) is None,
        },
{
    let mut acc: Vec<char> = Vec::new();
    let mut i: usize = pos;
    proof {
        lemma_body_join_unit(parse_str_body(v@.skip(pos as int)));
    }
    loop
        invariant
            pos <= i <= v.len(),
            parse_str_body(v@.skip(pos as int)) == body_join(
                acc@,
                parse_str_body(v@.skip(i as int)),
            ),
        decreases v.len() - i,
    {
        if i == v.len() {
            proof {
                assert(v@.skip(i as int) =~= Seq::<char>::empty());
            }
            return None;
        }
        let c = v[i];
        proof {
            assert(v@.skip(i as int)[0] == v@[i as int]);
        }
        if c == '"' {
            proof {
                assert(v@.skip(i as int).drop_first() =~= v@.skip(i + 1));
                assert(acc@ + Seq::<char>::empty() =~= acc@);
            }
            return Some((acc, i + 1));
        } else if c == '\\' {
            if i + 1 == v.len() {
                proof {
                    assert(v@.skip(i as int).len() == 1);
                }
                return None;
            }
            let c2 = v[i + 1];
            proof {
                assert(v@.skip(i as int)[1] == v@[i + 1]);
            }
            if c2 == '"' || c2 == '\\' {
                proof {
                    assert(v@.skip(i as int).skip(2) =~= v@.skip(i + 2));
                    let inner = parse_str_body(v@.skip(i + 2));
                    match inner {
                        Some(p) => {
                            assert(parse_str_body(v@.skip(i as int)) == Some(
                                (seq![c2] + p.0, p.1),
                            ));
                        },
                        None => {},
                    }
                    assert(parse_str_body(v@.skip(i as int)) == body_join(seq![c2], inner));
                    lemma_body_join_assoc(acc@, c2, inner);
                }
                acc.push(c2);
                i = i + 2;
            } else {
                return None;
            }
        } else {
            proof {
                assert(v@.skip(i as int).drop_first() =~= v@.skip(i + 1));
                let inner = parse_str_body(v@.skip(i + 1));
                match inner {
                    Some(p) => {
                        assert(parse_str_body(v@.skip(i as int)) == Some((seq![c] + p.0, p.1)));
                    },
                    None => {},
                }
                assert(parse_str_body(v@.skip(i as int)) == body_join(seq![c], inner));
                lemma_body_join_assoc(acc@, c, inner);
            }
            acc.push(c);
            i = i + 1;
        }
    }
}

/// `arr_join(acc, r)` prefixes `acc` to the elements of an array parse result.
spec fn arr_join(acc: Seq<Seq<char>>, r: Option<(Seq<Seq<char>>, Seq<char>)>) -> Option<
    (Seq<Seq<char>>, Seq<char>),
> {
    match r {
        Some(p) => Some((acc + p.0, p.1)),
        None => None,
    }
}

proof fn lemma_arr_join_unit(r: Option<(Seq<Seq<char>>, Seq<char>)>)
    ensures
        arr_join(Seq::empty(), r) == r,
{
    match r {
        Some(p) => {
            assert(Seq::empty() + p.0 =~= p.0);
        },
        None => {},
    }
}

proof fn lemma_arr_join_assoc(acc: Seq<Seq<char>>, e: Seq<char>, r: Option<
    (Seq<Seq<char>>, Seq<char>),
>)
    ensures
        arr_join(acc, arr_join(seq![e], r)) == arr_join(acc.push(e), r),
{
    match r {
        Some(p) => {
            assert(acc + (seq![e] + p.0) =~= acc.push(e) + p.0);
        },
        None => {},
    }
}

/// Parses a string array in `v` starting at `pos` (just past the opening
/// bracket); on success returns the elements and the index just past the
/// closing bracket.
fn parse_array_exec(v: &Vec<char>, pos: usize) -> (r: Option<(Vec<String>, usize)>)
    requires
        pos <= v.len(),
    ensures
        match r {
            Some(p) => p.1 <= v.len() && parse_str_array(v@.skip(pos as int)) == Some(
                (p.0.deep_view(), v@.skip(p.1 as int)),
            ),
            None => parse_str_array(v@.skip(pos as int)) is None,
        },
{
    if pos == v.len() {
        proof {
            assert(v@.skip(pos as int) =~= Seq::<char>::empty());
        }
        return None;
    }
    proof {
        assert(v@.skip(pos as int)[0] == v@[pos as int]);
    }
    if v[pos] == ']' {
        let out: Vec<String> = Vec::new();
        proof {
            assert(v@.skip(pos as int).drop_first() =~= v@.skip(pos + 1));
            assert(out.deep_view() =~= Seq::<Seq<char>>::empty());
        }
        return Some((out, pos + 1));
    }
    if v[pos] != '"' {
        return None;
    }
    let mut acc: Vec<String> = Vec::new();
    let mut i: usize = pos;
    proof {
        lemma_arr_join_unit(parse_str_array(v@.skip(pos as int)));
        assert(acc.deep_view() =~= Seq::<Seq<char>>::empty());
    }
    loop
        invariant
            pos <= i < v.len(),
            v@[i as int] == '"',
            parse_str_array(v@.skip(pos as int)) == arr_join(
                acc.deep_view(),
                parse_str_array(v@.skip(i as int)),
            ),
        decreases v.len() - i,
    {
        proof {
            assert(v@.skip(i as int)[0] == v@[i as int]);
            assert(v@.skip(i as int).drop_first() =~= v@.skip(i + 1));
            lemma_parse_body_consumes(v@.skip(i + 1));
        }
        match parse_body_exec(v, i + 1) {
            None => {
                return None;
            },
            Some((elem, np)) => {
                let ghost s_i = v@.skip(i as int);
                let ghost rr = v@.skip(np as int);
                proof {
                    assert(rr.len() < v@.skip(i + 1).len());
                    assert(np > i + 1);
                }
                if np < v.len() && v[np] == ']' {
                    proof {
                        assert(rr[0] == v@[np as int]);
                        assert(rr.drop_first() =~= v@.skip(np + 1));
                        assert(parse_str_array(s_i) == Some((seq![elem@], v@.skip(np + 1))));
                    }
                    let es = chars_to_string(&elem);
                    let ghost before = acc.deep_view();
                    acc.push(es);
                    proof {
                        assert(acc.deep_view() =~= before.push(elem@));
                        assert(before.push(elem@) =~= before + seq![elem@]);
                    }
                    return Some((acc, np + 1));
                } else if np < v.len() && v.len() - np > 1 && v[np] == ',' && v[np + 1] == '"' {
                    proof {
                        assert(rr[0] == v@[np as int]);
                        assert(rr[1] == v@[np + 1]);
                        assert(rr.len() > 1);
                        assert(rr.drop_first() =~= v@.skip(np + 1));
                        let inner = parse_str_array(v@.skip(np + 1));
                        match inner {
                            Some(q) => {
                                assert(parse_str_array(s_i) == Some((seq![elem@] + q.0, q.1)));
                            },
                            None => {},
                        }
                        assert(parse_str_array(s_i) == arr_join(seq![elem@], inner));
                        lemma_arr_join_assoc(acc.deep_view(), elem@, inner);
                    }
                    let es = chars_to_string(&elem);
                    let ghost before = acc.deep_view();
                    acc.push(es);
                    proof {
                        assert(acc.deep_view() =~= before.push(elem@));
                    }
                    i = np + 1;
                } else {
                    proof {
                        if rr.len() > 0 && rr[0] == ']' {
                            assert(rr[0] == v@[np as int]);
                            assert(np < v.len());
                            assert(false);
                        }
                        if rr.len() > 1 && rr[0] == ',' && rr[1] == '"' {
                            assert(rr[0] == v@[np as int]);
                            assert(rr[1] == v@[np + 1]);
                            assert(np < v.len() && v.len() - np > 1);
                            assert(false);
                        }
                    }
                    return None;
                }
            },
        }
    }
}

/// Whether `lit` occurs in `v` at `pos`; on success returns the index just
/// past the literal.
fn match_lit(v: &Vec<char>, pos: usize, lit: &str) -> (r: Option<usize>)
    requires
        pos <= v.len(),
    ensures
        match r {
            Some(np) => np == pos + lit@.len() && np <= v.len() && starts_with(
                v@.skip(pos as int),
                lit@,
            ),
            None => !starts_with(v@.skip(pos as int), lit@),
        },
{
    let n = lit.unicode_len();
    if v.len() - pos < n {
        return None;
    }
    let mut j: usize = 0;
    while j < n
        invariant
            j <= n,
            n == lit@.len(),
            pos + n <= v.len(),
            forall|k: int| 0 <= k < j ==> v@[pos + k] == lit@[k],
        decreases n - j,
    {
        let c = v[pos + j];
        let lc = lit.get_char(j);
        if c != lc {
            proof {
                let s = v@.skip(pos as int);
                if starts_with(s, lit@) {
                    assert(s.subrange(0, lit@.len() as int)[j as int] == lit@[j as int]);
                    assert(s[j as int] == v@[pos + j]);
                }
            }
            return None;
        }
        j += 1;
    }
    proof {
        let s = v@.skip(pos as int);
        assert forall|k: int| 0 <= k < lit@.len() implies s.subrange(0, lit@.len() as int)[k]
            == lit@[k] by {
            assert(s[k] == v@[pos + k]);
        }
        assert(s.subrange(0, lit@.len() as int) =~= lit@);
    }
    Some(pos + n)
}

/// Checks that the characters from `pos` on are exactly the closing brace.
fn at_closing_brace(v: &Vec<char>, pos: usize) -> (r: bool)
    requires
        pos <= v.len(),
    ensures
        r == (v@.skip(pos as int) == seq!['}']),
{
    if v.len() - pos == 1 && v[pos] == '}' {
        proof {
            assert(v@.skip(pos as int) =~= seq!['}']);
        }
        true
    } else {
        proof {
            let s = v@.skip(pos as int);
            if s == seq!['}'] {
                assert(s.len() == 1);
                assert(s[0] == v@[pos as int]);
            }
        }
        false
    }
}

/// Decodes a client-to-server command from its canonical text form.
pub fn decode_c2s(text: &str) -> (r: Option<MessageC2S>)
    ensures
        match r {
            Some(m) => decode_c2s_spec(text@) == Some(m@),
            None => decode_c2s_spec(text@) is None,
        },
{
    let v = str_to_chars(text);
    proof {
        assert(v@.skip(0) =~= text@);
    }
    if let Some(p) = match_lit(&v, 0, "{\"type\":\"CreateRoom\",\"name\":\"") {
        match parse_body_exec(&v, p) {
            Some((name, np)) => {
                if at_closing_brace(&v, np) {
                    Some(MessageC2S::CreateRoom { name: chars_to_string(&name) })
                } else {
                    None
                }
            },
            None => None,
        }
    } else if let Some(p) = match_lit(&v, 0, "{\"type\":\"JoinRoom\",\"name\":\"") {
        match parse_body_exec(&v, p) {
            Some((name, np)) => {
                if let Some(p2) = match_lit(&v, np, ",\"room_id\":\"") {
                    proof {
                        assert(v@.skip(np as int).skip(sep_room().len() as int) =~= v@.skip(
                            p2 as int,
                        ));
                    }
                    match parse_body_exec(&v, p2) {
                        Some((room, np2)) => {
                            if at_closing_brace(&v, np2) {
                                Some(
                                    MessageC2S::JoinRoom {
                                        name: chars_to_string(&name),
                                        room_id: chars_to_string(&room),
                                    },
                                )
                            } else {
                                None
                            }
                        },
                        None => None,
                    }
                } else {
                    None
                }
            },
            None => None,
        }
    } else {
        None
    }
}

/// Decodes a server-to-client notification from its canonical text form.
pub fn decode_s2c(text: &str) -> (r: Option<MessageS2C>)
    ensures
        match r {
            Some(m) => decode_s2c_spec(text@) == Some(m@),
            None => decode_s2c_spec(text@) is None,
        },
{
    let v = str_to_chars(text);
    proof {
        assert(v@.skip(0) =~= text@);
    }
    if let Some(p) = match_lit(&v, 0, "{\"type\":\"SendAlert\",\"text\":\"") {
        match parse_body_exec(&v, p) {
            Some((alert_text, np)) => {
                if at_closing_brace(&v, np) {
                    Some(MessageS2C::SendAlert { text: chars_to_string(&alert_text) })
                } else {
                    None
                }
            },
            None => None,
        }
    } else if let Some(p) = match_lit(&v, 0, "{\"type\":\"PreGameUI\",\"room_id\":\"") {
        match parse_body_exec(&v, p) {
            Some((room, np)) => {
                if let Some(p2) = match_lit(&v, np, ",\"players\":[") {
                    proof {
                        assert(v@.skip(np as int).skip(sep_players().len() as int) =~= v@.skip(
                            p2 as int,
                        ));
                    }
                    match parse_array_exec(&v, p2) {
                        Some((players, np2)) => {
                            if at_closing_brace(&v, np2) {
                                Some(
                                    MessageS2C::PreGameUI {
                                        room_id: chars_to_string(&room),
                                        players,
                                    },
                                )
                            } else {
                                None
                            }
                        },
                        None => None,
                    }
                } else {
                    None
                }
            },
            None => None,
        }
    } else {
        None
    }
}

} // verus!
