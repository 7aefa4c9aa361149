//! Per-connection session state: the chosen display name, the current lobby,
//! and the outbound sink handle.

use vstd::prelude::*;

use crate::messages::{Delivery, MessageS2C, NameError};
use crate::text::{trim_chars, trim_spec};

verus! {

/// Server-side state for one connected client. The sink is the transport's
/// connection number; the lobby field holds the id of the joined lobby.
pub struct User {
    pub name: Option<String>,
    pub lobby: Option<String>,
    pub sink: Option<u64>,
}

/// First-writer-wins sink binding: a bound sink is never replaced.
pub open spec fn attach_sink_spec(cur: Option<u64>, sink: u64) -> Option<u64> {
    if cur is Some {
        cur
    } else {
        Some(sink)
    }
}

impl User {
    /// A session is coherent when lobby membership implies a chosen name.
    pub open spec fn wf(&self) -> bool {
        self.lobby is Some ==> self.name is Some
    }

    /// The chosen name's characters (meaningful when a name is set).
    pub open spec fn name_view(&self) -> Seq<char> {
        self.name.unwrap()@
    }

    /// The bound sink (meaningful when a sink is bound).
    pub open spec fn sink_id(&self) -> u64 {
        self.sink.unwrap()
    }

    /// A freshly connected session: no name, no lobby, no sink.
    pub fn new() -> (r: User)
        ensures
            r.name is None,
            r.lobby is None,
            r.sink is None,
    {
        User { name: None, lobby: None, sink: None }
    }

    /// Binds the outbound sink exactly once; a later call is a no-op.
    pub fn attach_sink(&mut self, sink: u64)
        ensures
            final(self).sink == attach_sink_spec(old(self).sink, sink),
            final(self).name == old(self).name,
            final(self).lobby == old(self).lobby,
    {
        if self.sink.is_none() {
            self.sink = Some(sink);
        }
    }

    /// Chooses the display name; rejects a name that is empty after trimming.
    /// A session is named at most once through this entry.
    pub fn set_name(&mut self, name: String) -> (r: Result<(), NameError>)
        requires
            old(self).name is None,
        ensures
            r is Ok <==> trim_spec(name@).len() > 0,
            r is Ok ==> final(self).name == Some(name),
            r is Err ==> final(self).name == old(self).name && r == Err::<(), NameError>(
                NameError::EmptyName,
            ),
            final(self).lobby == old(self).lobby,
            final(self).sink == old(self).sink,
    {
        let t = trim_chars(name.as_str());
        if t.len() == 0 {
            Err(NameError::EmptyName)
        } else {
            self.name = Some(name);
            Ok(())
        }
    }

    /// Addresses a message to this session's sink. Sending without a bound
    /// sink is fatal to the connection, so that case is excluded here.
    pub fn send_message(&self, message: MessageS2C) -> (r: Delivery)
        requires
            self.sink is Some,
        ensures
            Some(r.target) == self.sink,
            r.message == message,
    {
        Delivery { target: *self.sink.as_ref().unwrap(), message }
    }
}

/// Binding a sink twice leaves the first-bound sink in effect: whatever a
/// second attach offers, the binding after it equals the binding after the
/// first.
pub proof fn lemma_sink_binding_idempotent(cur: Option<u64>, a: u64, b: u64)
    ensures
        attach_sink_spec(attach_sink_spec(cur, a), b) == attach_sink_spec(cur, a),
{
}

} // verus!
