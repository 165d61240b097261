//! Decisions of the session server's control plane: where a soft interrupt
//! goes, whether a reload request reloads, and which client connection is
//! attached to which session.

use vstd::prelude::*;
use crate::keyed::KeyedMap;
use crate::text::{opt_text, str_eq};

verus! {

/// Where a soft interrupt for a session is delivered.
pub enum SoftInterruptRoute {
    /// Onto the queue registered for the session.
    Registered,
    /// Onto the live agent's queue, which is registered for the session
    /// first.
    AgentQueue,
    /// The session exists but is not live: the interrupt is stored for it.
    Deferred,
    /// No such session: the interrupt is refused.
    Rejected,
}

/// Chooses where a soft interrupt goes: the registered queue if the
/// session has one, else the live agent's queue when the agent can be
/// reached without waiting, else the store when the session exists, else
/// nowhere.
pub fn soft_interrupt_route(
    queue_registered: bool,
    agent_queue_available: bool,
    session_exists: bool,
) -> (r: SoftInterruptRoute)
    ensures
        match r {
            SoftInterruptRoute::Registered => queue_registered,
            SoftInterruptRoute::AgentQueue => !queue_registered && agent_queue_available,
            SoftInterruptRoute::Deferred => !queue_registered && !agent_queue_available
                && session_exists,
            SoftInterruptRoute::Rejected => !queue_registered && !agent_queue_available
                && !session_exists,
        },
{
    if queue_registered {
        SoftInterruptRoute::Registered
    } else if agent_queue_available {
        SoftInterruptRoute::AgentQueue
    } else if session_exists {
        SoftInterruptRoute::Deferred
    } else {
        SoftInterruptRoute::Rejected
    }
}

/// What a client's reload request leads to.
pub enum ReloadPlan {
    /// The server already runs the newest binary: report that and stop.
    Skip,
    /// Reload, on behalf of `triggering_session`.
    Reload { triggering_session: String, prefer_selfdev_binary: bool },
}

/// Decides a reload request: without `force` the server only reloads when a
/// strictly newer binary is available. The reload is triggered by the
/// agent's own session (preferring the self-dev binary for a canary agent)
/// when the agent could be inspected, otherwise by the client's session.
pub fn reload_plan(
    force: bool,
    has_newer_binary: bool,
    agent: Option<(String, bool)>,
    client_session_id: &str,
) -> (p: ReloadPlan)
    ensures
        match p {
            ReloadPlan::Skip => !force && !has_newer_binary,
            ReloadPlan::Reload { triggering_session, prefer_selfdev_binary } => {
                &&& force || has_newer_binary
                &&& match agent {
                    Some((s, canary)) => triggering_session@ == s@ && prefer_selfdev_binary
                        == canary,
                    None => triggering_session@ == client_session_id@ && !prefer_selfdev_binary,
                }
            },
        },
{
    if !force && !has_newer_binary {
        return ReloadPlan::Skip;
    }
    match agent {
        Some((s, canary)) => ReloadPlan::Reload { triggering_session: s, prefer_selfdev_binary: canary },
        None => ReloadPlan::Reload {
            triggering_session: client_session_id.to_owned(),
            prefer_selfdev_binary: false,
        },
    }
}

/// A client connection to the server.
pub struct ClientConnection {
    pub client_id: String,
    /// The session the connection is attached to.
    pub session_id: String,
    pub client_instance_id: Option<String>,
    /// When the connection was last seen (monotonic clock ticks).
    pub last_seen: u64,
    /// Whether the client reports a turn in progress.
    pub is_processing: bool,
    /// The tool the client reports running, if any.
    pub current_tool_name: Option<String>,
    /// The client's id in the debug registry, if it has one.
    pub debug_client_id: Option<String>,
}

/// Abstract value of a connection.
pub struct ConnectionView {
    pub client_id: Seq<char>,
    pub session_id: Seq<char>,
    pub client_instance_id: Option<Seq<char>>,
    pub last_seen: u64,
    pub is_processing: bool,
    pub current_tool_name: Option<Seq<char>>,
    pub debug_client_id: Option<Seq<char>>,
}

impl View for ClientConnection {
    type V = ConnectionView;

    open spec fn view(&self) -> ConnectionView {
        ConnectionView {
            client_id: self.client_id@,
            session_id: self.session_id@,
            client_instance_id: opt_text(self.client_instance_id),
            last_seen: self.last_seen,
            is_processing: self.is_processing,
            current_tool_name: opt_text(self.current_tool_name),
            debug_client_id: opt_text(self.debug_client_id),
        }
    }
}

fn copy_opt(o: &Option<String>) -> (r: Option<String>)
    ensures
        opt_text(r) == opt_text(*o),
{
    match o {
        Some(s) => Some(s.clone()),
        None => None,
    }
}

impl ClientConnection {
    /// A copy of the connection record.
    pub fn duplicate(&self) -> (r: ClientConnection)
        ensures
            r@ == self@,
    {
        ClientConnection {
            client_id: self.client_id.clone(),
            session_id: self.session_id.clone(),
            client_instance_id: copy_opt(&self.client_instance_id),
            last_seen: self.last_seen,
            is_processing: self.is_processing,
            current_tool_name: copy_opt(&self.current_tool_name),
            debug_client_id: copy_opt(&self.debug_client_id),
        }
    }
}

/// Two client instances that are both known and differ.
pub open spec fn distinct_instances(incoming: Option<Seq<char>>, existing: Option<Seq<char>>) -> bool {
    incoming is Some && existing is Some && incoming != existing
}

/// The same known client instance.
pub open spec fn same_instance(incoming: Option<Seq<char>>, existing: Option<Seq<char>>) -> bool {
    incoming is Some && existing is Some && incoming == existing
}

fn opt_str_eq(a: Option<&str>, b: Option<&str>) -> (r: (bool, bool))
    ensures
        r.0 == same_instance(crate::text::opt_str(a), crate::text::opt_str(b)),
        r.1 == distinct_instances(crate::text::opt_str(a), crate::text::opt_str(b)),
{
    match (a, b) {
        (Some(x), Some(y)) => {
            let e = str_eq(x, y);
            (e, !e)
        },
        _ => (false, false),
    }
}

/// Whether a client resuming a session that is live elsewhere may take it
/// over from the connection attached to it: takeover must be allowed, the
/// client must have the session's history, and it must not be a different
/// live client instance.
pub fn live_takeover_allowed(
    allow_takeover: bool,
    has_local_history: bool,
    incoming_instance: Option<&str>,
    existing_instance: Option<&str>,
) -> (b: bool)
    ensures
        b == (allow_takeover && has_local_history && !distinct_instances(
            crate::text::opt_str(incoming_instance),
            crate::text::opt_str(existing_instance),
        )),
{
    let (_, distinct) = opt_str_eq(incoming_instance, existing_instance);
    allow_takeover && has_local_history && !distinct
}

/// Why a resume could not attach to a session that another connection
/// holds.
pub enum AttachRefusal {
    /// The incoming client is a different live instance.
    DistinctInstance,
    /// The incoming client is not the owner's instance and has no history.
    NoLocalHistory,
    /// Takeover was not allowed.
    AlreadyAttached,
}

/// Whether a resume may supersede the connection that holds the session:
/// with takeover allowed, the same client instance always may, and another
/// client may when it has the session's history and is not a different live
/// instance. Otherwise the refusal names the first reason that applies.
pub fn resume_attach_decision(
    allow_takeover: bool,
    has_local_history: bool,
    incoming_instance: Option<&str>,
    existing_instance: Option<&str>,
) -> (r: Result<(), AttachRefusal>)
    ensures
        ({
            let i = crate::text::opt_str(incoming_instance);
            let e = crate::text::opt_str(existing_instance);
            match r {
                Ok(()) => allow_takeover && (same_instance(i, e) || (has_local_history
                    && !distinct_instances(i, e))),
                Err(AttachRefusal::DistinctInstance) => allow_takeover && distinct_instances(i, e),
                Err(AttachRefusal::NoLocalHistory) => allow_takeover && !distinct_instances(i, e)
                    && !has_local_history && !same_instance(i, e),
                Err(AttachRefusal::AlreadyAttached) => !allow_takeover,
            }
        }),
{
    let (same, distinct) = opt_str_eq(incoming_instance, existing_instance);
    if allow_takeover && (same || (has_local_history && !distinct)) {
        Ok(())
    } else if allow_takeover && distinct {
        Err(AttachRefusal::DistinctInstance)
    } else if allow_takeover && !has_local_history && !same {
        Err(AttachRefusal::NoLocalHistory)
    } else {
        Err(AttachRefusal::AlreadyAttached)
    }
}

/// Client connections by connection id.
pub struct ConnectionTable {
    connections: KeyedMap<ClientConnection>,
}

/// Abstract values of stored connections.
pub open spec fn connections_view(m: Map<Seq<char>, ClientConnection>) -> Map<Seq<char>, ConnectionView> {
    m.map_values(|c: ClientConnection| c@)
}

/// Whether a connection whose client is not `connection_id` is attached
/// to `session_id`.
pub open spec fn attached_elsewhere(
    m: Map<Seq<char>, ConnectionView>,
    connection_id: Seq<char>,
    session_id: Seq<char>,
) -> bool {
    exists|k: Seq<char>|
        #![trigger m[k]]
        m.dom().contains(k) && m[k].client_id != connection_id && m[k].session_id == session_id
}

impl View for ConnectionTable {
    type V = Map<Seq<char>, ConnectionView>;

    closed spec fn view(&self) -> Map<Seq<char>, ConnectionView> {
        connections_view(self.connections@)
    }
}

impl ConnectionTable {
    /// The underlying map is well formed.
    pub closed spec fn wf(&self) -> bool {
        self.connections.wf()
    }

    /// No connections.
    pub fn new() -> (t: Self)
        ensures
            t.wf(),
            t@ == Map::<Seq<char>, ConnectionView>::empty(),
    {
        let t = ConnectionTable { connections: KeyedMap::new() };
        assert(t@ =~= Map::<Seq<char>, ConnectionView>::empty());
        t
    }

    /// Records connection `connection_id`.
    pub fn insert(&mut self, connection_id: &str, connection: ClientConnection)
        requires
            old(self).wf(),
        ensures
            final(self).wf(),
            final(self)@ == old(self)@.insert(connection_id@, connection@),
    {
        let ghost m0 = self.connections@;
        self.connections.insert(connection_id, connection);
        assert(connections_view(m0.insert(connection_id@, connection)) =~= connections_view(
            m0,
        ).insert(connection_id@, connection@));
    }

    /// The connection with id `connection_id`, if any.
    pub fn get(&self, connection_id: &str) -> (r: Option<&ClientConnection>)
        requires
            self.wf(),
        ensures
            match r {
                Some(c) => self@.dom().contains(connection_id@) && c@ == self@[connection_id@],
                None => !self@.dom().contains(connection_id@),
            },
    {
        self.connections.get(connection_id)
    }

    /// Whether another client than `connection_id` is attached to
    /// `session_id`; a detached session in use elsewhere must not be
    /// removed.
    pub fn attached_elsewhere(&self, connection_id: &str, session_id: &str) -> (b: bool)
        requires
            self.wf(),
        ensures
            b == attached_elsewhere(self@, connection_id@, session_id@),
    {
        let ghost keys = self.connections.keys();
        proof {
            self.connections.lemma_keys();
        }
        let n = self.connections.len();
        let mut i: usize = 0;
        while i < n
            invariant
                i <= n,
                n == keys.len(),
                self.wf(),
                keys == self.connections.keys(),
                forall|k: Seq<char>| self@.dom().contains(k) <==> keys.contains(k),
                forall|j: int|
                    0 <= j < i ==> !(self@[#[trigger] keys[j]].client_id != connection_id@
                        && self@[keys[j]].session_id == session_id@),
            decreases n - i,
        {
            let c = self.connections.value_at(i);
            proof {
                assert(keys.contains(keys[i as int]));
                assert(c@ == self@[keys[i as int]]);
            }
            if !str_eq(c.client_id.as_str(), connection_id) && str_eq(c.session_id.as_str(), session_id) {
                assert(self@.dom().contains(keys[i as int]));
                return true;
            }
            i += 1;
        }
        proof {
            if attached_elsewhere(self@, connection_id@, session_id@) {
                let k = choose|k: Seq<char>|
                    #![trigger self@[k]]
                    self@.dom().contains(k) && self@[k].client_id != connection_id@
                        && self@[k].session_id == session_id@;
                assert(keys.contains(k));
                let j = choose|j: int| 0 <= j < keys.len() && keys[j] == k;
                assert(self@[keys[j]].client_id != connection_id@);
            }
        }
        false
    }

    /// Attaches connection `connection_id` to `session_id` (seen `now`);
    /// returns whether the connection is known.
    pub fn attach(&mut self, connection_id: &str, session_id: &str, now: u64) -> (found: bool)
        requires
            old(self).wf(),
        ensures
            final(self).wf(),
            found == old(self)@.dom().contains(connection_id@),
            final(self)@ == if found {
                old(self)@.insert(
                    connection_id@,
                    ConnectionView {
                        session_id: session_id@,
                        last_seen: now,
                        ..old(self)@[connection_id@]
                    },
                )
            } else {
                old(self)@
            },
    {
        let ghost m0 = self.connections@;
        match self.connections.remove(connection_id) {
            Some(mut c) => {
                c.session_id = session_id.to_owned();
                c.last_seen = now;
                self.connections.insert(connection_id, c);
                assert(connections_view(m0.remove(connection_id@).insert(connection_id@, c))
                    =~= connections_view(m0).insert(connection_id@, c@));
                true
            },
            None => {
                assert(m0.remove(connection_id@) =~= m0);
                false
            },
        }
    }

    /// Reserves a live target session for connection `connection_id`: when
    /// a live target other than the connection's current agent exists and
    /// the connection is known, the connection is attached to `session_id`
    /// under client instance `client_instance_id` (seen `now`). Returns
    /// whether the target was claimed.
    pub fn claim_live_target(
        &mut self,
        target_available: bool,
        connection_id: &str,
        session_id: &str,
        client_instance_id: Option<String>,
        now: u64,
    ) -> (claimed: bool)
        requires
            old(self).wf(),
        ensures
            final(self).wf(),
            claimed == (target_available && old(self)@.dom().contains(connection_id@)),
            final(self)@ == if claimed {
                old(self)@.insert(
                    connection_id@,
                    ConnectionView {
                        session_id: session_id@,
                        client_instance_id: opt_text(client_instance_id),
                        last_seen: now,
                        ..old(self)@[connection_id@]
                    },
                )
            } else {
                old(self)@
            },
    {
        if !target_available {
            return false;
        }
        let ghost m0 = self.connections@;
        match self.connections.remove(connection_id) {
            Some(mut c) => {
                c.session_id = session_id.to_owned();
                c.client_instance_id = client_instance_id;
                c.last_seen = now;
                self.connections.insert(connection_id, c);
                assert(connections_view(m0.remove(connection_id@).insert(connection_id@, c))
                    =~= connections_view(m0).insert(connection_id@, c@));
                true
            },
            None => {
                assert(m0.remove(connection_id@) =~= m0);
                false
            },
        }
    }

    /// A connection of another client attached to `session_id`, if any.
    pub fn find_conflict(&self, connection_id: &str, session_id: &str) -> (r: Option<ClientConnection>)
        requires
            self.wf(),
        ensures
            match r {
                Some(c) => exists|k: Seq<char>|
                    #![trigger self@[k]]
                    self@.dom().contains(k) && self@[k] == c@ && c.client_id@ != connection_id@
                        && c.session_id@ == session_id@,
                None => !attached_elsewhere(self@, connection_id@, session_id@),
            },
    {
        let ghost keys = self.connections.keys();
        proof {
            self.connections.lemma_keys();
        }
        let n = self.connections.len();
        let mut i: usize = 0;
        while i < n
            invariant
                i <= n,
                n == keys.len(),
                self.wf(),
                keys == self.connections.keys(),
                forall|k: Seq<char>| self@.dom().contains(k) <==> keys.contains(k),
                forall|j: int|
                    0 <= j < i ==> !(self@[#[trigger] keys[j]].client_id != connection_id@
                        && self@[keys[j]].session_id == session_id@),
            decreases n - i,
        {
            let c = self.connections.value_at(i);
            proof {
                assert(keys.contains(keys[i as int]));
                assert(c@ == self@[keys[i as int]]);
            }
            if !str_eq(c.client_id.as_str(), connection_id) && str_eq(c.session_id.as_str(), session_id) {
                let r = c.duplicate();
                assert(self@.dom().contains(keys[i as int]) && self@[keys[i as int]] == r@);
                return Some(r);
            }
            i += 1;
        }
        proof {
            if attached_elsewhere(self@, connection_id@, session_id@) {
                let k = choose|k: Seq<char>|
                    #![trigger self@[k]]
                    self@.dom().contains(k) && self@[k].client_id != connection_id@
                        && self@[k].session_id == session_id@;
                assert(keys.contains(k));
                let j = choose|j: int| 0 <= j < keys.len() && keys[j] == k;
                assert(self@[keys[j]].client_id != connection_id@);
            }
        }
        None
    }

    /// Supersedes the connection `conflict` (a record of the connection
    /// holding the session): it is removed under its client id, and
    /// `connection_id` inherits its processing state and current tool, as
    /// removed or, if it was already gone, as recorded in `conflict`.
    /// Returns the removed connection.
    pub fn supersede(&mut self, conflict: &ClientConnection, connection_id: &str) -> (removed: Option<
        ClientConnection,
    >)
        requires
            old(self).wf(),
        ensures
            final(self).wf(),
            ({
                let gone = old(self)@.remove(conflict.client_id@);
                let from = match removed {
                    Some(c) => c@,
                    None => conflict@,
                };
                &&& match removed {
                    Some(c) => old(self)@.dom().contains(conflict.client_id@) && c@ == old(
                        self,
                    )@[conflict.client_id@],
                    None => !old(self)@.dom().contains(conflict.client_id@),
                }
                &&& final(self)@ == if gone.dom().contains(connection_id@) {
                    gone.insert(
                        connection_id@,
                        ConnectionView {
                            is_processing: from.is_processing,
                            current_tool_name: from.current_tool_name,
                            ..gone[connection_id@]
                        },
                    )
                } else {
                    gone
                }
            }),
    {
        let ghost m0 = self.connections@;
        let removed = self.connections.remove(conflict.client_id.as_str());
        let (processing, tool) = match &removed {
            Some(c) => (c.is_processing, copy_opt(&c.current_tool_name)),
            None => (conflict.is_processing, copy_opt(&conflict.current_tool_name)),
        };
        let ghost m1 = self.connections@;
        proof {
            assert(connections_view(m1) =~= connections_view(m0).remove(conflict.client_id@));
        }
        match self.connections.remove(connection_id) {
            Some(mut c) => {
                c.is_processing = processing;
                c.current_tool_name = tool;
                self.connections.insert(connection_id, c);
                assert(connections_view(m1.remove(connection_id@).insert(connection_id@, c))
                    =~= connections_view(m1).insert(connection_id@, c@));
            },
            None => {
                assert(m1.remove(connection_id@) =~= m1);
            },
        }
        removed
    }
}

} // verus!
