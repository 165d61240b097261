//! The server's per-session tables taken together, and the steps that move
//! a session to another id: when a client resumes a stored session in place
//! of its temporary one, and when a session is cleared and replaced by a
//! fresh one.

use vstd::prelude::*;
use crate::control::{ConnectionTable, ConnectionView};
use crate::keyed::KeyedMap;
use crate::roster::{cleared, renamed_roster, swarm_of, RosterView, SwarmRoster, lemma_rename_follows};
use crate::signals::{renamed, rename_session_interrupt_queue, rename_shutdown_signal};
use crate::text::opt_text;

verus! {

/// Everything the server keeps per session id.
pub struct SessionTables<S, B, Q, P> {
    /// Swarm members, swarms, coordinators and plans.
    pub roster: SwarmRoster<P>,
    /// Client connections and the session each is attached to.
    pub connections: ConnectionTable,
    /// Graceful-shutdown signal of each session.
    pub shutdown_signals: KeyedMap<S>,
    /// Background-tool signal of each session.
    pub background_signals: KeyedMap<B>,
    /// Soft-interrupt queue of each session.
    pub interrupt_queues: KeyedMap<Q>,
}

/// Abstract state of all tables.
pub struct TablesView<S, B, Q, P> {
    pub roster: RosterView<P>,
    pub connections: Map<Seq<char>, ConnectionView>,
    pub shutdown_signals: Map<Seq<char>, S>,
    pub background_signals: Map<Seq<char>, B>,
    pub interrupt_queues: Map<Seq<char>, Q>,
}

/// Coordinators after session `old_id` became `new_id`.
pub open spec fn coordinators_renamed(
    c: Map<Seq<char>, Seq<char>>,
    old_id: Seq<char>,
    new_id: Seq<char>,
) -> Map<Seq<char>, Seq<char>> {
    c.map_values(
        |s: Seq<char>| if s == old_id {
            new_id
        } else {
            s
        },
    )
}

/// Connections after connection `connection_id` attached to `session_id`
/// as client instance `instance`, seen at `now`.
pub open spec fn attached(
    c: Map<Seq<char>, ConnectionView>,
    connection_id: Seq<char>,
    session_id: Seq<char>,
    instance: Option<Seq<char>>,
    now: u64,
) -> Map<Seq<char>, ConnectionView> {
    if c.dom().contains(connection_id) {
        c.insert(
            connection_id,
            ConnectionView {
                session_id,
                client_instance_id: instance,
                last_seen: now,
                ..c[connection_id]
            },
        )
    } else {
        c
    }
}

/// All tables after the session `old_id` is resumed as the stored session
/// `new_id`: its signals and queue follow it, the connection is attached to
/// it, its swarm member is renamed, and swarms it coordinated stay with it.
pub open spec fn resumed<S, B, Q, P>(
    v: TablesView<S, B, Q, P>,
    old_id: Seq<char>,
    new_id: Seq<char>,
    connection_id: Seq<char>,
    instance: Option<Seq<char>>,
    now: u64,
) -> TablesView<S, B, Q, P> {
    let r = renamed_roster(v.roster, old_id, new_id);
    TablesView {
        roster: RosterView {
            coordinators: coordinators_renamed(r.coordinators, old_id, new_id),
            ..r
        },
        connections: attached(v.connections, connection_id, new_id, instance, now),
        shutdown_signals: renamed(v.shutdown_signals, old_id, new_id),
        background_signals: renamed(v.background_signals, old_id, new_id),
        interrupt_queues: renamed(v.interrupt_queues, old_id, new_id),
    }
}

/// All tables after session `old_id` is cleared and replaced by the fresh
/// session `new_id` with its own signals and queue: the old session's
/// signals and queue are dropped, its swarm member moves to the new id, and
/// the connection is attached to the new session.
pub open spec fn cleared_tables<S, B, Q, P>(
    v: TablesView<S, B, Q, P>,
    old_id: Seq<char>,
    new_id: Seq<char>,
    connection_id: Seq<char>,
    now: u64,
    shutdown: S,
    background: B,
    queue: Q,
) -> TablesView<S, B, Q, P> {
    TablesView {
        roster: cleared(v.roster, old_id, new_id),
        connections: if v.connections.dom().contains(connection_id) {
            v.connections.insert(
                connection_id,
                ConnectionView { session_id: new_id, last_seen: now, ..v.connections[connection_id] },
            )
        } else {
            v.connections
        },
        shutdown_signals: v.shutdown_signals.remove(old_id).insert(new_id, shutdown),
        background_signals: v.background_signals.remove(old_id).insert(new_id, background),
        interrupt_queues: v.interrupt_queues.insert(new_id, queue).remove(old_id),
    }
}

impl<S, B, Q, P> SessionTables<S, B, Q, P> {
    /// The abstract state of all tables.
    pub open spec fn tables_view(&self) -> TablesView<S, B, Q, P> {
        TablesView {
            roster: self.roster@,
            connections: self.connections@,
            shutdown_signals: self.shutdown_signals@,
            background_signals: self.background_signals@,
            interrupt_queues: self.interrupt_queues@,
        }
    }

    /// Every table is well formed.
    pub open spec fn wf(&self) -> bool {
        &&& self.roster.wf()
        &&& self.connections.wf()
        &&& self.shutdown_signals.wf()
        &&& self.background_signals.wf()
        &&& self.interrupt_queues.wf()
    }

    /// Moves everything the server keeps under the temporary session
    /// `old_id` to the resumed session `new_id` (see `resumed`). Afterwards,
    /// when the ids differ, no table holds anything under `old_id` and no
    /// swarm is coordinated by it.
    pub fn resume_session(
        &mut self,
        old_id: &str,
        new_id: &str,
        connection_id: &str,
        client_instance_id: Option<String>,
        now: u64,
    )
        requires
            old(self).wf(),
        ensures
            final(self).wf(),
            final(self).tables_view() == resumed(
                old(self).tables_view(),
                old_id@,
                new_id@,
                connection_id@,
                opt_text(client_instance_id),
                now,
            ),
            old_id@ != new_id@ ==> {
                let v = final(self).tables_view();
                &&& !v.shutdown_signals.dom().contains(old_id@)
                &&& !v.background_signals.dom().contains(old_id@)
                &&& !v.interrupt_queues.dom().contains(old_id@)
                &&& !v.roster.members.dom().contains(old_id@)
                &&& forall|s: Seq<char>| #[trigger]
                    v.roster.coordinators.dom().contains(s) ==> v.roster.coordinators[s] != old_id@
            },
    {
        let ghost v0 = self.tables_view();
        rename_shutdown_signal(
            &mut self.shutdown_signals,
            &mut self.background_signals,
            old_id,
            new_id,
        );
        rename_session_interrupt_queue(&mut self.interrupt_queues, old_id, new_id);
        let _ = self.connections.claim_live_target(
            true,
            connection_id,
            new_id,
            client_instance_id,
            now,
        );
        self.roster.rename_session(old_id, new_id);
        self.roster.coordinators_follow_rename(old_id, new_id);
        proof {
            let v = self.tables_view();
            if old_id@ != new_id@ {
                lemma_rename_follows(v0.roster, old_id@, new_id@);
                assert forall|s: Seq<char>| #[trigger]
                    v.roster.coordinators.dom().contains(s) implies v.roster.coordinators[s]
                    != old_id@ by {}
            }
        }
    }

    /// Replaces the cleared session `old_id` by the fresh session `new_id`
    /// with its own shutdown signal, background-tool signal and
    /// soft-interrupt queue (see `cleared_tables`); returns the swarm the
    /// cleared session was in. Afterwards, when the ids differ, no table
    /// holds anything under `old_id`, and the new session has its signals
    /// and queue.
    pub fn clear_session(
        &mut self,
        old_id: &str,
        new_id: &str,
        connection_id: &str,
        now: u64,
        shutdown: S,
        background: B,
        queue: Q,
    ) -> (swarm_id: Option<String>)
        requires
            old(self).wf(),
        ensures
            final(self).wf(),
            final(self).tables_view() == cleared_tables(
                old(self).tables_view(),
                old_id@,
                new_id@,
                connection_id@,
                now,
                shutdown,
                background,
                queue,
            ),
            opt_text(swarm_id) == swarm_of(old(self).tables_view().roster.members, old_id@),
            old_id@ != new_id@ ==> {
                let v = final(self).tables_view();
                &&& !v.shutdown_signals.dom().contains(old_id@)
                &&& !v.background_signals.dom().contains(old_id@)
                &&& !v.interrupt_queues.dom().contains(old_id@)
                &&& !v.roster.members.dom().contains(old_id@)
                &&& v.shutdown_signals[new_id@] == shutdown
                &&& v.background_signals[new_id@] == background
                &&& v.interrupt_queues[new_id@] == queue
            },
    {
        self.interrupt_queues.insert(new_id, queue);
        let _ = self.shutdown_signals.remove(old_id);
        self.shutdown_signals.insert(new_id, shutdown);
        let _ = self.background_signals.remove(old_id);
        self.background_signals.insert(new_id, background);
        let _ = self.interrupt_queues.remove(old_id);
        let swarm_id = self.roster.replace_cleared_session(old_id, new_id);
        let _ = self.connections.attach(connection_id, new_id, now);
        swarm_id
    }
}

} // verus!
