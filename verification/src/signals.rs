//! Per-session signals keyed by session id, so a signal can be fired
//! without access to the session itself. Entries follow session renames and
//! removals.

use vstd::prelude::*;
use crate::keyed::KeyedMap;
use crate::text::str_eq;

verus! {

/// Registry after moving session `old_id`'s signal to `new_id`: unchanged
/// when the ids are equal or `old_id` has no signal; otherwise the signal
/// is removed under `old_id` and registered under `new_id`.
pub open spec fn renamed<T>(m: Map<Seq<char>, T>, old_id: Seq<char>, new_id: Seq<char>) -> Map<
    Seq<char>,
    T,
> {
    if old_id == new_id || !m.dom().contains(old_id) {
        m
    } else {
        m.remove(old_id).insert(new_id, m[old_id])
    }
}

/// After a rename the signal answers to the new id and no longer to the
/// old one; every other session keeps its own signal.
pub proof fn lemma_rename_moves_signal<T>(
    m: Map<Seq<char>, T>,
    old_id: Seq<char>,
    new_id: Seq<char>,
    other: Seq<char>,
)
    requires
        old_id != new_id,
        m.dom().contains(old_id),
        other != old_id,
        other != new_id,
    ensures
        renamed(m, old_id, new_id).dom().contains(new_id),
        renamed(m, old_id, new_id)[new_id] == m[old_id],
        !renamed(m, old_id, new_id).dom().contains(old_id),
        renamed(m, old_id, new_id).dom().contains(other) == m.dom().contains(other),
        m.dom().contains(other) ==> renamed(m, old_id, new_id)[other] == m[other],
{
}

/// Moves a session's signal registration to a new session id.
pub fn rename_background_tool_signal<T>(
    registry: &mut KeyedMap<T>,
    old_session_id: &str,
    new_session_id: &str,
)
    requires
        old(registry).wf(),
    ensures
        final(registry).wf(),
        final(registry)@ == renamed(old(registry)@, old_session_id@, new_session_id@),
{
    if str_eq(old_session_id, new_session_id) {
        return ;
    }
    match registry.remove(old_session_id) {
        Some(signal) => {
            registry.insert(new_session_id, signal);
        },
        None => {},
    }
}

/// Drops a session's signal registration.
pub fn remove_background_tool_signal<T>(registry: &mut KeyedMap<T>, session_id: &str)
    requires
        old(registry).wf(),
    ensures
        final(registry).wf(),
        final(registry)@ == old(registry)@.remove(session_id@),
{
    let _ = registry.remove(session_id);
}

/// A copy of the signal registered for `session_id`, if any.
pub fn background_tool_signal_for_session<T: Clone>(registry: &KeyedMap<T>, session_id: &str) -> (r:
    Option<T>)
    requires
        registry.wf(),
    ensures
        match r {
            Some(v) => registry@.dom().contains(session_id@) && cloned::<T>(registry@[session_id@], v),
            None => !registry@.dom().contains(session_id@),
        },
{
    registry.get(session_id).cloned()
}

/// The background-tool signal a control handle fires: the one it holds,
/// else the one registered for its session (handles built while the
/// session was busy hold none).
pub fn background_signal_for<'a, T>(
    held: Option<&'a T>,
    registry: &'a KeyedMap<T>,
    session_id: &str,
) -> (r: Option<&'a T>)
    requires
        registry.wf(),
    ensures
        r == match held {
            Some(h) => Some(h),
            None => if registry@.dom().contains(session_id@) {
                Some(&registry@[session_id@])
            } else {
                None
            },
        },
{
    match held {
        Some(h) => Some(h),
        None => registry.get(session_id),
    }
}

/// Moves a session's shutdown signal and background-tool signal to its new
/// session id.
pub fn rename_shutdown_signal<S, B>(
    shutdown_signals: &mut KeyedMap<S>,
    background_signals: &mut KeyedMap<B>,
    old_session_id: &str,
    new_session_id: &str,
)
    requires
        old(shutdown_signals).wf(),
        old(background_signals).wf(),
    ensures
        final(shutdown_signals).wf(),
        final(background_signals).wf(),
        final(shutdown_signals)@ == renamed(old(shutdown_signals)@, old_session_id@, new_session_id@),
        final(background_signals)@ == renamed(
            old(background_signals)@,
            old_session_id@,
            new_session_id@,
        ),
{
    if str_eq(old_session_id, new_session_id) {
        return ;
    }
    match shutdown_signals.remove(old_session_id) {
        Some(signal) => {
            shutdown_signals.insert(new_session_id, signal);
        },
        None => {},
    }
    rename_background_tool_signal(background_signals, old_session_id, new_session_id);
}

/// Moves a session's soft-interrupt queue to its new session id.
pub fn rename_session_interrupt_queue<Q>(
    queues: &mut KeyedMap<Q>,
    old_session_id: &str,
    new_session_id: &str,
)
    requires
        old(queues).wf(),
    ensures
        final(queues).wf(),
        final(queues)@ == renamed(old(queues)@, old_session_id@, new_session_id@),
{
    let ghost m0 = queues@;
    match queues.remove(old_session_id) {
        Some(queue) => {
            queues.insert(new_session_id, queue);
            proof {
                if old_session_id@ == new_session_id@ {
                    assert(queues@ =~= m0);
                }
            }
        },
        None => {},
    }
}

} // verus!
