//! Swarm membership: the members of each swarm keyed by session id, each
//! swarm's set of sessions, its coordinator and its plan, and how sessions
//! join, attach connections, move to another directory, get renamed and
//! leave.

use vstd::prelude::*;
use crate::keyed::{pairs_map, KeyedMap};
use crate::swarm::{lemma_text_lt_total, lemma_text_lt_transitive, text_less, text_lt};
use crate::text::{chars_of, opt_string_eq, opt_text, str_eq};
use crate::textset::{
    is_least, text_set, text_set_copy, text_set_insert, text_set_is_empty, text_set_min,
    text_set_remove, text_set_remove_all,
};

verus! {

/// A session taking part in swarm coordination.
pub struct SwarmMember {
    pub session_id: String,
    /// Live client connections attached to the session.
    pub connections: Vec<String>,
    /// Working directory (the swarm id is derived from it).
    pub working_dir: Option<String>,
    /// Swarm identifier (shared across worktrees).
    pub swarm_id: Option<String>,
    /// Whether swarm coordination is enabled for this member.
    pub swarm_enabled: bool,
    /// Lifecycle status (ready, running, completed, failed, stopped, ...).
    pub status: String,
    /// Optional detail (current task, error, ...).
    pub detail: Option<String>,
    /// Stable label of the task this member was spawned or assigned for.
    pub task_label: Option<String>,
    /// Friendly name such as "fox".
    pub friendly_name: Option<String>,
    /// Session that receives this member's completion report, if any.
    pub report_back_to_session_id: Option<String>,
    /// Latest completion report submitted by this member.
    pub latest_completion_report: Option<String>,
    /// Role: "agent" or "coordinator".
    pub role: String,
    /// When this member joined (monotonic clock ticks).
    pub joined_at: u64,
    /// When its status last changed (monotonic clock ticks).
    pub last_status_change: u64,
    /// Spawned without a connected terminal client.
    pub is_headless: bool,
    /// Recent streamed output tail.
    pub output_tail: Option<String>,
    /// Todo progress (completed, total).
    pub todo_progress: Option<(u32, u32)>,
}

/// Abstract value of a member.
pub struct MemberView {
    pub session_id: Seq<char>,
    pub connections: Set<Seq<char>>,
    pub working_dir: Option<Seq<char>>,
    pub swarm_id: Option<Seq<char>>,
    pub swarm_enabled: bool,
    pub status: Seq<char>,
    pub detail: Option<Seq<char>>,
    pub task_label: Option<Seq<char>>,
    pub friendly_name: Option<Seq<char>>,
    pub report_back_to_session_id: Option<Seq<char>>,
    pub latest_completion_report: Option<Seq<char>>,
    pub role: Seq<char>,
    pub joined_at: u64,
    pub last_status_change: u64,
    pub is_headless: bool,
    pub output_tail: Option<Seq<char>>,
    pub todo_progress: Option<(u32, u32)>,
}

impl View for SwarmMember {
    type V = MemberView;

    open spec fn view(&self) -> MemberView {
        MemberView {
            session_id: self.session_id@,
            connections: text_set(self.connections@),
            working_dir: opt_text(self.working_dir),
            swarm_id: opt_text(self.swarm_id),
            swarm_enabled: self.swarm_enabled,
            status: self.status@,
            detail: opt_text(self.detail),
            task_label: opt_text(self.task_label),
            friendly_name: opt_text(self.friendly_name),
            report_back_to_session_id: opt_text(self.report_back_to_session_id),
            latest_completion_report: opt_text(self.latest_completion_report),
            role: self.role@,
            joined_at: self.joined_at,
            last_status_change: self.last_status_change,
            is_headless: self.is_headless,
            output_tail: opt_text(self.output_tail),
            todo_progress: self.todo_progress,
        }
    }
}

fn copy_opt(o: &Option<String>) -> (r: Option<String>)
    ensures
        opt_text(r) == opt_text(*o),
{
    match o {
        Some(s) => Some(s.clone()),
        None => None,
    }
}

impl SwarmMember {
    /// A copy of the member.
    pub fn duplicate(&self) -> (r: SwarmMember)
        ensures
            r@ == self@,
    {
        SwarmMember {
            session_id: self.session_id.clone(),
            connections: text_set_copy(self.connections.as_slice()),
            working_dir: copy_opt(&self.working_dir),
            swarm_id: copy_opt(&self.swarm_id),
            swarm_enabled: self.swarm_enabled,
            status: self.status.clone(),
            detail: copy_opt(&self.detail),
            task_label: copy_opt(&self.task_label),
            friendly_name: copy_opt(&self.friendly_name),
            report_back_to_session_id: copy_opt(&self.report_back_to_session_id),
            latest_completion_report: copy_opt(&self.latest_completion_report),
            role: self.role.clone(),
            joined_at: self.joined_at,
            last_status_change: self.last_status_change,
            is_headless: self.is_headless,
            output_tail: copy_opt(&self.output_tail),
            todo_progress: self.todo_progress,
        }
    }
}

/// Abstract state of the roster.
pub struct RosterView<P> {
    /// Members by session id.
    pub members: Map<Seq<char>, MemberView>,
    /// Sessions of each swarm, by swarm id.
    pub swarms: Map<Seq<char>, Set<Seq<char>>>,
    /// Coordinator session of each swarm, by swarm id.
    pub coordinators: Map<Seq<char>, Seq<char>>,
    /// Plan of each swarm, by swarm id.
    pub plans: Map<Seq<char>, P>,
}

/// What every roster operation keeps: a member is stored under its own
/// session id, and a member of a swarm is listed among that swarm's
/// sessions.
pub open spec fn consistent<P>(v: RosterView<P>) -> bool {
    &&& forall|k: Seq<char>| #[trigger]
        v.members.dom().contains(k) ==> v.members[k].session_id == k
    &&& forall|k: Seq<char>|
        #![trigger v.members.dom().contains(k)]
        v.members.dom().contains(k) && v.members[k].swarm_id is Some ==> {
            let s = v.members[k].swarm_id.unwrap();
            v.swarms.dom().contains(s) && v.swarms[s].contains(k)
        }
}

/// Shared swarm coordination state.
pub struct SwarmRoster<P> {
    members: KeyedMap<SwarmMember>,
    swarms: KeyedMap<Vec<String>>,
    coordinators: KeyedMap<String>,
    plans: KeyedMap<P>,
}

/// Abstract values of stored members.
pub open spec fn members_view(m: Map<Seq<char>, SwarmMember>) -> Map<Seq<char>, MemberView> {
    m.map_values(|x: SwarmMember| x@)
}

/// Stored swarm sets as sets of session ids.
pub open spec fn swarms_view(m: Map<Seq<char>, Vec<String>>) -> Map<Seq<char>, Set<Seq<char>>> {
    m.map_values(|x: Vec<String>| text_set(x@))
}

/// Stored coordinators as texts.
pub open spec fn coordinators_view(m: Map<Seq<char>, String>) -> Map<Seq<char>, Seq<char>> {
    m.map_values(|x: String| x@)
}

impl<P> View for SwarmRoster<P> {
    type V = RosterView<P>;

    closed spec fn view(&self) -> RosterView<P> {
        RosterView {
            members: members_view(self.members@),
            swarms: swarms_view(self.swarms@),
            coordinators: coordinators_view(self.coordinators@),
            plans: self.plans@,
        }
    }
}

/// Whether a member's status lets a subscribe mark it ready: it is absent
/// or not running.
pub open spec fn may_mark_ready<P>(v: RosterView<P>, session_id: Seq<char>) -> bool {
    !v.members.dom().contains(session_id) || v.members[session_id].status != "running"@
}

proof fn lemma_members_insert(m: Map<Seq<char>, SwarmMember>, k: Seq<char>, v: SwarmMember)
    ensures
        members_view(m.insert(k, v)) == members_view(m).insert(k, v@),
{
    assert(members_view(m.insert(k, v)) =~= members_view(m).insert(k, v@));
}

proof fn lemma_members_remove(m: Map<Seq<char>, SwarmMember>, k: Seq<char>)
    ensures
        members_view(m.remove(k)) == members_view(m).remove(k),
{
    assert(members_view(m.remove(k)) =~= members_view(m).remove(k));
}

proof fn lemma_swarms_insert(m: Map<Seq<char>, Vec<String>>, k: Seq<char>, v: Vec<String>)
    ensures
        swarms_view(m.insert(k, v)) == swarms_view(m).insert(k, text_set(v@)),
{
    assert(swarms_view(m.insert(k, v)) =~= swarms_view(m).insert(k, text_set(v@)));
}

proof fn lemma_swarms_remove(m: Map<Seq<char>, Vec<String>>, k: Seq<char>)
    ensures
        swarms_view(m.remove(k)) == swarms_view(m).remove(k),
{
    assert(swarms_view(m.remove(k)) =~= swarms_view(m).remove(k));
}

proof fn lemma_coordinators_insert(m: Map<Seq<char>, String>, k: Seq<char>, v: String)
    ensures
        coordinators_view(m.insert(k, v)) == coordinators_view(m).insert(k, v@),
{
    assert(coordinators_view(m.insert(k, v)) =~= coordinators_view(m).insert(k, v@));
}

proof fn lemma_coordinators_remove(m: Map<Seq<char>, String>, k: Seq<char>)
    ensures
        coordinators_view(m.remove(k)) == coordinators_view(m).remove(k),
{
    assert(coordinators_view(m.remove(k)) =~= coordinators_view(m).remove(k));
}

/// The sessions of swarm `s` after adding `k` (a missing swarm starts out
/// empty).
pub open spec fn swarms_with(
    swarms: Map<Seq<char>, Set<Seq<char>>>,
    s: Seq<char>,
    k: Seq<char>,
) -> Map<Seq<char>, Set<Seq<char>>> {
    let before = if swarms.dom().contains(s) {
        swarms[s]
    } else {
        Set::<Seq<char>>::empty()
    };
    swarms.insert(s, before.insert(k))
}

/// A member that joins with one connection: ready, an agent, in swarm
/// `swarm_id`.
pub open spec fn joined_member(
    session_id: Seq<char>,
    connection_id: Seq<char>,
    name: Option<Seq<char>>,
    working_dir: Option<Seq<char>>,
    swarm_id: Option<Seq<char>>,
    swarm_enabled: bool,
    now: u64,
) -> MemberView {
    MemberView {
        session_id,
        connections: Set::<Seq<char>>::empty().insert(connection_id),
        working_dir,
        swarm_id,
        swarm_enabled,
        status: "ready"@,
        detail: None,
        task_label: None,
        friendly_name: name,
        report_back_to_session_id: None,
        latest_completion_report: None,
        role: "agent"@,
        joined_at: now,
        last_status_change: now,
        is_headless: false,
        output_tail: None,
        todo_progress: None,
    }
}

/// An existing member after a client attaches again: the connection is
/// added, swarm coordination follows the client, the member is no longer
/// headless, and a known name replaces the old one.
pub open spec fn reattached_member(
    m: MemberView,
    connection_id: Seq<char>,
    name: Option<Seq<char>>,
    swarm_enabled: bool,
) -> MemberView {
    MemberView {
        connections: m.connections.insert(connection_id),
        swarm_enabled,
        is_headless: false,
        friendly_name: if name is Some {
            name
        } else {
            m.friendly_name
        },
        ..m
    }
}

/// Roster after a client subscribes to `session_id` through
/// `connection_id`, and whether a new member was created.
pub open spec fn ensured<P>(
    v: RosterView<P>,
    session_id: Seq<char>,
    connection_id: Seq<char>,
    name: Option<Seq<char>>,
    working_dir: Option<Seq<char>>,
    dir_swarm_id: Option<Seq<char>>,
    swarm_enabled: bool,
    now: u64,
) -> (RosterView<P>, bool) {
    if v.members.dom().contains(session_id) {
        (
            RosterView {
                members: v.members.insert(
                    session_id,
                    reattached_member(v.members[session_id], connection_id, name, swarm_enabled),
                ),
                ..v
            },
            false,
        )
    } else {
        let swarm_id = if swarm_enabled {
            dir_swarm_id
        } else {
            None
        };
        (
            RosterView {
                members: v.members.insert(
                    session_id,
                    joined_member(
                        session_id,
                        connection_id,
                        name,
                        working_dir,
                        swarm_id,
                        swarm_enabled,
                        now,
                    ),
                ),
                swarms: match swarm_id {
                    Some(s) => swarms_with(v.swarms, s, session_id),
                    None => v.swarms,
                },
                ..v
            },
            true,
        )
    }
}

/// A member moved to session id `new_id`: ready again, without detail.
pub open spec fn moved_member(m: MemberView, new_id: Seq<char>) -> MemberView {
    MemberView { session_id: new_id, status: "ready"@, detail: None, ..m }
}

/// Members after the member of `old_id` (if any) moves to `new_id`.
pub open spec fn moved_members(
    members: Map<Seq<char>, MemberView>,
    old_id: Seq<char>,
    new_id: Seq<char>,
) -> Map<Seq<char>, MemberView> {
    if members.dom().contains(old_id) {
        members.remove(old_id).insert(new_id, moved_member(members[old_id], new_id))
    } else {
        members
    }
}

/// The swarm of the member stored under `id`, if any.
pub open spec fn swarm_of(members: Map<Seq<char>, MemberView>, id: Seq<char>) -> Option<
    Seq<char>,
> {
    if members.dom().contains(id) {
        members[id].swarm_id
    } else {
        None
    }
}

/// Swarm sets after `old_id` is replaced by `new_id` in the swarm of the
/// member stored under `old_id` (when that swarm exists).
pub open spec fn moved_swarms(
    swarms: Map<Seq<char>, Set<Seq<char>>>,
    members: Map<Seq<char>, MemberView>,
    old_id: Seq<char>,
    new_id: Seq<char>,
) -> Map<Seq<char>, Set<Seq<char>>> {
    match swarm_of(members, old_id) {
        Some(s) => if swarms.dom().contains(s) {
            swarms.insert(s, swarms[s].remove(old_id).insert(new_id))
        } else {
            swarms
        },
        None => swarms,
    }
}

/// A member that reported back to `old_id` reports back to `new_id`.
pub open spec fn follow_report_back(m: MemberView, old_id: Seq<char>, new_id: Seq<char>) -> MemberView {
    if m.report_back_to_session_id == Some(old_id) {
        MemberView { report_back_to_session_id: Some(new_id), ..m }
    } else {
        m
    }
}

/// Roster after a session is replaced by a fresh one (cleared): its member
/// moves to the new id and takes its place in its swarm.
pub open spec fn cleared<P>(v: RosterView<P>, old_id: Seq<char>, new_id: Seq<char>) -> RosterView<P> {
    RosterView {
        members: moved_members(v.members, old_id, new_id),
        swarms: moved_swarms(v.swarms, v.members, old_id, new_id),
        ..v
    }
}

/// Roster after session `old_id` is renamed to `new_id`: as for a cleared
/// session, and every member that reported back to `old_id` now reports
/// back to `new_id`.
pub open spec fn renamed_roster<P>(v: RosterView<P>, old_id: Seq<char>, new_id: Seq<char>) -> RosterView<P> {
    RosterView {
        members: moved_members(v.members, old_id, new_id).map_values(
            |m: MemberView| follow_report_back(m, old_id, new_id),
        ),
        swarms: moved_swarms(v.swarms, v.members, old_id, new_id),
        ..v
    }
}

/// A cleared or renamed roster stays consistent.
proof fn lemma_moved_consistent<P>(v: RosterView<P>, old_id: Seq<char>, new_id: Seq<char>)
    requires
        consistent(v),
    ensures
        consistent(cleared(v, old_id, new_id)),
        consistent(renamed_roster(v, old_id, new_id)),
{
    let c = cleared(v, old_id, new_id);
    let r = renamed_roster(v, old_id, new_id);
    assert forall|k: Seq<char>| #[trigger] c.members.dom().contains(k) && c.members[k].swarm_id is Some implies {
        let s = c.members[k].swarm_id.unwrap();
        c.swarms.dom().contains(s) && c.swarms[s].contains(k)
    } by {
        if v.members.dom().contains(old_id) && k == new_id {
            assert(v.members.dom().contains(old_id));
        } else {
            assert(v.members.dom().contains(k));
        }
    }
    assert forall|k: Seq<char>| #[trigger] r.members.dom().contains(k) && r.members[k].swarm_id is Some implies {
        let s = r.members[k].swarm_id.unwrap();
        r.swarms.dom().contains(s) && r.swarms[s].contains(k)
    } by {
        assert(c.members.dom().contains(k));
        assert(r.members[k].swarm_id == c.members[k].swarm_id);
    }
    assert forall|k: Seq<char>| #[trigger] r.members.dom().contains(k) implies r.members[k].session_id == k by {
        assert(c.members.dom().contains(k));
    }
}

/// After session `old_id` is renamed to a different id, no member reports
/// back to `old_id` any more, nothing is stored under `old_id`, and the
/// renamed member sits under `new_id` in its old swarm, listed there
/// under its new id.
pub proof fn lemma_rename_follows<P>(v: RosterView<P>, old_id: Seq<char>, new_id: Seq<char>)
    requires
        old_id != new_id,
    ensures
        forall|k: Seq<char>|
            #[trigger] renamed_roster(v, old_id, new_id).members.dom().contains(k) ==> renamed_roster(
                v,
                old_id,
                new_id,
            ).members[k].report_back_to_session_id != Some(old_id),
        !renamed_roster(v, old_id, new_id).members.dom().contains(old_id),
        v.members.dom().contains(old_id) ==> {
            let r = renamed_roster(v, old_id, new_id);
            &&& r.members.dom().contains(new_id)
            &&& r.members[new_id].swarm_id == v.members[old_id].swarm_id
            &&& r.members[new_id].session_id == new_id
            &&& (consistent(v) && v.members[old_id].swarm_id is Some) ==> {
                let s = v.members[old_id].swarm_id.unwrap();
                r.swarms[s].contains(new_id) && !r.swarms[s].contains(old_id)
            }
        },
{
    let r = renamed_roster(v, old_id, new_id);
    assert forall|k: Seq<char>| #[trigger] r.members.dom().contains(k) implies r.members[k].report_back_to_session_id
        != Some(old_id) by {
        let m = moved_members(v.members, old_id, new_id)[k];
        assert(r.members[k] == follow_report_back(m, old_id, new_id));
    }
}

/// Once a client has subscribed to a session, the session has a member
/// with that connection attached, and subscribing again creates none.
pub proof fn lemma_ensure_registers<P>(
    v: RosterView<P>,
    session_id: Seq<char>,
    connection_id: Seq<char>,
    name: Option<Seq<char>>,
    working_dir: Option<Seq<char>>,
    dir_swarm_id: Option<Seq<char>>,
    swarm_enabled: bool,
    now: u64,
)
    ensures
        ({
            let (v1, _) = ensured(v, session_id, connection_id, name, working_dir, dir_swarm_id, swarm_enabled, now);
            &&& v1.members.dom().contains(session_id)
            &&& v1.members[session_id].connections.contains(connection_id)
            &&& !ensured(v1, session_id, connection_id, name, working_dir, dir_swarm_id, swarm_enabled, now).1
        }),
{
}

/// What moving a session to another working directory did to its swarm.
pub struct Rebinding {
    /// The swarm the session was in before.
    pub old_swarm_id: Option<String>,
    /// The swarm the session is in now.
    pub swarm_id: Option<String>,
    /// The session that now coordinates the old swarm, when the moved
    /// session coordinated it and another session is left in it.
    pub new_coordinator: Option<String>,
}

/// A member bound to directory `dir`: it joins the directory's swarm when
/// swarm coordination is enabled for it (else no swarm), and becomes a
/// plain agent when its swarm changes.
pub open spec fn rebound_member(m: MemberView, dir: Seq<char>, dir_swarm_id: Option<Seq<char>>) -> MemberView {
    let swarm_id = if m.swarm_enabled {
        dir_swarm_id
    } else {
        None
    };
    MemberView {
        working_dir: Some(dir),
        swarm_id,
        role: if swarm_id != m.swarm_id {
            "agent"@
        } else {
            m.role
        },
        ..m
    }
}

/// Members after session `id` is bound to directory `dir`.
pub open spec fn rebound_members(
    members: Map<Seq<char>, MemberView>,
    id: Seq<char>,
    dir: Seq<char>,
    dir_swarm_id: Option<Seq<char>>,
) -> Map<Seq<char>, MemberView> {
    if members.dom().contains(id) {
        members.insert(id, rebound_member(members[id], dir, dir_swarm_id))
    } else {
        members
    }
}

/// Swarm sets after `k` leaves swarm `s`; a swarm left empty is dropped.
pub open spec fn left_swarm(
    swarms: Map<Seq<char>, Set<Seq<char>>>,
    s: Seq<char>,
    k: Seq<char>,
) -> Map<Seq<char>, Set<Seq<char>>> {
    if swarms.dom().contains(s) {
        let rest = swarms[s].remove(k);
        if rest == Set::<Seq<char>>::empty() {
            swarms.remove(s)
        } else {
            swarms.insert(s, rest)
        }
    } else {
        swarms
    }
}

/// Swarm sets after session `id` is bound to directory `dir`: it leaves
/// its old swarm and joins its new one.
pub open spec fn rebound_swarms<P>(
    v: RosterView<P>,
    id: Seq<char>,
    dir: Seq<char>,
    dir_swarm_id: Option<Seq<char>>,
) -> Map<Seq<char>, Set<Seq<char>>> {
    let left = match swarm_of(v.members, id) {
        Some(o) => left_swarm(v.swarms, o, id),
        None => v.swarms,
    };
    match swarm_of(rebound_members(v.members, id, dir, dir_swarm_id), id) {
        Some(u) => swarms_with(left, u, id),
        None => left,
    }
}

/// Whether session `id` coordinates the swarm it is in.
pub open spec fn coordinates_own_swarm<P>(v: RosterView<P>, id: Seq<char>) -> bool {
    match swarm_of(v.members, id) {
        Some(o) => v.coordinators.dom().contains(o) && v.coordinators[o] == id,
        None => false,
    }
}

/// First-class snapshot of one swarm's state.
pub struct SwarmRuntime<P> {
    pub swarm_id: String,
    pub coordinator_session_id: Option<String>,
    pub member_session_ids: Vec<String>,
    /// The swarm's members, ordered by session id.
    pub members: Vec<SwarmMember>,
    pub plan: Option<P>,
}

impl<P> SwarmRuntime<P> {
    /// Whether the swarm has a plan, a coordinator or a member.
    pub fn has_any_state(&self) -> (b: bool)
        ensures
            b == (self.plan is Some || self.coordinator_session_id is Some || self.members@.len()
                > 0),
    {
        self.plan.is_some() || self.coordinator_session_id.is_some() || self.members.len() > 0
    }
}

/// Abstract values of a sequence of members.
pub open spec fn member_views(v: Seq<SwarmMember>) -> Seq<MemberView> {
    v.map_values(|m: SwarmMember| m@)
}

/// `ms` lists the members of swarm `swarm_id`, each once, ordered by
/// session id: `keys` are the distinct keys of exactly those members, in
/// the order of `ms`.
pub open spec fn lists_swarm_members(
    members: Map<Seq<char>, MemberView>,
    swarm_id: Seq<char>,
    ms: Seq<MemberView>,
    keys: Seq<Seq<char>>,
) -> bool {
    &&& keys.len() == ms.len()
    &&& keys.no_duplicates()
    &&& forall|a: int| 0 <= a < keys.len() ==> members.dom().contains(#[trigger] keys[a]) && members[keys[a]] == ms[a]
    &&& forall|k: Seq<char>| keys.contains(k) <==> (members.dom().contains(k) && members[k].swarm_id == Some(swarm_id))
    &&& forall|a: int, b: int| 0 <= a < b < ms.len() ==> !text_lt(#[trigger] ms[b].session_id, #[trigger] ms[a].session_id)
}

impl<P> SwarmRoster<P> {
    /// The underlying maps are well formed.
    pub closed spec fn wf(&self) -> bool {
        &&& self.members.wf()
        &&& self.swarms.wf()
        &&& self.coordinators.wf()
        &&& self.plans.wf()
    }

    /// An empty roster.
    pub fn new() -> (r: Self)
        ensures
            r.wf(),
            r@.members == Map::<Seq<char>, MemberView>::empty(),
            r@.swarms == Map::<Seq<char>, Set<Seq<char>>>::empty(),
            r@.coordinators == Map::<Seq<char>, Seq<char>>::empty(),
            r@.plans == Map::<Seq<char>, P>::empty(),
            consistent(r@),
    {
        let r = SwarmRoster {
            members: KeyedMap::new(),
            swarms: KeyedMap::new(),
            coordinators: KeyedMap::new(),
            plans: KeyedMap::new(),
        };
        assert(r@.members =~= Map::<Seq<char>, MemberView>::empty());
        assert(r@.swarms =~= Map::<Seq<char>, Set<Seq<char>>>::empty());
        assert(r@.coordinators =~= Map::<Seq<char>, Seq<char>>::empty());
        r
    }

    /// Whether a subscribe may mark the session ready: it has no member
    /// entry, or its member is not running.
    pub fn should_mark_ready(&self, session_id: &str) -> (b: bool)
        requires
            self.wf(),
        ensures
            b == may_mark_ready(self@, session_id@),
    {
        match self.members.get(session_id) {
            Some(m) => {
                proof {
                    reveal_strlit("running");
                }
                !str_eq(m.status.as_str(), "running")
            },
            None => true,
        }
    }

    /// Adds session `k` to swarm `s`, creating the swarm if needed.
    fn add_to_swarm(&mut self, s: &str, k: &str)
        requires
            old(self).wf(),
        ensures
            final(self).wf(),
            final(self)@ == (RosterView { swarms: swarms_with(old(self)@.swarms, s@, k@), ..old(self)@ }),
    {
        let ghost v0 = self@;
        let ghost w0 = self.swarms@;
        match self.swarms.remove(s) {
            Some(mut set) => {
                text_set_insert(&mut set, k);
                proof {
                    lemma_swarms_remove(w0, s@);
                }
                self.swarms.insert(s, set);
                proof {
                    lemma_swarms_insert(w0.remove(s@), s@, set);
                    assert(self@.swarms =~= swarms_with(v0.swarms, s@, k@));
                }
            },
            None => {
                let mut set: Vec<String> = Vec::new();
                proof {
                    assert(text_set(set@) =~= Set::<Seq<char>>::empty());
                }
                text_set_insert(&mut set, k);
                self.swarms.insert(s, set);
                proof {
                    lemma_swarms_insert(w0.remove(s@), s@, set);
                    assert(w0.remove(s@) =~= w0);
                    assert(self@.swarms =~= swarms_with(v0.swarms, s@, k@));
                }
            },
        }
    }

    /// Registers the client connection of a subscribe with its session's
    /// member, creating the member (ready, an agent) if the session has
    /// none; a new member joins the swarm of its directory when swarm
    /// coordination is enabled. The member's name is `fallback_name` (the
    /// session's own short name) when known, else `friendly_name`.
    /// Returns whether a member was created.
    pub fn ensure_member(
        &mut self,
        session_id: &str,
        connection_id: &str,
        fallback_name: Option<String>,
        friendly_name: Option<String>,
        working_dir: Option<String>,
        dir_swarm_id: Option<String>,
        swarm_enabled: bool,
        now: u64,
    ) -> (inserted: bool)
        requires
            old(self).wf(),
        ensures
            final(self).wf(),
            (final(self)@, inserted) == ensured(
                old(self)@,
                session_id@,
                connection_id@,
                if fallback_name is Some {
                    opt_text(fallback_name)
                } else {
                    opt_text(friendly_name)
                },
                opt_text(working_dir),
                opt_text(dir_swarm_id),
                swarm_enabled,
                now,
            ),
            consistent(old(self)@) ==> consistent(final(self)@),
    {
        let ghost v0 = self@;
        let ghost m0 = self.members@;
        let name = match fallback_name {
            Some(n) => Some(n),
            None => friendly_name,
        };
        let ghost nv = opt_text(name);
        match self.members.remove(session_id) {
            Some(mut m) => {
                let ghost mv = m@;
                text_set_insert(&mut m.connections, connection_id);
                m.swarm_enabled = swarm_enabled;
                m.is_headless = false;
                if name.is_some() {
                    m.friendly_name = name;
                }
                proof {
                    lemma_members_remove(m0, session_id@);
                    assert(m@ == reattached_member(mv, connection_id@, nv, swarm_enabled));
                }
                self.members.insert(session_id, m);
                proof {
                    lemma_members_insert(m0.remove(session_id@), session_id@, m);
                    assert(members_view(m0.remove(session_id@).insert(session_id@, m))
                        =~= members_view(m0).insert(session_id@, m@));
                    assert(self@ == ensured(v0, session_id@, connection_id@, nv, opt_text(working_dir), opt_text(dir_swarm_id), swarm_enabled, now).0);
                }
                false
            },
            None => {
                let swarm_id = if swarm_enabled {
                    dir_swarm_id
                } else {
                    None
                };
                let ghost sv = opt_text(swarm_id);
                let mut connections: Vec<String> = Vec::new();
                proof {
                    assert(text_set(connections@) =~= Set::<Seq<char>>::empty());
                }
                text_set_insert(&mut connections, connection_id);
                let swarm_copy = copy_opt(&swarm_id);
                let m = SwarmMember {
                    session_id: session_id.to_owned(),
                    connections,
                    working_dir,
                    swarm_id,
                    swarm_enabled,
                    status: String::from_str("ready"),
                    detail: None,
                    task_label: None,
                    friendly_name: name,
                    report_back_to_session_id: None,
                    latest_completion_report: None,
                    role: String::from_str("agent"),
                    joined_at: now,
                    last_status_change: now,
                    is_headless: false,
                    output_tail: None,
                    todo_progress: None,
                };
                proof {
                    reveal_strlit("ready");
                    reveal_strlit("agent");
                    assert(m0.remove(session_id@) =~= m0);
                }
                self.members.insert(session_id, m);
                proof {
                    lemma_members_insert(m0, session_id@, m);
                }
                match swarm_copy {
                    Some(s) => {
                        self.add_to_swarm(s.as_str(), session_id);
                    },
                    None => {},
                }
                proof {
                    let e = ensured(v0, session_id@, connection_id@, nv, opt_text(working_dir), opt_text(dir_swarm_id), swarm_enabled, now).0;
                    assert(self@.members == e.members);
                    assert(self@.swarms == e.swarms);
                    if consistent(v0) {
                        assert forall|k: Seq<char>| #[trigger] self@.members.dom().contains(k) && self@.members[k].swarm_id is Some implies {
                            let s = self@.members[k].swarm_id.unwrap();
                            self@.swarms.dom().contains(s) && self@.swarms[s].contains(k)
                        } by {
                            if k != session_id@ {
                                assert(v0.members.dom().contains(k));
                            }
                        }
                    }
                }
                true
            },
        }
    }

    /// Moves the member of `old_id`, if any, to `new_id` (ready, without
    /// detail) and gives it `old_id`'s place in its swarm. Returns that
    /// swarm.
    fn move_member(&mut self, old_id: &str, new_id: &str) -> (swarm_id: Option<String>)
        requires
            old(self).wf(),
        ensures
            final(self).wf(),
            final(self)@ == cleared(old(self)@, old_id@, new_id@),
            opt_text(swarm_id) == swarm_of(old(self)@.members, old_id@),
    {
        let ghost v0 = self@;
        let ghost m0 = self.members@;
        let swarm_id = match self.members.remove(old_id) {
            Some(mut m) => {
                let sid = copy_opt(&m.swarm_id);
                m.session_id = new_id.to_owned();
                m.status = String::from_str("ready");
                m.detail = None;
                proof {
                    reveal_strlit("ready");
                    lemma_members_remove(m0, old_id@);
                }
                self.members.insert(new_id, m);
                proof {
                    lemma_members_insert(m0.remove(old_id@), new_id@, m);
                    assert(m@ == moved_member(v0.members[old_id@], new_id@));
                }
                sid
            },
            None => {
                proof {
                    assert(m0.remove(old_id@) =~= m0);
                }
                None
            },
        };
        match &swarm_id {
            Some(s) => {
                let ghost w0 = self.swarms@;
                match self.swarms.remove(s.as_str()) {
                    Some(mut set) => {
                        text_set_remove(&mut set, old_id);
                        text_set_insert(&mut set, new_id);
                        proof {
                            lemma_swarms_remove(w0, s@);
                        }
                        self.swarms.insert(s.as_str(), set);
                        proof {
                            lemma_swarms_insert(w0.remove(s@), s@, set);
                            assert(self@.swarms =~= moved_swarms(v0.swarms, v0.members, old_id@, new_id@));
                        }
                    },
                    None => {
                        assert(w0.remove(s@) =~= w0);
                    },
                }
            },
            None => {},
        }
        swarm_id
    }

    /// Replaces a cleared session by its fresh session: the member of
    /// `old_id` (if any) moves to `new_id`, ready and without detail, and
    /// takes `old_id`'s place in its swarm. Returns that swarm.
    pub fn replace_cleared_session(&mut self, old_id: &str, new_id: &str) -> (swarm_id: Option<String>)
        requires
            old(self).wf(),
        ensures
            final(self).wf(),
            final(self)@ == cleared(old(self)@, old_id@, new_id@),
            opt_text(swarm_id) == swarm_of(old(self)@.members, old_id@),
            consistent(old(self)@) ==> consistent(final(self)@),
    {
        proof {
            if consistent(self@) {
                lemma_moved_consistent(self@, old_id@, new_id@);
            }
        }
        self.move_member(old_id, new_id)
    }

    /// Renames session `old_id` to `new_id`: its member moves to the new
    /// id (ready, without detail) and takes the old id's place in its
    /// swarm, and members that report back to the old id follow it.
    pub fn rename_session(&mut self, old_id: &str, new_id: &str)
        requires
            old(self).wf(),
        ensures
            final(self).wf(),
            final(self)@ == renamed_roster(old(self)@, old_id@, new_id@),
            consistent(old(self)@) ==> consistent(final(self)@),
    {
        let ghost v0 = self@;
        proof {
            if consistent(v0) {
                lemma_moved_consistent(v0, old_id@, new_id@);
            }
        }
        let _ = self.move_member(old_id, new_id);
        let ghost v1 = self@;
        let ghost keys0 = self.members.keys();
        proof {
            self.members.lemma_keys();
            assert(forall|k: Seq<char>| v1.members.dom().contains(k) <==> self.members@.dom().contains(k));
        }
        let n = self.members.len();
        let mut i: usize = 0;
        while i < n
            invariant
                i <= n,
                n == keys0.len(),
                keys0.no_duplicates(),
                forall|k: Seq<char>| v1.members.dom().contains(k) <==> keys0.contains(k),
                self.wf(),
                self.members.keys() == keys0,
                self@.members.dom() == v1.members.dom(),
                self@.swarms == v1.swarms,
                self@.coordinators == v1.coordinators,
                self@.plans == v1.plans,
                forall|j: int|
                    0 <= j < n ==> #[trigger] self@.members[keys0[j]] == if j < i {
                        follow_report_back(v1.members[keys0[j]], old_id@, new_id@)
                    } else {
                        v1.members[keys0[j]]
                    },
            decreases n - i,
        {
            let ghost before = self.members@;
            let ghost key = keys0[i as int];
            assert(keys0.contains(key));
            assert(self@.members.dom().contains(key));
            assert(self@.members[key] == v1.members[key]);
            let m = self.members.value_at(i);
            assert(m@ == v1.members[key]);
            let follows = match &m.report_back_to_session_id {
                Some(r) => str_eq(r.as_str(), old_id),
                None => false,
            };
            if follows {
                let mut c = m.duplicate();
                c.report_back_to_session_id = Some(new_id.to_owned());
                self.members.set_value_at(i, c);
                proof {
                    lemma_members_insert(before, key, c);
                    assert(keys0.contains(key));
                    assert(c@ == follow_report_back(v1.members[key], old_id@, new_id@));
                    assert forall|j: int| 0 <= j < n implies #[trigger] self@.members[keys0[j]] == if j < i + 1 {
                        follow_report_back(v1.members[keys0[j]], old_id@, new_id@)
                    } else {
                        v1.members[keys0[j]]
                    } by {
                        if j != i {
                            assert(keys0[j] != key);
                        }
                    }
                    assert(self@.members.dom() =~= v1.members.dom());
                }
            } else {
                assert(follow_report_back(v1.members[key], old_id@, new_id@) == v1.members[key]);
            }
            i += 1;
        }
        proof {
            assert forall|k: Seq<char>| #[trigger] self@.members.dom().contains(k) implies self@.members[k]
                == follow_report_back(v1.members[k], old_id@, new_id@) by {
                assert(keys0.contains(k));
                let j = choose|j: int| 0 <= j < keys0.len() && keys0[j] == k;
                assert(self@.members[keys0[j]] == follow_report_back(v1.members[keys0[j]], old_id@, new_id@));
            }
            assert(self@.members =~= v1.members.map_values(
                |m: MemberView| follow_report_back(m, old_id@, new_id@),
            ));
    }
    }

    /// Takes session `k` out of swarm `s`, dropping the swarm if it is left
    /// empty.
    fn leave_swarm(&mut self, s: &str, k: &str)
        requires
            old(self).wf(),
        ensures
            final(self).wf(),
            final(self)@ == (RosterView { swarms: left_swarm(old(self)@.swarms, s@, k@), ..old(self)@ }),
    {
        let ghost v0 = self@;
        let ghost w0 = self.swarms@;
        match self.swarms.remove(s) {
            Some(mut set) => {
                text_set_remove(&mut set, k);
                proof {
                    lemma_swarms_remove(w0, s@);
                }
                if !text_set_is_empty(set.as_slice()) {
                    self.swarms.insert(s, set);
                    proof {
                        lemma_swarms_insert(w0.remove(s@), s@, set);
                        assert(self@.swarms =~= left_swarm(v0.swarms, s@, k@));
                    }
                }
            },
            None => {
                assert(w0.remove(s@) =~= w0);
            },
        }
    }

    /// Binds session `session_id` to working directory `bound_dir`, whose
    /// swarm is `dir_swarm_id`: the member records the directory, moves to
    /// that swarm when swarm coordination is enabled for it (else to no
    /// swarm) and becomes a plain agent if its swarm changed; the session
    /// leaves its old swarm (an emptied swarm is dropped) and joins the new
    /// one. If it coordinated its old swarm, the least session left there
    /// takes over (the swarm has no coordinator when none is left).
    pub fn rebind_working_dir(
        &mut self,
        session_id: &str,
        bound_dir: String,
        dir_swarm_id: Option<String>,
    ) -> (r: Rebinding)
        requires
            old(self).wf(),
        ensures
            final(self).wf(),
            final(self)@.members == rebound_members(
                old(self)@.members,
                session_id@,
                bound_dir@,
                opt_text(dir_swarm_id),
            ),
            final(self)@.swarms == rebound_swarms(
                old(self)@,
                session_id@,
                bound_dir@,
                opt_text(dir_swarm_id),
            ),
            final(self)@.plans == old(self)@.plans,
            opt_text(r.old_swarm_id) == swarm_of(old(self)@.members, session_id@),
            opt_text(r.swarm_id) == swarm_of(final(self)@.members, session_id@),
            if coordinates_own_swarm(old(self)@, session_id@) {
                let o = swarm_of(old(self)@.members, session_id@).unwrap();
                match r.new_coordinator {
                    Some(c) => {
                        &&& final(self)@.swarms.dom().contains(o)
                        &&& is_least(final(self)@.swarms[o], c@)
                        &&& final(self)@.coordinators == old(self)@.coordinators.insert(o, c@)
                    },
                    None => {
                        &&& !final(self)@.swarms.dom().contains(o) || final(self)@.swarms[o]
                            == Set::<Seq<char>>::empty()
                        &&& final(self)@.coordinators == old(self)@.coordinators.remove(o)
                    },
                }
            } else {
                &&& r.new_coordinator is None
                &&& final(self)@.coordinators == old(self)@.coordinators
            },
            consistent(old(self)@) ==> consistent(final(self)@),
    {
        let ghost v0 = self@;
        let ghost m0 = self.members@;
        let (old_swarm_id, swarm_id) = match self.members.remove(session_id) {
            Some(mut m) => {
                let ghost mv = m@;
                let old_swarm_id = copy_opt(&m.swarm_id);
                m.working_dir = Some(bound_dir);
                m.swarm_id = if m.swarm_enabled {
                    dir_swarm_id
                } else {
                    None
                };
                let swarm_id = copy_opt(&m.swarm_id);
                if !opt_string_eq(&swarm_id, &old_swarm_id) {
                    m.role = String::from_str("agent");
                    proof {
                        reveal_strlit("agent");
                    }
                }
                proof {
                    lemma_members_remove(m0, session_id@);
                    assert(m@ == rebound_member(mv, bound_dir@, opt_text(dir_swarm_id)));
                }
                self.members.insert(session_id, m);
                proof {
                    lemma_members_insert(m0.remove(session_id@), session_id@, m);
                    assert(self@.members =~= rebound_members(v0.members, session_id@, bound_dir@, opt_text(dir_swarm_id)));
                }
                (old_swarm_id, swarm_id)
            },
            None => {
                proof {
                    assert(m0.remove(session_id@) =~= m0);
                }
                (None, None)
            },
        };
        let ghost v1 = self@;
        match &old_swarm_id {
            Some(o) => {
                self.leave_swarm(o.as_str(), session_id);
            },
            None => {},
        }
        match &swarm_id {
            Some(u) => {
                self.add_to_swarm(u.as_str(), session_id);
            },
            None => {},
        }
        let ghost v2 = self@;
        assert(v2.swarms == rebound_swarms(v0, session_id@, bound_dir@, opt_text(dir_swarm_id)));
        let mut new_coordinator: Option<String> = None;
        match &old_swarm_id {
            Some(o) => {
                let was_coordinator = match self.coordinators.get(o.as_str()) {
                    Some(c) => str_eq(c.as_str(), session_id),
                    None => false,
                };
                if was_coordinator {
                    let next = match self.swarms.get(o.as_str()) {
                        Some(set) => text_set_min(set.as_slice()),
                        None => None,
                    };
                    let ghost c0 = self.coordinators@;
                    let _ = self.coordinators.remove(o.as_str());
                    proof {
                        lemma_coordinators_remove(c0, o@);
                    }
                    match &next {
                        Some(c) => {
                            let c2 = c.clone();
                            let ghost c1 = self.coordinators@;
                            self.coordinators.insert(o.as_str(), c2);
                            proof {
                                lemma_coordinators_insert(c1, o@, c2);
                                assert(self@.coordinators =~= v0.coordinators.insert(o@, c@));
                            }
                        },
                        None => {},
                    }
                    new_coordinator = next;
                }
            },
            None => {},
        }
        proof {
            if consistent(v0) {
                let v = self@;
                assert forall|k: Seq<char>| #[trigger] v.members.dom().contains(k) && v.members[k].swarm_id is Some implies {
                    let s = v.members[k].swarm_id.unwrap();
                    v.swarms.dom().contains(s) && v.swarms[s].contains(k)
                } by {
                    if k != session_id@ {
                        assert(v0.members.dom().contains(k));
                        let s = v0.members[k].swarm_id.unwrap();
                        assert(v0.swarms[s].contains(k));
                        match swarm_of(v0.members, session_id@) {
                            Some(o) => {
                                if o == s {
                                    assert(v0.swarms[s].remove(session_id@).contains(k));
                                }
                            },
                            None => {},
                        }
                    }
                }
            }
        }
        Rebinding { old_swarm_id, swarm_id, new_coordinator }
    }

    /// Forgets the member of `session_id` (a session that was closed);
    /// returns the swarm it was in, which the caller tidies up.
    pub fn remove_session(&mut self, session_id: &str) -> (swarm_id: Option<String>)
        requires
            old(self).wf(),
        ensures
            final(self).wf(),
            final(self)@ == (RosterView {
                members: old(self)@.members.remove(session_id@),
                ..old(self)@
            }),
            opt_text(swarm_id) == swarm_of(old(self)@.members, session_id@),
            consistent(old(self)@) ==> consistent(final(self)@),
    {
        let ghost m0 = self.members@;
        let removed = self.members.remove(session_id);
        proof {
            lemma_members_remove(m0, session_id@);
        }
        match removed {
            Some(m) => m.swarm_id,
            None => None,
        }
    }

    /// Attaches client connection `connection_id` to the member of
    /// `session_id`, if the session has one.
    pub fn register_connection(&mut self, session_id: &str, connection_id: &str)
        requires
            old(self).wf(),
        ensures
            final(self).wf(),
            final(self)@ == (RosterView {
                members: if old(self)@.members.dom().contains(session_id@) {
                    old(self)@.members.insert(
                        session_id@,
                        MemberView {
                            connections: old(self)@.members[session_id@].connections.insert(
                                connection_id@,
                            ),
                            ..old(self)@.members[session_id@]
                        },
                    )
                } else {
                    old(self)@.members
                },
                ..old(self)@
            }),
            consistent(old(self)@) ==> consistent(final(self)@),
    {
        let ghost m0 = self.members@;
        match self.members.remove(session_id) {
            Some(mut m) => {
                text_set_insert(&mut m.connections, connection_id);
                proof {
                    lemma_members_remove(m0, session_id@);
                }
                self.members.insert(session_id, m);
                proof {
                    lemma_members_insert(m0.remove(session_id@), session_id@, m);
                    assert(members_view(m0.remove(session_id@).insert(session_id@, m)) =~= members_view(m0).insert(session_id@, m@));
                }
            },
            None => {
                assert(m0.remove(session_id@) =~= m0);
            },
        }
    }

    /// Detaches client connection `connection_id` from the member of
    /// `session_id`, if the session has one.
    pub fn unregister_connection(&mut self, session_id: &str, connection_id: &str)
        requires
            old(self).wf(),
        ensures
            final(self).wf(),
            final(self)@ == (RosterView {
                members: if old(self)@.members.dom().contains(session_id@) {
                    old(self)@.members.insert(
                        session_id@,
                        MemberView {
                            connections: old(self)@.members[session_id@].connections.remove(
                                connection_id@,
                            ),
                            ..old(self)@.members[session_id@]
                        },
                    )
                } else {
                    old(self)@.members
                },
                ..old(self)@
            }),
            consistent(old(self)@) ==> consistent(final(self)@),
    {
        let ghost m0 = self.members@;
        match self.members.remove(session_id) {
            Some(mut m) => {
                text_set_remove(&mut m.connections, connection_id);
                proof {
                    lemma_members_remove(m0, session_id@);
                }
                self.members.insert(session_id, m);
                proof {
                    lemma_members_insert(m0.remove(session_id@), session_id@, m);
                    assert(members_view(m0.remove(session_id@).insert(session_id@, m)) =~= members_view(m0).insert(session_id@, m@));
                }
            },
            None => {
                assert(m0.remove(session_id@) =~= m0);
            },
        }
    }

    /// The sessions with at least one client connection attached, each
    /// once.
    pub fn live_sessions(&self) -> (r: Vec<String>)
        requires
            self.wf(),
        ensures
            forall|i: int, j: int| 0 <= i < j < r@.len() ==> r@[i]@ != r@[j]@,
            forall|k: Seq<char>|
                text_set(r@).contains(k) <==> (self@.members.dom().contains(k)
                    && self@.members[k].connections != Set::<Seq<char>>::empty()),
    {
        let ghost keys = self.members.keys();
        proof {
            self.members.lemma_keys();
        }
        let mut r: Vec<String> = Vec::new();
        let mut i: usize = 0;
        let n = self.members.len();
        while i < n
            invariant
                i <= n,
                n == keys.len(),
                self.wf(),
                keys == self.members.keys(),
                keys.no_duplicates(),
                forall|k: Seq<char>| self@.members.dom().contains(k) <==> keys.contains(k),
                forall|a: int| 0 <= a < r@.len() ==> exists|j: int| 0 <= j < i && keys[j] == #[trigger] r@[a]@,
                forall|a: int, b: int| 0 <= a < b < r@.len() ==> r@[a]@ != r@[b]@,
                forall|k: Seq<char>|
                    text_set(r@).contains(k) <==> (exists|j: int| 0 <= j < i && keys[j] == k)
                        && self@.members[k].connections != Set::<Seq<char>>::empty(),
            decreases n - i,
        {
            let key = self.members.key_at(i);
            let m = self.members.value_at(i);
            proof {
                assert(keys.contains(keys[i as int]));
                assert(m@ == self@.members[keys[i as int]]);
            }
            let ghost r0 = r@;
            if !text_set_is_empty(m.connections.as_slice()) {
                r.push(key.clone());
                proof {
                    assert forall|a: int, b: int| 0 <= a < b < r@.len() implies r@[a]@ != r@[b]@ by {
                        if b == r0.len() {
                            let j = choose|j: int| 0 <= j < i && keys[j] == #[trigger] r@[a]@;
                            assert(keys[j] != keys[i as int]);
                        }
                    }
                    assert forall|a: int| 0 <= a < r@.len() implies exists|j: int| 0 <= j < i + 1 && keys[j] == #[trigger] r@[a]@ by {
                        if a < r0.len() {
                            assert(r@[a] == r0[a]);
                            let j = choose|j: int| 0 <= j < i && keys[j] == #[trigger] r0[a]@;
                            assert(keys[j] == r@[a]@);
                        } else {
                            assert(keys[i as int] == r@[a]@);
                        }
                    }
                    assert forall|k: Seq<char>|
                        text_set(r@).contains(k) <==> (exists|j: int| 0 <= j < i + 1 && keys[j] == k)
                            && self@.members[k].connections != Set::<Seq<char>>::empty() by {
                        if text_set(r@).contains(k) {
                            let a = choose|a: int| 0 <= a < r@.len() && #[trigger] r@[a]@ == k;
                            if a < r0.len() {
                                assert(r0[a]@ == k);
                                assert(text_set(r0).contains(k));
                            } else {
                                assert(keys[i as int] == k);
                            }
                        }
                        if (exists|j: int| 0 <= j < i + 1 && keys[j] == k)
                            && self@.members[k].connections != Set::<Seq<char>>::empty() {
                            let j = choose|j: int| 0 <= j < i + 1 && keys[j] == k;
                            if j < i {
                                assert(text_set(r0).contains(k));
                                let a = choose|a: int| 0 <= a < r0.len() && #[trigger] r0[a]@ == k;
                                assert(r@[a]@ == k);
                            } else {
                                assert(r@[r0.len() as int]@ == k);
                            }
                        }
                    }
                }
            } else {
                proof {
                    assert forall|k: Seq<char>|
                        text_set(r@).contains(k) <==> (exists|j: int| 0 <= j < i + 1 && keys[j] == k)
                            && self@.members[k].connections != Set::<Seq<char>>::empty() by {
                        if (exists|j: int| 0 <= j < i + 1 && keys[j] == k)
                            && self@.members[k].connections != Set::<Seq<char>>::empty() {
                            let j = choose|j: int| 0 <= j < i + 1 && keys[j] == k;
                            assert(j != i);
                        }
                    }
                    assert forall|a: int| 0 <= a < r@.len() implies exists|j: int| 0 <= j < i + 1 && keys[j] == #[trigger] r@[a]@ by {
                        let j = choose|j: int| 0 <= j < i && keys[j] == #[trigger] r@[a]@;
                    }
                }
            }
            i += 1;
        }
        proof {
            assert forall|k: Seq<char>|
                text_set(r@).contains(k) <==> (self@.members.dom().contains(k)
                    && self@.members[k].connections != Set::<Seq<char>>::empty()) by {
                if self@.members.dom().contains(k) {
                    assert(keys.contains(k));
                }
                if exists|j: int| 0 <= j < n && keys[j] == k {
                    let j = choose|j: int| 0 <= j < n && keys[j] == k;
                    assert(keys.contains(k));
                }
            }
        }
        r
    }

    /// The roster holding the given members (by session id), swarm sets,
    /// coordinators and plans (each by swarm id); of two entries with the
    /// same key the later one is kept.
    pub fn from_parts(
        members: Vec<(String, SwarmMember)>,
        swarms: Vec<(String, Vec<String>)>,
        coordinators: Vec<(String, String)>,
        plans: Vec<(String, P)>,
    ) -> (r: Self)
        ensures
            r.wf(),
            r@ == (RosterView {
                members: members_view(pairs_map(members@)),
                swarms: swarms_view(pairs_map(swarms@)),
                coordinators: coordinators_view(pairs_map(coordinators@)),
                plans: pairs_map(plans@),
            }),
    {
        SwarmRoster {
            members: KeyedMap::from_pairs(members),
            swarms: KeyedMap::from_pairs(swarms),
            coordinators: KeyedMap::from_pairs(coordinators),
            plans: KeyedMap::from_pairs(plans),
        }
    }

    /// A snapshot of swarm `swarm_id`: its coordinator, its set of
    /// sessions, its plan, and its members ordered by session id.
    pub fn load_runtime(&self, swarm_id: &str) -> (r: SwarmRuntime<P>)
        where
            P: Clone,
        requires
            self.wf(),
        ensures
            r.swarm_id@ == swarm_id@,
            opt_text(r.coordinator_session_id) == if self@.coordinators.dom().contains(swarm_id@) {
                Some(self@.coordinators[swarm_id@])
            } else {
                None
            },
            text_set(r.member_session_ids@) == if self@.swarms.dom().contains(swarm_id@) {
                self@.swarms[swarm_id@]
            } else {
                Set::<Seq<char>>::empty()
            },
            match r.plan {
                Some(p) => self@.plans.dom().contains(swarm_id@) && cloned::<P>(self@.plans[swarm_id@], p),
                None => !self@.plans.dom().contains(swarm_id@),
            },
            exists|keys: Seq<Seq<char>>|
                #[trigger] lists_swarm_members(
                    self@.members,
                    swarm_id@,
                    member_views(r.members@),
                    keys,
                ),
    {
        let plan = self.plans.get(swarm_id).cloned();
        let coordinator_session_id = match self.coordinators.get(swarm_id) {
            Some(c) => Some(c.clone()),
            None => None,
        };
        let member_session_ids = match self.swarms.get(swarm_id) {
            Some(set) => text_set_copy(set.as_slice()),
            None => {
                let v: Vec<String> = Vec::new();
                assert(text_set(v@) =~= Set::<Seq<char>>::empty());
                v
            },
        };
        let members = self.swarm_members_sorted(swarm_id);
        let r = SwarmRuntime {
            swarm_id: swarm_id.to_owned(),
            coordinator_session_id,
            member_session_ids,
            members,
            plan,
        };
        proof {
            let keys = choose|keys: Seq<Seq<char>>|
                #[trigger] lists_swarm_members(self@.members, swarm_id@, member_views(members@), keys);
            assert(lists_swarm_members(self@.members, swarm_id@, member_views(r.members@), keys));
        }
        r
    }

    /// The members of swarm `swarm_id`, ordered by session id.
    fn swarm_members_sorted(&self, swarm_id: &str) -> (out: Vec<SwarmMember>)
        requires
            self.wf(),
        ensures
            exists|keys: Seq<Seq<char>>|
                #[trigger] lists_swarm_members(
                    self@.members,
                    swarm_id@,
                    member_views(out@),
                    keys,
                ),
    {
        let ghost all = self.members.keys();
        proof {
            self.members.lemma_keys();
        }
        let n = self.members.len();
        let mut out: Vec<SwarmMember> = Vec::new();
        let ghost mut ks: Seq<Seq<char>> = Seq::empty();
        let mut i: usize = 0;
        while i < n
            invariant
                i <= n,
                n == all.len(),
                self.wf(),
                all == self.members.keys(),
                all.no_duplicates(),
                forall|k: Seq<char>| self@.members.dom().contains(k) <==> all.contains(k),
                ks.len() == out@.len(),
                ks.no_duplicates(),
                forall|a: int| 0 <= a < ks.len() ==> self@.members.dom().contains(#[trigger] ks[a]) && self@.members[ks[a]] == out@[a]@,
                forall|k: Seq<char>| ks.contains(k) <==> ((exists|j: int| 0 <= j < i && all[j] == k) && self@.members[k].swarm_id == Some(swarm_id@)),
                forall|a: int, b: int| 0 <= a < b < out@.len() ==> !text_lt(#[trigger] out@[b].session_id@, #[trigger] out@[a].session_id@),
            decreases n - i,
        {
            let key = self.members.key_at(i);
            let m = self.members.value_at(i);
            let ghost kv = all[i as int];
            proof {
                assert(all.contains(kv));
                assert(m@ == self@.members[kv]);
                assert(!ks.contains(kv)) by {
                    if ks.contains(kv) {
                        let j = choose|j: int| 0 <= j < i && all[j] == kv;
                        assert(all[j] == all[i as int]);
                    }
                }
            }
            let matches = match &m.swarm_id {
                Some(sid) => str_eq(sid.as_str(), swarm_id),
                None => false,
            };
            if matches {
                let sk = chars_of(m.session_id.as_str());
                let mut p: usize = 0;
                while p < out.len() && !text_less(&sk, &chars_of(out[p].session_id.as_str()))
                    invariant
                        p <= out@.len(),
                        sk@ == m.session_id@,
                        forall|q: int| 0 <= q < p ==> !text_lt(sk@, #[trigger] out@[q].session_id@),
                    decreases out@.len() - p,
                {
                    p += 1;
                }
                let ghost o0 = out@;
                let ghost ks0 = ks;
                out.insert(p, m.duplicate());
                proof {
                    ks = ks0.insert(p as int, kv);
                    assert forall|a: int, b: int| 0 <= a < b < out@.len() implies !text_lt(#[trigger] out@[b].session_id@, #[trigger] out@[a].session_id@) by {
                        let x = m.session_id@;
                        if a < p && b < p {
                            assert(out@[a] == o0[a] && out@[b] == o0[b]);
                        } else if a < p && b == p {
                            assert(out@[a] == o0[a]);
                            lemma_text_lt_total(x, o0[a].session_id@);
                            if text_lt(x, o0[a].session_id@) {
                            }
                        } else if a < p && b > p {
                            assert(out@[a] == o0[a] && out@[b] == o0[b - 1]);
                        } else if a == p {
                            assert(out@[b] == o0[b - 1]);
                            // x < o0[p] <= o0[b - 1]
                            assert(text_lt(x, o0[p as int].session_id@));
                            let y = o0[b - 1].session_id@;
                            if b - 1 > p {
                                assert(!text_lt(y, o0[p as int].session_id@));
                                lemma_text_lt_total(y, o0[p as int].session_id@);
                                if y != o0[p as int].session_id@ {
                                    lemma_text_lt_transitive(x, o0[p as int].session_id@, y);
                                }
                            }
                            lemma_text_lt_total(x, y);
                        } else {
                            assert(out@[a] == o0[a - 1] && out@[b] == o0[b - 1]);
                        }
                    }
                    assert forall|a: int| 0 <= a < ks.len() implies self@.members.dom().contains(#[trigger] ks[a]) && self@.members[ks[a]] == out@[a]@ by {
                        if a < p {
                            assert(ks[a] == ks0[a] && out@[a] == o0[a]);
                        } else if a > p {
                            assert(ks[a] == ks0[a - 1] && out@[a] == o0[a - 1]);
                        }
                    }
                    assert forall|x: Seq<char>| ks.contains(x) <==> (ks0.contains(x) || x == kv) by {
                        if ks.contains(x) {
                            let a = choose|a: int| 0 <= a < ks.len() && ks[a] == x;
                            if a < p {
                                assert(ks0[a] == x);
                            } else if a > p {
                                assert(ks0[a - 1] == x);
                            }
                        }
                        if ks0.contains(x) {
                            let a = choose|a: int| 0 <= a < ks0.len() && ks0[a] == x;
                            if a < p {
                                assert(ks[a] == x);
                            } else {
                                assert(ks[a + 1] == x);
                            }
                        }
                        if x == kv {
                            assert(ks[p as int] == x);
                        }
                    }
                    assert(ks.no_duplicates()) by {
                        assert forall|a: int, b: int| 0 <= a < b < ks.len() implies ks[a] != ks[b] by {
                            if a == p {
                                if ks[b] == kv {
                                    assert(ks0.contains(kv)) by {
                                        assert(ks0[b - 1] == kv);
                                    }
                                }
                            } else if b == p {
                                if ks[a] == kv {
                                    assert(ks0.contains(kv)) by {
                                        assert(ks0[a] == kv);
                                    }
                                }
                            } else {
                                let a0 = if a < p { a } else { a - 1 };
                                let b0 = if b < p { b } else { b - 1 };
                                assert(ks[a] == ks0[a0] && ks[b] == ks0[b0]);
                            }
                        }
                    }
                }
            }
            proof {
                assert forall|k: Seq<char>| ks.contains(k) <==> ((exists|j: int| 0 <= j < i + 1 && all[j] == k) && self@.members[k].swarm_id == Some(swarm_id@)) by {
                    if exists|j: int| 0 <= j < i + 1 && all[j] == k {
                        let j = choose|j: int| 0 <= j < i + 1 && all[j] == k;
                        if j < i {
                            assert(exists|j: int| 0 <= j < i && all[j] == k);
                        }
                    }
                    if exists|j: int| 0 <= j < i && all[j] == k {
                        let j = choose|j: int| 0 <= j < i && all[j] == k;
                        assert(0 <= j < i + 1 && all[j] == k);
                    }
                }
            }
            i += 1;
        }
        proof {
            let ms = member_views(out@);
            assert forall|k: Seq<char>| ks.contains(k) <==> (self@.members.dom().contains(k) && self@.members[k].swarm_id == Some(swarm_id@)) by {
                if self@.members.dom().contains(k) {
                    assert(all.contains(k));
                    let j = choose|j: int| 0 <= j < all.len() && all[j] == k;
                }
            }
            assert(lists_swarm_members(self@.members, swarm_id@, ms, ks));
        }
        out
    }

    /// The member of session `session_id`, if any.
    pub fn member(&self, session_id: &str) -> (r: Option<&SwarmMember>)
        requires
            self.wf(),
        ensures
            match r {
                Some(m) => self@.members.dom().contains(session_id@) && m@ == self@.members[session_id@],
                None => !self@.members.dom().contains(session_id@),
            },
    {
        self.members.get(session_id)
    }

    /// The sessions of swarm `swarm_id`, if it exists.
    pub fn swarm_sessions(&self, swarm_id: &str) -> (r: Option<&Vec<String>>)
        requires
            self.wf(),
        ensures
            match r {
                Some(v) => self@.swarms.dom().contains(swarm_id@) && text_set(v@) == self@.swarms[swarm_id@],
                None => !self@.swarms.dom().contains(swarm_id@),
            },
    {
        self.swarms.get(swarm_id)
    }

    /// The coordinator of swarm `swarm_id`, if it has one.
    pub fn coordinator(&self, swarm_id: &str) -> (r: Option<&String>)
        requires
            self.wf(),
        ensures
            match r {
                Some(c) => self@.coordinators.dom().contains(swarm_id@) && c@ == self@.coordinators[swarm_id@],
                None => !self@.coordinators.dom().contains(swarm_id@),
            },
    {
        self.coordinators.get(swarm_id)
    }

    /// Swarms coordinated by session `old_id` are coordinated by `new_id`
    /// (after a resume renamed the session).
    pub fn coordinators_follow_rename(&mut self, old_id: &str, new_id: &str)
        requires
            old(self).wf(),
        ensures
            final(self).wf(),
            final(self)@ == (RosterView {
                coordinators: old(self)@.coordinators.map_values(
                    |c: Seq<char>| if c == old_id@ {
                        new_id@
                    } else {
                        c
                    },
                ),
                ..old(self)@
            }),
            consistent(old(self)@) ==> consistent(final(self)@),
    {
        let ghost v0 = self@;
        let ghost keys0 = self.coordinators.keys();
        proof {
            self.coordinators.lemma_keys();
            assert(forall|k: Seq<char>| v0.coordinators.dom().contains(k) <==> self.coordinators@.dom().contains(k));
        }
        let n = self.coordinators.len();
        let mut i: usize = 0;
        while i < n
            invariant
                i <= n,
                n == keys0.len(),
                keys0.no_duplicates(),
                forall|k: Seq<char>| v0.coordinators.dom().contains(k) <==> keys0.contains(k),
                self.wf(),
                self.coordinators.keys() == keys0,
                self@.coordinators.dom() == v0.coordinators.dom(),
                self@.members == v0.members,
                self@.swarms == v0.swarms,
                self@.plans == v0.plans,
                forall|j: int|
                    0 <= j < n ==> #[trigger] self@.coordinators[keys0[j]] == if j < i && v0.coordinators[keys0[j]] == old_id@ {
                        new_id@
                    } else {
                        v0.coordinators[keys0[j]]
                    },
            decreases n - i,
        {
            let ghost before = self.coordinators@;
            let ghost key = keys0[i as int];
            assert(keys0.contains(key));
            assert(self@.coordinators.dom().contains(key));
            assert(self@.coordinators[keys0[i as int]] == v0.coordinators[key]);
            let c = self.coordinators.value_at(i);
            assert(self@.coordinators[key] == c@);
            assert(c@ == v0.coordinators[key]);
            if str_eq(c.as_str(), old_id) {
                let replacement = new_id.to_owned();
                self.coordinators.set_value_at(i, replacement);
                proof {
                    lemma_coordinators_insert(before, key, replacement);
                    assert forall|j: int| 0 <= j < n implies #[trigger] self@.coordinators[keys0[j]] == if j < i + 1 && v0.coordinators[keys0[j]] == old_id@ {
                        new_id@
                    } else {
                        v0.coordinators[keys0[j]]
                    } by {
                        if j != i {
                            assert(keys0[j] != key);
                        }
                    }
                    assert(self@.coordinators.dom() =~= v0.coordinators.dom());
                }
            }
            i += 1;
        }
        proof {
            let f = |c: Seq<char>| if c == old_id@ {
                new_id@
            } else {
                c
            };
            assert forall|k: Seq<char>| #[trigger] self@.coordinators.dom().contains(k) implies self@.coordinators[k]
                == f(v0.coordinators[k]) by {
                assert(keys0.contains(k));
                let j = choose|j: int| 0 <= j < keys0.len() && keys0[j] == k;
                assert(self@.coordinators[keys0[j]] == f(v0.coordinators[keys0[j]]));
            }
            assert(self@.coordinators =~= v0.coordinators.map_values(f));
        }
    }

    /// Prepares delivering an event to session `session_id`: connections in
    /// `closed` are detached from its member, and the connections left are
    /// returned (an empty list means the session's primary channel is the
    /// only target). `None` when the session has no member.
    pub fn fanout_connections(&mut self, session_id: &str, closed: &[String]) -> (r: Option<Vec<String>>)
        requires
            old(self).wf(),
        ensures
            final(self).wf(),
            match r {
                Some(targets) => {
                    let m = old(self)@.members[session_id@];
                    let left = m.connections.difference(text_set(closed@));
                    &&& old(self)@.members.dom().contains(session_id@)
                    &&& text_set(targets@) == left
                    &&& final(self)@ == (RosterView {
                        members: old(self)@.members.insert(
                            session_id@,
                            MemberView { connections: left, ..m },
                        ),
                        ..old(self)@
                    })
                },
                None => !old(self)@.members.dom().contains(session_id@) && final(self)@ == old(
                    self,
                )@,
            },
            consistent(old(self)@) ==> consistent(final(self)@),
    {
        let ghost m0 = self.members@;
        match self.members.remove(session_id) {
            Some(mut m) => {
                text_set_remove_all(&mut m.connections, closed);
                let targets = text_set_copy(m.connections.as_slice());
                proof {
                    lemma_members_remove(m0, session_id@);
                }
                self.members.insert(session_id, m);
                proof {
                    lemma_members_insert(m0.remove(session_id@), session_id@, m);
                    assert(members_view(m0.remove(session_id@).insert(session_id@, m)) =~= members_view(m0).insert(session_id@, m@));
                }
                Some(targets)
            },
            None => {
                assert(m0.remove(session_id@) =~= m0);
                None
            },
        }
    }
}

} // verus!
