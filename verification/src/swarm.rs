//! Swarm coordination records: file accesses by agents, shared context and
//! swarm events, and the latest modification each peer made.

use vstd::prelude::*;
use crate::text::opt_text;
use crate::text::{chars_of, str_eq};

verus! {

/// What an agent did to a file.
#[derive(Clone, Copy, Debug)]
pub enum FileOp {
    Read,
    Write,
    Edit,
}

impl FileOp {
    /// Writes and edits modify the file; reads do not.
    pub open spec fn modifies(self) -> bool {
        !(self is Read)
    }

    /// Whether this operation modifies the file.
    pub fn is_modification(&self) -> (b: bool)
        ensures
            b == self.modifies(),
    {
        match self {
            FileOp::Read => false,
            _ => true,
        }
    }
}

/// Record of a file access by an agent. Times are counted in ticks of a
/// monotonic clock (`timestamp`) and in milliseconds since the Unix epoch
/// (`absolute_time`).
#[derive(Clone, Debug)]
pub struct FileAccess {
    pub session_id: String,
    pub op: FileOp,
    pub timestamp: u64,
    pub absolute_time: u64,
    pub intent: Option<String>,
    pub summary: Option<String>,
    pub detail: Option<String>,
}

/// `a` and `b` record the same access (same text in every field).
pub open spec fn same_access(a: FileAccess, b: FileAccess) -> bool {
    &&& a.session_id@ == b.session_id@
    &&& a.op == b.op
    &&& a.timestamp == b.timestamp
    &&& a.absolute_time == b.absolute_time
    &&& opt_text(a.intent) == opt_text(b.intent)
    &&& opt_text(a.summary) == opt_text(b.summary)
    &&& opt_text(a.detail) == opt_text(b.detail)
}

fn copy_opt(o: &Option<String>) -> (r: Option<String>)
    ensures
        opt_text(r) == opt_text(*o),
{
    match o {
        Some(s) => Some(s.clone()),
        None => None,
    }
}

impl FileAccess {
    /// A copy of this record.
    pub fn duplicate(&self) -> (r: FileAccess)
        ensures
            same_access(r, *self),
    {
        FileAccess {
            session_id: self.session_id.clone(),
            op: self.op,
            timestamp: self.timestamp,
            absolute_time: self.absolute_time,
            intent: copy_opt(&self.intent),
            summary: copy_opt(&self.summary),
            detail: copy_opt(&self.detail),
        }
    }
}

/// Lexicographic order of texts by code point (the byte order of their
/// UTF-8 encodings, which is how strings compare).
pub open spec fn text_lt(a: Seq<char>, b: Seq<char>) -> bool
    decreases a.len(),
{
    if a.len() == 0 {
        b.len() > 0
    } else if b.len() == 0 {
        false
    } else if a[0] != b[0] {
        (a[0] as u32) < (b[0] as u32)
    } else {
        text_lt(a.drop_first(), b.drop_first())
    }
}

pub proof fn lemma_text_lt_irreflexive(a: Seq<char>)
    ensures
        !text_lt(a, a),
    decreases a.len(),
{
    if a.len() > 0 {
        lemma_text_lt_irreflexive(a.drop_first());
    }
}

pub proof fn lemma_text_lt_total(a: Seq<char>, b: Seq<char>)
    ensures
        a != b ==> text_lt(a, b) || text_lt(b, a),
        !(text_lt(a, b) && text_lt(b, a)),
    decreases a.len(),
{
    if a.len() > 0 && b.len() > 0 {
        if a[0] == b[0] {
            lemma_text_lt_total(a.drop_first(), b.drop_first());
            if a.drop_first() == b.drop_first() {
                assert(a =~= seq![a[0]] + a.drop_first());
                assert(b =~= seq![b[0]] + b.drop_first());
            }
        } else {
            vstd::utf8::char_u32_cast(a[0], a[0] as u32);
            vstd::utf8::char_u32_cast(b[0], b[0] as u32);
        }
    } else if a.len() == 0 && b.len() == 0 {
        assert(a =~= b);
    }
}

pub proof fn lemma_text_lt_transitive(a: Seq<char>, b: Seq<char>, c: Seq<char>)
    requires
        text_lt(a, b),
        text_lt(b, c),
    ensures
        text_lt(a, c),
    decreases a.len(),
{
    if a.len() > 0 && b.len() > 0 && c.len() > 0 {
        if a[0] == b[0] && b[0] == c[0] {
            lemma_text_lt_transitive(a.drop_first(), b.drop_first(), c.drop_first());
        }
    }
}

/// Whether `a` comes before `b` (see `text_lt`).
pub fn text_less(a: &[char], b: &[char]) -> (r: bool)
    ensures
        r == text_lt(a@, b@),
{
    let mut i: usize = 0;
    assert(a@.skip(0) == a@);
    assert(b@.skip(0) == b@);
    while i < a.len() && i < b.len() && a[i] == b[i]
        invariant
            i <= a.len(),
            i <= b.len(),
            text_lt(a@, b@) == text_lt(a@.skip(i as int), b@.skip(i as int)),
        decreases a.len() - i,
    {
        assert(a@.skip(i as int).drop_first() == a@.skip(i + 1));
        assert(b@.skip(i as int).drop_first() == b@.skip(i + 1));
        i += 1;
    }
    if i == a.len() {
        i < b.len()
    } else if i == b.len() {
        false
    } else {
        (a[i] as u32) < (b[i] as u32)
    }
}

/// A modification by a swarm peer: another session of the swarm that
/// wrote or edited a file.
pub open spec fn is_peer_change(a: FileAccess, current: Seq<char>, swarm: Seq<Seq<char>>) -> bool {
    &&& a.session_id@ != current
    &&& swarm.contains(a.session_id@)
    &&& a.op.modifies()
}

/// `s[i]` is, among the first `n` accesses, the latest peer change of its
/// session (the earliest such record when several share that time).
pub open spec fn is_latest_in(
    s: Seq<FileAccess>,
    n: int,
    current: Seq<char>,
    swarm: Seq<Seq<char>>,
    i: int,
) -> bool {
    &&& 0 <= i < n
    &&& is_peer_change(s[i], current, swarm)
    &&& forall|j: int|
        #![trigger is_peer_change(s[j], current, swarm)]
        0 <= j < n && is_peer_change(s[j], current, swarm) && s[j].session_id@ == s[i].session_id@
            ==> s[j].timestamp <= s[i].timestamp && (s[j].timestamp == s[i].timestamp ==> i <= j)
}

/// Some listed access belongs to session `key`.
#[verifier::opaque]
pub open spec fn session_listed(s: Seq<FileAccess>, idx: Seq<int>, key: Seq<char>) -> bool {
    exists|k: int| 0 <= k < idx.len() && s[idx[k]].session_id@ == key
}

/// `idx` lists, ordered by session id, the latest peer change of every
/// peer session among the first `n` accesses.
pub open spec fn latest_touches(
    s: Seq<FileAccess>,
    n: int,
    current: Seq<char>,
    swarm: Seq<Seq<char>>,
    idx: Seq<int>,
) -> bool {
    &&& forall|k: int| 0 <= k < idx.len() ==> is_latest_in(s, n, current, swarm, #[trigger] idx[k])
    &&& forall|j: int|
        #![trigger is_peer_change(s[j], current, swarm)]
        0 <= j < n && is_peer_change(s[j], current, swarm) ==> session_listed(
            s,
            idx,
            s[j].session_id@,
        )
    &&& forall|k1: int, k2: int|
        0 <= k1 < k2 < idx.len() ==> text_lt(
            s[#[trigger] idx[k1]].session_id@,
            s[#[trigger] idx[k2]].session_id@,
        )
}

pub open spec fn texts_of(v: Seq<String>) -> Seq<Seq<char>> {
    v.map_values(|s: String| s@)
}

pub open spec fn as_ints(v: Seq<usize>) -> Seq<int> {
    v.map_values(|x: usize| x as int)
}

fn contains_text(set: &[String], x: &str) -> (b: bool)
    ensures
        b == texts_of(set@).contains(x@),
{
    let mut i: usize = 0;
    while i < set.len()
        invariant
            i <= set.len(),
            forall|k: int| 0 <= k < i ==> set@[k]@ != x@,
        decreases set.len() - i,
    {
        if str_eq(set[i].as_str(), x) {
            assert(texts_of(set@)[i as int] == x@);
            return true;
        }
        i += 1;
    }
    proof {
        if texts_of(set@).contains(x@) {
            let k = choose|k: int| 0 <= k < texts_of(set@).len() && texts_of(set@)[k] == x@;
            assert(set@[k]@ == x@);
        }
    }
    false
}

/// The latest file modification of each peer: for every other session of
/// the swarm (`swarm_session_ids`) that wrote or edited a file, its latest
/// such access (the first recorded when several share that time), ordered
/// by session id.
pub fn latest_peer_touches(
    accesses: &[FileAccess],
    current_session_id: &str,
    swarm_session_ids: &[String],
) -> (r: Vec<FileAccess>)
    ensures
        exists|idx: Seq<int>|
            {
                &&& latest_touches(
                    accesses@,
                    accesses@.len() as int,
                    current_session_id@,
                    texts_of(swarm_session_ids@),
                    idx,
                )
                &&& idx.len() == r@.len()
                &&& forall|k: int|
                    0 <= k < idx.len() ==> same_access(#[trigger] r@[k], accesses@[idx[k]])
            },
{
    let ghost s = accesses@;
    let ghost cur = current_session_id@;
    let ghost swarm = texts_of(swarm_session_ids@);
    let mut out: Vec<usize> = Vec::new();
    let mut i: usize = 0;
    assert(as_ints(out@) =~= Seq::<int>::empty());
    while i < accesses.len()
        invariant
            i <= accesses@.len(),
            s == accesses@,
            cur == current_session_id@,
            swarm == texts_of(swarm_session_ids@),
            forall|k: int| 0 <= k < out@.len() ==> (#[trigger] out@[k]) < i,
            latest_touches(s, i as int, cur, swarm, as_ints(out@)),
        decreases accesses@.len() - i,
    {
        let ghost idx0 = as_ints(out@);
        let a = &accesses[i];
        let peer = !str_eq(a.session_id.as_str(), current_session_id) && contains_text(
            swarm_session_ids,
            a.session_id.as_str(),
        ) && a.op.is_modification();
        assert(peer == is_peer_change(s[i as int], cur, swarm));
        if !peer {
            proof {
                lemma_extend_non_peer(s, i as int, cur, swarm, idx0);
            }
        } else {
            let key = chars_of(a.session_id.as_str());
            let mut p: usize = 0;
            while p < out.len() && text_less(
                &chars_of(accesses[out[p]].session_id.as_str()),
                &key,
            )
                invariant
                    p <= out@.len(),
                    key@ == s[i as int].session_id@,
                    s == accesses@,
                    forall|k: int| 0 <= k < out@.len() ==> (#[trigger] out@[k]) < s.len(),
                    forall|k: int|
                        0 <= k < p ==> text_lt(s[#[trigger] out@[k] as int].session_id@, key@),
                decreases out@.len() - p,
            {
                p += 1;
            }
            if p < out.len() && str_eq(accesses[out[p]].session_id.as_str(), a.session_id.as_str()) {
                let e = out[p];
                if a.timestamp > accesses[e].timestamp {
                    out.set(p, i);
                    proof {
                        lemma_replace_latest(s, i as int, cur, swarm, idx0, p as int);
                        assert(as_ints(out@) =~= idx0.update(p as int, i as int));
                    }
                } else {
                    proof {
                        lemma_keep_latest(s, i as int, cur, swarm, idx0, p as int);
                    }
                }
            } else {
                proof {
                    if p < out@.len() {
                        lemma_text_lt_total(s[out@[p as int] as int].session_id@, key@);
                    }
                    lemma_insert_new(s, i as int, cur, swarm, idx0, p as int);
                }
                out.insert(p, i);
                assert(as_ints(out@) =~= idx0.insert(p as int, i as int));
            }
        }
        i += 1;
    }
    let mut r: Vec<FileAccess> = Vec::new();
    let mut k: usize = 0;
    while k < out.len()
        invariant
            k <= out@.len(),
            s == accesses@,
            forall|m: int| 0 <= m < out@.len() ==> (#[trigger] out@[m]) < s.len(),
            r@.len() == k,
            forall|m: int| 0 <= m < k ==> same_access(#[trigger] r@[m], s[out@[m] as int]),
        decreases out@.len() - k,
    {
        r.push(accesses[out[k]].duplicate());
        k += 1;
    }
    assert(latest_touches(s, s.len() as int, cur, swarm, as_ints(out@)));
    assert(forall|m: int|
        0 <= m < as_ints(out@).len() ==> same_access(#[trigger] r@[m], s[as_ints(out@)[m]]));
    r
}

proof fn lemma_distinct_sessions(
    s: Seq<FileAccess>,
    n: int,
    current: Seq<char>,
    swarm: Seq<Seq<char>>,
    idx: Seq<int>,
    k1: int,
    k2: int,
)
    requires
        latest_touches(s, n, current, swarm, idx),
        0 <= k1 < idx.len(),
        0 <= k2 < idx.len(),
        k1 != k2,
    ensures
        s[idx[k1]].session_id@ != s[idx[k2]].session_id@,
{
    if k1 < k2 {
        assert(text_lt(s[idx[k1]].session_id@, s[idx[k2]].session_id@));
        lemma_text_lt_irreflexive(s[idx[k1]].session_id@);
    } else {
        assert(text_lt(s[idx[k2]].session_id@, s[idx[k1]].session_id@));
        lemma_text_lt_irreflexive(s[idx[k2]].session_id@);
    }
}

proof fn lemma_extend_non_peer(
    s: Seq<FileAccess>,
    i: int,
    current: Seq<char>,
    swarm: Seq<Seq<char>>,
    idx: Seq<int>,
)
    requires
        0 <= i < s.len(),
        !is_peer_change(s[i], current, swarm),
        latest_touches(s, i, current, swarm, idx),
    ensures
        latest_touches(s, i + 1, current, swarm, idx),
{
    assert forall|k: int| 0 <= k < idx.len() implies is_latest_in(
        s,
        i + 1,
        current,
        swarm,
        #[trigger] idx[k],
    ) by {
        assert(is_latest_in(s, i, current, swarm, idx[k]));
    }
}

proof fn lemma_keep_latest(
    s: Seq<FileAccess>,
    i: int,
    current: Seq<char>,
    swarm: Seq<Seq<char>>,
    idx: Seq<int>,
    p: int,
)
    requires
        0 <= i < s.len(),
        is_peer_change(s[i], current, swarm),
        latest_touches(s, i, current, swarm, idx),
        0 <= p < idx.len(),
        s[idx[p]].session_id@ == s[i].session_id@,
        s[i].timestamp <= s[idx[p]].timestamp,
    ensures
        latest_touches(s, i + 1, current, swarm, idx),
{
    assert forall|k: int| 0 <= k < idx.len() implies is_latest_in(
        s,
        i + 1,
        current,
        swarm,
        #[trigger] idx[k],
    ) by {
        assert(is_latest_in(s, i, current, swarm, idx[k]));
        if k != p {
            lemma_distinct_sessions(s, i, current, swarm, idx, k, p);
        }
    }
    assert forall|j: int|
        0 <= j < i + 1 && is_peer_change(#[trigger] s[j], current, swarm) implies session_listed(
        s,
        idx,
        s[j].session_id@,
    ) by {
        if j == i {
            reveal(session_listed);
            assert(s[idx[p]].session_id@ == s[j].session_id@);
        }
    }
}

proof fn lemma_replace_latest(
    s: Seq<FileAccess>,
    i: int,
    current: Seq<char>,
    swarm: Seq<Seq<char>>,
    idx: Seq<int>,
    p: int,
)
    requires
        0 <= i < s.len(),
        is_peer_change(s[i], current, swarm),
        latest_touches(s, i, current, swarm, idx),
        0 <= p < idx.len(),
        s[idx[p]].session_id@ == s[i].session_id@,
        s[i].timestamp > s[idx[p]].timestamp,
    ensures
        latest_touches(s, i + 1, current, swarm, idx.update(p, i)),
{
    let idx2 = idx.update(p, i);
    assert(is_latest_in(s, i, current, swarm, idx[p]));
    assert forall|k: int| 0 <= k < idx2.len() implies is_latest_in(
        s,
        i + 1,
        current,
        swarm,
        #[trigger] idx2[k],
    ) by {
        if k != p {
            assert(is_latest_in(s, i, current, swarm, idx[k]));
            lemma_distinct_sessions(s, i, current, swarm, idx, k, p);
        } else {
            assert forall|j: int|
                0 <= j < i + 1 && is_peer_change(#[trigger] s[j], current, swarm)
                    && s[j].session_id@ == s[i].session_id@ implies s[j].timestamp
                <= s[i].timestamp && (s[j].timestamp == s[i].timestamp ==> i <= j) by {
                if j < i {
                    assert(s[j].timestamp <= s[idx[p]].timestamp);
                }
            }
        }
    }
    assert forall|j: int|
        0 <= j < i + 1 && is_peer_change(#[trigger] s[j], current, swarm) implies session_listed(
        s,
        idx2,
        s[j].session_id@,
    ) by {
        reveal(session_listed);
        if j == i {
            assert(s[idx2[p]].session_id@ == s[j].session_id@);
        } else {
            assert(session_listed(s, idx, s[j].session_id@));
            let k = choose|k: int| 0 <= k < idx.len() && s[idx[k]].session_id@ == s[j].session_id@;
            if k == p {
                assert(s[idx2[p]].session_id@ == s[j].session_id@);
            } else {
                assert(idx2[k] == idx[k]);
            }
        }
    }
    assert forall|k1: int, k2: int| 0 <= k1 < k2 < idx2.len() implies text_lt(
        s[#[trigger] idx2[k1]].session_id@,
        s[#[trigger] idx2[k2]].session_id@,
    ) by {
        assert(text_lt(s[idx[k1]].session_id@, s[idx[k2]].session_id@));
    }
}

proof fn lemma_insert_new(
    s: Seq<FileAccess>,
    i: int,
    current: Seq<char>,
    swarm: Seq<Seq<char>>,
    idx: Seq<int>,
    p: int,
)
    requires
        0 <= i < s.len(),
        is_peer_change(s[i], current, swarm),
        latest_touches(s, i, current, swarm, idx),
        0 <= p <= idx.len(),
        forall|k: int| 0 <= k < idx.len() ==> 0 <= #[trigger] idx[k] < i,
        forall|k: int| 0 <= k < p ==> text_lt(s[#[trigger] idx[k]].session_id@, s[i].session_id@),
        p < idx.len() ==> text_lt(s[i].session_id@, s[idx[p]].session_id@),
    ensures
        latest_touches(s, i + 1, current, swarm, idx.insert(p, i)),
{
    let key = s[i].session_id@;
    let idx2 = idx.insert(p, i);
    // no earlier peer change of this session
    assert forall|j: int| 0 <= j < i && is_peer_change(#[trigger] s[j], current, swarm) implies s[j].session_id@
        != key by {
        reveal(session_listed);
        assert(session_listed(s, idx, s[j].session_id@));
        let k = choose|k: int| 0 <= k < idx.len() && s[idx[k]].session_id@ == s[j].session_id@;
        if s[j].session_id@ == key {
            if k < p {
                lemma_text_lt_irreflexive(key);
            } else {
                if k > p {
                    assert(text_lt(s[idx[p]].session_id@, s[idx[k]].session_id@));
                    lemma_text_lt_total(key, s[idx[p]].session_id@);
                } else {
                    lemma_text_lt_irreflexive(key);
                }
            }
        }
    }
    assert forall|k: int| 0 <= k < idx2.len() implies is_latest_in(
        s,
        i + 1,
        current,
        swarm,
        #[trigger] idx2[k],
    ) by {
        if k < p {
            assert(idx2[k] == idx[k]);
            assert(is_latest_in(s, i, current, swarm, idx[k]));
            lemma_text_lt_irreflexive(key);
        } else if k > p {
            assert(idx2[k] == idx[k - 1]);
            assert(is_latest_in(s, i, current, swarm, idx[k - 1]));
            assert(text_lt(key, s[idx[p]].session_id@));
            if k - 1 > p {
                assert(text_lt(s[idx[p]].session_id@, s[idx[k - 1]].session_id@));
                lemma_text_lt_transitive(key, s[idx[p]].session_id@, s[idx[k - 1]].session_id@);
            }
            lemma_text_lt_irreflexive(key);
        }
    }
    assert forall|j: int|
        0 <= j < i + 1 && is_peer_change(#[trigger] s[j], current, swarm) implies session_listed(
        s,
        idx2,
        s[j].session_id@,
    ) by {
        reveal(session_listed);
        if j == i {
            assert(idx2[p] == i);
        } else {
            assert(session_listed(s, idx, s[j].session_id@));
            let k = choose|k: int| 0 <= k < idx.len() && s[idx[k]].session_id@ == s[j].session_id@;
            if k < p {
                assert(idx2[k] == idx[k]);
            } else {
                assert(idx2[k + 1] == idx[k]);
            }
        }
    }
    assert forall|k1: int, k2: int| 0 <= k1 < k2 < idx2.len() implies text_lt(
        s[#[trigger] idx2[k1]].session_id@,
        s[#[trigger] idx2[k2]].session_id@,
    ) by {
        if k2 < p {
            assert(idx2[k1] == idx[k1] && idx2[k2] == idx[k2]);
        } else if k2 == p {
            assert(idx2[k1] == idx[k1]);
        } else if k1 > p {
            assert(idx2[k1] == idx[k1 - 1] && idx2[k2] == idx[k2 - 1]);
        } else if k1 == p {
            assert(idx2[k2] == idx[k2 - 1]);
            if k2 - 1 > p {
                assert(text_lt(s[idx[p]].session_id@, s[idx[k2 - 1]].session_id@));
                lemma_text_lt_transitive(key, s[idx[p]].session_id@, s[idx[k2 - 1]].session_id@);
            }
        } else {
            assert(idx2[k1] == idx[k1] && idx2[k2] == idx[k2 - 1]);
        }
    }
}

/// A shared context entry stored by the server. Times are monotonic-clock
/// ticks.
#[derive(Clone, Debug)]
pub struct SharedContext {
    pub key: String,
    pub value: String,
    pub from_session: String,
    pub from_name: Option<String>,
    /// When this context was created.
    pub created_at: u64,
    /// When this context was last updated.
    pub updated_at: u64,
}

/// Event types for real-time event subscription.
#[derive(Clone, Debug)]
pub enum SwarmEventType {
    /// A file was touched (read/write/edit).
    FileTouch {
        path: String,
        op: String,
        intent: Option<String>,
        summary: Option<String>,
        detail: Option<String>,
    },
    /// A notification was broadcast.
    Notification { notification_type: String, message: String },
    /// A swarm plan was updated.
    PlanUpdate { swarm_id: String, item_count: usize },
    /// A plan proposal was submitted.
    PlanProposal { swarm_id: String, proposer_session: String, item_count: usize },
    /// Shared context was updated.
    ContextUpdate { swarm_id: String, key: String },
    /// Session status changed.
    StatusChange { old_status: String, new_status: String },
    /// Session joined or left the swarm (`joined` or `left`).
    MemberChange { action: String },
}

/// A swarm event with metadata. `timestamp` is monotonic-clock ticks,
/// `absolute_time` milliseconds since the Unix epoch.
#[derive(Clone, Debug)]
pub struct SwarmEvent {
    pub id: u64,
    pub session_id: String,
    pub session_name: Option<String>,
    pub swarm_id: Option<String>,
    pub event: SwarmEventType,
    pub timestamp: u64,
    pub absolute_time: u64,
}

/// Most swarm events kept in the recent-event history.
pub const MAX_EVENT_HISTORY: usize = 5000;

} // verus!
