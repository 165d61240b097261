//! Terminal sessions: id allocation and per-session working directory,
//! start-directory resolution, and the user input log.

use vstd::prelude::*;
use crate::history::{newest_first, take_newest};
use crate::text::{opt_str, opt_text};
use crate::text::{is_blank, is_blank_str, trim_nonblank, trimmed_nonblank};
use crate::text::{chars_of, lines_chars, lines_of, str_eq, string_of};

verus! {

/// Most input-log records handed to the interface.
pub const MAX_INPUT_LOG_ENTRIES: usize = 2000;

/// One recorded command of the input log.
#[derive(Clone, Debug)]
pub struct InputLogEntry {
    pub time: String,
    pub id: u32,
    pub content: String,
    /// Working directory of the terminal, for display.
    pub cwd: Option<String>,
}

/// The input log as read back: the log file's path and its records,
/// newest first.
#[derive(Debug)]
pub struct InputLogData {
    pub path: String,
    pub entries: Vec<InputLogEntry>,
}

/// The session id stored in a log record, as the 32-bit id it was written
/// from (wider values keep their low 32 bits).
pub fn input_log_id(raw: u64) -> (id: u32)
    ensures
        id as int == raw as int % 0x1_0000_0000,
{
    let id = raw as u32;
    assert(id == raw % 0x1_0000_0000) by (bit_vector)
        requires
            id == raw as u32,
    ;
    id
}

/// Builds the input-log answer from the log's parsed records in file order:
/// newest first, at most `MAX_INPUT_LOG_ENTRIES` of them.
pub fn input_log_data(path: String, parsed: Vec<InputLogEntry>) -> (r: InputLogData)
    ensures
        r.path@ == path@,
        r.entries@ == newest_first(parsed@, MAX_INPUT_LOG_ENTRIES as nat),
{
    InputLogData { path, entries: take_newest(parsed, MAX_INPUT_LOG_ENTRIES) }
}

/// Abstract state of the session table.
pub struct RegistryView {
    /// The id the next session will get.
    pub next_id: u32,
    /// Open sessions and their working directories.
    pub sessions: Map<u32, Seq<char>>,
}

/// The open terminal sessions, keyed by id, with their working
/// directories. Ids are handed out in increasing order starting at 1.
pub struct SessionRegistry {
    next_id: u32,
    slots: Vec<Option<String>>,
}

impl View for SessionRegistry {
    type V = RegistryView;

    closed spec fn view(&self) -> RegistryView {
        RegistryView {
            next_id: self.next_id,
            sessions: Map::new(
                |k: u32| 1 <= k <= self.slots@.len() && self.slots@[k - 1] is Some,
                |k: u32| opt_text(self.slots@[k - 1]).unwrap(),
            ),
        }
    }
}

impl SessionRegistry {
    /// Internal consistency: every id below `next_id` has a slot.
    pub closed spec fn wf(&self) -> bool {
        self.next_id as int == self.slots@.len() + 1
    }

    /// Every open session has an id below the next one.
    pub proof fn lemma_ids_below_next(&self, id: u32)
        requires
            self.wf(),
            self@.sessions.dom().contains(id),
        ensures
            1 <= id < self@.next_id,
    {
    }

    /// An empty table whose first session will get id 1.
    pub fn new() -> (r: Self)
        ensures
            r.wf(),
            r@.next_id == 1,
            r@.sessions == Map::<u32, Seq<char>>::empty(),
    {
        let r = SessionRegistry { next_id: 1, slots: Vec::new() };
        assert(r@.sessions =~= Map::<u32, Seq<char>>::empty());
        r
    }

    /// Whether another id can be handed out.
    pub fn can_open(&self) -> (b: bool)
        ensures
            b == (self@.next_id < u32::MAX),
    {
        self.next_id < u32::MAX
    }

    /// Registers a new session started in `cwd` and returns its id.
    pub fn open(&mut self, cwd: String) -> (id: u32)
        requires
            old(self).wf(),
            old(self)@.next_id < u32::MAX,
        ensures
            final(self).wf(),
            id == old(self)@.next_id,
            !old(self)@.sessions.dom().contains(id),
            final(self)@.next_id == old(self)@.next_id + 1,
            final(self)@.sessions == old(self)@.sessions.insert(id, cwd@),
    {
        let ghost before = self@;
        let id = self.next_id;
        self.slots.push(Some(cwd));
        self.next_id = self.next_id + 1;
        assert(self@.sessions =~= before.sessions.insert(id, cwd@));
        id
    }

    /// Whether session `id` is open.
    pub fn contains(&self, id: u32) -> (b: bool)
        requires
            self.wf(),
        ensures
            b == self@.sessions.dom().contains(id),
    {
        id >= 1 && (id as usize) <= self.slots.len() && self.slots[(id - 1) as usize].is_some()
    }

    /// The working directory of session `id`, if it is open.
    pub fn cwd(&self, id: u32) -> (r: Option<String>)
        requires
            self.wf(),
        ensures
            match r {
                Some(c) => self@.sessions.dom().contains(id) && self@.sessions[id] == c@,
                None => !self@.sessions.dom().contains(id),
            },
    {
        if id >= 1 && (id as usize) <= self.slots.len() {
            match &self.slots[(id - 1) as usize] {
                Some(c) => Some(c.clone()),
                None => None,
            }
        } else {
            None
        }
    }

    /// Records a new working directory for session `id`; nothing happens
    /// when it is not open. Returns whether it was.
    pub fn set_cwd(&mut self, id: u32, cwd: String) -> (found: bool)
        requires
            old(self).wf(),
        ensures
            final(self).wf(),
            found == old(self)@.sessions.dom().contains(id),
            final(self)@.next_id == old(self)@.next_id,
            final(self)@.sessions == if found {
                old(self)@.sessions.insert(id, cwd@)
            } else {
                old(self)@.sessions
            },
    {
        let ghost before = self@;
        if id >= 1 && (id as usize) <= self.slots.len() && self.slots[(id - 1) as usize].is_some() {
            self.slots.set((id - 1) as usize, Some(cwd));
            assert(self@.sessions =~= before.sessions.insert(id, cwd@));
            true
        } else {
            assert(self@.sessions =~= before.sessions);
            false
        }
    }

    /// Forgets session `id`. Returns whether it was open.
    pub fn close(&mut self, id: u32) -> (found: bool)
        requires
            old(self).wf(),
        ensures
            final(self).wf(),
            found == old(self)@.sessions.dom().contains(id),
            final(self)@.next_id == old(self)@.next_id,
            final(self)@.sessions == old(self)@.sessions.remove(id),
    {
        let ghost before = self@;
        if id >= 1 && (id as usize) <= self.slots.len() && self.slots[(id - 1) as usize].is_some() {
            self.slots.set((id - 1) as usize, None);
            assert(self@.sessions =~= before.sessions.remove(id));
            true
        } else {
            assert(self@.sessions =~= before.sessions.remove(id));
            false
        }
    }
}

/// The trimmed start directory a caller asked for, if not empty; it is used
/// only when it names an existing directory.
pub fn cwd_candidate(cwd: Option<&str>) -> (r: Option<String>)
    ensures
        opt_text(r) == trimmed_nonblank(opt_str(cwd)),
{
    trim_nonblank(cwd)
}

/// Chooses a terminal's start directory: the requested one when it is an
/// existing directory, otherwise the default.
pub fn resolve_cwd(candidate: Option<String>, candidate_is_dir: bool, fallback: String) -> (r:
    String)
    ensures
        r@ == match candidate {
            Some(c) => if candidate_is_dir {
                c@
            } else {
                fallback@
            },
            None => fallback@,
        },
{
    match candidate {
        Some(c) => if candidate_is_dir {
            c
        } else {
            fallback
        },
        None => fallback,
    }
}

/// The configured default directory, unless it is blank.
pub fn configured_default_dir(default_path: Option<&str>) -> (r: Option<String>)
    ensures
        opt_text(r) == match opt_str(default_path) {
            Some(p) => if is_blank(p) {
                None
            } else {
                Some(p)
            },
            None => None,
        },
{
    match default_path {
        Some(p) => if is_blank_str(p) {
            None
        } else {
            Some(p.to_owned())
        },
        None => None,
    }
}

/// The user's home directory: `USERPROFILE`, else `HOME`.
pub fn home_dir(userprofile: Option<&str>, home: Option<&str>) -> (r: Option<String>)
    ensures
        opt_text(r) == match opt_str(userprofile) {
            Some(u) => Some(u),
            None => opt_str(home),
        },
{
    match userprofile {
        Some(u) => Some(u.to_owned()),
        None => match home {
            Some(h) => Some(h.to_owned()),
            None => None,
        },
    }
}

/// The default start directory: the configured default when it is an
/// existing directory, otherwise the home directory, otherwise the process'
/// current directory.
pub fn default_cwd(
    configured: Option<String>,
    configured_is_dir: bool,
    home: Option<String>,
    current_dir: String,
) -> (r: String)
    ensures
        r@ == match configured {
            Some(c) if configured_is_dir => c@,
            _ => match home {
                Some(h) => h@,
                None => current_dir@,
            },
        },
{
    match configured {
        Some(c) if configured_is_dir => c,
        _ => match home {
            Some(h) => h,
            None => current_dir,
        },
    }
}

/// The shell a new terminal runs: `powershell.exe` on Windows; elsewhere
/// `$SHELL`, or `sh` when it is unset.
pub fn default_shell(windows: bool, shell_var: Option<&str>) -> (r: String)
    ensures
        r@ == if windows {
            "powershell.exe"@
        } else {
            match opt_str(shell_var) {
                Some(s) => s,
                None => "sh"@,
            }
        },
{
    if windows {
        String::from_str("powershell.exe")
    } else {
        match shell_var {
            Some(s) => s.to_owned(),
            None => String::from_str("sh"),
        }
    }
}



/// A JSON value as serde_json reads it (numbers as an unsigned integer
/// where they are one).
pub enum JsonValue {
    Null,
    Bool(bool),
    Number(Option<u64>),
    Str(String),
    Array(Vec<JsonValue>),
    Object(Vec<(String, JsonValue)>),
}

/// Abstract value of a JSON value.
pub enum JsonView {
    Null,
    Bool(bool),
    Number(Option<u64>),
    Str(Seq<char>),
    Array(Seq<JsonView>),
    Object(Seq<(Seq<char>, JsonView)>),
}

/// The abstract value of `v`.
pub open spec fn json_view(v: JsonValue) -> JsonView
    decreases v,
{
    match v {
        JsonValue::Null => JsonView::Null,
        JsonValue::Bool(b) => JsonView::Bool(b),
        JsonValue::Number(n) => JsonView::Number(n),
        JsonValue::Str(s) => JsonView::Str(s@),
        JsonValue::Array(a) => JsonView::Array(
            Seq::new(
                a@.len(),
                |i: int|
                    if 0 <= i < a@.len() {
                        proof {
                            broadcast use vstd::std_specs::vec::axiom_vec_decreases_to_view;

                            assert(decreases_to!(a => a@));
                        }
                        json_view(a@[i])
                    } else {
                        JsonView::Null
                    },
            ),
        ),
        JsonValue::Object(o) => JsonView::Object(
            Seq::new(
                o@.len(),
                |i: int|
                    if 0 <= i < o@.len() {
                        proof {
                            broadcast use vstd::std_specs::vec::axiom_vec_decreases_to_view;

                            assert(decreases_to!(o => o@));
                        }
                        (o@[i].0@, json_view(o@[i].1))
                    } else {
                        (Seq::empty(), JsonView::Null)
                    },
            ),
        ),
    }
}

/// The abstract value of an optional JSON value.
pub open spec fn json_opt_view(v: Option<JsonValue>) -> Option<JsonView> {
    match v {
        Some(x) => Some(json_view(x)),
        None => None,
    }
}

/// What `serde_json::from_str::<serde_json::Value>` gives for `line`
/// (`None` when it is not JSON).
pub uninterp spec fn json_parsed(line: Seq<char>) -> Option<JsonView>;

#[verifier::external_type_specification]
#[verifier::external_body]
pub struct ExSerdeJsonValue(serde_json::Value);

/// Converts a `serde_json::Value` into a `JsonValue`, variant by variant
/// (numbers through `serde_json::Number::as_u64`).
///
/// Trusted, with nothing stated: it only moves the value over; what it
/// gives is stated by `parse_json_line`.
#[verifier::external_body]
fn json_from_value(v: serde_json::Value) -> JsonValue {
    match v {
        serde_json::Value::Null => JsonValue::Null,
        serde_json::Value::Bool(b) => JsonValue::Bool(b),
        serde_json::Value::Number(n) => JsonValue::Number(n.as_u64()),
        serde_json::Value::String(s) => JsonValue::Str(s),
        serde_json::Value::Array(a) => JsonValue::Array(a.into_iter().map(json_from_value).collect()),
        serde_json::Value::Object(o) => JsonValue::Object(
            o.into_iter().map(|(k, x)| (k, json_from_value(x))).collect(),
        ),
    }
}

/// `serde_json::from_str::<serde_json::Value>(line)`, as a `JsonValue`.
///
/// Trusted: the result is `json_parsed` of the text.
#[verifier::external_body]
fn parse_json_line(line: &str) -> (r: Option<JsonValue>)
    ensures
        json_opt_view(r) == json_parsed(line@),
{
    serde_json::from_str::<serde_json::Value>(line).ok().map(json_from_value)
}

/// The value of the first member named `key` of an object's members.
pub open spec fn member(o: Seq<(Seq<char>, JsonView)>, key: Seq<char>) -> Option<JsonView>
    decreases o.len(),
{
    if o.len() == 0 {
        None
    } else if o[0].0 == key {
        Some(o[0].1)
    } else {
        member(o.drop_first(), key)
    }
}

/// The member `key` of `v`, when `v` is an object that has one.
pub open spec fn json_get(v: JsonView, key: Seq<char>) -> Option<JsonView> {
    match v {
        JsonView::Object(o) => member(o, key),
        _ => None,
    }
}

/// The text of a JSON string.
pub open spec fn json_text(v: Option<JsonView>) -> Option<Seq<char>> {
    match v {
        Some(JsonView::Str(s)) => Some(s),
        _ => None,
    }
}

/// The value of a JSON number that is an unsigned integer.
pub open spec fn json_u64(v: Option<JsonView>) -> Option<u64> {
    match v {
        Some(JsonView::Number(Some(n))) => Some(n),
        _ => None,
    }
}

/// Abstract value of an input-log record.
pub struct LogRecordView {
    pub time: Seq<char>,
    pub id: u32,
    pub content: Seq<char>,
    pub cwd: Option<Seq<char>>,
}

/// The abstract value of a record.
pub open spec fn record_view(e: InputLogEntry) -> LogRecordView {
    LogRecordView { time: e.time@, id: e.id, content: e.content@, cwd: opt_text(e.cwd) }
}

/// The abstract values of records.
pub open spec fn record_views(s: Seq<InputLogEntry>) -> Seq<LogRecordView> {
    s.map_values(|e: InputLogEntry| record_view(e))
}

/// The record a log line holds: a JSON object with a string `time`, an
/// unsigned integer `id` (kept to its low 32 bits) and a string `content`,
/// and `cwd` when it is a string. Any other line holds none.
pub open spec fn log_record(line: Seq<char>) -> Option<LogRecordView> {
    match json_parsed(line) {
        Some(v) => match (
            json_text(json_get(v, "time"@)),
            json_u64(json_get(v, "id"@)),
            json_text(json_get(v, "content"@)),
        ) {
            (Some(t), Some(i), Some(c)) => Some(
                LogRecordView {
                    time: t,
                    id: (i as int % 0x1_0000_0000) as u32,
                    content: c,
                    cwd: json_text(json_get(v, "cwd"@)),
                },
            ),
            _ => None,
        },
        None => None,
    }
}

/// The records of the log's lines, in file order; lines holding none are
/// skipped.
pub open spec fn log_records(lines: Seq<Seq<char>>) -> Seq<LogRecordView>
    decreases lines.len(),
{
    if lines.len() == 0 {
        Seq::empty()
    } else {
        let r = log_records(lines.drop_last());
        match log_record(lines.last()) {
            Some(x) => r.push(x),
            None => r,
        }
    }
}

/// The member `key` of `v`, when `v` is an object that has one.
fn json_member<'a>(v: &'a JsonValue, key: &str) -> (r: Option<&'a JsonValue>)
    ensures
        json_opt_view(
            match r {
                Some(x) => Some(*x),
                None => None,
            },
        ) == json_get(json_view(*v), key@),
{
    match v {
        JsonValue::Object(o) => {
            let ghost ov = match json_view(*v) {
                JsonView::Object(m) => m,
                _ => Seq::empty(),
            };
            assert(ov.len() == o@.len());
            assert(json_view(*v) == JsonView::Object(ov));
            let mut i: usize = 0;
            assert(ov.skip(0) =~= ov);
            while i < o.len()
                invariant
                    i <= o@.len(),
                    ov.len() == o@.len(),
                    json_view(*v) == JsonView::Object(ov),
                    forall|j: int| 0 <= j < o@.len() ==> #[trigger] ov[j] == (o@[j].0@, json_view(o@[j].1)),
                    member(ov, key@) == member(ov.skip(i as int), key@),
                decreases o@.len() - i,
            {
                assert(ov.skip(i as int)[0] == ov[i as int]);
                assert(ov.skip(i as int).drop_first() =~= ov.skip(i + 1));
                assert(ov[i as int] == (o@[i as int].0@, json_view(o@[i as int].1)));
                if str_eq(o[i].0.as_str(), key) {
                    assert(member(ov.skip(i as int), key@) == Some(json_view(o@[i as int].1)));
                    return Some(&o[i].1);
                }
                i += 1;
            }
            assert(ov.skip(i as int).len() == 0);
            None
        },
        _ => None,
    }
}

fn json_text_of(v: Option<&JsonValue>) -> (r: Option<String>)
    ensures
        opt_text(r) == json_text(json_opt_view(
            match v {
                Some(x) => Some(*x),
                None => None,
            },
        )),
{
    match v {
        Some(JsonValue::Str(s)) => Some(s.clone()),
        _ => None,
    }
}

fn json_u64_of(v: Option<&JsonValue>) -> (r: Option<u64>)
    ensures
        r == json_u64(json_opt_view(
            match v {
                Some(x) => Some(*x),
                None => None,
            },
        )),
{
    match v {
        Some(JsonValue::Number(n)) => *n,
        _ => None,
    }
}

/// The record a log line holds, if any (see `log_record`).
pub fn parse_input_log_line(line: &str) -> (r: Option<InputLogEntry>)
    ensures
        match r {
            Some(e) => log_record(line@) == Some(record_view(e)),
            None => log_record(line@) is None,
        },
{
    proof {
        reveal_strlit("time");
        reveal_strlit("id");
        reveal_strlit("content");
        reveal_strlit("cwd");
    }
    let v = match parse_json_line(line) {
        Some(v) => v,
        None => return None,
    };
    let time = json_text_of(json_member(&v, "time"));
    let id = json_u64_of(json_member(&v, "id"));
    let content = json_text_of(json_member(&v, "content"));
    let cwd = json_text_of(json_member(&v, "cwd"));
    match (time, id, content) {
        (Some(t), Some(i), Some(c)) => Some(InputLogEntry { time: t, id: input_log_id(i), content: c, cwd }),
        _ => None,
    }
}

/// The records of an input log's text, in file order (lines as
/// `str::lines` splits them; lines holding no record are skipped).
pub fn parse_input_log(text: &str) -> (r: Vec<InputLogEntry>)
    ensures
        record_views(r@) == log_records(lines_of(text@)),
{
    let lines = lines_chars(&chars_of(text));
    let ghost ls = lines_of(text@);
    let mut out: Vec<InputLogEntry> = Vec::new();
    let mut k: usize = 0;
    while k < lines.len()
        invariant
            k <= lines@.len(),
            lines@.len() == ls.len(),
            forall|j: int| 0 <= j < lines@.len() ==> (#[trigger] lines@[j])@ == ls[j],
            record_views(out@) == log_records(ls.take(k as int)),
        decreases lines@.len() - k,
    {
        let line = string_of(lines[k].as_slice());
        let rec = parse_input_log_line(line.as_str());
        proof {
            assert(ls.take(k + 1).drop_last() =~= ls.take(k as int));
            assert(ls.take(k + 1).last() == ls[k as int]);
        }
        match rec {
            Some(e) => {
                out.push(e);
                assert(record_views(out@) =~= log_records(ls.take(k as int)).push(record_view(e)));
            },
            None => {},
        }
        k += 1;
    }
    assert(ls.take(lines@.len() as int) =~= ls);
    out
}

} // verus!
