//! Command history: the app's own JSONL history and PSReadLine's plain
//! history file, both presented newest first.

use vstd::prelude::*;
use crate::text::{
    opt_str, opt_text, chars_of, is_blank, is_blank_chars, is_blank_str, lines_chars, lines_of, string_of, sub_chars,
    trim_end_char, trim_end_char_len,
};

verus! {

/// Most history entries handed to the interface.
pub const MAX_ENTRIES: usize = 2000;

/// One remembered command, with its time when known.
#[derive(Clone, Debug)]
pub struct HistoryEntry {
    pub time: Option<String>,
    pub command: String,
}

/// History as shown to the interface: where it came from (`oops`,
/// `psreadline` or `none`), how many entries exist, and the newest ones.
#[derive(Debug)]
pub struct OopsHistory {
    pub source: String,
    pub total: usize,
    pub entries: Vec<HistoryEntry>,
}

/// Text view of an entry: its time and its command.
pub open spec fn entry_view(e: HistoryEntry) -> (Option<Seq<char>>, Seq<char>) {
    (opt_text(e.time), e.command@)
}

pub open spec fn entries_view(v: Seq<HistoryEntry>) -> Seq<(Option<Seq<char>>, Seq<char>)> {
    v.map_values(|e: HistoryEntry| entry_view(e))
}

pub open spec fn min_nat(a: nat, b: nat) -> nat {
    if a <= b {
        a
    } else {
        b
    }
}

/// The last `max` items of `s` (all of them if fewer), newest first.
pub open spec fn newest_first<T>(s: Seq<T>, max: nat) -> Seq<T> {
    Seq::new(min_nat(s.len(), max), |k: int| s[s.len() - 1 - k])
}

/// Reverses `items` and keeps at most `max` of them.
pub fn take_newest<T>(items: Vec<T>, max: usize) -> (out: Vec<T>)
    ensures
        out@ == newest_first(items@, max as nat),
{
    let ghost orig = items@;
    let total = items.len();
    let mut src = items;
    let mut out: Vec<T> = Vec::new();
    while out.len() < max && src.len() > 0
        invariant
            total == orig.len(),
            out@.len() <= max,
            out@.len() <= total,
            src@ == orig.take(total - out@.len()),
            out@ == newest_first(orig, out@.len()),
        decreases src@.len(),
    {
        let e = src.pop().unwrap();
        let ghost before = out@;
        out.push(e);
        assert(orig.take(total - before.len()).drop_last() == orig.take(total - before.len() - 1));
        assert(out@ =~= newest_first(orig, out@.len()));
    }
    assert(out@ =~= newest_first(orig, max as nat));
    out
}

/// Reverses `entries` (newest first), keeps at most `max`, and reports how
/// many entries there were in total.
pub fn latest_entries(entries: Vec<HistoryEntry>, max: usize) -> (r: (usize, Vec<HistoryEntry>))
    ensures
        r.0 == entries@.len(),
        r.1@ == newest_first(entries@, max as nat),
{
    let total = entries.len();
    (total, take_newest(entries, max))
}

/// `s` without a leading byte-order mark.
pub open spec fn strip_bom(s: Seq<char>) -> Seq<char> {
    if s.len() > 0 && s[0] == '\u{feff}' {
        s.drop_first()
    } else {
        s
    }
}

/// The non-blank lines of `lines`, each without trailing carriage returns.
pub open spec fn nonblank_lines(lines: Seq<Seq<char>>) -> Seq<Seq<char>>
    decreases lines.len(),
{
    if lines.len() == 0 {
        Seq::empty()
    } else {
        let prev = nonblank_lines(lines.drop_last());
        let l = trim_end_char(lines.last(), '\r');
        if is_blank(l) {
            prev
        } else {
            prev.push(l)
        }
    }
}

/// The history records of a history file: its non-blank lines (after an
/// optional byte-order mark), oldest first.
pub open spec fn history_records(text: Seq<char>) -> Seq<Seq<char>> {
    nonblank_lines(lines_of(strip_bom(text)))
}

pub open spec fn texts_view(v: Seq<String>) -> Seq<Seq<char>> {
    v.map_values(|s: String| s@)
}

/// Splits a history file into its records: the byte-order mark is skipped,
/// trailing carriage returns are removed and blank lines are dropped.
pub fn history_lines(text: &str) -> (r: Vec<String>)
    ensures
        texts_view(r@) == history_records(text@),
{
    let v0 = chars_of(text);
    let v = if v0.len() > 0 && v0[0] == '\u{feff}' {
        sub_chars(&v0, 1, v0.len())
    } else {
        v0
    };
    assert(v@ == strip_bom(text@));
    let lines = lines_chars(&v);
    let ghost all = lines_of(v@);
    let mut out: Vec<String> = Vec::new();
    let mut i: usize = 0;
    assert(all.take(0) =~= Seq::<Seq<char>>::empty());
    assert(texts_view(out@) =~= Seq::<Seq<char>>::empty());
    while i < lines.len()
        invariant
            i <= lines@.len() == all.len(),
            forall|m: int| 0 <= m < lines@.len() ==> (#[trigger] lines@[m])@ == all[m],
            texts_view(out@) == nonblank_lines(all.take(i as int)),
            all == lines_of(strip_bom(text@)),
        decreases lines.len() - i,
    {
        let line = &lines[i];
        assert(line@ == all[i as int]);
        let l = trim_end_char_len(line, line.len(), '\r');
        assert(line@.take(line.len() as int) == line@);
        let t = sub_chars(line, 0, l);
        assert(t@ == line@.take(l as int));
        assert(all.take(i + 1).drop_last() == all.take(i as int));
        assert(all.take(i + 1).last() == all[i as int]);
        if !is_blank_chars(&t) {
            let ghost before = out@;
            out.push(string_of(&t));
            assert(texts_view(out@) =~= texts_view(before).push(t@));
        }
        i += 1;
    }
    assert(all.take(lines.len() as int) == all);
    out
}

/// Parses PSReadLine's history file: one command per non-blank line, no
/// times; returns the total count and at most `max` entries, newest first.
pub fn parse_psreadline_entries(text: &str, max: usize) -> (r: (usize, Vec<HistoryEntry>))
    ensures
        r.0 == history_records(text@).len(),
        entries_view(r.1@) == newest_first(
            history_records(text@).map_values(|c: Seq<char>| (None::<Seq<char>>, c)),
            max as nat,
        ),
{
    let lines = history_lines(text);
    let ghost recs = history_records(text@);
    let mut entries: Vec<HistoryEntry> = Vec::new();
    let mut src = lines;
    let ghost lv = src@;
    let n = src.len();
    // move the strings out back to front, then restore the order
    let mut rev: Vec<String> = Vec::new();
    while src.len() > 0
        invariant
            src@.len() + rev@.len() == n,
            n == lv.len(),
            src@ == lv.take(src@.len() as int),
            forall|k: int| 0 <= k < rev@.len() ==> #[trigger] rev@[k] == lv[n - 1 - k],
        decreases src@.len(),
    {
        let s = src.pop().unwrap();
        rev.push(s);
        assert(lv.take(src@.len() + 1 as int).drop_last() == lv.take(src@.len() as int));
    }
    while rev.len() > 0
        invariant
            entries@.len() + rev@.len() == n,
            n == lv.len(),
            forall|k: int| 0 <= k < rev@.len() ==> #[trigger] rev@[k] == lv[n - 1 - k],
            forall|k: int|
                0 <= k < entries@.len() ==> (#[trigger] entries@[k]).time is None
                    && entries@[k].command == lv[k],
        decreases rev@.len(),
    {
        let s = rev.pop().unwrap();
        entries.push(HistoryEntry { time: None, command: s });
    }
    proof {
        assert(texts_view(lv) == recs);
        let mapped = recs.map_values(|c: Seq<char>| (None::<Seq<char>>, c));
        assert(entries_view(entries@) =~= mapped) by {
            assert forall|k: int| 0 <= k < entries@.len() implies entries_view(entries@)[k]
                == mapped[k] by {
                assert(entries@[k].command == lv[k]);
                assert(texts_view(lv)[k] == lv[k]@);
            }
        }
    }
    let total = entries.len();
    let newest = take_newest(entries, max);
    proof {
        let mapped = recs.map_values(|c: Seq<char>| (None::<Seq<char>>, c));
        assert(entries_view(newest@) =~= newest_first(mapped, max as nat));
    }
    (total, newest)
}

/// The entries whose command is not blank, in order.
pub open spec fn with_commands(s: Seq<HistoryEntry>) -> Seq<HistoryEntry>
    decreases s.len(),
{
    if s.len() == 0 {
        Seq::empty()
    } else {
        let prev = with_commands(s.drop_last());
        if is_blank(s.last().command@) {
            prev
        } else {
            prev.push(s.last())
        }
    }
}

/// Finishes reading the JSONL history from its parsed records (in file
/// order): records with a blank command are dropped; returns the number of
/// remaining entries and at most `max` of them, newest first.
pub fn collect_jsonl_entries(parsed: Vec<HistoryEntry>, max: usize) -> (r: (
    usize,
    Vec<HistoryEntry>,
))
    ensures
        r.0 == with_commands(parsed@).len(),
        r.1@ == newest_first(with_commands(parsed@), max as nat),
{
    let ghost orig = parsed@;
    let n = parsed.len();
    let mut src = parsed;
    let mut rev: Vec<HistoryEntry> = Vec::new();
    while src.len() > 0
        invariant
            src@.len() + rev@.len() == n,
            n == orig.len(),
            src@ == orig.take(src@.len() as int),
            forall|k: int| 0 <= k < rev@.len() ==> #[trigger] rev@[k] == orig[n - 1 - k],
        decreases src@.len(),
    {
        let e = src.pop().unwrap();
        rev.push(e);
        assert(orig.take(src@.len() + 1 as int).drop_last() == orig.take(src@.len() as int));
    }
    let mut kept: Vec<HistoryEntry> = Vec::new();
    let mut i: usize = 0;
    assert(orig.take(0) =~= Seq::<HistoryEntry>::empty());
    while rev.len() > 0
        invariant
            i + rev@.len() == n,
            n == orig.len(),
            forall|k: int| 0 <= k < rev@.len() ==> #[trigger] rev@[k] == orig[n - 1 - k],
            kept@ == with_commands(orig.take(i as int)),
        decreases rev@.len(),
    {
        let e = rev.pop().unwrap();
        assert(e == orig[i as int]);
        assert(orig.take(i + 1).drop_last() == orig.take(i as int));
        assert(orig.take(i + 1).last() == orig[i as int]);
        let blank = is_blank_str(e.command.as_str());
        if !blank {
            kept.push(e);
        }
        i += 1;
    }
    assert(orig.take(n as int) == orig);
    latest_entries(kept, max)
}

/// A path separator: `/` always, and the platform's main separator.
pub open spec fn is_separator(c: char, sep: char) -> bool {
    c == '/' || c == sep
}

/// `base` joined with the relative component `comp`: a separator is
/// inserted when `base` is not empty and does not already end with one.
pub open spec fn join_path(base: Seq<char>, comp: Seq<char>, sep: char) -> Seq<char> {
    if base.len() > 0 && !is_separator(base.last(), sep) {
        base.push(sep) + comp
    } else {
        base + comp
    }
}

/// Joins a relative component onto a path (see `join_path`).
pub fn join_component(base: &str, comp: &str, sep: char) -> (r: String)
    ensures
        r@ == join_path(base@, comp@, sep),
{
    let v = chars_of(base);
    let mut r = string_of(&v);
    if v.len() > 0 && !(v[v.len() - 1] == '/' || v[v.len() - 1] == sep) {
        crate::text::push_char(&mut r, sep);
    }
    r.append(comp);
    r
}

/// The roaming application-data directory: `APPDATA` when set, otherwise
/// `AppData\Roaming` under the user's home (`USERPROFILE`, else `HOME`).
pub open spec fn appdata_path(
    appdata: Option<Seq<char>>,
    userprofile: Option<Seq<char>>,
    home: Option<Seq<char>>,
    sep: char,
) -> Option<Seq<char>> {
    match appdata {
        Some(a) => Some(a),
        None => match (if userprofile is Some {
            userprofile
        } else {
            home
        }) {
            Some(h) => Some(join_path(join_path(h, "AppData"@, sep), "Roaming"@, sep)),
            None => None,
        },
    }
}

/// Resolves the roaming application-data directory from the values of the
/// `APPDATA`, `USERPROFILE` and `HOME` environment variables.
pub fn appdata_dir(appdata: Option<&str>, userprofile: Option<&str>, home: Option<&str>, sep: char) -> (r:
    Option<String>)
    ensures
        opt_text(r) == appdata_path(opt_str(appdata), opt_str(userprofile), opt_str(home), sep),
{
    match appdata {
        Some(a) => Some(a.to_owned()),
        None => {
            let h = match userprofile {
                Some(u) => Some(u),
                None => home,
            };
            match h {
                Some(h) => {
                    let d = join_component(h, "AppData", sep);
                    Some(join_component(d.as_str(), "Roaming", sep))
                },
                None => None,
            }
        },
    }
}

/// Location of the app's own history file inside the roaming data directory.
pub open spec fn oops_history_file(dir: Seq<char>, sep: char) -> Seq<char> {
    join_path(join_path(dir, "OopsTerminal"@, sep), "history-with-time.jsonl"@, sep)
}

/// Location of PSReadLine's history file inside the roaming data directory.
pub open spec fn psreadline_history_file(dir: Seq<char>, sep: char) -> Seq<char> {
    join_path(
        join_path(
            join_path(
                join_path(join_path(dir, "Microsoft"@, sep), "Windows"@, sep),
                "PowerShell"@,
                sep,
            ),
            "PSReadLine"@,
            sep,
        ),
        "ConsoleHost_history.txt"@,
        sep,
    )
}

/// Path of the app's JSONL history (`OopsTerminal\history-with-time.jsonl`
/// under the roaming data directory), when that directory is known.
pub fn oops_history_path(appdata_dir: Option<&str>, sep: char) -> (r: Option<String>)
    ensures
        match appdata_dir {
            Some(d) => opt_text(r) == Some(oops_history_file(d@, sep)),
            None => r is None,
        },
{
    match appdata_dir {
        Some(d) => {
            let a = join_component(d, "OopsTerminal", sep);
            Some(join_component(a.as_str(), "history-with-time.jsonl", sep))
        },
        None => None,
    }
}

/// Path of PSReadLine's history file under the roaming data directory,
/// when that directory is known.
pub fn psreadline_history_path(appdata_dir: Option<&str>, sep: char) -> (r: Option<String>)
    ensures
        match appdata_dir {
            Some(d) => opt_text(r) == Some(psreadline_history_file(d@, sep)),
            None => r is None,
        },
{
    match appdata_dir {
        Some(d) => {
            let a = join_component(d, "Microsoft", sep);
            let b = join_component(a.as_str(), "Windows", sep);
            let c = join_component(b.as_str(), "PowerShell", sep);
            let e = join_component(c.as_str(), "PSReadLine", sep);
            Some(join_component(e.as_str(), "ConsoleHost_history.txt", sep))
        },
        None => None,
    }
}

/// The app's own history is used when it holds at least one entry.
pub fn history_from_oops(total: usize, entries: Vec<HistoryEntry>) -> (r: Option<OopsHistory>)
    ensures
        match r {
            Some(h) => total > 0 && h.source@ == "oops"@ && h.total == total && h.entries@
                == entries@,
            None => total == 0,
        },
{
    if total > 0 {
        Some(OopsHistory { source: String::from_str("oops"), total, entries })
    } else {
        None
    }
}

/// History taken from PSReadLine's file (`None` when that file is absent,
/// giving the empty `none` history).
pub fn history_from_psreadline(text: Option<&str>) -> (r: OopsHistory)
    ensures
        match text {
            Some(t) => {
                &&& r.source@ == "psreadline"@
                &&& r.total == history_records(t@).len()
                &&& entries_view(r.entries@) == newest_first(
                    history_records(t@).map_values(|c: Seq<char>| (None::<Seq<char>>, c)),
                    MAX_ENTRIES as nat,
                )
            },
            None => r.source@ == "none"@ && r.total == 0 && r.entries@.len() == 0,
        },
{
    match text {
        Some(t) => {
            let (total, entries) = parse_psreadline_entries(t, MAX_ENTRIES);
            OopsHistory { source: String::from_str("psreadline"), total, entries }
        },
        None => OopsHistory { source: String::from_str("none"), total: 0, entries: Vec::new() },
    }
}

/// Whether a command is worth recording in the history (it is not blank).
pub fn should_record_history(command: &str) -> (b: bool)
    ensures
        b == !is_blank(command@),
{
    !is_blank_str(command)
}

} // verus!
