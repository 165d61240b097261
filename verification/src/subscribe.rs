//! Which working directory a client subscribe binds a session to, and the
//! server's log messages around subscriptions and connection tasks.

use vstd::prelude::*;
use crate::text::{opt_str, opt_text, trim_nonblank, trimmed_nonblank, trim_ws};

verus! {

/// Whether `std::path::Path::new(a) == std::path::Path::new(b)`: the two
/// texts as paths compared component by component.
pub uninterp spec fn path_eq(a: Seq<char>, b: Seq<char>) -> bool;

/// `std::path::Path::new(a) == std::path::Path::new(b)`.
///
/// Trusted: the result is `path_eq` of the two texts, and equal texts are
/// equal paths. Which different texts name the same path depends on the
/// platform's path syntax and is not stated.
#[verifier::external_body]
fn same_path(a: &str, b: &str) -> (r: bool)
    ensures
        r == path_eq(a@, b@),
        a@ == b@ ==> r,
{
    std::path::Path::new(a) == std::path::Path::new(b)
}

/// Whether a reported subscribe directory replaces the session's current
/// one, given whether the reported and the current (trimmed) directory are
/// the user's home directory: an empty report never does; a report equal to
/// the current directory changes nothing; a report of the home directory is
/// ignored while the session is bound to another directory; any other
/// report is accepted, trimmed.
pub open spec fn replacement_decision(
    current: Option<Seq<char>>,
    reported: Seq<char>,
    reported_is_home: bool,
    current_is_home: bool,
) -> Option<Seq<char>> {
    let r = trim_ws(reported);
    let c = trimmed_nonblank(current);
    if r.len() == 0 {
        None
    } else if c == Some(r) {
        None
    } else if c is Some && reported_is_home && !current_is_home {
        None
    } else {
        Some(r)
    }
}

/// The directory a subscribe binds to: the accepted report, otherwise the
/// session's current directory as it is, otherwise the trimmed report.
pub open spec fn effective_dir(
    current: Option<Seq<char>>,
    reported: Seq<char>,
    reported_is_home: bool,
    current_is_home: bool,
) -> Seq<char> {
    match replacement_decision(current, reported, reported_is_home, current_is_home) {
        Some(a) => a,
        None => match current {
            Some(c) => c,
            None => trim_ws(reported),
        },
    }
}

/// Whether the trimmed report is the home directory (as a path).
pub open spec fn reported_is_home(reported: Seq<char>, home: Option<Seq<char>>) -> bool {
    match home {
        Some(h) => path_eq(trim_ws(reported), h),
        None => false,
    }
}

/// Whether the session's current directory (trimmed, if not blank) is the
/// home directory (as a path).
pub open spec fn current_is_home(current: Option<Seq<char>>, home: Option<Seq<char>>) -> bool {
    match (trimmed_nonblank(current), home) {
        (Some(c), Some(h)) => path_eq(c, h),
        _ => false,
    }
}

/// Working in the home directory on purpose still works: when the session
/// has no directory yet, or is already bound to the home directory, a
/// non-empty report other than the current directory is accepted.
pub proof fn lemma_home_on_purpose(
    current: Option<Seq<char>>,
    reported: Seq<char>,
    reported_is_home: bool,
    current_is_home: bool,
)
    requires
        trim_ws(reported).len() > 0,
        trimmed_nonblank(current) is None || current_is_home,
        trimmed_nonblank(current) != Some(trim_ws(reported)),
    ensures
        replacement_decision(current, reported, reported_is_home, current_is_home) == Some(
            trim_ws(reported),
        ),
{
}

/// Any report that is not the home directory and differs from the current
/// directory is accepted.
pub proof fn lemma_other_dirs_accepted(
    current: Option<Seq<char>>,
    reported: Seq<char>,
    current_is_home: bool,
)
    requires
        trim_ws(reported).len() > 0,
        trimmed_nonblank(current) != Some(trim_ws(reported)),
    ensures
        replacement_decision(current, reported, false, current_is_home) == Some(trim_ws(reported)),
{
}

/// Applies `replacement_decision` once the home comparisons are known.
pub fn working_dir_replacement(
    current: Option<&str>,
    reported: &str,
    reported_is_home: bool,
    current_is_home: bool,
) -> (r: Option<String>)
    ensures
        opt_text(r) == replacement_decision(
            opt_str(current),
            reported@,
            reported_is_home,
            current_is_home,
        ),
{
    let r = trim_nonblank(Some(reported));
    let c = trim_nonblank(current);
    let r = match r {
        Some(r) => r,
        None => return None,
    };
    if crate::text::opt_string_eq(&c, &Some(r.clone())) {
        return None;
    }
    if c.is_some() && reported_is_home && !current_is_home {
        return None;
    }
    Some(r)
}

/// The home comparisons for a subscribe: whether the trimmed report and the
/// trimmed current directory are the home directory.
fn home_flags(c: &Option<String>, r: &str, home: Option<&str>) -> (flags: (bool, bool))
    ensures
        match home {
            None => !flags.0 && !flags.1,
            Some(h) => flags.0 == path_eq(r@, h@) && match c {
                Some(cs) => flags.1 == path_eq(cs@, h@),
                None => !flags.1,
            },
        },
{
    match home {
        None => (false, false),
        Some(h) => {
            let rh = same_path(r, h);
            let ch = match c {
                Some(cs) => same_path(cs.as_str(), h),
                None => false,
            };
            (rh, ch)
        },
    }
}

/// Decides whether a client-reported subscribe directory may replace the
/// session's current working directory (see `replacement_decision`): a
/// client launched with an inherited environment may report the home
/// directory although the session works elsewhere; that report is ignored.
pub fn subscribe_working_dir_replacement(current: Option<&str>, reported: &str, home: Option<&str>) -> (r:
    Option<String>)
    ensures
        opt_text(r) == replacement_decision(
            opt_str(current),
            reported@,
            reported_is_home(reported@, opt_str(home)),
            current_is_home(opt_str(current), opt_str(home)),
        ),
{
    let rt = trim_nonblank(Some(reported));
    let c = trim_nonblank(current);
    let rt_s = match &rt {
        Some(s) => s.clone(),
        None => String::new(),
    };
    let (rh, ch) = home_flags(&c, rt_s.as_str(), home);
    let out = working_dir_replacement(current, reported, rh, ch);
    proof {
        let rhs = reported_is_home(reported@, opt_str(home));
        let chs = current_is_home(opt_str(current), opt_str(home));
        if trim_ws(reported@).len() == 0 {
            assert(replacement_decision(opt_str(current), reported@, rh, ch) is None);
            assert(replacement_decision(opt_str(current), reported@, rhs, chs) is None);
        } else {
            crate::text::lemma_trim_ws_empty_iff_blank(reported@);
            assert(rh == rhs);
            assert(ch == chs);
        }
    }
    out
}

/// Resolves the directory a subscribe actually binds to (see
/// `effective_dir`), so that every user of it agrees on one answer.
pub fn effective_subscribe_working_dir(current: Option<&str>, reported: &str, home: Option<&str>) -> (r:
    String)
    ensures
        r@ == effective_dir(
            opt_str(current),
            reported@,
            reported_is_home(reported@, opt_str(home)),
            current_is_home(opt_str(current), opt_str(home)),
        ),
{
    let accepted = subscribe_working_dir_replacement(current, reported, home);
    let ghost rh = reported_is_home(reported@, opt_str(home));
    let ghost ch = current_is_home(opt_str(current), opt_str(home));
    let r = match accepted {
        Some(a) => a,
        None => match current {
            Some(c) => c.to_owned(),
            None => match trim_nonblank(Some(reported)) {
                Some(t) => t,
                None => {
                    proof {
                        crate::text::lemma_trim_ws_empty_iff_blank(reported@);
                    }
                    String::new()
                },
            },
        },
    };
    assert(r@ == effective_dir(opt_str(current), reported@, rh, ch));
    r
}

/// What a subscribe does to the session's working directory.
pub enum WorkingDirAction {
    /// Bind the session to this directory.
    Bind(String),
    /// Keep the current directory; the report was ignored and is logged.
    Ignore,
    /// Nothing to do.
    Keep,
}

/// The action for a subscribe report: bind to an accepted report;
/// otherwise log a report that differs from the session's current
/// directory as ignored; otherwise do nothing.
pub open spec fn working_dir_action_is(
    a: WorkingDirAction,
    current: Option<Seq<char>>,
    reported: Seq<char>,
    reported_is_home: bool,
    current_is_home: bool,
) -> bool {
    match replacement_decision(current, reported, reported_is_home, current_is_home) {
        Some(d) => a matches WorkingDirAction::Bind(s) && s@ == d,
        None => if current is Some && current.unwrap() != reported {
            a is Ignore
        } else {
            a is Keep
        },
    }
}

/// Decides what a subscribe's reported directory does to the session
/// (see `working_dir_action_is` and `replacement_decision`).
pub fn subscribe_working_dir_action(current: Option<&str>, reported: &str, home: Option<&str>) -> (a:
    WorkingDirAction)
    ensures
        working_dir_action_is(
            a,
            opt_str(current),
            reported@,
            reported_is_home(reported@, opt_str(home)),
            current_is_home(opt_str(current), opt_str(home)),
        ),
{
    let accepted = subscribe_working_dir_replacement(current, reported, home);
    let ghost rh = reported_is_home(reported@, opt_str(home));
    let ghost ch = current_is_home(opt_str(current), opt_str(home));
    let a = match accepted {
        Some(d) => WorkingDirAction::Bind(d),
        None => match current {
            Some(c) => if crate::text::str_eq(c, reported) {
                WorkingDirAction::Keep
            } else {
                WorkingDirAction::Ignore
            },
            None => WorkingDirAction::Keep,
        },
    };
    assert(working_dir_action_is(a, opt_str(current), reported@, rh, ch));
    a
}

/// The warning logged when a subscribe's home-directory report is ignored.
pub fn log_ignored_subscribe_working_dir(session_id: &str, current: &str, reported: &str) -> (m:
    String)
    ensures
        m@ == "Ignoring subscribe working_dir "@ + reported@ + " for session "@ + session_id@
            + ": it is the home directory while the session is already bound to "@ + current@
            + " (issue #481)"@,
{
    let mut m = String::from_str("Ignoring subscribe working_dir ");
    m.append(reported);
    m.append(" for session ");
    m.append(session_id);
    m.append(": it is the home directory while the session is already bound to ");
    m.append(current);
    m.append(" (issue #481)");
    m
}

/// How a server connection task ended.
#[derive(Debug)]
pub enum TaskOutcome {
    Finished,
    Cancelled,
    /// It failed; the text describes the failure.
    Failed(String),
}

/// The error logged for a finished connection task: only a failure that was
/// not a cancellation is reported.
pub fn log_task_completion(outcome: TaskOutcome) -> (m: Option<String>)
    ensures
        match outcome {
            TaskOutcome::Failed(e) => m is Some && m.unwrap()@ == "Server connection task failed: "@
                + e@,
            _ => m is None,
        },
{
    match outcome {
        TaskOutcome::Failed(e) => {
            let mut m = String::from_str("Server connection task failed: ");
            m.append(e.as_str());
            Some(m)
        },
        _ => None,
    }
}

} // verus!
