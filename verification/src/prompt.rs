//! Recognition of PowerShell prompts (`PS <path>> `) in terminal output.

use vstd::prelude::*;
use crate::ansi::{strip_ansi_chars, strip_ansi_text};
use crate::text::{
    chars_of, find_char, find_char_from, has_prefix, is_ws, trim_start_ws, lines_chars, lines_of, starts_with3, string_of,
    sub_chars, trim_end_char, trim_end_char_len, trim_end_ws, trim_end_ws_len, trim_start_ws_pos,
    trim_ws,
};

verus! {

/// An ASCII letter.
pub open spec fn is_ascii_alpha(c: char) -> bool {
    let u = c as u32;
    (65 <= u <= 90) || (97 <= u <= 122)
}

/// `s` looks like a file-system path: a drive path (`C:\` or `C:/`) or a
/// UNC path (`\\server`).
pub open spec fn path_like(s: Seq<char>) -> bool {
    (s.len() >= 3 && is_ascii_alpha(s[0]) && s[1] == ':' && (s[2] == '\\' || s[2] == '/')) || (
    s.len() >= 2 && s[0] == '\\' && s[1] == '\\')
}

/// The text after a leading `PS ` or `PS\t`, if the line has one.
pub open spec fn prompt_body(line: Seq<char>) -> Option<Seq<char>> {
    if has_prefix(line, seq!['P', 'S', ' ']) || has_prefix(line, seq!['P', 'S', '\t']) {
        Some(line.skip(3))
    } else {
        None
    }
}

/// The current directory shown by a prompt line `PS <path>> ` (or `>> `),
/// when that path is a file-system path.
pub open spec fn prompt_line_path(line: Seq<char>) -> Option<Seq<char>> {
    match prompt_body(line) {
        None => None,
        Some(body) => {
            let t = trim_end_char(body, ' ');
            let before_arrows = trim_end_char(t, '>');
            if before_arrows.len() == t.len() {
                None
            } else {
                let path = trim_end_char(trim_end_char(before_arrows, ' '), '\r');
                if path.len() == 0 || !path_like(path) {
                    None
                } else {
                    Some(path)
                }
            }
        },
    }
}

/// The path of the last line (counting from the end) that is a prompt.
pub open spec fn last_prompt_path(lines: Seq<Seq<char>>) -> Option<Seq<char>>
    decreases lines.len(),
{
    if lines.len() == 0 {
        None
    } else {
        match prompt_line_path(lines.last()) {
            Some(p) => Some(p),
            None => last_prompt_path(lines.drop_last()),
        }
    }
}

/// The directory of the most recent prompt in a piece of terminal output.
pub open spec fn prompt_cwd(text: Seq<char>) -> Option<Seq<char>> {
    last_prompt_path(lines_of(strip_ansi_text(text)))
}

/// The command echoed after a prompt, `PS <path>> <command>`: the path (up
/// to the first `>`, trailing whitespace removed) and the trimmed command,
/// when the path looks like a file-system path and the command is not empty.
pub open spec fn prompt_command(line: Seq<char>) -> Option<(Seq<char>, Seq<char>)> {
    if !has_prefix(line, seq!['P', 'S', ' ']) {
        None
    } else {
        let body = trim_end_ws(line.skip(3));
        match find_char(body, '>') {
            None => None,
            Some(a) => {
                let path = trim_end_ws(body.take(a));
                let cmd = trim_ws(body.skip(a + 1));
                if !path_like(path) || cmd.len() == 0 {
                    None
                } else {
                    Some((path, cmd))
                }
            },
        }
    }
}

/// A default prompt line gives back its path: for a file-system path that
/// does not end in a space, a carriage return or `>`, the line
/// `PS <path>> ` is a prompt for exactly that path.
pub proof fn lemma_prompt_line_round_trip(path: Seq<char>)
    requires
        path_like(path),
        path.last() != ' ',
        path.last() != '\r',
        path.last() != '>',
    ensures
        prompt_line_path(seq!['P', 'S', ' '] + path + seq!['>', ' ']) == Some(path),
{
    let line = seq!['P', 'S', ' '] + path + seq!['>', ' '];
    assert(line.take(3) =~= seq!['P', 'S', ' ']);
    let body = line.skip(3);
    assert(body =~= path + seq!['>', ' ']);
    assert(body.drop_last() =~= path + seq!['>']);
    assert((path + seq!['>']).drop_last() =~= path);
    assert(trim_end_char(path + seq!['>'], ' ') == path + seq!['>']);
    assert(trim_end_char(body, ' ') == path + seq!['>']);
    assert(trim_end_char(path, '>') == path);
    assert(trim_end_char(path + seq!['>'], '>') == path);
    assert(trim_end_char(path, ' ') == path);
    assert(trim_end_char(path, '\r') == path);
}

/// An echoed command line gives back its directory and command: for a
/// file-system path without `>` and without trailing whitespace, and a
/// command with no whitespace at either end, `PS <path>> <command>` is
/// recognised as exactly that command run in that directory.
pub proof fn lemma_prompt_command_round_trip(path: Seq<char>, cmd: Seq<char>)
    requires
        path_like(path),
        forall|i: int| 0 <= i < path.len() ==> path[i] != '>',
        !is_ws(path.last()),
        cmd.len() > 0,
        !is_ws(cmd[0]),
        !is_ws(cmd.last()),
    ensures
        prompt_command(seq!['P', 'S', ' '] + path + seq!['>', ' '] + cmd) == Some((path, cmd)),
{
    let line = seq!['P', 'S', ' '] + path + seq!['>', ' '] + cmd;
    assert(line.take(3) =~= seq!['P', 'S', ' ']);
    let raw = line.skip(3);
    assert(raw =~= path + seq!['>', ' '] + cmd);
    assert(raw.last() == cmd.last());
    assert(trim_end_ws(raw) == raw);
    let a = path.len() as int;
    assert(raw[a] == '>');
    assert forall|k: int| 0 <= k < a implies raw[k] != '>' by {
        assert(raw[k] == path[k]);
    }
    crate::text::lemma_find_char_is(raw, '>', a);
    assert(raw.take(a) =~= path);
    assert(trim_end_ws(path) == path);
    let rest = raw.skip(a + 1);
    assert(rest =~= seq![' '] + cmd);
    assert(rest.last() == cmd.last());
    assert(trim_end_ws(rest) == rest);
    assert(is_ws(rest[0]));
    assert(rest.drop_first() =~= cmd);
    assert(trim_start_ws(cmd) == cmd);
    assert(trim_start_ws(rest) == cmd);
}

proof fn lemma_last_prompt_path_is(ls: Seq<Seq<char>>, i: int, p: Seq<char>)
    requires
        0 <= i < ls.len(),
        prompt_line_path(ls[i]) == Some(p),
        forall|j: int| i < j < ls.len() ==> prompt_line_path(#[trigger] ls[j]) is None,
    ensures
        last_prompt_path(ls) == Some(p),
    decreases ls.len(),
{
    if i < ls.len() - 1 {
        assert(prompt_line_path(ls[ls.len() - 1]) is None);
        let d = ls.drop_last();
        assert forall|j: int| i < j < d.len() implies prompt_line_path(#[trigger] d[j]) is None by {
            assert(d[j] == ls[j]);
        }
        assert(d[i] == ls[i]);
        lemma_last_prompt_path_is(d, i, p);
    }
}

proof fn lemma_last_prompt_path_none(ls: Seq<Seq<char>>)
    requires
        forall|j: int| 0 <= j < ls.len() ==> prompt_line_path(#[trigger] ls[j]) is None,
    ensures
        last_prompt_path(ls) is None,
    decreases ls.len(),
{
    if ls.len() > 0 {
        assert(prompt_line_path(ls[ls.len() - 1]) is None);
        let d = ls.drop_last();
        assert forall|j: int| 0 <= j < d.len() implies prompt_line_path(#[trigger] d[j]) is None by {
            assert(d[j] == ls[j]);
        }
        lemma_last_prompt_path_none(d);
    }
}

/// The directory of terminal output is that of its most recent prompt:
/// when line `i` of the ANSI-stripped text is a prompt line for `p` and no
/// later line is a prompt line, the directory is `p`, whatever lines come
/// before or after; with no prompt line at all there is none.
pub proof fn lemma_prompt_cwd_is_latest_prompt(text: Seq<char>, i: int, p: Seq<char>)
    requires
        0 <= i < lines_of(strip_ansi_text(text)).len(),
        prompt_line_path(lines_of(strip_ansi_text(text))[i]) == Some(p),
        forall|j: int|
            i < j < lines_of(strip_ansi_text(text)).len() ==> prompt_line_path(
                #[trigger] lines_of(strip_ansi_text(text))[j],
            ) is None,
    ensures
        prompt_cwd(text) == Some(p),
{
    lemma_last_prompt_path_is(lines_of(strip_ansi_text(text)), i, p);
}

/// Output without any prompt line has no directory.
pub proof fn lemma_prompt_cwd_without_prompt(text: Seq<char>)
    requires
        forall|j: int|
            0 <= j < lines_of(strip_ansi_text(text)).len() ==> prompt_line_path(
                #[trigger] lines_of(strip_ansi_text(text))[j],
            ) is None,
    ensures
        prompt_cwd(text) is None,
{
    lemma_last_prompt_path_none(lines_of(strip_ansi_text(text)));
}

fn is_ascii_alpha_char(c: char) -> (b: bool)
    ensures
        b == is_ascii_alpha(c),
{
    let u = c as u32;
    (65 <= u && u <= 90) || (97 <= u && u <= 122)
}

/// `path_like` on a character slice.
pub fn path_like_chars(v: &[char]) -> (b: bool)
    ensures
        b == path_like(v@),
{
    (v.len() >= 3 && is_ascii_alpha_char(v[0]) && v[1] == ':' && (v[2] == '\\' || v[2] == '/'))
        || (v.len() >= 2 && v[0] == '\\' && v[1] == '\\')
}

/// Whether `text` looks like a file-system path (drive or UNC path).
pub fn looks_like_path(text: &str) -> (b: bool)
    ensures
        b == path_like(text@),
{
    let v = chars_of(text);
    path_like_chars(&v)
}

/// `prompt_line_path` on a character slice.
pub fn prompt_line_path_chars(line: &[char]) -> (r: Option<Vec<char>>)
    ensures
        match r {
            Some(p) => prompt_line_path(line@) == Some(p@),
            None => prompt_line_path(line@) is None,
        },
{
    if !starts_with3(line, 'P', 'S', ' ') && !starts_with3(line, 'P', 'S', '\t') {
        return None;
    }
    let n = line.len();
    let body = sub_chars(line, 3, n);
    assert(body@ == line@.skip(3));
    let t_len = trim_end_char_len(&body, body.len(), ' ');
    assert(body@.take(body.len() as int) == body@);
    let a_len = trim_end_char_len(&body, t_len, '>');
    proof {
        assert(body@.take(t_len as int).take(a_len as int) == body@.take(a_len as int));
    }
    if a_len == t_len {
        return None;
    }
    let s_len = trim_end_char_len(&body, a_len, ' ');
    let p_len = trim_end_char_len(&body, s_len, '\r');
    let path = sub_chars(&body, 0, p_len);
    assert(path@ == body@.take(p_len as int));
    if p_len == 0 || !path_like_chars(&path) {
        return None;
    }
    Some(path)
}

/// Parses the PowerShell current directory out of one prompt line.
///
/// The default prompt looks like `PS C:\path> ` (`>> ` when nested). Only
/// file-system paths are recognised; a prompt in another provider (such as
/// `PS Env:> `) or a custom prompt gives `None`.
pub fn parse_prompt_line(line: &str) -> (r: Option<String>)
    ensures
        match r {
            Some(p) => prompt_line_path(line@) == Some(p@),
            None => prompt_line_path(line@) is None,
        },
{
    let v = chars_of(line);
    match prompt_line_path_chars(&v) {
        Some(p) => Some(string_of(&p)),
        None => None,
    }
}

/// Parses the directory of the most recent PowerShell prompt in terminal
/// output: ANSI sequences are removed first, then lines are matched from
/// the last one backwards. `None` when no line is a recognised prompt.
pub fn parse_prompt_cwd(text: &str) -> (r: Option<String>)
    ensures
        match r {
            Some(p) => prompt_cwd(text@) == Some(p@),
            None => prompt_cwd(text@) is None,
        },
{
    let v = chars_of(text);
    let stripped = strip_ansi_chars(&v);
    let lines = lines_chars(&stripped);
    let ghost all = lines_of(stripped@);
    let mut k = lines.len();
    assert(all.take(k as int) == all);
    while k > 0
        invariant
            k <= lines@.len() == all.len(),
            forall|m: int| 0 <= m < lines@.len() ==> (#[trigger] lines@[m])@ == all[m],
            last_prompt_path(all) == last_prompt_path(all.take(k as int)),
            last_prompt_path(all) == prompt_cwd(text@),
        decreases k,
    {
        let ghost pre = all.take(k as int);
        assert(pre.last() == all[k - 1]);
        assert(lines@[k - 1]@ == all[k - 1]);
        assert(pre.drop_last() == all.take(k - 1));
        match prompt_line_path_chars(&lines[k - 1]) {
            Some(p) => {
                return Some(string_of(&p));
            },
            None => {},
        }
        k -= 1;
    }
    None
}

/// `prompt_command` on a character slice.
pub fn prompt_command_chars(line: &[char]) -> (r: Option<(Vec<char>, Vec<char>)>)
    ensures
        match r {
            Some((p, c)) => prompt_command(line@) == Some((p@, c@)),
            None => prompt_command(line@) is None,
        },
{
    if !starts_with3(line, 'P', 'S', ' ') {
        return None;
    }
    let rest = sub_chars(line, 3, line.len());
    assert(rest@ == line@.skip(3));
    let b_len = trim_end_ws_len(&rest, rest.len());
    assert(rest@.take(rest.len() as int) == rest@);
    let body = sub_chars(&rest, 0, b_len);
    assert(body@ == trim_end_ws(line@.skip(3)));
    let arrow = match find_char_from(&body, 0, '>') {
        Some(a) => a,
        None => {
            assert(body@.skip(0) == body@);
            return None;
        },
    };
    assert(body@.skip(0) == body@);
    let p_len = trim_end_ws_len(&body, arrow);
    let path = sub_chars(&body, 0, p_len);
    assert(path@ == body@.take(p_len as int));
    let tail = sub_chars(&body, arrow + 1, body.len());
    assert(tail@ == body@.skip(arrow + 1));
    let e_len = trim_end_ws_len(&tail, tail.len());
    assert(tail@.take(tail.len() as int) == tail@);
    let c_start = trim_start_ws_pos(&tail, 0, e_len);
    assert(tail@.subrange(0, e_len as int) == tail@.take(e_len as int));
    let cmd = sub_chars(&tail, c_start, e_len);
    if !path_like_chars(&path) || cmd.len() == 0 {
        return None;
    }
    Some((path, cmd))
}

/// Extracts a submitted command from a PSReadLine echo line
/// `PS <path>> <command>`: returns the directory the command ran in and the
/// command. The first `>` is the prompt arrow; later ones (redirections)
/// stay in the command. `None` for an empty command or a non-prompt line.
pub fn parse_prompt_command(line: &str) -> (r: Option<(String, String)>)
    ensures
        match r {
            Some((p, c)) => prompt_command(line@) == Some((p@, c@)),
            None => prompt_command(line@) is None,
        },
{
    let v = chars_of(line);
    match prompt_command_chars(&v) {
        Some((p, c)) => Some((string_of(&p), string_of(&c))),
        None => None,
    }
}

} // verus!
