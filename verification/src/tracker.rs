//! Output-side command tracking: consumes shell output line by line and
//! recognises the prompt directory and the commands the user submitted.
//!
//! Recording works on the output only, never on keystrokes: after Enter,
//! PSReadLine echoes `PS <path>> <command>`, so the submitted command text is
//! read from that echo line; editing keys and IME composition stay invisible.

use vstd::prelude::*;
use vstd::utf8::{encode_scalar, encode_utf8};
use crate::ansi::{strip_ansi_chars, strip_ansi_text};
use crate::prompt::{
    prompt_body, prompt_command, prompt_command_chars, prompt_line_path, prompt_line_path_chars,
};
use crate::text::{
    chars_of, extend_chars, find_char, find_char_from, has_prefix, starts_with3, string_of,
    sub_chars, trim_end_char, trim_end_char_len,
};

verus! {

/// Most bytes of decoded output kept between pushes.
pub const MAX_TAIL: usize = 8192;

/// Number of UTF-8 bytes of `s`.
pub open spec fn byte_len(s: Seq<char>) -> nat {
    encode_utf8(s).len()
}

/// A line as the tracker examines it: ANSI sequences removed, then any
/// trailing carriage returns.
pub open spec fn cleaned_line(line: Seq<char>) -> Seq<char> {
    trim_end_char(strip_ansi_text(line), '\r')
}

/// A PSReadLine continuation line (`>> ...`).
pub open spec fn is_continuation(s: Seq<char>) -> bool {
    has_prefix(s, seq!['>', '>', ' '])
}

/// The directory after seeing cleaned line `s`: any prompt line refreshes it.
pub open spec fn next_cwd(cwd: Option<Seq<char>>, s: Seq<char>) -> Option<Seq<char>> {
    match prompt_line_path(s) {
        Some(p) => Some(p),
        None => cwd,
    }
}

/// The command being assembled after line `s`: an echo line starts a new
/// one, a continuation line extends the current one with a newline and the
/// text after `>> `, and any other line ends it.
pub open spec fn next_pending(pending: Option<(Seq<char>, Seq<char>)>, s: Seq<char>) -> Option<
    (Seq<char>, Seq<char>),
> {
    match prompt_command(s) {
        Some(pc) => Some(pc),
        None => if is_continuation(s) {
            match pending {
                Some(pc) => Some((pc.0, pc.1.push('\n') + s.skip(3))),
                None => None,
            }
        } else {
            None
        },
    }
}

/// The command completed by line `s`, if any: the pending one, when `s` is
/// neither an echo line nor a continuation line.
pub open spec fn finished_command(pending: Option<(Seq<char>, Seq<char>)>, s: Seq<char>) -> Option<
    (Seq<char>, Seq<char>),
> {
    if prompt_command(s) is Some || is_continuation(s) {
        None
    } else {
        pending
    }
}

/// Directory, pending command and recorded commands after feeding `lines`
/// in order, starting from `cwd` and `pending`.
pub open spec fn run_lines(
    cwd: Option<Seq<char>>,
    pending: Option<(Seq<char>, Seq<char>)>,
    lines: Seq<Seq<char>>,
) -> (Option<Seq<char>>, Option<(Seq<char>, Seq<char>)>, Seq<(Seq<char>, Seq<char>)>)
    decreases lines.len(),
{
    if lines.len() == 0 {
        (cwd, pending, Seq::empty())
    } else {
        let prev = run_lines(cwd, pending, lines.drop_last());
        let s = cleaned_line(lines.last());
        let recorded = match finished_command(prev.1, s) {
            Some(c) => prev.2.push(c),
            None => prev.2,
        };
        (next_cwd(prev.0, s), next_pending(prev.1, s), recorded)
    }
}

/// The lines of `s` that are terminated by `\n` (without the terminator).
pub open spec fn complete_lines(s: Seq<char>) -> Seq<Seq<char>>
    decreases s.len(),
{
    match find_char(s, '\n') {
        None => Seq::empty(),
        Some(i) => {
            proof {
                crate::text::lemma_find_char_bounds(s, '\n');
            }
            seq![s.take(i)] + complete_lines(s.skip(i + 1))
        },
    }
}

/// The text after the last `\n` of `s` (all of `s` when it has none).
pub open spec fn unterminated(s: Seq<char>) -> Seq<char>
    decreases s.len(),
{
    match find_char(s, '\n') {
        None => s,
        Some(i) => {
            proof {
                crate::text::lemma_find_char_bounds(s, '\n');
            }
            unterminated(s.skip(i + 1))
        },
    }
}

/// Some prefix of `s` is exactly `b` bytes long.
pub open spec fn has_cut(s: Seq<char>, b: nat) -> bool {
    exists|k: int| 0 <= k <= s.len() && #[trigger] byte_len(s.take(k)) == b
}

/// The number of characters making up the first `b` bytes of `s`.
pub open spec fn cut_index(s: Seq<char>, b: nat) -> int {
    choose|k: int| 0 <= k <= s.len() && #[trigger] byte_len(s.take(k)) == b
}

/// Abstract state of a tracker.
pub struct TrackerView {
    /// Accumulated output, used to reassemble lines across chunks.
    pub tail: Seq<char>,
    /// Characters of `tail` already consumed line by line.
    pub scanned: nat,
    /// Directory of the most recent prompt line.
    pub cwd: Option<Seq<char>>,
    /// Command being assembled: directory it runs in and its text.
    pub pending: Option<(Seq<char>, Seq<char>)>,
}

/// Whether pushing `decoded` keeps the retained tail on a character
/// boundary (dropping the oldest bytes would otherwise split a character).
pub open spec fn push_allowed(v: TrackerView, decoded: Seq<char>) -> bool {
    let full = v.tail + decoded;
    byte_len(full) <= MAX_TAIL || has_cut(full, (byte_len(full) - MAX_TAIL) as nat)
}

/// The state after pushing `decoded`, and the commands recognised.
pub open spec fn push_result(v: TrackerView, decoded: Seq<char>) -> (
    TrackerView,
    Seq<(Seq<char>, Seq<char>)>,
) {
    let full = v.tail + decoded;
    let rest = full.skip(v.scanned as int);
    let run = run_lines(v.cwd, v.pending, complete_lines(rest));
    let sc = full.len() - unterminated(rest).len();
    let k = cut_index(full, (byte_len(full) - MAX_TAIL) as nat);
    let tail = if byte_len(full) <= MAX_TAIL {
        full
    } else {
        full.skip(k)
    };
    let scanned = if byte_len(full) <= MAX_TAIL {
        sc
    } else if k <= sc {
        sc - k
    } else {
        0
    };
    (TrackerView { tail, scanned: scanned as nat, cwd: run.0, pending: run.1 }, run.2)
}

/// The text views of recognised `(directory, command)` pairs.
pub open spec fn pairs_view(v: Seq<(String, String)>) -> Seq<(Seq<char>, Seq<char>)> {
    v.map_values(|p: (String, String)| (p.0@, p.1@))
}

/// Consumes shell output line by line, tracking the prompt directory and
/// the commands submitted at it.
pub struct OutputTracker {
    tail: Vec<char>,
    tail_bytes: usize,
    scanned: usize,
    cwd: Option<Vec<char>>,
    pending: Option<(Vec<char>, Vec<char>)>,
}

pub open spec fn opt_chars(o: Option<Vec<char>>) -> Option<Seq<char>> {
    match o {
        Some(v) => Some(v@),
        None => None,
    }
}

pub open spec fn opt_pair(o: Option<(Vec<char>, Vec<char>)>) -> Option<(Seq<char>, Seq<char>)> {
    match o {
        Some(p) => Some((p.0@, p.1@)),
        None => None,
    }
}

impl View for OutputTracker {
    type V = TrackerView;

    closed spec fn view(&self) -> TrackerView {
        TrackerView {
            tail: self.tail@,
            scanned: self.scanned as nat,
            cwd: opt_chars(self.cwd),
            pending: opt_pair(self.pending),
        }
    }
}

/// Well-formed tracker states: every complete line has been consumed and
/// the retained tail is within `MAX_TAIL` bytes.
pub open spec fn view_wf(v: TrackerView) -> bool {
    &&& v.scanned <= v.tail.len()
    &&& find_char(v.tail.skip(v.scanned as int), '\n') is None
    &&& byte_len(v.tail) <= MAX_TAIL
}

pub proof fn lemma_encode_concat(a: Seq<char>, b: Seq<char>)
    ensures
        encode_utf8(a + b) == encode_utf8(a) + encode_utf8(b),
    decreases a.len(),
{
    if a.len() == 0 {
        assert(a + b == b);
        assert(encode_utf8(a) =~= Seq::<u8>::empty());
        assert(encode_utf8(a) + encode_utf8(b) =~= encode_utf8(b));
    } else {
        assert((a + b).drop_first() == a.drop_first() + b);
        assert((a + b)[0] == a[0]);
        lemma_encode_concat(a.drop_first(), b);
        assert(encode_utf8(a + b) =~= encode_utf8(a) + encode_utf8(b));
    }
}

/// The UTF-8 width of one character.
pub fn utf8_width(c: char) -> (w: usize)
    ensures
        w == encode_scalar(c as u32).len(),
        1 <= w <= 4,
{
    let u = c as u32;
    proof {
        vstd::utf8::char_is_scalar(c);
    }
    if u <= 0x7f {
        1
    } else if u <= 0x7ff {
        2
    } else if u <= 0xffff {
        3
    } else {
        4
    }
}

pub proof fn lemma_byte_len_push(s: Seq<char>, c: char)
    ensures
        byte_len(s.push(c)) == byte_len(s) + encode_scalar(c as u32).len(),
{
    lemma_encode_concat(s, seq![c]);
    assert(s.push(c) == s + seq![c]);
    assert(seq![c].drop_first() =~= Seq::<char>::empty());
    assert(encode_utf8(seq![c]) =~= encode_scalar(c as u32) + encode_utf8(Seq::<char>::empty()));
}

/// Prefix byte lengths grow strictly with the number of characters.
pub proof fn lemma_byte_len_take_increasing(s: Seq<char>, i: int, j: int)
    requires
        0 <= i < j <= s.len(),
    ensures
        byte_len(s.take(i)) < byte_len(s.take(j)),
    decreases j - i,
{
    assert(s.take(j) == s.take(j - 1).push(s[j - 1]));
    lemma_byte_len_push(s.take(j - 1), s[j - 1]);
    vstd::utf8::char_is_scalar(s[j - 1]);
    if i < j - 1 {
        lemma_byte_len_take_increasing(s, i, j - 1);
    }
}

pub proof fn lemma_byte_len_take_le(s: Seq<char>, i: int)
    requires
        0 <= i <= s.len(),
    ensures
        byte_len(s.take(i)) <= byte_len(s),
{
    assert(s.take(s.len() as int) == s);
    if i < s.len() {
        lemma_byte_len_take_increasing(s, i, s.len() as int);
    }
}

pub proof fn lemma_complete_lines_step(s: Seq<char>, i: int)
    requires
        find_char(s, '\n') == Some(i),
    ensures
        complete_lines(s) == seq![s.take(i)] + complete_lines(s.skip(i + 1)),
        unterminated(s) == unterminated(s.skip(i + 1)),
{
}

pub proof fn lemma_complete_lines_none(s: Seq<char>)
    requires
        find_char(s, '\n') is None,
    ensures
        complete_lines(s) == Seq::<Seq<char>>::empty(),
        unterminated(s) == s,
{
}

impl OutputTracker {
    /// The abstract state is well formed.
    pub closed spec fn wf(&self) -> bool {
        &&& view_wf(self@)
        &&& self.tail_bytes == byte_len(self.tail@)
    }

    /// The abstract state of a well-formed tracker is well formed, so the
    /// laws on tracker states (`lemma_push_split`, `lemma_push_nothing`)
    /// apply to it.
    pub proof fn lemma_wf_view(&self)
        requires
            self.wf(),
        ensures
            view_wf(self@),
    {
    }

    /// A tracker that has seen no output.
    pub fn new() -> (t: Self)
        ensures
            t.wf(),
            t@.tail == Seq::<char>::empty(),
            t@.scanned == 0,
            t@.cwd is None,
            t@.pending is None,
    {
        let t = OutputTracker {
            tail: Vec::new(),
            tail_bytes: 0,
            scanned: 0,
            cwd: None,
            pending: None,
        };
        proof {
            assert(t.tail@ == Seq::<char>::empty());
            assert(t.tail@.skip(0) =~= Seq::<char>::empty());
            assert(encode_utf8(Seq::<char>::empty()) =~= Seq::<u8>::empty());
        }
        t
    }

    /// Directory of the most recent prompt line seen (including prompts with
    /// an empty command).
    pub fn cwd(&self) -> (r: Option<String>)
        ensures
            match r {
                Some(s) => self@.cwd == Some(s@),
                None => self@.cwd is None,
            },
    {
        match &self.cwd {
            Some(v) => Some(string_of(v)),
            None => None,
        }
    }

    /// Whether `push(decoded)` keeps the retained tail on a character
    /// boundary; the retained tail is cut by bytes.
    pub fn can_push(&self, decoded: &str) -> (b: bool)
        requires
            self.wf(),
        ensures
            b == push_allowed(self@, decoded@),
    {
        let dv = chars_of(decoded);
        let mut full = self.tail.clone();
        assert(full@ == self.tail@);
        let total = append_counting(&mut full, self.tail_bytes as u128, &dv);
        if total <= MAX_TAIL as u128 {
            true
        } else {
            find_cut(&full, total - MAX_TAIL as u128).is_some()
        }
    }

    /// Feeds decoded output and returns the newly recognised
    /// `(directory, command)` pairs, in order.
    ///
    /// Complete lines are consumed one at a time: a prompt line refreshes the
    /// directory; an echo line `PS <path>> <command>` starts a command; a
    /// `>> ` continuation line extends it; any other line ends it and records
    /// it. At most `MAX_TAIL` bytes of output are retained afterwards.
    pub fn push(&mut self, decoded: &str) -> (recorded: Vec<(String, String)>)
        requires
            old(self).wf(),
            push_allowed(old(self)@, decoded@),
        ensures
            final(self).wf(),
            final(self)@ == push_result(old(self)@, decoded@).0,
            pairs_view(recorded@) == push_result(old(self)@, decoded@).1,
    {
        let ghost v0 = self@;
        let dv = chars_of(decoded);
        let total = append_counting(&mut self.tail, self.tail_bytes as u128, &dv);
        let ghost full = self.tail@;
        let ghost rest0 = full.skip(v0.scanned as int);
        let ghost mut done: Seq<Seq<char>> = Seq::empty();
        let mut recorded: Vec<(String, String)> = Vec::new();
        proof {
            assert(done + complete_lines(rest0) == complete_lines(rest0));
            assert(pairs_view(recorded@) =~= Seq::<(Seq<char>, Seq<char>)>::empty());
            assert(full.len() >= v0.tail.len());
        }
        loop
            invariant_except_break
                self.tail@ == full,
                v0.scanned <= self.scanned <= full.len(),
                complete_lines(rest0) == done + complete_lines(full.skip(self.scanned as int)),
                unterminated(rest0) == unterminated(full.skip(self.scanned as int)),
                (opt_chars(self.cwd), opt_pair(self.pending), pairs_view(recorded@)) == run_lines(
                    v0.cwd,
                    v0.pending,
                    done,
                ),
            ensures
                self.tail@ == full,
                v0.scanned <= self.scanned <= full.len(),
                complete_lines(rest0) == done,
                unterminated(rest0) == full.skip(self.scanned as int),
                (opt_chars(self.cwd), opt_pair(self.pending), pairs_view(recorded@)) == run_lines(
                    v0.cwd,
                    v0.pending,
                    done,
                ),
            decreases full.len() - self.scanned,
        {
            let ghost cur = full.skip(self.scanned as int);
            let j = match find_char_from(&self.tail, self.scanned, '\n') {
                Some(j) => j,
                None => {
                    proof {
                        lemma_complete_lines_none(cur);
                        assert(done + Seq::<Seq<char>>::empty() == done);
                    }
                    break;
                },
            };
            let line = sub_chars(&self.tail, self.scanned, j);
            proof {
                let i = j - self.scanned;
                lemma_complete_lines_step(cur, i);
                assert(cur.take(i) == line@);
                assert(cur.skip(i + 1) == full.skip(j + 1));
                assert(done + (seq![line@] + complete_lines(full.skip(j + 1))) == done.push(line@)
                    + complete_lines(full.skip(j + 1)));
            }
            let stripped = strip_ansi_chars(&line);
            let cl = trim_end_char_len(&stripped, stripped.len(), '\r');
            assert(stripped@.take(stripped.len() as int) == stripped@);
            let s = sub_chars(&stripped, 0, cl);
            assert(s@ == cleaned_line(line@));
            let ghost prev = run_lines(v0.cwd, v0.pending, done);
            let ghost pend0 = opt_pair(self.pending);
            match prompt_line_path_chars(&s) {
                Some(p) => {
                    self.cwd = Some(p);
                },
                None => {},
            }
            match prompt_command_chars(&s) {
                Some(pc) => {
                    self.pending = Some(pc);
                },
                None => {
                    if starts_with3(&s, '>', '>', ' ') {
                        match self.pending.take() {
                            Some((p, c)) => {
                                let mut c2 = c;
                                c2.push('\n');
                                extend_chars(&mut c2, &s, 3);
                                self.pending = Some((p, c2));
                            },
                            None => {},
                        }
                    } else {
                        match self.pending.take() {
                            Some((p, c)) => {
                                let ps = string_of(&p);
                                let cs = string_of(&c);
                                let ghost before = recorded@;
                                recorded.push((ps, cs));
                                proof {
                                    assert(pairs_view(recorded@) =~= pairs_view(before).push(
                                        (p@, c@),
                                    ));
                                }
                            },
                            None => {},
                        }
                    }
                },
            }
            proof {
                let done2 = done.push(line@);
                assert(done2.drop_last() == done);
                assert(done2.last() == line@);
                done = done2;
            }
            self.scanned = j + 1;
        }
        proof {
            lemma_unterminated_no_newline(rest0);
        }
        if total > MAX_TAIL as u128 {
            let cut = total - MAX_TAIL as u128;
            let k = match find_cut(&self.tail, cut) {
                Some(k) => k,
                None => {
                    proof {
                        assert(false);
                    }
                    0
                },
            };
            proof {
                let b = (byte_len(full) - MAX_TAIL) as nat;
                let kc = cut_index(full, b);
                assert(has_cut(full, b));
                if kc < k {
                    lemma_byte_len_take_increasing(full, kc, k as int);
                } else if kc > k {
                    lemma_byte_len_take_increasing(full, k as int, kc);
                }
                assert(kc == k);
                assert(full == full.take(k as int) + full.skip(k as int));
                lemma_encode_concat(full.take(k as int), full.skip(k as int));
            }
            let n = self.tail.len();
            let new_tail = sub_chars(&self.tail, k, n);
            assert(new_tail@ == full.skip(k as int));
            let ghost sc = self.scanned;
            if k <= self.scanned {
                self.scanned = self.scanned - k;
                assert(new_tail@.skip(self.scanned as int) == full.skip(sc as int));
            } else {
                self.scanned = 0;
                proof {
                    let u = full.skip(sc as int);
                    crate::text::lemma_find_char_bounds(u, '\n');
                    assert forall|m: int| 0 <= m < new_tail@.len() implies new_tail@[m] != '\n' by {
                        assert(new_tail@[m] == u[k - sc + m]);
                    }
                    crate::text::lemma_find_char_none(new_tail@, '\n');
                    assert(new_tail@.skip(0) == new_tail@);
                }
            }
            self.tail = new_tail;
            self.tail_bytes = MAX_TAIL;
        } else {
            self.tail_bytes = total as usize;
        }
        recorded
    }
}

/// Appends `src` to `dst`, returning the UTF-8 length of the result given
/// that of `dst`.
fn append_counting(dst: &mut Vec<char>, dst_bytes: u128, src: &[char]) -> (total: u128)
    requires
        dst_bytes == byte_len(old(dst)@),
    ensures
        final(dst)@ == old(dst)@ + src@,
        total == byte_len(final(dst)@),
{
    proof {
        lemma_byte_len_bounds(old(dst)@);
    }
    let mut total = dst_bytes;
    let mut i: usize = 0;
    assert(src@.take(0) =~= Seq::<char>::empty());
    assert(old(dst)@ + Seq::<char>::empty() == old(dst)@);
    while i < src.len()
        invariant
            i <= src.len(),
            dst@ == old(dst)@ + src@.take(i as int),
            total == byte_len(dst@),
            total <= 4 * dst@.len(),
            dst@.len() == old(dst)@.len() + i,
        decreases src.len() - i,
    {
        let w = utf8_width(src[i]);
        proof {
            lemma_byte_len_push(dst@, src@[i as int]);
            assert(src@.take(i + 1) == src@.take(i as int).push(src@[i as int]));
            assert(dst@.push(src@[i as int]) == old(dst)@ + src@.take(i + 1));
        }
        dst.push(src[i]);
        let len_now = dst.len();
        assert(len_now as int == dst@.len());
        total = total + w as u128;
        i += 1;
    }
    assert(src@.take(src.len() as int) == src@);
    total
}

/// Finds how many leading characters of `v` make up exactly `cut` bytes.
fn find_cut(v: &Vec<char>, cut: u128) -> (r: Option<usize>)
    requires
        cut <= byte_len(v@),
    ensures
        match r {
            Some(k) => k <= v@.len() && byte_len(v@.take(k as int)) == cut,
            None => !has_cut(v@, cut as nat),
        },
{
    let mut acc: u128 = 0;
    let mut k: usize = 0;
    assert(v@.take(0) =~= Seq::<char>::empty());
    assert(encode_utf8(Seq::<char>::empty()) =~= Seq::<u8>::empty());
    proof {
        lemma_byte_len_bounds(v@);
    }
    while acc < cut
        invariant
            k <= v@.len(),
            acc == byte_len(v@.take(k as int)),
            cut <= byte_len(v@),
            byte_len(v@) <= 4 * v@.len(),
            forall|m: int| 0 <= m < k ==> byte_len(#[trigger] v@.take(m)) < cut,
        decreases v@.len() - k,
    {
        if k == v.len() {
            assert(v@.take(k as int) == v@);
            assert(false);
        }
        let w = utf8_width(v[k]);
        proof {
            assert(v@.take(k + 1) == v@.take(k as int).push(v@[k as int]));
            lemma_byte_len_push(v@.take(k as int), v@[k as int]);
            lemma_byte_len_take_le(v@, k + 1);
        }
        acc = acc + w as u128;
        k += 1;
    }
    if acc == cut {
        Some(k)
    } else {
        proof {
            assert forall|m: int| 0 <= m <= v@.len() implies #[trigger] byte_len(v@.take(m)) != cut by {
                if m > k {
                    lemma_byte_len_take_increasing(v@, k as int, m);
                }
            }
        }
        None
    }
}

pub proof fn lemma_byte_len_bounds(s: Seq<char>)
    ensures
        s.len() <= byte_len(s) <= 4 * s.len(),
    decreases s.len(),
{
    if s.len() == 0 {
        assert(encode_utf8(s) =~= Seq::<u8>::empty());
    } else {
        lemma_byte_len_bounds(s.drop_last());
        assert(s == s.drop_last().push(s.last()));
        lemma_byte_len_push(s.drop_last(), s.last());
        vstd::utf8::char_is_scalar(s.last());
    }
}

pub proof fn lemma_unterminated_no_newline(s: Seq<char>)
    ensures
        find_char(unterminated(s), '\n') is None,
    decreases s.len(),
{
    match find_char(s, '\n') {
        None => {},
        Some(i) => {
            crate::text::lemma_find_char_bounds(s, '\n');
            lemma_unterminated_no_newline(s.skip(i + 1));
        },
    }
}

proof fn lemma_find_char_prefix(x: Seq<char>, y: Seq<char>, i: int)
    requires
        find_char(x, '\n') == Some(i),
    ensures
        find_char(x + y, '\n') == Some(i),
{
    crate::text::lemma_find_char_bounds(x, '\n');
    assert forall|k: int| 0 <= k < i implies (x + y)[k] != '\n' by {
        assert((x + y)[k] == x[k]);
    }
    assert((x + y)[i] == x[i]);
    crate::text::lemma_find_char_is(x + y, '\n', i);
}

/// Splitting text at any point and scanning the two parts in turn finds the
/// same complete lines and the same unfinished line.
pub proof fn lemma_complete_lines_append(x: Seq<char>, y: Seq<char>)
    ensures
        complete_lines(x + y) == complete_lines(x) + complete_lines(unterminated(x) + y),
        unterminated(x + y) == unterminated(unterminated(x) + y),
    decreases x.len(),
{
    match find_char(x, '\n') {
        None => {
            assert(complete_lines(x) + complete_lines(x + y) == complete_lines(x + y));
        },
        Some(i) => {
            crate::text::lemma_find_char_bounds(x, '\n');
            lemma_find_char_prefix(x, y, i);
            assert((x + y).take(i) == x.take(i));
            assert((x + y).skip(i + 1) == x.skip(i + 1) + y);
            lemma_complete_lines_append(x.skip(i + 1), y);
            assert(complete_lines(x + y) == seq![x.take(i)] + complete_lines(x.skip(i + 1) + y));
            assert(seq![x.take(i)] + (complete_lines(x.skip(i + 1)) + complete_lines(
                unterminated(x.skip(i + 1)) + y,
            )) == (seq![x.take(i)] + complete_lines(x.skip(i + 1))) + complete_lines(
                unterminated(x.skip(i + 1)) + y,
            ));
        },
    }
}

/// The unfinished line of `s` is a suffix of `s`.
pub proof fn lemma_unterminated_suffix(s: Seq<char>)
    ensures
        unterminated(s).len() <= s.len(),
        unterminated(s) == s.skip(s.len() - unterminated(s).len()),
    decreases s.len(),
{
    match find_char(s, '\n') {
        None => {
            assert(s.skip(0) == s);
        },
        Some(i) => {
            crate::text::lemma_find_char_bounds(s, '\n');
            lemma_unterminated_suffix(s.skip(i + 1));
            let u = unterminated(s);
            assert(s.skip(i + 1).skip(s.len() - i - 1 - u.len()) == s.skip(s.len() - u.len()));
        },
    }
}

/// Feeding two batches of lines in turn is feeding them at once.
pub proof fn lemma_run_lines_append(
    cwd: Option<Seq<char>>,
    pending: Option<(Seq<char>, Seq<char>)>,
    l1: Seq<Seq<char>>,
    l2: Seq<Seq<char>>,
)
    ensures
        ({
            let r1 = run_lines(cwd, pending, l1);
            let r2 = run_lines(r1.0, r1.1, l2);
            run_lines(cwd, pending, l1 + l2) == (r2.0, r2.1, r1.2 + r2.2)
        }),
    decreases l2.len(),
{
    let r1 = run_lines(cwd, pending, l1);
    if l2.len() == 0 {
        assert(l1 + l2 == l1);
        assert(r1.2 + Seq::<(Seq<char>, Seq<char>)>::empty() == r1.2);
    } else {
        assert((l1 + l2).drop_last() == l1 + l2.drop_last());
        assert((l1 + l2).last() == l2.last());
        lemma_run_lines_append(cwd, pending, l1, l2.drop_last());
        let r2p = run_lines(r1.0, r1.1, l2.drop_last());
        let sline = cleaned_line(l2.last());
        match finished_command(r2p.1, sline) {
            Some(c) => {
                assert(r1.2 + r2p.2.push(c) == (r1.2 + r2p.2).push(c));
            },
            None => {},
        }
    }
}

/// Output may arrive in any split: as long as nothing has to be dropped
/// from the retained tail, pushing `a` and then `b` records the same
/// commands, in the same order, and ends in the same state as pushing `a`
/// followed by `b` at once.
pub proof fn lemma_push_split(v: TrackerView, a: Seq<char>, b: Seq<char>)
    requires
        view_wf(v),
        byte_len(v.tail + a + b) <= MAX_TAIL,
    ensures
        ({
            let first = push_result(v, a);
            let second = push_result(first.0, b);
            let whole = push_result(v, a + b);
            second.0 == whole.0 && first.1 + second.1 == whole.1
        }),
{
    let full1 = v.tail + a;
    let full2 = full1 + b;
    assert(v.tail + (a + b) == full2);
    lemma_encode_concat(full1, b);
    let rest1 = full1.skip(v.scanned as int);
    assert(rest1 == v.tail.skip(v.scanned as int) + a);
    let rest = full2.skip(v.scanned as int);
    assert(rest == rest1 + b);
    lemma_unterminated_suffix(rest1);
    let u1 = unterminated(rest1);
    let sc1 = full1.len() - u1.len();
    assert(full1.skip(sc1) == u1);
    let rest2 = full2.skip(sc1);
    assert(rest2 == u1 + b);
    lemma_complete_lines_append(rest1, b);
    let r1 = run_lines(v.cwd, v.pending, complete_lines(rest1));
    lemma_run_lines_append(v.cwd, v.pending, complete_lines(rest1), complete_lines(u1 + b));
    let first = push_result(v, a);
    assert(first.0.tail == full1);
    assert(first.0.scanned == sc1);
    assert(first.0.cwd == r1.0 && first.0.pending == r1.1);
}

/// Pushing no output changes nothing and records nothing: lines already
/// consumed are never processed twice.
pub proof fn lemma_push_nothing(v: TrackerView)
    requires
        view_wf(v),
    ensures
        push_result(v, Seq::empty()).0 == v,
        push_result(v, Seq::empty()).1 == Seq::<(Seq<char>, Seq<char>)>::empty(),
{
    let full = v.tail + Seq::<char>::empty();
    assert(full == v.tail);
    let rest = v.tail.skip(v.scanned as int);
    lemma_complete_lines_none(rest);
}

/// The text after the last line break is empty when the text ends with
/// one.
proof fn lemma_unterminated_after_newline(u: Seq<char>)
    requires
        u.len() > 0,
        u.last() == '\n',
    ensures
        unterminated(u) == Seq::<char>::empty(),
{
    let x = u.drop_last();
    assert(u =~= x + seq!['\n']);
    lemma_complete_lines_append(x, seq!['\n']);
    let w = unterminated(x);
    lemma_unterminated_no_newline(x);
    let wn = w + seq!['\n'];
    assert(wn[w.len() as int] == '\n');
    crate::text::lemma_find_char_bounds(w, '\n');
    assert forall|k: int| 0 <= k < w.len() implies wn[k] != '\n' by {
        assert(wn[k] == w[k]);
    }
    crate::text::lemma_find_char_is(wn, '\n', w.len() as int);
    assert(wn.skip(w.len() as int + 1) =~= Seq::<char>::empty());
    assert(find_char(Seq::<char>::empty(), '\n') is None);
    assert(unterminated(Seq::<char>::empty()) =~= Seq::<char>::empty());
    assert(unterminated(wn) == unterminated(wn.skip(w.len() as int + 1)));
    assert(unterminated(x + seq!['\n']) == unterminated(wn));
}

/// Every prompt line refreshes the directory: after pushing output whose
/// last complete line is a prompt line for `p` (a line that starts after a
/// line break or at the start of the unconsumed output, holds no escape
/// sequence and does not end in a carriage return), the tracker's directory
/// is `p`, whatever directory it held before.
pub proof fn lemma_prompt_refreshes_cwd(v: TrackerView, a: Seq<char>, line: Seq<char>, p: Seq<char>)
    requires
        v.scanned <= v.tail.len(),
        ({
            let u = v.tail.skip(v.scanned as int) + a;
            u.len() == 0 || u.last() == '\n'
        }),
        forall|k: int| 0 <= k < line.len() ==> line[k] != '\n' && line[k] != crate::ansi::esc(),
        line.len() > 0 ==> line.last() != '\r',
        prompt_line_path(line) == Some(p),
    ensures
        push_result(v, a + line + seq!['\n']).0.cwd == Some(p),
{
    let full = v.tail + (a + line + seq!['\n']);
    let u = v.tail.skip(v.scanned as int) + a;
    let ln = line + seq!['\n'];
    assert(full.skip(v.scanned as int) =~= u + ln);
    lemma_complete_lines_append(u, ln);
    if u.len() == 0 {
        assert(unterminated(u) =~= Seq::<char>::empty()) by {
            assert(find_char(u, '\n') is None);
        }
    } else {
        lemma_unterminated_after_newline(u);
    }
    assert(unterminated(u) + ln =~= ln);
    assert(ln[line.len() as int] == '\n');
    crate::text::lemma_find_char_is(ln, '\n', line.len() as int);
    assert(ln.take(line.len() as int) =~= line);
    assert(ln.skip(line.len() as int + 1) =~= Seq::<char>::empty());
    assert(find_char(Seq::<char>::empty(), '\n') is None);
    assert(complete_lines(Seq::<char>::empty()) =~= Seq::<Seq<char>>::empty());
    assert(complete_lines(ln) == seq![ln.take(line.len() as int)] + complete_lines(
        ln.skip(line.len() as int + 1),
    ));
    assert(complete_lines(ln) =~= seq![line]);
    let lines = complete_lines(u) + seq![line];
    assert(lines.last() == line);
    assert(lines.drop_last() =~= complete_lines(u));
    crate::ansi::lemma_strip_ansi_plain(line);
    assert(line.len() > 0) by {
        if line.len() == 0 {
            assert(prompt_body(line) is None) by {
                assert(!has_prefix(line, seq!['P', 'S', ' ']));
                assert(!has_prefix(line, seq!['P', 'S', '\t']));
            }
        }
    }
    assert(cleaned_line(line) == line);
}

} // verus!
