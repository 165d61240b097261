//! Removal of ANSI escape sequences from terminal output.

use vstd::prelude::*;
use crate::text::{chars_of, string_of};

verus! {

/// The escape character that opens every ANSI sequence.
pub open spec fn esc() -> char {
    '\x1b'
}

/// A CSI sequence ends at its first character in `@`..=`~`.
pub open spec fn is_csi_final(c: char) -> bool {
    0x40 <= (c as u32) <= 0x7e
}

/// What follows a CSI body: everything after its final character
/// (nothing, when the body never ends).
pub open spec fn after_csi(s: Seq<char>) -> Seq<char>
    decreases s.len(),
{
    if s.len() == 0 {
        s
    } else if is_csi_final(s[0]) {
        s.drop_first()
    } else {
        after_csi(s.drop_first())
    }
}

/// What follows an OSC body: everything after the terminating BEL or
/// `ESC \`. Any other character after an ESC inside the body is consumed
/// together with that ESC.
pub open spec fn after_osc(s: Seq<char>) -> Seq<char>
    decreases s.len(),
{
    if s.len() == 0 {
        s
    } else if s[0] == '\x07' {
        s.drop_first()
    } else if s[0] == esc() {
        if s.len() < 2 {
            Seq::empty()
        } else if s[1] == '\\' {
            s.skip(2)
        } else {
            after_osc(s.skip(2))
        }
    } else {
        after_osc(s.drop_first())
    }
}

pub proof fn lemma_after_csi_len(s: Seq<char>)
    ensures
        after_csi(s).len() <= s.len(),
        after_csi(s) == s.skip(s.len() - after_csi(s).len()),
    decreases s.len(),
{
    if s.len() > 0 && !is_csi_final(s[0]) {
        lemma_after_csi_len(s.drop_first());
        assert(s.drop_first().skip(s.len() - 1 - after_csi(s).len()) == s.skip(
            s.len() - after_csi(s).len(),
        ));
    } else if s.len() == 0 {
        assert(s.skip(0) == s);
    }
}

pub proof fn lemma_after_osc_len(s: Seq<char>)
    ensures
        after_osc(s).len() <= s.len(),
        after_osc(s) == s.skip(s.len() - after_osc(s).len()),
    decreases s.len(),
{
    if s.len() == 0 {
        assert(s.skip(0) == s);
    } else if s[0] == '\x07' {
    } else if s[0] == esc() {
        if s.len() < 2 {
            assert(s.skip(s.len() as int) == Seq::<char>::empty());
        } else if s[1] == '\\' {
        } else {
            lemma_after_osc_len(s.skip(2));
            assert(s.skip(2).skip(s.len() - 2 - after_osc(s).len()) == s.skip(
                s.len() - after_osc(s).len(),
            ));
        }
    } else {
        lemma_after_osc_len(s.drop_first());
        assert(s.drop_first().skip(s.len() - 1 - after_osc(s).len()) == s.skip(
            s.len() - after_osc(s).len(),
        ));
    }
}

/// The plain text of `s`: CSI (`ESC [ ... final`) and OSC (`ESC ] ... BEL`
/// or `ESC ] ... ESC \`) sequences are removed; any other ESC is dropped on
/// its own and the character after it is kept.
pub open spec fn strip_ansi_text(s: Seq<char>) -> Seq<char>
    decreases s.len(),
{
    if s.len() == 0 {
        s
    } else if s[0] != esc() {
        seq![s[0]] + strip_ansi_text(s.drop_first())
    } else if s.len() >= 2 && s[1] == '[' {
        proof {
            lemma_after_csi_len(s.skip(2));
        }
        strip_ansi_text(after_csi(s.skip(2)))
    } else if s.len() >= 2 && s[1] == ']' {
        proof {
            lemma_after_osc_len(s.skip(2));
        }
        strip_ansi_text(after_osc(s.skip(2)))
    } else {
        strip_ansi_text(s.drop_first())
    }
}

/// Stripped output never contains an escape character.
pub proof fn lemma_strip_ansi_no_escape(s: Seq<char>)
    ensures
        forall|i: int| 0 <= i < strip_ansi_text(s).len() ==> strip_ansi_text(s)[i] != esc(),
    decreases s.len(),
{
    if s.len() == 0 {
    } else if s[0] != esc() {
        lemma_strip_ansi_no_escape(s.drop_first());
        let t = strip_ansi_text(s.drop_first());
        assert forall|i: int| 0 <= i < strip_ansi_text(s).len() implies strip_ansi_text(s)[i]
            != esc() by {
            assert(strip_ansi_text(s) == seq![s[0]] + t);
            if i > 0 {
                assert(strip_ansi_text(s)[i] == t[i - 1]);
            } else {
                assert(strip_ansi_text(s)[0] == s[0]);
            }
        }
    } else if s.len() >= 2 && s[1] == '[' {
        lemma_after_csi_len(s.skip(2));
        lemma_strip_ansi_no_escape(after_csi(s.skip(2)));
        assert(strip_ansi_text(s) == strip_ansi_text(after_csi(s.skip(2))));
    } else if s.len() >= 2 && s[1] == ']' {
        lemma_after_osc_len(s.skip(2));
        lemma_strip_ansi_no_escape(after_osc(s.skip(2)));
        assert(strip_ansi_text(s) == strip_ansi_text(after_osc(s.skip(2))));
    } else {
        lemma_strip_ansi_no_escape(s.drop_first());
        assert(strip_ansi_text(s) == strip_ansi_text(s.drop_first()));
    }
}

/// Text without escape characters passes through unchanged.
pub proof fn lemma_strip_ansi_plain(s: Seq<char>)
    requires
        forall|i: int| 0 <= i < s.len() ==> s[i] != esc(),
    ensures
        strip_ansi_text(s) == s,
    decreases s.len(),
{
    if s.len() > 0 {
        assert(s[0] != esc());
        assert forall|i: int| 0 <= i < s.drop_first().len() implies s.drop_first()[i] != esc() by {
            assert(s.drop_first()[i] == s[i + 1]);
        }
        lemma_strip_ansi_plain(s.drop_first());
        assert(seq![s[0]] + s.drop_first() == s);
    }
}

proof fn lemma_after_csi_complete(params: Seq<char>, f: char, rest: Seq<char>)
    requires
        forall|i: int| 0 <= i < params.len() ==> !is_csi_final(params[i]),
        is_csi_final(f),
    ensures
        after_csi(params + seq![f] + rest) == rest,
    decreases params.len(),
{
    let s = params + seq![f] + rest;
    if params.len() == 0 {
        assert(s =~= seq![f] + rest);
        assert(s.drop_first() =~= rest);
    } else {
        assert(s[0] == params[0]);
        assert(s.drop_first() =~= params.drop_first() + seq![f] + rest);
        assert forall|i: int| 0 <= i < params.drop_first().len() implies !is_csi_final(
            params.drop_first()[i],
        ) by {
            assert(params.drop_first()[i] == params[i + 1]);
        }
        lemma_after_csi_complete(params.drop_first(), f, rest);
    }
}

proof fn lemma_after_osc_complete(title: Seq<char>, rest: Seq<char>)
    requires
        forall|i: int| 0 <= i < title.len() ==> title[i] != '\x07' && title[i] != esc(),
    ensures
        after_osc(title + seq!['\x07'] + rest) == rest,
    decreases title.len(),
{
    let s = title + seq!['\x07'] + rest;
    if title.len() == 0 {
        assert(s =~= seq!['\x07'] + rest);
        assert(s.drop_first() =~= rest);
    } else {
        assert(s[0] == title[0]);
        assert(s.drop_first() =~= title.drop_first() + seq!['\x07'] + rest);
        assert forall|i: int| 0 <= i < title.drop_first().len() implies title.drop_first()[i]
            != '\x07' && title.drop_first()[i] != esc() by {
            assert(title.drop_first()[i] == title[i + 1]);
        }
        lemma_after_osc_complete(title.drop_first(), rest);
    }
}

/// A complete CSI sequence (`ESC [`, parameters, a final character in
/// `@`..=`~`) disappears wherever it stands: colouring a prompt does not
/// change its text.
pub proof fn lemma_strip_csi(params: Seq<char>, f: char, rest: Seq<char>)
    requires
        forall|i: int| 0 <= i < params.len() ==> !is_csi_final(params[i]),
        is_csi_final(f),
    ensures
        strip_ansi_text(seq![esc(), '['] + params + seq![f] + rest) == strip_ansi_text(rest),
{
    let s = seq![esc(), '['] + params + seq![f] + rest;
    assert(s.skip(2) =~= params + seq![f] + rest);
    lemma_after_csi_complete(params, f, rest);
}

/// A terminal-title sequence (`ESC ]`, a title without BEL or ESC, BEL)
/// disappears wherever it stands.
pub proof fn lemma_strip_osc_title(title: Seq<char>, rest: Seq<char>)
    requires
        forall|i: int| 0 <= i < title.len() ==> title[i] != '\x07' && title[i] != esc(),
    ensures
        strip_ansi_text(seq![esc(), ']'] + title + seq!['\x07'] + rest) == strip_ansi_text(rest),
{
    let s = seq![esc(), ']'] + title + seq!['\x07'] + rest;
    assert(s.skip(2) =~= title + seq!['\x07'] + rest);
    lemma_after_osc_complete(title, rest);
}

/// `a` is `b` with some of its characters left out (order kept).
pub open spec fn is_subsequence(a: Seq<char>, b: Seq<char>) -> bool
    decreases b.len(),
{
    if a.len() == 0 {
        true
    } else if b.len() == 0 {
        false
    } else if a[0] == b[0] {
        is_subsequence(a.drop_first(), b.drop_first())
    } else {
        is_subsequence(a, b.drop_first())
    }
}

proof fn lemma_subsequence_len(a: Seq<char>, b: Seq<char>)
    requires
        is_subsequence(a, b),
    ensures
        a.len() <= b.len(),
    decreases b.len(),
{
    if a.len() > 0 && b.len() > 0 {
        if a[0] == b[0] {
            lemma_subsequence_len(a.drop_first(), b.drop_first());
        } else {
            lemma_subsequence_len(a, b.drop_first());
        }
    }
}

proof fn lemma_subsequence_of_suffix(a: Seq<char>, b: Seq<char>, k: int)
    requires
        0 <= k <= b.len(),
        is_subsequence(a, b.skip(k)),
    ensures
        is_subsequence(a, b),
    decreases k,
{
    if k == 0 {
        assert(b.skip(0) =~= b);
    } else {
        assert(b.drop_first().skip(k - 1) =~= b.skip(k));
        lemma_subsequence_of_suffix(a, b.drop_first(), k - 1);
        lemma_subsequence_skip_one(a, b);
    }
}

proof fn lemma_subsequence_drop(a: Seq<char>, c: Seq<char>)
    requires
        a.len() > 0,
        is_subsequence(a, c),
    ensures
        is_subsequence(a.drop_first(), c),
    decreases c.len(), 1int,
{
    if c.len() > 0 {
        if a[0] == c[0] {
            lemma_subsequence_skip_one(a.drop_first(), c);
        } else {
            lemma_subsequence_drop(a, c.drop_first());
            lemma_subsequence_skip_one(a.drop_first(), c);
        }
    }
}

proof fn lemma_subsequence_skip_one(a: Seq<char>, b: Seq<char>)
    requires
        b.len() > 0,
        is_subsequence(a, b.drop_first()),
    ensures
        is_subsequence(a, b),
    decreases b.len(), 0int,
{
    if a.len() > 0 && a[0] == b[0] {
        lemma_subsequence_drop(a, b.drop_first());
    }
}

/// Stripping only leaves characters out: the plain text is a subsequence
/// of the output it came from, and no longer than it.
pub proof fn lemma_strip_ansi_subsequence(s: Seq<char>)
    ensures
        is_subsequence(strip_ansi_text(s), s),
        strip_ansi_text(s).len() <= s.len(),
    decreases s.len(),
{
    if s.len() == 0 {
    } else if s[0] != esc() {
        lemma_strip_ansi_subsequence(s.drop_first());
        let t = seq![s[0]] + strip_ansi_text(s.drop_first());
        assert(t.drop_first() =~= strip_ansi_text(s.drop_first()));
    } else if s.len() >= 2 && s[1] == '[' {
        lemma_after_csi_len(s.skip(2));
        let r = after_csi(s.skip(2));
        let k = s.len() - r.len();
        assert(r =~= s.skip(k));
        lemma_strip_ansi_subsequence(r);
        lemma_subsequence_of_suffix(strip_ansi_text(s), s, k);
    } else if s.len() >= 2 && s[1] == ']' {
        lemma_after_osc_len(s.skip(2));
        let r = after_osc(s.skip(2));
        let k = s.len() - r.len();
        assert(r =~= s.skip(k));
        lemma_strip_ansi_subsequence(r);
        lemma_subsequence_of_suffix(strip_ansi_text(s), s, k);
    } else {
        lemma_strip_ansi_subsequence(s.drop_first());
        assert(s.skip(1) =~= s.drop_first());
        lemma_subsequence_of_suffix(strip_ansi_text(s), s, 1);
    }
    lemma_subsequence_len(strip_ansi_text(s), s);
}

/// Stripping twice is stripping once.
pub proof fn lemma_strip_ansi_idempotent(s: Seq<char>)
    ensures
        strip_ansi_text(strip_ansi_text(s)) == strip_ansi_text(s),
{
    lemma_strip_ansi_no_escape(s);
    lemma_strip_ansi_plain(strip_ansi_text(s));
}

/// Removes ANSI sequences from a character vector.
pub fn strip_ansi_chars(v: &[char]) -> (out: Vec<char>)
    ensures
        out@ == strip_ansi_text(v@),
{
    let n = v.len();
    let mut out: Vec<char> = Vec::new();
    let mut i: usize = 0;
    assert(v@.skip(0) == v@);
    while i < n
        invariant
            n == v.len(),
            i <= n,
            strip_ansi_text(v@) == out@ + strip_ansi_text(v@.skip(i as int)),
        decreases n - i,
    {
        let ghost rest = v@.skip(i as int);
        assert(rest.drop_first() == v@.skip(i + 1));
        if v[i] != '\x1b' {
            out.push(v[i]);
            assert(strip_ansi_text(rest) == seq![v@[i as int]] + strip_ansi_text(v@.skip(i + 1)));
            assert(strip_ansi_text(v@) == out@ + strip_ansi_text(v@.skip(i + 1)));
            i += 1;
        } else if i + 1 < n && v[i + 1] == '[' {
            let mut j: usize = i + 2;
            assert(rest.skip(2) == v@.skip(j as int));
            while j < n && !(0x40 <= (v[j] as u32) && (v[j] as u32) <= 0x7e)
                invariant
                    n == v.len(),
                    i + 2 <= j <= n,
                    after_csi(rest.skip(2)) == after_csi(v@.skip(j as int)),
                decreases n - j,
            {
                assert(v@.skip(j as int).drop_first() == v@.skip(j + 1));
                j += 1;
            }
            if j < n {
                assert(v@.skip(j as int).drop_first() == v@.skip(j + 1));
                i = j + 1;
            } else {
                assert(v@.skip(j as int) =~= Seq::<char>::empty());
                i = n;
                assert(v@.skip(n as int) =~= Seq::<char>::empty());
            }
        } else if i + 1 < n && v[i + 1] == ']' {
            let mut j: usize = i + 2;
            let ghost i0 = i;
            assert(rest.skip(2) == v@.skip(j as int));
            loop
                invariant_except_break
                    n == v.len(),
                    i0 + 2 <= j <= n,
                    i == i0,
                    after_osc(rest.skip(2)) == after_osc(v@.skip(j as int)),
                ensures
                    i0 < i <= n,
                    after_osc(rest.skip(2)) == v@.skip(i as int),
                decreases n - j,
            {
                let ghost cur = v@.skip(j as int);
                if j >= n {
                    assert(cur =~= Seq::<char>::empty());
                    i = n;
                    assert(v@.skip(n as int) =~= Seq::<char>::empty());
                    break;
                }
                let c = v[j];
                if c == '\x07' {
                    assert(cur.drop_first() == v@.skip(j + 1));
                    i = j + 1;
                    break;
                } else if c == '\x1b' {
                    if j + 1 < n {
                        assert(cur.skip(2) == v@.skip(j + 2));
                        if v[j + 1] == '\\' {
                            i = j + 2;
                            break;
                        }
                        j += 2;
                    } else {
                        i = n;
                        assert(v@.skip(n as int) =~= Seq::<char>::empty());
                        break;
                    }
                } else {
                    assert(cur.drop_first() == v@.skip(j + 1));
                    j += 1;
                }
            }
        } else {
            i += 1;
        }
    }
    assert(v@.skip(n as int) =~= Seq::<char>::empty());
    out
}

/// Removes ANSI escape sequences from terminal output, keeping plain text.
///
/// Handles CSI (`ESC [ ... final byte`) and OSC (`ESC ] ... BEL|ESC \`);
/// for any other `ESC` prefix only the `ESC` itself is dropped.
pub fn strip_ansi(text: &str) -> (out: String)
    ensures
        out@ == strip_ansi_text(text@),
{
    let v = chars_of(text);
    let r = strip_ansi_chars(&v);
    string_of(&r)
}

} // verus!
