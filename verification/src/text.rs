//! Character-sequence helpers shared by the parsers, with their models.

use vstd::prelude::*;

verus! {

/// Text view of an optional string.
pub open spec fn opt_text(o: Option<String>) -> Option<Seq<char>> {
    match o {
        Some(s) => Some(s@),
        None => None,
    }
}

/// Text view of an optional string slice.
pub open spec fn opt_str(o: Option<&str>) -> Option<Seq<char>> {
    match o {
        Some(s) => Some(s@),
        None => None,
    }
}

/// Unicode `White_Space` property, as used by `char::is_whitespace`.
pub open spec fn is_ws(c: char) -> bool {
    let u = c as u32;
    (9 <= u <= 13) || u == 32 || u == 0x85 || u == 0xa0 || u == 0x1680 || (0x2000 <= u
        <= 0x200a) || u == 0x2028 || u == 0x2029 || u == 0x202f || u == 0x205f || u == 0x3000
}

/// Every character of `s` is whitespace (so trimming it leaves nothing).
pub open spec fn is_blank(s: Seq<char>) -> bool {
    forall|i: int| 0 <= i < s.len() ==> is_ws(#[trigger] s[i])
}

/// `s` with all trailing whitespace removed.
pub open spec fn trim_end_ws(s: Seq<char>) -> Seq<char>
    decreases s.len(),
{
    if s.len() > 0 && is_ws(s.last()) {
        trim_end_ws(s.drop_last())
    } else {
        s
    }
}

/// `s` with all leading whitespace removed.
pub open spec fn trim_start_ws(s: Seq<char>) -> Seq<char>
    decreases s.len(),
{
    if s.len() > 0 && is_ws(s[0]) {
        trim_start_ws(s.drop_first())
    } else {
        s
    }
}

/// `s` with whitespace removed at both ends.
pub open spec fn trim_ws(s: Seq<char>) -> Seq<char> {
    trim_start_ws(trim_end_ws(s))
}

/// `s` with every trailing occurrence of `c` removed.
pub open spec fn trim_end_char(s: Seq<char>, c: char) -> Seq<char>
    decreases s.len(),
{
    if s.len() > 0 && s.last() == c {
        trim_end_char(s.drop_last(), c)
    } else {
        s
    }
}

/// `s` starts with `p`.
pub open spec fn has_prefix(s: Seq<char>, p: Seq<char>) -> bool {
    p.len() <= s.len() && s.take(p.len() as int) == p
}

/// Index of the first occurrence of `c` in `s`, if any.
pub open spec fn find_char(s: Seq<char>, c: char) -> Option<int>
    decreases s.len(),
{
    if s.len() == 0 {
        None
    } else if s[0] == c {
        Some(0)
    } else {
        match find_char(s.drop_first(), c) {
            Some(i) => Some(i + 1),
            None => None,
        }
    }
}

/// One line of `s` as `str::lines` yields it: the text before a line feed,
/// with one carriage return dropped when it directly precedes that line feed.
pub open spec fn strip_cr(line: Seq<char>) -> Seq<char> {
    if line.len() > 0 && line.last() == '\r' {
        line.drop_last()
    } else {
        line
    }
}

/// The lines of `s`, split as `str::lines` splits them: at `\n` or `\r\n`;
/// a final line ending is optional and a lone `\r` at the very end is kept.
pub open spec fn lines_of(s: Seq<char>) -> Seq<Seq<char>>
    decreases s.len(),
{
    if s.len() == 0 {
        Seq::empty()
    } else {
        match find_char(s, '\n') {
            None => seq![s],
            Some(i) => {
                proof {
                    lemma_find_char_bounds(s, '\n');
                }
                seq![strip_cr(s.take(i))] + lines_of(s.skip(i + 1))
            },
        }
    }
}

pub proof fn lemma_find_char_bounds(s: Seq<char>, c: char)
    ensures
        match find_char(s, c) {
            Some(i) => 0 <= i < s.len() && s[i] == c && forall|k: int| 0 <= k < i ==> s[k] != c,
            None => forall|k: int| 0 <= k < s.len() ==> s[k] != c,
        },
    decreases s.len(),
{
    if s.len() > 0 && s[0] != c {
        lemma_find_char_bounds(s.drop_first(), c);
        match find_char(s.drop_first(), c) {
            Some(i) => {
                assert forall|k: int| 0 <= k < i + 1 implies s[k] != c by {
                    if k > 0 {
                        assert(s[k] == s.drop_first()[k - 1]);
                    }
                }
            },
            None => {
                assert forall|k: int| 0 <= k < s.len() implies s[k] != c by {
                    if k > 0 {
                        assert(s[k] == s.drop_first()[k - 1]);
                    }
                }
            },
        }
    }
}

/// Copies the characters of `s` into a vector.
pub fn chars_of(s: &str) -> (v: Vec<char>)
    ensures
        v@ == s@,
{
    let mut v: Vec<char> = Vec::new();
    for c in it: s.chars()
        invariant
            v@ == it.seq().take(it.index()),
    {
        v.push(c);
    }
    v
}

/// Appends one character to a string.
#[verifier::external_body]
pub fn push_char(s: &mut String, c: char)
    ensures
        final(s)@ == old(s)@.push(c),
{
    s.push(c);
}

/// Builds a string holding exactly the characters of `v`.
pub fn string_of(v: &[char]) -> (s: String)
    ensures
        s@ == v@,
{
    let mut s = String::new();
    let mut i: usize = 0;
    while i < v.len()
        invariant
            i <= v.len(),
            s@ == v@.take(i as int),
        decreases v.len() - i,
    {
        push_char(&mut s, v[i]);
        assert(v@.take(i + 1) == v@.take(i as int).push(v@[i as int]));
        i += 1;
    }
    assert(v@.take(v.len() as int) == v@);
    s
}

/// Copies `v[lo..hi]` into a new vector.
pub fn sub_chars(v: &[char], lo: usize, hi: usize) -> (r: Vec<char>)
    requires
        lo <= hi <= v.len(),
    ensures
        r@ == v@.subrange(lo as int, hi as int),
{
    let mut r: Vec<char> = Vec::new();
    let mut i: usize = lo;
    while i < hi
        invariant
            lo <= i <= hi <= v.len(),
            r@ == v@.subrange(lo as int, i as int),
        decreases hi - i,
    {
        r.push(v[i]);
        assert(v@.subrange(lo as int, i + 1) == v@.subrange(lo as int, i as int).push(v@[i as int]));
        i += 1;
    }
    r
}

/// `c` is whitespace in the sense of `char::is_whitespace`.
pub fn is_ws_char(c: char) -> (b: bool)
    ensures
        b == is_ws(c),
{
    let u = c as u32;
    (9 <= u && u <= 13) || u == 32 || u == 0x85 || u == 0xa0 || u == 0x1680 || (0x2000 <= u && u
        <= 0x200a) || u == 0x2028 || u == 0x2029 || u == 0x202f || u == 0x205f || u == 0x3000
}

/// Length of `v` once trailing whitespace is removed.
pub fn trim_end_ws_len(v: &[char], hi: usize) -> (j: usize)
    requires
        hi <= v.len(),
    ensures
        j <= hi,
        v@.take(j as int) == trim_end_ws(v@.take(hi as int)),
{
    let mut j = hi;
    while j > 0 && is_ws_char(v[j - 1])
        invariant
            j <= hi <= v.len(),
            trim_end_ws(v@.take(j as int)) == trim_end_ws(v@.take(hi as int)),
        decreases j,
    {
        assert(v@.take(j as int).drop_last() == v@.take(j - 1));
        j -= 1;
    }
    j
}

/// Index of the first non-whitespace character of `v[lo..hi]` (or `hi`).
pub fn trim_start_ws_pos(v: &[char], lo: usize, hi: usize) -> (i: usize)
    requires
        lo <= hi <= v.len(),
    ensures
        lo <= i <= hi,
        v@.subrange(i as int, hi as int) == trim_start_ws(v@.subrange(lo as int, hi as int)),
{
    let mut i = lo;
    while i < hi && is_ws_char(v[i])
        invariant
            lo <= i <= hi <= v.len(),
            trim_start_ws(v@.subrange(i as int, hi as int)) == trim_start_ws(
                v@.subrange(lo as int, hi as int),
            ),
        decreases hi - i,
    {
        assert(v@.subrange(i as int, hi as int).drop_first() == v@.subrange(i + 1, hi as int));
        i += 1;
    }
    i
}

/// Length of `v[..hi]` once trailing copies of `c` are removed.
pub fn trim_end_char_len(v: &[char], hi: usize, c: char) -> (j: usize)
    requires
        hi <= v.len(),
    ensures
        j <= hi,
        v@.take(j as int) == trim_end_char(v@.take(hi as int), c),
{
    let mut j = hi;
    while j > 0 && v[j - 1] == c
        invariant
            j <= hi <= v.len(),
            trim_end_char(v@.take(j as int), c) == trim_end_char(v@.take(hi as int), c),
        decreases j,
    {
        assert(v@.take(j as int).drop_last() == v@.take(j - 1));
        j -= 1;
    }
    j
}

/// Whether every character of `v` is whitespace.
pub fn is_blank_chars(v: &[char]) -> (b: bool)
    ensures
        b == is_blank(v@),
{
    let mut i: usize = 0;
    while i < v.len()
        invariant
            i <= v.len(),
            forall|k: int| 0 <= k < i ==> is_ws(#[trigger] v@[k]),
        decreases v.len() - i,
    {
        if !is_ws_char(v[i]) {
            return false;
        }
        i += 1;
    }
    true
}

/// Whether `s` is empty or all whitespace (`s.trim().is_empty()`).
pub fn is_blank_str(s: &str) -> (b: bool)
    ensures
        b == is_blank(s@),
{
    let v = chars_of(s);
    is_blank_chars(&v)
}

/// Trimming at both ends leaves nothing exactly when the text is blank.
pub proof fn lemma_trim_ws_empty_iff_blank(s: Seq<char>)
    ensures
        (trim_ws(s).len() == 0) == is_blank(s),
{
    lemma_trim_end_ws_shape(s);
    lemma_trim_start_ws_shape(trim_end_ws(s));
    let e = trim_end_ws(s);
    if is_blank(s) {
        assert(e.len() == 0);
    } else {
        if e.len() == 0 {
            assert(is_blank(s));
        } else {
            assert(!is_ws(e.last()));
            assert(trim_start_ws(e).len() > 0);
        }
    }
}

/// `trim_end_ws(s)` is a prefix of `s` after which only whitespace follows,
/// and it is empty or ends in a non-whitespace character.
pub proof fn lemma_trim_end_ws_shape(s: Seq<char>)
    ensures
        trim_end_ws(s).len() <= s.len(),
        trim_end_ws(s) == s.take(trim_end_ws(s).len() as int),
        forall|k: int| trim_end_ws(s).len() <= k < s.len() ==> is_ws(#[trigger] s[k]),
        trim_end_ws(s).len() > 0 ==> !is_ws(trim_end_ws(s).last()),
    decreases s.len(),
{
    if s.len() > 0 && is_ws(s.last()) {
        lemma_trim_end_ws_shape(s.drop_last());
        let t = trim_end_ws(s.drop_last());
        assert(s.drop_last().take(t.len() as int) == s.take(t.len() as int));
        assert forall|k: int| t.len() <= k < s.len() implies is_ws(#[trigger] s[k]) by {
            if k < s.len() - 1 {
                assert(s[k] == s.drop_last()[k]);
            }
        }
    } else {
        assert(s.take(s.len() as int) == s);
    }
}

/// `trim_start_ws(s)` is a suffix of `s` preceded only by whitespace,
/// and it is empty or starts with a non-whitespace character.
pub proof fn lemma_trim_start_ws_shape(s: Seq<char>)
    ensures
        trim_start_ws(s).len() <= s.len(),
        trim_start_ws(s) == s.skip(s.len() - trim_start_ws(s).len()),
        forall|k: int| 0 <= k < s.len() - trim_start_ws(s).len() ==> is_ws(#[trigger] s[k]),
        trim_start_ws(s).len() > 0 ==> !is_ws(trim_start_ws(s)[0]),
    decreases s.len(),
{
    if s.len() > 0 && is_ws(s[0]) {
        lemma_trim_start_ws_shape(s.drop_first());
        let t = trim_start_ws(s.drop_first());
        assert(s.drop_first().skip(s.len() - 1 - t.len()) == s.skip(s.len() - t.len()));
        assert forall|k: int| 0 <= k < s.len() - t.len() implies is_ws(#[trigger] s[k]) by {
            if k > 0 {
                assert(s[k] == s.drop_first()[k - 1]);
            }
        }
    } else {
        assert(s.skip(0) == s);
    }
}

/// The first match found by `find_char` is the first occurrence.
pub proof fn lemma_find_char_is(s: Seq<char>, c: char, j: int)
    requires
        0 <= j < s.len(),
        s[j] == c,
        forall|k: int| 0 <= k < j ==> s[k] != c,
    ensures
        find_char(s, c) == Some(j),
    decreases j,
{
    if j > 0 {
        assert(s.drop_first()[j - 1] == s[j]);
        assert forall|k: int| 0 <= k < j - 1 implies s.drop_first()[k] != c by {
            assert(s.drop_first()[k] == s[k + 1]);
        }
        lemma_find_char_is(s.drop_first(), c, j - 1);
    }
}

/// No occurrence means `find_char` finds nothing.
pub proof fn lemma_find_char_none(s: Seq<char>, c: char)
    requires
        forall|k: int| 0 <= k < s.len() ==> s[k] != c,
    ensures
        find_char(s, c) is None,
    decreases s.len(),
{
    if s.len() > 0 {
        assert forall|k: int| 0 <= k < s.len() - 1 implies s.drop_first()[k] != c by {
            assert(s.drop_first()[k] == s[k + 1]);
        }
        lemma_find_char_none(s.drop_first(), c);
    }
}

/// Position of the first `c` in `v[lo..]`, if any.
pub fn find_char_from(v: &[char], lo: usize, c: char) -> (r: Option<usize>)
    requires
        lo <= v.len(),
    ensures
        match r {
            Some(j) => lo <= j < v.len() && v@[j as int] == c && forall|k: int|
                lo <= k < j ==> v@[k] != c,
            None => forall|k: int| lo <= k < v.len() ==> v@[k] != c,
        },
        match r {
            Some(j) => find_char(v@.skip(lo as int), c) == Some(j - lo),
            None => find_char(v@.skip(lo as int), c) is None,
        },
{
    let mut j = lo;
    while j < v.len()
        invariant
            lo <= j <= v.len(),
            forall|k: int| lo <= k < j ==> v@[k] != c,
        decreases v.len() - j,
    {
        if v[j] == c {
            proof {
                let s = v@.skip(lo as int);
                assert forall|k: int| 0 <= k < j - lo implies s[k] != c by {
                    assert(s[k] == v@[lo + k]);
                }
                lemma_find_char_is(s, c, j - lo);
            }
            return Some(j);
        }
        j += 1;
    }
    proof {
        let s = v@.skip(lo as int);
        assert forall|k: int| 0 <= k < s.len() implies s[k] != c by {
            assert(s[k] == v@[lo + k]);
        }
        lemma_find_char_none(s, c);
    }
    None
}

/// Splits `v` into lines exactly as `lines_of` describes.
pub fn lines_chars(v: &[char]) -> (r: Vec<Vec<char>>)
    ensures
        r@.len() == lines_of(v@).len(),
        forall|k: int| 0 <= k < r@.len() ==> (#[trigger] r@[k])@ == lines_of(v@)[k],
{
    let n = v.len();
    let mut r: Vec<Vec<char>> = Vec::new();
    let mut i: usize = 0;
    let ghost done: Seq<Seq<char>> = Seq::empty();
    assert(v@.skip(0) == v@);
    while i < n
        invariant
            n == v.len(),
            i <= n,
            lines_of(v@) == done + lines_of(v@.skip(i as int)),
            r@.len() == done.len(),
            forall|k: int| 0 <= k < r@.len() ==> (#[trigger] r@[k])@ == done[k],
        decreases n - i,
    {
        let ghost rest = v@.skip(i as int);
        match find_char_from(v, i, '\n') {
            Some(j) => {
                let mut hi = j;
                if hi > i && v[hi - 1] == '\r' {
                    hi -= 1;
                }
                let line = sub_chars(v, i, hi);
                proof {
                    assert(rest.take(j - i) == v@.subrange(i as int, j as int));
                    assert(rest.skip(j - i + 1) == v@.skip(j + 1));
                    if hi < j {
                        assert(v@.subrange(i as int, j as int).drop_last() == v@.subrange(
                            i as int,
                            hi as int,
                        ));
                    }
                    assert(line@ == strip_cr(rest.take(j - i)));
                    done = done.push(line@);
                }
                r.push(line);
                i = j + 1;
            },
            None => {
                let line = sub_chars(v, i, n);
                proof {
                    assert(line@ == rest);
                    done = done.push(line@);
                }
                r.push(line);
                i = n;
                assert(v@.skip(n as int) =~= Seq::<char>::empty());
            },
        }
    }
    assert(v@.skip(n as int) =~= Seq::<char>::empty());
    assert(done + Seq::<Seq<char>>::empty() == done);
    r
}

/// Whether `v` starts with the three characters `a`, `b`, `c`.
pub fn starts_with3(v: &[char], a: char, b: char, c: char) -> (r: bool)
    ensures
        r == has_prefix(v@, seq![a, b, c]),
{
    if v.len() >= 3 && v[0] == a && v[1] == b && v[2] == c {
        assert(v@.take(3) =~= seq![a, b, c]);
        true
    } else {
        proof {
            if v@.len() >= 3 {
                let t = v@.take(3);
                if t == seq![a, b, c] {
                    assert(t[0] == v@[0] && t[1] == v@[1] && t[2] == v@[2]);
                }
            }
        }
        false
    }
}

/// Appends `src[lo..]` to `dst`.
pub fn extend_chars(dst: &mut Vec<char>, src: &[char], lo: usize)
    requires
        lo <= src.len(),
    ensures
        final(dst)@ == old(dst)@ + src@.skip(lo as int),
{
    let mut i = lo;
    while i < src.len()
        invariant
            lo <= i <= src.len(),
            dst@ == old(dst)@ + src@.subrange(lo as int, i as int),
        decreases src.len() - i,
    {
        dst.push(src[i]);
        assert(src@.subrange(lo as int, i + 1) == src@.subrange(lo as int, i as int).push(
            src@[i as int],
        ));
        assert(old(dst)@ + src@.subrange(lo as int, i + 1) == (old(dst)@ + src@.subrange(
            lo as int,
            i as int,
        )).push(src@[i as int]));
        i += 1;
    }
    assert(src@.subrange(lo as int, src.len() as int) == src@.skip(lo as int));
}

/// Whether two character slices are equal.
pub fn chars_eq(a: &[char], b: &[char]) -> (r: bool)
    ensures
        r == (a@ == b@),
{
    if a.len() != b.len() {
        return false;
    }
    let mut i: usize = 0;
    while i < a.len()
        invariant
            i <= a.len() == b.len(),
            forall|k: int| 0 <= k < i ==> a@[k] == b@[k],
        decreases a.len() - i,
    {
        if a[i] != b[i] {
            return false;
        }
        i += 1;
    }
    assert(a@ =~= b@);
    true
}

/// Whether two strings hold the same text.
pub fn str_eq(a: &str, b: &str) -> (r: bool)
    ensures
        r == (a@ == b@),
{
    let va = chars_of(a);
    let vb = chars_of(b);
    chars_eq(&va, &vb)
}

/// Whether two optional strings are equal.
pub fn opt_string_eq(a: &Option<String>, b: &Option<String>) -> (r: bool)
    ensures
        r == match (a, b) {
            (Some(x), Some(y)) => x@ == y@,
            (None, None) => true,
            _ => false,
        },
{
    match (a, b) {
        (Some(x), Some(y)) => str_eq(x.as_str(), y.as_str()),
        (None, None) => true,
        _ => false,
    }
}

/// An optional text trimmed at both ends, absent when nothing is left.
pub open spec fn trimmed_nonblank(v: Option<Seq<char>>) -> Option<Seq<char>> {
    match v {
        Some(s) => if trim_ws(s).len() > 0 {
            Some(trim_ws(s))
        } else {
            None
        },
        None => None,
    }
}

/// Trims an optional text at both ends; absent when nothing is left.
pub fn trim_nonblank(value: Option<&str>) -> (r: Option<String>)
    ensures
        opt_text(r) == trimmed_nonblank(opt_str(value)),
{
    match value {
        Some(c) => {
            let v = chars_of(c);
            let e = trim_end_ws_len(&v, v.len());
            assert(v@.take(v.len() as int) == v@);
            let s = trim_start_ws_pos(&v, 0, e);
            assert(v@.subrange(0, e as int) == v@.take(e as int));
            if s < e {
                let t = sub_chars(&v, s, e);
                Some(string_of(&t))
            } else {
                None
            }
        },
        None => None,
    }
}

/// `s` ends with `suffix`.
pub open spec fn has_suffix(s: Seq<char>, suffix: Seq<char>) -> bool {
    suffix.len() <= s.len() && s.skip(s.len() - suffix.len()) == suffix
}

/// `pattern` occurs somewhere in `s`.
pub open spec fn contains_text(s: Seq<char>, pattern: Seq<char>) -> bool {
    exists|i: int|
        0 <= i && i + pattern.len() <= s.len() && #[trigger] s.subrange(i, i + pattern.len())
            == pattern
}

/// Whether `v[at..]` starts with `p`.
fn matches_at(v: &[char], p: &[char], at: usize) -> (r: bool)
    requires
        at + p.len() <= v.len(),
    ensures
        r == (v@.subrange(at as int, at + p.len()) == p@),
{
    let mut k: usize = 0;
    while k < p.len()
        invariant
            k <= p.len(),
            at + p.len() <= v.len(),
            forall|m: int| 0 <= m < k ==> v@[at + m] == p@[m],
        decreases p.len() - k,
    {
        if v[at + k] != p[k] {
            assert(v@.subrange(at as int, at + p.len())[k as int] != p@[k as int]);
            return false;
        }
        k += 1;
    }
    assert(v@.subrange(at as int, at + p.len()) =~= p@);
    true
}

/// Whether `s` ends with `suffix`.
pub fn ends_with_text(s: &str, suffix: &str) -> (r: bool)
    ensures
        r == has_suffix(s@, suffix@),
{
    let v = chars_of(s);
    let p = chars_of(suffix);
    if p.len() > v.len() {
        return false;
    }
    let r = matches_at(&v, &p, v.len() - p.len());
    assert(v@.subrange(v.len() - p.len(), v.len() as int) == v@.skip(v.len() - p.len()));
    r
}

/// Whether `pattern` occurs in `s`.
pub fn contains_str(s: &str, pattern: &str) -> (r: bool)
    ensures
        r == contains_text(s@, pattern@),
{
    let v = chars_of(s);
    let p = chars_of(pattern);
    if p.len() > v.len() {
        return false;
    }
    if p.len() == 0 {
        assert(s@.subrange(0, 0int + pattern@.len()) =~= pattern@);
        return true;
    }
    let last = v.len() - p.len();
    let mut i: usize = 0;
    while i <= last
        invariant
            last + p.len() == v.len(),
            p.len() > 0,
            v@ == s@,
            p@ == pattern@,
            i <= last + 1,
            forall|m: int|
                0 <= m < i && m <= last ==> #[trigger] v@.subrange(m, m + p.len()) != p@,
        decreases last + 1 - i,
    {
        if matches_at(&v, &p, i) {
            assert(s@.subrange(i as int, i as int + pattern@.len()) == pattern@);
            return true;
        }
        i += 1;
    }
    assert forall|m: int| 0 <= m && m + p@.len() <= v@.len() implies #[trigger] v@.subrange(
        m,
        m + p@.len(),
    ) != p@ by {}
    false
}

} // verus!
