//! UTF-8 safe chunking of raw terminal output: only complete UTF-8
//! sequences are handed on; an incomplete trailing sequence waits for the
//! next read, and an invalid sequence is replaced by U+FFFD so that the
//! output after it keeps flowing.

use vstd::prelude::*;
use vstd::utf8::{
    decode_first_scalar, decode_utf8, encode_utf8, encode_utf8_decode_utf8, length_of_first_scalar,
    pop_first_scalar, valid_first_scalar, valid_utf8,
};
use crate::text::push_char;

verus! {

/// What `Utf8Error::error_len` reports for `bytes` when `std::str::from_utf8`
/// rejects them: the length of the invalid sequence that starts where the
/// valid prefix ends, or `None` when the input ends inside a sequence.
pub uninterp spec fn utf8_error_len(bytes: Seq<u8>) -> Option<nat>;

/// `r` is the start of one character's UTF-8 encoding, cut before its end.
pub open spec fn cut_char(r: Seq<u8>) -> bool {
    exists|c: char|
        r.len() < #[trigger] encode_utf8(seq![c]).len() && encode_utf8(seq![c]).take(r.len() as int)
            == r
}

/// Decodes `bytes` with `std::str::from_utf8`.
///
/// Trusted: `from_utf8` succeeds exactly on valid UTF-8 and the string then
/// holds exactly these bytes; on failure `Utf8Error::valid_up_to` is the
/// largest `n` for which `bytes[..n]` is valid UTF-8, and
/// `Utf8Error::error_len` is either the length (1 to 3 bytes, within the
/// input) of the invalid sequence starting at `n`, or `None` when the input
/// ends inside a sequence that starts at `n`, 1 to 3 bytes before its end,
/// that is, exactly when the bytes from `n` on are the start of one
/// character's encoding cut off by the end. Which bytes form one invalid
/// sequence is not stated.
#[verifier::external_body]
pub(crate) fn utf8_decode(bytes: &[u8]) -> (r: Result<String, (usize, Option<usize>)>)
    ensures
        match r {
            Ok(s) => valid_utf8(bytes@) && encode_utf8(s@) == bytes@,
            Err((n, e)) => {
                &&& !valid_utf8(bytes@)
                &&& n <= bytes@.len()
                &&& valid_utf8(bytes@.take(n as int))
                &&& forall|k: int| n < k <= bytes@.len() ==> !valid_utf8(#[trigger] bytes@.take(k))
                &&& match e {
                    Some(len) => utf8_error_len(bytes@) == Some(len as nat) && 1 <= len <= 3 && n
                        + len <= bytes@.len(),
                    None => utf8_error_len(bytes@) is None && 1 <= bytes@.len() - n <= 3,
                }
                &&& (e is None <==> cut_char(bytes@.skip(n as int)))
            },
        },
{
    match std::str::from_utf8(bytes) {
        Ok(s) => Ok(s.to_string()),
        Err(e) => Err((e.valid_up_to(), e.error_len())),
    }
}

/// The largest `n <= m` for which the first `n` bytes of `s` are valid UTF-8.
pub open spec fn longest_valid_upto(s: Seq<u8>, m: nat) -> nat
    decreases m,
{
    if valid_utf8(s.take(m as int)) || m == 0 {
        m
    } else {
        longest_valid_upto(s, (m - 1) as nat)
    }
}

/// Length of the longest valid UTF-8 prefix of `s`.
pub open spec fn valid_prefix_len(s: Seq<u8>) -> nat {
    longest_valid_upto(s, s.len())
}

/// Bytes still held and text released when a chunker holds `all`: the
/// longest valid prefix is released; an invalid sequence after it is
/// released as U+FFFD and decoding goes on after it; a sequence cut off by
/// the end of the input is held.
pub open spec fn lossy_decode(all: Seq<u8>) -> (Seq<u8>, Seq<char>)
    decreases all.len(),
{
    if valid_utf8(all) {
        (Seq::empty(), decode_utf8(all))
    } else {
        let n = valid_prefix_len(all);
        match utf8_error_len(all) {
            Some(len) => if 1 <= len && n + len <= all.len() {
                let r = lossy_decode(all.skip((n + len) as int));
                (r.0, decode_utf8(all.take(n as int)) + seq!['\u{FFFD}'] + r.1)
            } else {
                (all.skip(n as int), decode_utf8(all.take(n as int)))
            },
            None => (all.skip(n as int), decode_utf8(all.take(n as int))),
        }
    }
}

/// Pending bytes and emitted text after feeding `data` to a chunker that
/// holds `pending` (see `lossy_decode`); no text is emitted when none was
/// released.
pub open spec fn feed_result(pending: Seq<u8>, data: Seq<u8>) -> (Seq<u8>, Option<Seq<char>>) {
    let r = lossy_decode(pending + data);
    (r.0, if r.1.len() > 0 {
        Some(r.1)
    } else {
        None
    })
}

pub proof fn lemma_longest_valid_is(s: Seq<u8>, n: nat, m: nat)
    requires
        n <= m <= s.len(),
        valid_utf8(s.take(n as int)),
        forall|k: int| n < k <= s.len() ==> !valid_utf8(#[trigger] s.take(k)),
    ensures
        longest_valid_upto(s, m) == n,
    decreases m,
{
    if m > n {
        lemma_longest_valid_is(s, n, (m - 1) as nat);
    }
}

/// Accumulates raw output bytes and releases them as text only in whole
/// UTF-8 sequences.
pub struct Utf8Chunker {
    pending: Vec<u8>,
}

impl View for Utf8Chunker {
    type V = Seq<u8>;

    closed spec fn view(&self) -> Seq<u8> {
        self.pending@
    }
}

impl Utf8Chunker {
    /// A chunker holding no bytes.
    pub fn new() -> (c: Self)
        ensures
            c@ == Seq::<u8>::empty(),
    {
        Utf8Chunker { pending: Vec::new() }
    }

    /// Bytes received but not yet released.
    pub fn pending_len(&self) -> (n: usize)
        ensures
            n == self@.len(),
    {
        self.pending.len()
    }

    /// Adds freshly read bytes and returns the text that is now complete.
    ///
    /// The longest valid prefix of the held bytes is released; an invalid
    /// sequence after it is released as U+FFFD and decoding goes on after
    /// it; a multi-byte sequence cut off by the read (at most 3 bytes) is
    /// kept for the next read.
    pub fn feed(&mut self, data: &[u8]) -> (out: Option<String>)
        ensures
            final(self)@ == feed_result(old(self)@, data@).0,
            match out {
                Some(s) => feed_result(old(self)@, data@).1 == Some(s@),
                None => feed_result(old(self)@, data@).1 is None,
            },
            final(self)@.len() <= 3,
            ({
                let all = old(self)@ + data@;
                let n = valid_prefix_len(all);
                cut_char(all.skip(n as int)) ==> {
                    &&& final(self)@ == all.skip(n as int)
                    &&& match out {
                        Some(s) => s@ == decode_utf8(all.take(n as int)) && encode_utf8(s@)
                            + final(self)@ == all,
                        None => n == 0 && final(self)@ == all,
                    }
                }
            }),
    {
        let ghost all = self.pending@ + data@;
        let ghost n0 = valid_prefix_len(all);
        let ghost ic = cut_char(all.skip(n0 as int));
        let mut i: usize = 0;
        while i < data.len()
            invariant
                i <= data.len(),
                self.pending@ == old(self).pending@ + data@.take(i as int),
            decreases data.len() - i,
        {
            self.pending.push(data[i]);
            assert(data@.take(i + 1) == data@.take(i as int).push(data@[i as int]));
            i += 1;
        }
        assert(data@.take(data.len() as int) == data@);
        assert(self.pending@ == all);
        let mut text = String::new();
        assert(text@ + lossy_decode(all).1 =~= lossy_decode(all).1);
        let ghost mut first = true;
        loop
            invariant_except_break
                lossy_decode(all) == (lossy_decode(self.pending@).0, text@ + lossy_decode(
                    self.pending@,
                ).1),
                first ==> self.pending@ == all && text@ == Seq::<char>::empty(),
                !first ==> !ic,
                n0 == valid_prefix_len(all),
                ic == cut_char(all.skip(n0 as int)),
            ensures
                lossy_decode(all) == (self.pending@, text@),
                self.pending@.len() <= 3,
                ic ==> self.pending@ == all.skip(n0 as int) && text@ == decode_utf8(
                    all.take(n0 as int),
                ),
            decreases self.pending@.len(),
        {
            let ghost p = self.pending@;
            let ghost t0 = text@;
            match utf8_decode(self.pending.as_slice()) {
                Ok(s) => {
                    proof {
                        encode_utf8_decode_utf8(s@);
                    }
                    text.append(s.as_str());
                    self.pending = Vec::new();
                    proof {
                        assert(self.pending@ =~= Seq::<u8>::empty());
                        assert(t0 + lossy_decode(p).1 == text@);
                        if first {
                            assert(p.take(p.len() as int) =~= p);
                            assert(longest_valid_upto(p, p.len()) == p.len());
                            assert(all.skip(n0 as int) =~= Seq::<u8>::empty());
                            assert(text@ =~= decode_utf8(all.take(n0 as int)));
                        }
                    }
                    break ;
                },
                Err((n, e)) => {
                    proof {
                        lemma_longest_valid_is(p, n as nat, p.len());
                    }
                    let (head, rest) = split_bytes(self.pending.as_slice(), n);
                    let hs = decode_valid(head.as_slice());
                    text.append(hs.as_str());
                    match e {
                        Some(len) => {
                            push_char(&mut text, '\u{FFFD}');
                            let (_, after) = split_bytes(rest.as_slice(), len);
                            self.pending = after;
                            proof {
                                first = false;
                                assert(after@ =~= p.skip(n + len));
                                let r = lossy_decode(p.skip(n + len));
                                assert(lossy_decode(p) == (r.0, decode_utf8(p.take(n as int))
                                    + seq!['\u{FFFD}'] + r.1));
                                assert(text@ =~= t0 + decode_utf8(p.take(n as int)) + seq![
                                    '\u{FFFD}'
                                ]);
                                assert(t0 + lossy_decode(p).1 =~= text@ + r.1);
                            }
                        },
                        None => {
                            self.pending = rest;
                            proof {
                                assert(text@ =~= t0 + lossy_decode(p).1);
                                if first {
                                    assert(text@ =~= decode_utf8(all.take(n0 as int)));
                                }
                            }
                            break ;
                        },
                    }
                },
            }
        }
        proof {
            if ic {
                lemma_valid_prefix_len_valid(all, all.len());
                lemma_valid_prefix_split(all);
            }
        }
        if text.as_str().unicode_len() > 0 {
            Some(text)
        } else {
            None
        }
    }
}

/// The first `n` bytes of `v` and the rest.
fn split_bytes(v: &[u8], n: usize) -> (r: (Vec<u8>, Vec<u8>))
    requires
        n <= v@.len(),
    ensures
        r.0@ == v@.take(n as int),
        r.1@ == v@.skip(n as int),
{
    let mut head: Vec<u8> = Vec::new();
    let mut rest: Vec<u8> = Vec::new();
    let mut j: usize = 0;
    while j < n
        invariant
            j <= n <= v@.len(),
            head@ == v@.take(j as int),
        decreases n - j,
    {
        head.push(v[j]);
        assert(v@.take(j + 1) == v@.take(j as int).push(v@[j as int]));
        j += 1;
    }
    while j < v.len()
        invariant
            n <= j <= v@.len(),
            rest@ == v@.subrange(n as int, j as int),
        decreases v@.len() - j,
    {
        rest.push(v[j]);
        assert(v@.subrange(n as int, j + 1) == v@.subrange(n as int, j as int).push(v@[j as int]));
        j += 1;
    }
    assert(v@.subrange(n as int, v@.len() as int) == v@.skip(n as int));
    (head, rest)
}

/// The text that valid UTF-8 bytes encode.
fn decode_valid(bytes: &[u8]) -> (s: String)
    requires
        valid_utf8(bytes@),
    ensures
        s@ == decode_utf8(bytes@),
{
    match utf8_decode(bytes) {
        Ok(s) => {
            proof {
                encode_utf8_decode_utf8(s@);
            }
            s
        },
        Err(_) => {
            assert(bytes@.take(bytes@.len() as int) == bytes@);
            String::new()
        },
    }
}

/// The longest valid prefix, decoded and encoded again, followed by the
/// rest gives back the bytes; the prefix decodes to no text only when it is
/// empty.
pub proof fn lemma_valid_prefix_split(all: Seq<u8>)
    ensures
        ({
            let n = valid_prefix_len(all);
            &&& encode_utf8(decode_utf8(all.take(n as int))) + all.skip(n as int) == all
            &&& decode_utf8(all.take(n as int)).len() == 0 ==> n == 0
        }),
{
    let n = valid_prefix_len(all);
    lemma_valid_prefix_len_valid(all, all.len());
    if n > 0 {
        vstd::utf8::decode_utf8_encode_utf8(all.take(n as int));
        let t = all.take(n as int);
        assert(t.len() > 0);
        assert(valid_utf8(t));
        assert(decode_utf8(t).len() > 0);
    } else {
        assert(all.take(0) =~= Seq::<u8>::empty());
        assert(decode_utf8(Seq::<u8>::empty()) =~= Seq::<char>::empty());
        assert(encode_utf8(Seq::<char>::empty()) =~= Seq::<u8>::empty());
    }
    assert(all.take(n as int) + all.skip(n as int) =~= all);
}

/// The text released is always valid UTF-8 decoded in full.
pub proof fn lemma_valid_prefix_len_valid(s: Seq<u8>, m: nat)
    requires
        m <= s.len(),
    ensures
        longest_valid_upto(s, m) <= m,
        longest_valid_upto(s, m) > 0 ==> valid_utf8(s.take(longest_valid_upto(s, m) as int)),
    decreases m,
{
    if !(valid_utf8(s.take(m as int)) || m == 0) {
        lemma_valid_prefix_len_valid(s, (m - 1) as nat);
    }
}

/// The first `n` bytes of `p` are the longest valid prefix and the rest is
/// one character's encoding cut off by the end.
pub open spec fn splits_at(p: Seq<u8>, n: int) -> bool {
    &&& 0 <= n <= p.len()
    &&& valid_utf8(p.take(n))
    &&& forall|m: int| n < m <= p.len() ==> !valid_utf8(#[trigger] p.take(m))
    &&& cut_char(p.skip(n))
}

/// The first scalar of `s` is also the first scalar of any bytes that
/// start with the same `L` bytes.
proof fn lemma_same_first_scalar(s: Seq<u8>, b: Seq<u8>)
    requires
        valid_first_scalar(s),
        b.len() >= length_of_first_scalar(s),
        b.take(length_of_first_scalar(s)) == s.take(length_of_first_scalar(s)),
    ensures
        valid_first_scalar(b),
        length_of_first_scalar(b) == length_of_first_scalar(s),
        decode_first_scalar(b) == decode_first_scalar(s),
        pop_first_scalar(b) == b.skip(length_of_first_scalar(s)),
{
    let l = length_of_first_scalar(s);
    assert forall|i: int| 0 <= i < l implies b[i] == s[i] by {
        assert(b.take(l)[i] == s.take(l)[i]);
    }
    assert(pop_first_scalar(b) =~= b.skip(l));
}

/// A proper prefix of one scalar's encoding is not valid UTF-8.
proof fn lemma_cut_scalar_invalid(s: Seq<u8>, m: int)
    requires
        valid_first_scalar(s),
        0 < m < length_of_first_scalar(s),
    ensures
        !valid_utf8(s.take(m)),
{
    let t = s.take(m);
    assert(t[0] == s[0]);
    if valid_utf8(t) {
        assert(valid_first_scalar(t));
        assert forall|i: int| 0 <= i < m implies t[i] == s[i] by {}
    }
}

/// Valid UTF-8 cut anywhere splits into its longest valid prefix and one
/// character cut off by the end.
proof fn lemma_cut_splits(s: Seq<u8>, k: int)
    requires
        valid_utf8(s),
        0 <= k <= s.len(),
    ensures
        exists|n: int| #[trigger] splits_at(s.take(k), n),
    decreases s.len(),
{
    let p = s.take(k);
    if s.len() == 0 {
        let c = 'a';
        encode_utf8_decode_utf8(seq![c]);
        vstd::utf8::encode_utf8_valid_utf8(seq![c]);
        assert(encode_utf8(seq![c]).len() > 0) by {
            if encode_utf8(seq![c]).len() == 0 {
                assert(encode_utf8(seq![c]) =~= Seq::<u8>::empty());
                assert(decode_utf8(Seq::<u8>::empty()) =~= Seq::<char>::empty());
            }
        }
        assert(p =~= Seq::<u8>::empty());
        assert(p.skip(0) =~= p);
        assert(encode_utf8(seq![c]).take(0) =~= p);
        assert(p.take(0) =~= Seq::<u8>::empty());
        assert(splits_at(p, 0));
    } else {
        let l = length_of_first_scalar(s);
        let first = s.take(l);
        let rest = pop_first_scalar(s);
        assert(rest =~= s.skip(l));
        if k < l {
            assert(p.take(0) =~= Seq::<u8>::empty());
            assert forall|m: int| 0 < m <= p.len() implies !valid_utf8(#[trigger] p.take(m)) by {
                assert(p.take(m) =~= s.take(m));
                lemma_cut_scalar_invalid(s, m);
            }
            let c = decode_first_scalar(s) as char;
            assert(valid_first_scalar(s));
            assert(first.take(l) =~= s.take(l));
            lemma_same_first_scalar(s, first);
            assert(valid_utf8(Seq::<u8>::empty()));
            assert(first.skip(l) =~= Seq::<u8>::empty());
            assert(valid_utf8(first));
            vstd::utf8::decode_utf8_encode_utf8(first);
            assert(decode_utf8(first) =~= seq![c] + decode_utf8(Seq::<u8>::empty()));
            assert(decode_utf8(Seq::<u8>::empty()) =~= Seq::<char>::empty());
            assert(decode_utf8(first) =~= seq![c]);
            assert(encode_utf8(seq![c]) == first);
            assert(encode_utf8(seq![c]).take(p.len() as int) =~= p);
            assert(p.skip(0) =~= p);
            assert(splits_at(p, 0));
        } else {
            lemma_cut_splits(rest, k - l);
            let rp = rest.take(k - l);
            let n1 = choose|n: int| #[trigger] splits_at(rp, n);
            let n = l + n1;
            assert(p =~= first + rp);
            assert(p.take(l) =~= first);
            assert(first =~= s.take(l));
            // The longest valid prefix of `p` extends that of `rp` by the first scalar.
            assert(p.take(n).take(l) =~= s.take(l));
            lemma_same_first_scalar(s, p.take(n));
            assert(p.take(n).skip(l) =~= rp.take(n1));
            assert(valid_utf8(p.take(n)));
            assert forall|m: int| n < m <= p.len() implies !valid_utf8(#[trigger] p.take(m)) by {
                assert(p.take(m).take(l) =~= s.take(l));
                lemma_same_first_scalar(s, p.take(m));
                assert(p.take(m).skip(l) =~= rp.take(m - l));
                assert(!valid_utf8(rp.take(m - l)));
            }
            assert(p.skip(n) =~= rp.skip(n1));
            assert(splits_at(p, n));
        }
    }
}

/// Valid UTF-8 output cut anywhere loses nothing: when the bytes held and
/// fed are the start of valid UTF-8 text, the bytes after their longest
/// valid prefix are one character cut off by the end, so `feed` releases
/// exactly that prefix and keeps the cut character for the next read (see
/// its contract), and never releases a replacement character.
pub proof fn lemma_cut_valid_text(s: Seq<u8>, k: int)
    requires
        valid_utf8(s),
        0 <= k <= s.len(),
    ensures
        cut_char(s.take(k).skip(valid_prefix_len(s.take(k)) as int)),
{
    lemma_cut_splits(s, k);
    let p = s.take(k);
    let n = choose|n: int| #[trigger] splits_at(p, n);
    lemma_longest_valid_is(p, n as nat, p.len());
}

} // verus!
