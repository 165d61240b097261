//! Terminal font files: path checks, file type, and the `font://` request
//! format that names a font file by its base64-encoded path.

use vstd::prelude::*;
use vstd::utf8::{decode_utf8, encode_utf8_decode_utf8, valid_utf8};
use base64::Engine;
use crate::text::{opt_str, opt_text};
use crate::stream::utf8_decode;
use crate::text::{
    chars_of, find_char, find_char_from, has_prefix, str_eq, string_of, sub_chars,
    trim_end_ws_len, trim_start_ws_pos, trim_ws,
};

verus! {

/// The text after a Windows verbatim prefix `\\?\` or NT prefix `\??\`.
pub open spec fn without_windows_prefix(s: Seq<char>) -> Seq<char> {
    if has_prefix(s, seq!['\\', '\\', '?', '\\']) || has_prefix(s, seq!['\\', '?', '?', '\\']) {
        s.skip(4)
    } else {
        s
    }
}

/// Removes a leading `\\?\` or `\??\` (as junction targets read back often
/// carry).
pub fn strip_windows_prefix(path: &str) -> (r: String)
    ensures
        r@ == without_windows_prefix(path@),
{
    let v = chars_of(path);
    let p1 = v.len() >= 4 && v[0] == '\\' && v[1] == '\\' && v[2] == '?' && v[3] == '\\';
    let p2 = v.len() >= 4 && v[0] == '\\' && v[1] == '?' && v[2] == '?' && v[3] == '\\';
    proof {
        if v@.len() >= 4 {
            let t = v@.take(4);
            assert(t[0] == v@[0] && t[1] == v@[1] && t[2] == v@[2] && t[3] == v@[3]);
            if p1 {
                assert(t =~= seq!['\\', '\\', '?', '\\']);
            }
            if p2 {
                assert(t =~= seq!['\\', '?', '?', '\\']);
            }
        }
    }
    if p1 || p2 {
        let r = sub_chars(&v, 4, v.len());
        string_of(&r)
    } else {
        string_of(&v)
    }
}

/// Why a font path was refused.
#[derive(Debug)]
pub enum FontPathError {
    /// Nothing but whitespace was given.
    Empty,
    /// The path is not absolute.
    NotAbsolute,
    /// The file is not ttf, otf, woff or woff2.
    BadExtension,
    /// The path names something other than a file.
    NotAFile,
}

impl FontPathError {
    /// The message shown in the settings dialog.
    pub fn message(&self) -> (m: String)
        ensures
            m@ == match *self {
                FontPathError::Empty => "字体路径为空"@,
                FontPathError::NotAbsolute => "字体文件路径必须是绝对路径"@,
                FontPathError::BadExtension => "字体文件必须是 ttf/otf/woff/woff2 格式"@,
                FontPathError::NotAFile => "字体路径指向的不是文件"@,
            },
    {
        match self {
            FontPathError::Empty => String::from_str("字体路径为空"),
            FontPathError::NotAbsolute => String::from_str("字体文件路径必须是绝对路径"),
            FontPathError::BadExtension => String::from_str("字体文件必须是 ttf/otf/woff/woff2 格式"),
            FontPathError::NotAFile => String::from_str("字体路径指向的不是文件"),
        }
    }
}

/// First check of a font path as entered: it is trimmed and must not be
/// empty.
pub fn font_path_candidate(raw: &str) -> (r: Result<String, FontPathError>)
    ensures
        match r {
            Ok(p) => trim_ws(raw@).len() > 0 && p@ == trim_ws(raw@),
            Err(e) => trim_ws(raw@).len() == 0 && e is Empty,
        },
{
    let v = chars_of(raw);
    let e = trim_end_ws_len(&v, v.len());
    assert(v@.take(v.len() as int) == v@);
    let s = trim_start_ws_pos(&v, 0, e);
    assert(v@.subrange(0, e as int) == v@.take(e as int));
    if s < e {
        let t = sub_chars(&v, s, e);
        Ok(string_of(&t))
    } else {
        Err(FontPathError::Empty)
    }
}

/// ASCII lower-case of one character.
pub open spec fn ascii_lower(c: char) -> char {
    if 65 <= (c as u32) <= 90 {
        ((c as u32) + 32) as char
    } else {
        c
    }
}

/// ASCII lower-case of a text (`to_ascii_lowercase`).
pub open spec fn ascii_lower_text(s: Seq<char>) -> Seq<char> {
    s.map_values(|c: char| ascii_lower(c))
}

/// Lower-cases the ASCII letters of `s`.
pub fn to_ascii_lower(s: &str) -> (r: String)
    ensures
        r@ == ascii_lower_text(s@),
{
    let v = chars_of(s);
    let mut out: Vec<char> = Vec::new();
    let mut i: usize = 0;
    while i < v.len()
        invariant
            i <= v.len(),
            out@ == ascii_lower_text(v@.take(i as int)),
        decreases v.len() - i,
    {
        let c = v[i];
        let u = c as u32;
        let l = if 65 <= u && u <= 90 {
            lower_ascii_char(c)
        } else {
            c
        };
        out.push(l);
        assert(out@ =~= ascii_lower_text(v@.take(i + 1)));
        i += 1;
    }
    assert(v@.take(v.len() as int) == v@);
    string_of(&out)
}

/// The lower-case letter for an upper-case ASCII letter.
fn lower_ascii_char(c: char) -> (l: char)
    requires
        65 <= (c as u32) <= 90,
    ensures
        l == ascii_lower(c),
{
    let u = c as u32;
    let b = (u + 32) as u8;
    assert(b as int == u + 32);
    b as char
}

/// The font file extensions accepted (compared in lower case).
pub open spec fn is_font_ext(ext: Seq<char>) -> bool {
    ext == "ttf"@ || ext == "otf"@ || ext == "woff"@ || ext == "woff2"@
}

/// Whether a file extension (as read from the path, if it is valid text)
/// names a font format: ttf, otf, woff or woff2, in any ASCII case.
pub fn is_font_extension(ext: Option<&str>) -> (b: bool)
    ensures
        b == match opt_str(ext) {
            Some(e) => is_font_ext(ascii_lower_text(e)),
            None => false,
        },
{
    match ext {
        Some(e) => {
            let l = to_ascii_lower(e);
            let s = l.as_str();
            str_eq(s, "ttf") || str_eq(s, "otf") || str_eq(s, "woff") || str_eq(s, "woff2")
        },
        None => false,
    }
}

/// Whether `std::path::Path::new(p).is_absolute()` holds for the text `p`.
pub uninterp spec fn path_is_absolute(p: Seq<char>) -> bool;

/// `std::path::Path::is_absolute` of the text `p`.
///
/// Trusted: the result is `path_is_absolute` of the text. What counts as
/// absolute depends on the platform (a drive or UNC prefix on Windows, a
/// leading `/` elsewhere) and is not stated.
#[verifier::external_body]
fn is_absolute_path(p: &str) -> (b: bool)
    ensures
        b == path_is_absolute(p@),
{
    std::path::Path::new(p).is_absolute()
}

/// The extension `std::path::Path::extension` finds in the text `p`.
pub uninterp spec fn path_extension(p: Seq<char>) -> Option<Seq<char>>;

/// `std::path::Path::extension` of the text `p`, as text.
///
/// Trusted: the result is `path_extension` of the text. Which part of the
/// file name counts as its extension depends on the platform's separators
/// and is not stated.
#[verifier::external_body]
fn extension_of(p: &str) -> (r: Option<String>)
    ensures
        opt_text(r) == path_extension(p@),
{
    std::path::Path::new(p).extension().and_then(|e| e.to_str()).map(|e| e.to_string())
}

/// A font path (after its links are resolved) must be absolute.
pub fn check_absolute(path: &str) -> (r: Result<(), FontPathError>)
    ensures
        match r {
            Ok(()) => path_is_absolute(path@),
            Err(e) => !path_is_absolute(path@) && e is NotAbsolute,
        },
{
    if is_absolute_path(path) {
        Ok(())
    } else {
        Err(FontPathError::NotAbsolute)
    }
}

/// A font file must have a font extension (ttf, otf, woff, woff2 in any
/// ASCII case).
pub fn check_font_extension(path: &str) -> (r: Result<(), FontPathError>)
    ensures
        match r {
            Ok(()) => path_extension(path@) matches Some(e) && is_font_ext(ascii_lower_text(e)),
            Err(e) => !(path_extension(path@) matches Some(x) && is_font_ext(ascii_lower_text(x)))
                && e is BadExtension,
        },
{
    let ext = extension_of(path);
    let ok = match &ext {
        Some(e) => is_font_extension(Some(e.as_str())),
        None => is_font_extension(None),
    };
    if ok {
        Ok(())
    } else {
        Err(FontPathError::BadExtension)
    }
}

/// The checks of a font path as entered, before its links are resolved:
/// it is trimmed and must not be empty, and must be absolute. Returns the
/// trimmed path; its extension is checked on the resolved path
/// (`check_font_extension`).
pub fn absolute_font_path(raw: &str) -> (r: Result<String, FontPathError>)
    ensures
        match r {
            Ok(p) => {
                &&& trim_ws(raw@).len() > 0
                &&& p@ == trim_ws(raw@)
                &&& path_is_absolute(p@)
            },
            Err(FontPathError::Empty) => trim_ws(raw@).len() == 0,
            Err(FontPathError::NotAbsolute) => trim_ws(raw@).len() > 0 && !path_is_absolute(
                trim_ws(raw@),
            ),
            Err(_) => false,
        },
{
    let p = font_path_candidate(raw)?;
    check_absolute(p.as_str())?;
    Ok(p)
}

/// Content type served for a font file, by its extension.
pub open spec fn font_mime(ext: Seq<char>) -> Seq<char> {
    let e = ascii_lower_text(ext);
    if e == "ttf"@ {
        "font/ttf"@
    } else if e == "otf"@ {
        "font/otf"@
    } else if e == "woff"@ {
        "font/woff"@
    } else if e == "woff2"@ {
        "font/woff2"@
    } else {
        "application/octet-stream"@
    }
}

/// The content type for a font file with extension `ext` (empty when the
/// path has none): `font/<ext>` for the four font formats, otherwise
/// `application/octet-stream`.
pub fn font_mime_type(ext: &str) -> (m: String)
    ensures
        m@ == font_mime(ext@),
{
    let l = to_ascii_lower(ext);
    let s = l.as_str();
    if str_eq(s, "ttf") {
        String::from_str("font/ttf")
    } else if str_eq(s, "otf") {
        String::from_str("font/otf")
    } else if str_eq(s, "woff") {
        String::from_str("font/woff")
    } else if str_eq(s, "woff2") {
        String::from_str("font/woff2")
    } else {
        String::from_str("application/octet-stream")
    }
}

/// The pieces of `s` between `/` separators.
pub open spec fn slash_segments(s: Seq<char>) -> Seq<Seq<char>>
    decreases s.len(),
{
    match find_char(s, '/') {
        None => seq![s],
        Some(i) => {
            proof {
                crate::text::lemma_find_char_bounds(s, '/');
            }
            seq![s.take(i)] + slash_segments(s.skip(i + 1))
        },
    }
}

/// The base64 part of a font request URI: its fourth `/`-separated piece,
/// which follows the host in both `font://localhost/<b64>` and
/// `http://font.localhost/<b64>`; empty when there is none.
pub open spec fn font_request_segment(uri: Seq<char>) -> Seq<char> {
    let parts = slash_segments(uri);
    if parts.len() > 3 {
        parts[3]
    } else {
        Seq::empty()
    }
}

/// base64's decoding error, carried through opaquely.
#[verifier::external_type_specification]
#[verifier::external_body]
pub struct ExDecodeError(base64::DecodeError);

/// The name of what base64's URL-safe, unpadded engine decodes a text to
/// (`None` when it refuses the text).
pub uninterp spec fn base64_url_nopad_decoded(text: Seq<char>) -> Option<Seq<u8>>;

/// `base64::engine::general_purpose::URL_SAFE_NO_PAD.decode`.
///
/// Trusted: the result is a function of the text alone, named
/// `base64_url_nopad_decoded`; nothing more about it is stated here.
#[verifier::external_body]
fn decode_base64_url(text: &str) -> (r: Result<Vec<u8>, base64::DecodeError>)
    ensures
        match r {
            Ok(b) => base64_url_nopad_decoded(text@) == Some(b@),
            Err(_) => base64_url_nopad_decoded(text@) is None,
        },
{
    base64::engine::general_purpose::URL_SAFE_NO_PAD.decode(text)
}

/// The font path named by decoded request bytes: their text when they are
/// valid UTF-8.
pub open spec fn path_from_bytes(bytes: Option<Seq<u8>>) -> Option<Seq<char>> {
    match bytes {
        Some(b) => if valid_utf8(b) {
            Some(decode_utf8(b))
        } else {
            None
        },
        None => None,
    }
}

/// Turns the decoded bytes of a font request into the font file's path.
pub fn font_path_from_decoded(decoded: Option<Vec<u8>>) -> (r: Option<String>)
    ensures
        opt_text(r) == path_from_bytes(match decoded {
            Some(b) => Some(b@),
            None => None,
        }),
{
    match decoded {
        Some(b) => match utf8_decode(b.as_slice()) {
            Ok(s) => {
                proof {
                    encode_utf8_decode_utf8(s@);
                }
                Some(s)
            },
            Err(_) => None,
        },
        None => None,
    }
}

/// The font file path requested by a `font://localhost/<b64>` (or
/// `http://font.localhost/<b64>`) URI: the base64 piece is decoded with the
/// URL-safe alphabet without padding and must be UTF-8 text.
pub fn font_request_path(uri: &str) -> (r: Option<String>)
    ensures
        opt_text(r) == path_from_bytes(base64_url_nopad_decoded(font_request_segment(uri@))),
{
    let v = chars_of(uri);
    let seg = nth_slash_segment(&v, 3);
    let seg_s = string_of(&seg);
    let decoded = match decode_base64_url(seg_s.as_str()) {
        Ok(b) => Some(b),
        Err(_) => None,
    };
    font_path_from_decoded(decoded)
}

/// The `n`-th `/`-separated piece of `v`, or nothing when there are fewer.
fn nth_slash_segment(v: &[char], n: usize) -> (r: Vec<char>)
    ensures
        r@ == if slash_segments(v@).len() > n {
            slash_segments(v@)[n as int]
        } else {
            Seq::empty()
        },
{
    let mut start: usize = 0;
    let mut k: usize = 0;
    assert(v@.skip(0) == v@);
    loop
        invariant
            start <= v.len(),
            k <= n,
            slash_segments(v@).len() == k + slash_segments(v@.skip(start as int)).len(),
            forall|m: int|
                k <= m < slash_segments(v@).len() ==> #[trigger] slash_segments(v@)[m]
                    == slash_segments(v@.skip(start as int))[m - k],
        decreases n - k,
    {
        let ghost rest = v@.skip(start as int);
        match find_char_from(v, start, '/') {
            Some(j) => {
                proof {
                    crate::text::lemma_find_char_bounds(rest, '/');
                    assert(rest.take(j - start) == v@.subrange(start as int, j as int));
                    assert(rest.skip(j - start + 1) == v@.skip(j + 1));
                    let tailsegs = slash_segments(v@.skip(j + 1));
                    assert(slash_segments(rest) == seq![rest.take(j - start)] + tailsegs);
                }
                if k == n {
                    return sub_chars(v, start, j);
                }
                proof {
                    assert forall|m: int|
                        k + 1 <= m < slash_segments(v@).len() implies #[trigger] slash_segments(
                        v@,
                    )[m] == slash_segments(v@.skip(j + 1))[m - k - 1] by {
                        assert(slash_segments(v@)[m] == slash_segments(rest)[m - k]);
                    }
                }
                start = j + 1;
                k = k + 1;
            },
            None => {
                proof {
                    assert(slash_segments(rest) == seq![rest]);
                    assert(rest == v@.subrange(start as int, v@.len() as int));
                }
                if k == n {
                    return sub_chars(v, start, v.len());
                }
                return Vec::new();
            },
        }
    }
}

} // verus!
