//! The data carried by a multipart upload and the file-name rules the
//! upload paths apply.
//!
//! Reading a request body and writing files to disk belong to the
//! surrounding service; what stands here is the pure part: picking the
//! boundary parameter out of a content-type header, deciding which file
//! names carry a usable extension, and shaping the name an upload is
//! stored under.
use vstd::prelude::*;

use crate::expire_queue::UploadId;
use crate::hex::render_spec;
use vstd::string::StrSliceExecFns;
use vstd::string::StringExecFns;

verus! {

/// A plain text field of a multipart upload.
#[derive(Debug)]
pub struct TextPart {
    pub key: String,
    pub value: String,
}

/// A file field of a multipart upload, already spooled to a temporary
/// path by the surrounding service.
#[derive(Debug)]
pub struct FilePart {
    pub name: String,
    pub path: String,
    pub filename: String,
}

/// Everything a multipart upload carried.
#[derive(Debug)]
pub struct MultipartDatas {
    pub texts: Vec<TextPart>,
    pub files: Vec<FilePart>,
}

/// An ASCII letter or digit.
pub open spec fn is_ascii_alnum(c: char) -> bool {
    (48 <= c as u32 && c as u32 <= 57)  // '0' ..= '9'
    || (65 <= c as u32 && c as u32 <= 90)  // 'A' ..= 'Z'
    || (97 <= c as u32 && c as u32 <= 122)  // 'a' ..= 'z'
}

/// A character allowed inside an upload extension.
pub open spec fn ext_char_ok(c: char) -> bool {
    is_ascii_alnum(c) || c == '.'
}

/// `i` splits `s` into a usable name and extension: the first dot, with a
/// non-empty name before it and after it a short extension of letters,
/// digits and further dots.
pub open spec fn valid_ext_split(s: Seq<char>, i: int) -> bool {
    &&& 0 < i < s.len()
    &&& s[i] == '.'
    &&& forall|j: int| 0 <= j < i ==> s[j] != '.'
    &&& s.len() - i - 1 < 8
    &&& forall|j: int| i < j < s.len() ==> ext_char_ok(#[trigger] s[j])
}

/// `i` is where a name's extension would begin: the index of the first
/// dot, or the length when there is none.
pub open spec fn first_dot(s: Seq<char>, i: int) -> bool {
    &&& 0 <= i <= s.len()
    &&& forall|j: int| 0 <= j < i ==> s[j] != '.'
    &&& i < s.len() ==> s[i] == '.'
}

/// A character allowed in a stored base name.
pub open spec fn base_char_ok(c: char) -> bool {
    is_ascii_alnum(c) || c == '-' || c == '_'
}

/// A base name usable as-is for storage: non-empty, nothing but ASCII
/// letters, digits, hyphens and underscores.
pub open spec fn base_ok(b: Seq<char>) -> bool {
    b.len() > 0 && (forall|j: int| 0 <= j < b.len() ==> base_char_ok(#[trigger] b[j]))
}

/// The fixed name an upload falls back to when its own name is unusable.
pub open spec fn fallback_name() -> Seq<char> {
    seq!['u', 'p', 'l', 'o', 'a', 'd']
}

/// The stored name for an upload called `s`, where `i` is `s`'s first dot
/// (or its length): the base before the dot when it is usable, the
/// fallback otherwise, with the extension appended when `s` carries a
/// valid one.
pub open spec fn format_filename_spec(s: Seq<char>, i: int) -> Seq<char> {
    let base = if base_ok(s.subrange(0, i)) {
        s.subrange(0, i)
    } else {
        fallback_name()
    };
    if exists|k: int| valid_ext_split(s, k) {
        base + seq!['.'] + s.subrange(i + 1, s.len() as int)
    } else {
        base
    }
}

/// The index of the first dot in `name`, or its length when it has none.
fn first_dot_index(name: &str) -> (i: usize)
    ensures
        first_dot(name@, i as int),
        i <= name@.len(),
{
    let n = name.unicode_len();
    let mut i: usize = 0;
    while i < n
        invariant
            i <= n,
            n == name@.len(),
            forall|j: int| 0 <= j < i ==> name@[j] != '.',
        decreases n - i,
    {
        if name.get_char(i) == '.' {
            return i;
        }
        i += 1;
    }
    i
}

/// Whether `c` may stand in an extension.
fn ext_char_check(c: char) -> (r: bool)
    ensures
        r == ext_char_ok(c),
{
    let u = c as u32;
    (48 <= u && u <= 57) || (65 <= u && u <= 90) || (97 <= u && u <= 122) || c == '.'
}

/// The extension of an upload file name: everything after the first dot,
/// accepted only when the part before the dot is non-empty and the
/// extension is shorter than eight characters and made of letters, digits
/// and dots.  A name that smuggles path separators or starts with a dot
/// yields nothing.
pub fn filename_ext(name: &str) -> (r: Option<&str>)
    ensures
        match r {
            Some(e) => exists|i: int|
                #[trigger] valid_ext_split(name@, i) && e@ == name@.subrange(
                    i + 1,
                    name@.len() as int,
                ),
            None => forall|i: int| !valid_ext_split(name@, i),
        },
{
    let n = name.unicode_len();
    let i = first_dot_index(name);
    if i == 0 || i >= n {
        // No dot at all, or a name that starts with one.
        assert forall|i2: int| !valid_ext_split(name@, i2) by {
            if valid_ext_split(name@, i2) {
                assert(name@[i2] == '.');
            }
        }
        return None;
    }
    if n - i - 1 >= 8 {
        assert forall|i2: int| !valid_ext_split(name@, i2) by {
            if valid_ext_split(name@, i2) {
                assert(name@[i2] == '.');
                assert(i2 == i as int);
            }
        }
        return None;
    }
    let mut j: usize = i + 1;
    while j < n
        invariant
            i < j <= n,
            n == name@.len(),
            first_dot(name@, i as int),
            0 < i < n,
            name@[i as int] == '.',
            forall|k: int| i < k < j ==> ext_char_ok(#[trigger] name@[k]),
        decreases n - j,
    {
        if !ext_char_check(name.get_char(j)) {
            assert forall|i2: int| !valid_ext_split(name@, i2) by {
                if valid_ext_split(name@, i2) {
                    assert(name@[i2] == '.');
                    assert(i2 == i as int);
                    assert(ext_char_ok(name@[j as int]));
                }
            }
            return None;
        }
        j += 1;
    }
    let e = name.substring_char(i + 1, n);
    proof {
        assert(valid_ext_split(name@, i as int));
    }
    Some(e)
}

/// The name an upload is stored under: the part before the first dot when
/// it is a plain token of ASCII letters, digits, hyphens and underscores,
/// the fixed fallback otherwise; the extension is appended whenever
/// `filename_ext` accepts one.
pub fn format_filename(name: &str) -> (r: String)
    ensures
        exists|i: int| #[trigger] first_dot(name@, i) && r@ == format_filename_spec(name@, i),
{
    let n = name.unicode_len();
    let i = first_dot_index(name);
    let mut base_usable = i > 0;
    let mut j: usize = 0;
    while j < i
        invariant
            j <= i <= n,
            n == name@.len(),
            base_usable == (i > 0 && (forall|k: int| 0 <= k < j ==> base_char_ok(#[trigger] name@[k]))),
        decreases i - j,
    {
        let c = name.get_char(j);
        let u = c as u32;
        let ok = (48 <= u && u <= 57) || (65 <= u && u <= 90) || (97 <= u && u <= 122) || c == '-'
            || c == '_';
        base_usable = base_usable && ok;
        j += 1;
    }
    proof {
        assert(name@.subrange(0, i as int).len() == i as int);
        assert forall|k: int| 0 <= k < i as int implies name@.subrange(0, i as int)[k] == name@[k]
            by {}
        assert(base_usable == base_ok(name@.subrange(0, i as int)));
    }
    let mut out: String = if base_usable {
        String::from_str(name.substring_char(0, i))
    } else {
        proof {
            reveal_strlit("upload");
            assert("upload"@ =~= fallback_name());
        }
        String::from_str("upload")
    };
    match filename_ext(name) {
        Some(ext) => {
            proof {
                reveal_strlit(".");
                assert("."@ =~= seq!['.']);
                let k = choose|k: int|
                    valid_ext_split(name@, k) && ext@ == name@.subrange(k + 1, name@.len() as int);
                assert(first_dot(name@, k));
                assert(k == i as int);
            }
            out.append(".");
            out.append(ext);
        },
        None => {},
    }
    out
}

/// The path a stored upload is reachable under, and the text returned to
/// the uploading client: the identifier's canonical text form, a slash,
/// and the stored file name.
pub fn upload_url(id: &UploadId, name: &str) -> (r: String)
    ensures
        r@ == render_spec(id@) + seq!['/'] + name@,
{
    let mut out = id.as_string();
    proof {
        reveal_strlit("/");
        assert("/"@ =~= seq!['/']);
    }
    out.append("/");
    out.append(name);
    out
}

/// The marker that introduces the boundary parameter of a multipart
/// content-type header.
pub open spec fn boundary_marker() -> Seq<char> {
    seq!['b', 'o', 'u', 'n', 'd', 'a', 'r', 'y', '=']
}

/// The boundary marker stands in `s` at position `i`.
pub open spec fn marker_at(s: Seq<char>, i: int) -> bool {
    0 <= i && i + 9 <= s.len() && s.subrange(i, i + 9) == boundary_marker()
}

/// Whether the boundary marker stands at position `i`.
fn marker_check(ct: &str, i: usize) -> (r: bool)
    requires
        i + 9 <= ct@.len(),
        i + 9 <= usize::MAX,
    ensures
        r == marker_at(ct@, i as int),
{
    let r = ct.get_char(i) == 'b' && ct.get_char(i + 1) == 'o' && ct.get_char(i + 2) == 'u'
        && ct.get_char(i + 3) == 'n' && ct.get_char(i + 4) == 'd' && ct.get_char(i + 5) == 'a'
        && ct.get_char(i + 6) == 'r' && ct.get_char(i + 7) == 'y' && ct.get_char(i + 8) == '=';
    proof {
        let s = ct@;
        let ii = i as int;
        if r {
            assert(s.subrange(ii, ii + 9) =~= boundary_marker());
        } else {
            if s.subrange(ii, ii + 9) == boundary_marker() {
                assert forall|k: int| 0 <= k < 9 implies s[ii + k] == boundary_marker()[k] by {
                    assert(s.subrange(ii, ii + 9)[k] == s[ii + k]);
                }
                assert(s[ii] == 'b' && s[ii + 1] == 'o' && s[ii + 2] == 'u' && s[ii + 3] == 'n'
                    && s[ii + 4] == 'd' && s[ii + 5] == 'a' && s[ii + 6] == 'r' && s[ii + 7] == 'y'
                    && s[ii + 8] == '=');
            }
        }
    }
    r
}

/// The boundary parameter of a multipart content-type header: everything
/// after the first `boundary=`, or nothing when the header carries no such
/// marker.
pub fn extract_boundary(ct: &str) -> (r: Option<String>)
    ensures
        match r {
            Some(b) => exists|i: int|
                #[trigger] marker_at(ct@, i) && (forall|j: int| 0 <= j < i ==> !marker_at(ct@, j))
                    && b@ == ct@.subrange(i + 9, ct@.len() as int),
            None => forall|i: int| !marker_at(ct@, i),
        },
{
    let n = ct.unicode_len();
    if n < 9 {
        return None;
    }
    let mut i: usize = 0;
    while i <= n - 9
        invariant
            n == ct@.len(),
            9 <= n,
            i <= n,
            forall|j: int| 0 <= j < i ==> !marker_at(ct@, j),
        decreases n - i,
    {
        if marker_check(ct, i) {
            let b = String::from_str(ct.substring_char(i + 9, n));
            return Some(b);
        }
        i += 1;
    }
    assert forall|j: int| !marker_at(ct@, j) by {
        if marker_at(ct@, j) {
            assert(j + 9 <= n);
        }
    }
    None
}

} // verus!
