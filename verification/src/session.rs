//! Sessions kept as files in the workspace: which files are sessions, and
//! what a session is called.

use vstd::prelude::*;
use vstd::string::{StringExecFns, StringSliceAdditionalSpecFns};

verus! {

/// Whether `s` ends with `suffix`.
pub open spec fn ends_with(s: Seq<u8>, suffix: Seq<u8>) -> bool {
    s.len() >= suffix.len() && s.skip(s.len() - suffix.len()) == suffix
}

/// The bytes of `.md`.
pub open spec fn md_suffix() -> Seq<u8> {
    seq![46u8, 109u8, 100u8]
}

/// The bytes of `.json`.
pub open spec fn json_suffix() -> Seq<u8> {
    seq![46u8, 106u8, 115u8, 111u8, 110u8]
}

/// `s` without `suffix` at its end, as often as it stands there.
pub open spec fn without_suffix(s: Seq<u8>, suffix: Seq<u8>) -> Seq<u8>
    decreases s.len(),
{
    if suffix.len() > 0 && ends_with(s, suffix) {
        without_suffix(s.take(s.len() - suffix.len()), suffix)
    } else {
        s
    }
}

/// Whether a file of this name holds a session.
pub open spec fn names_session(file_name: Seq<u8>) -> bool {
    ends_with(file_name, md_suffix()) || ends_with(file_name, json_suffix())
}

/// The name of the session that a file of this name holds: the file's name
/// without `.md` at its end, and then without `.json`.
pub open spec fn session_name_of(file_name: Seq<u8>) -> Seq<u8> {
    without_suffix(without_suffix(file_name, md_suffix()), json_suffix())
}

/// Whether the first `n` bytes of `s` end with `suffix`.
pub fn ends_at(s: &[u8], n: usize, suffix: &[u8]) -> (yes: bool)
    requires
        n <= s@.len(),
    ensures
        yes == ends_with(s@.take(n as int), suffix@),
{
    let m: usize = suffix.len();
    if n < m {
        return false;
    }
    let from: usize = n - m;
    let ghost tail = s@.take(n as int).skip(from as int);
    let mut i: usize = 0;
    while i < m
        invariant
            m == suffix@.len(),
            from + m == n,
            n <= s@.len(),
            i <= m,
            tail == s@.take(n as int).skip(from as int),
            forall|k: int| 0 <= k < i ==> tail[k] == suffix@[k],
        decreases m - i,
    {
        if s[from + i] != suffix[i] {
            proof {
                assert(tail[i as int] == s@[from + i]);
            }
            return false;
        }
        proof {
            assert(tail[i as int] == s@[from + i]);
        }
        i = i + 1;
    }
    proof {
        assert(tail =~= suffix@);
    }
    true
}

/// The length of the first `n` bytes of `s` without `suffix` at their end.
pub fn length_without(s: &[u8], n: usize, suffix: &[u8]) -> (len: usize)
    requires
        n <= s@.len(),
    ensures
        len <= n,
        s@.take(len as int) == without_suffix(s@.take(n as int), suffix@),
{
    let m: usize = suffix.len();
    let mut len: usize = n;
    if m == 0 {
        return len;
    }
    while ends_at(s, len, suffix)
        invariant
            m == suffix@.len(),
            m > 0,
            len <= n <= s@.len(),
            without_suffix(s@.take(len as int), suffix@) == without_suffix(
                s@.take(n as int),
                suffix@,
            ),
        decreases len,
    {
        proof {
            assert(s@.take(len as int).take(len - m) =~= s@.take(len - m));
        }
        len = len - m;
    }
    len
}

/// Whether a file of this name holds a session: its name ends with `.md` or
/// with `.json`.
pub fn is_session_file(file_name: &str) -> (yes: bool)
    ensures
        yes == names_session(file_name.spec_bytes()),
{
    let bytes = file_name.as_bytes();
    let md: Vec<u8> = vec![46u8, 109u8, 100u8];
    let json: Vec<u8> = vec![46u8, 106u8, 115u8, 111u8, 110u8];
    proof {
        assert(bytes@.take(bytes@.len() as int) =~= bytes@);
        assert(md@ =~= md_suffix());
        assert(json@ =~= json_suffix());
    }
    ends_at(bytes, bytes.len(), md.as_slice()) || ends_at(bytes, bytes.len(), json.as_slice())
}

/// How many bytes of a file's name are the name of its session.
pub fn session_name_len(file_name: &str) -> (len: usize)
    ensures
        len <= file_name.spec_bytes().len(),
        file_name.spec_bytes().take(len as int) == session_name_of(file_name.spec_bytes()),
{
    let bytes = file_name.as_bytes();
    let md: Vec<u8> = vec![46u8, 109u8, 100u8];
    let json: Vec<u8> = vec![46u8, 106u8, 115u8, 111u8, 110u8];
    proof {
        assert(bytes@.take(bytes@.len() as int) =~= bytes@);
        assert(md@ =~= md_suffix());
        assert(json@ =~= json_suffix());
    }
    let first = length_without(bytes, bytes.len(), md.as_slice());
    length_without(bytes, first, json.as_slice())
}

/// `text` without the white space at its start and at its end.
pub uninterp spec fn trimmed(text: Seq<char>) -> Seq<char>;

/// Takes the white space off both ends of `text` with `str::trim`.
#[verifier::external_body]
fn trim_text(text: &str) -> (out: String)
    ensures
        out@ == trimmed(text@),
{
    text.trim().to_string()
}

/// The name of a file: `name`, a dot, and the extension, which is `md` where
/// none is given.
pub open spec fn file_name_of(name: Seq<char>, extension: Option<Seq<char>>) -> Seq<char> {
    name + "."@ + (match extension {
        Some(e) => e,
        None => "md"@,
    })
}

/// The name of a file from its name without extension and its extension.
pub fn file_name_with(name: String, extension: Option<&str>) -> (file_name: String)
    ensures
        file_name@ == file_name_of(
            name@,
            match extension {
                Some(e) => Some(e@),
                None => None,
            },
        ),
{
    let ending = match extension {
        Some(e) => e,
        None => "md",
    };
    name.concat(".").concat(ending)
}

/// The name of the file of a session that is renamed to `new_name` and keeps
/// the extension of its old file: the new name without the white space around
/// it, a dot, and the extension.
pub fn renamed_file(new_name: &str, extension: Option<&str>) -> (file_name: String)
    ensures
        file_name@ == file_name_of(
            trimmed(new_name@),
            match extension {
                Some(e) => Some(e@),
                None => None,
            },
        ),
{
    file_name_with(trim_text(new_name), extension)
}

} // verus!
