//! Host-path helpers: splitting a path into directory and filename,
//! extracting the filename extension, stripping the extended-length
//! prefix, and double-quoting.
//!
//! Host paths use either `\` or `/` as a separator.  The split keeps the
//! separator itself when the directory part would otherwise be a bare
//! drive designator (`C:\a.sh` has directory `C:\`) or empty (`\a.sh` has
//! directory `\`).

use vstd::prelude::*;
use crate::error::Error;
use crate::strutil::push_char;
use crate::strutil::substring_owned;

verus! {

/// Whether a character separates path components.
pub open spec fn is_sep(c: char) -> bool {
    c == '\\' || c == '/'
}

/// Index of the last separator in `s`, or `-1` if there is none.
pub open spec fn last_sep(s: Seq<char>) -> int
    decreases s.len(),
{
    if s.len() == 0 {
        -1
    } else if is_sep(s[s.len() - 1]) {
        s.len() - 1
    } else {
        last_sep(s.drop_last())
    }
}

proof fn lemma_last_sep(s: Seq<char>, i: int)
    requires
        -1 <= i < s.len(),
        forall|k: int| i < k < s.len() ==> !is_sep(s[k]),
        i >= 0 ==> is_sep(s[i]),
    ensures
        last_sep(s) == i,
    decreases s.len(),
{
    if s.len() == 0 {
    } else if i == s.len() - 1 {
    } else {
        assert(!is_sep(s[s.len() - 1]));
        assert(forall|k: int| i < k < s.drop_last().len() ==> !is_sep(s.drop_last()[k]));
        lemma_last_sep(s.drop_last(), i);
    }
}

/// The filename component: everything after the last separator.
pub open spec fn spec_file_name(s: Seq<char>) -> Seq<char> {
    s.subrange(last_sep(s) + 1, s.len() as int)
}

/// The directory component: everything before the last separator, keeping
/// the separator itself for a drive root or a bare leading separator.
pub open spec fn spec_parent(s: Seq<char>) -> Seq<char> {
    let i = last_sep(s);
    if i < 0 {
        Seq::empty()
    } else if i == 0 || s[i - 1] == ':' {
        s.subrange(0, i + 1)
    } else {
        s.subrange(0, i)
    }
}

/// Whether a path has a non-empty filename component.
pub open spec fn path_splittable(s: Seq<char>) -> bool {
    s.len() > 0 && spec_file_name(s).len() > 0
}

/// Find the index of the last separator in `s`, if any.
fn find_last_sep(s: &str) -> (r: Option<usize>)
    ensures
        match r {
            Some(i) => i < s@.len() && last_sep(s@) == i as int,
            None => last_sep(s@) == -1,
        },
{
    let len = s.unicode_len();
    let mut j = len;
    loop
        invariant
            j <= len,
            len == s@.len(),
            forall|k: int| j <= k < s@.len() ==> !is_sep(s@[k]),
        decreases j,
    {
        if j == 0 {
            proof {
                lemma_last_sep(s@, -1);
            }
            return None;
        }
        let c = s.get_char(j - 1);
        if c == '\\' || c == '/' {
            proof {
                lemma_last_sep(s@, j - 1);
            }
            return Some(j - 1);
        }
        j = j - 1;
    }
}

/// Split a path into its directory and filename components.
///
/// Fails with `InvalidPathError` exactly when the path is empty or ends
/// with a separator, i.e. when the filename component is absent.
pub fn split_path(p: &str) -> (r: Result<(String, String), Error>)
    ensures
        r is Ok <==> path_splittable(p@),
        r matches Ok((d, f)) ==> d@ == spec_parent(p@) && f@ == spec_file_name(p@),
        r matches Err(e) ==> e == Error::InvalidPathError,
{
    let len = p.unicode_len();
    if len == 0 {
        return Err(Error::InvalidPathError);
    }
    match find_last_sep(p) {
        None => {
            let f = substring_owned(p, 0, len);
            proof {
                assert(spec_file_name(p@) =~= p@);
                assert(spec_parent(p@) =~= Seq::<char>::empty());
            }
            Ok((String::new(), f))
        },
        Some(i) => {
            if i + 1 == len {
                // the filename component is empty
                assert(spec_file_name(p@).len() == 0);
                return Err(Error::InvalidPathError);
            }
            let f = substring_owned(p, i + 1, len);
            let keep_sep = i == 0 || p.get_char(i - 1) == ':';
            let d = if keep_sep {
                substring_owned(p, 0, i + 1)
            } else {
                substring_owned(p, 0, i)
            };
            Ok((d, f))
        },
    }
}

/// Index of the last `.` in `s`, or `-1` if there is none.
pub open spec fn last_dot(s: Seq<char>) -> int
    decreases s.len(),
{
    if s.len() == 0 {
        -1
    } else if s[s.len() - 1] == '.' {
        s.len() - 1
    } else {
        last_dot(s.drop_last())
    }
}

proof fn lemma_last_dot(s: Seq<char>, i: int)
    requires
        -1 <= i < s.len(),
        forall|k: int| i < k < s.len() ==> s[k] != '.',
        i >= 0 ==> s[i] == '.',
    ensures
        last_dot(s) == i,
    decreases s.len(),
{
    if s.len() == 0 {
    } else if i == s.len() - 1 {
    } else {
        assert(forall|k: int| i < k < s.drop_last().len() ==> s.drop_last()[k] != '.');
        lemma_last_dot(s.drop_last(), i);
    }
}

/// The filename extension of a path: the part of the filename component
/// after its last `.`.  There is none when the filename has no `.`, or
/// when its only `.` is the leading character.
pub open spec fn spec_extension(s: Seq<char>) -> Option<Seq<char>> {
    let f = spec_file_name(s);
    let d = last_dot(f);
    if d <= 0 {
        None
    } else {
        Some(f.subrange(d + 1, f.len() as int))
    }
}

/// Extract the filename extension of a path, without its leading dot.
pub fn extension_of(p: &str) -> (r: Option<String>)
    ensures
        match r {
            Some(e) => spec_extension(p@) == Some(e@),
            None => spec_extension(p@) is None,
        },
{
    let len = p.unicode_len();
    let start = match find_last_sep(p) {
        None => 0,
        Some(i) => i + 1,
    };
    let ghost f = spec_file_name(p@);
    assert(f =~= p@.subrange(start as int, len as int));
    // scan the filename component for its last dot
    let mut j = len;
    loop
        invariant
            start <= j <= len,
            len == p@.len(),
            start as int == last_sep(p@) + 1,
            f == p@.subrange(start as int, len as int),
            forall|k: int| j <= k < len ==> p@[k] != '.',
        decreases j,
    {
        if j == start {
            proof {
                assert(forall|k: int| 0 <= k < f.len() ==> f[k] == p@[start + k] && f[k] != '.');
                lemma_last_dot(f, -1);
            }
            return None;
        }
        let c = p.get_char(j - 1);
        if c == '.' {
            proof {
                assert(f[j - 1 - start] == p@[j - 1]);
                assert(forall|k: int| j - start <= k < f.len() ==> f[k] == p@[k + start]);
                lemma_last_dot(f, j - 1 - start);
            }
            if j - 1 == start {
                // a leading dot marks a hidden file, not an extension
                return None;
            }
            let e = substring_owned(p, j, len);
            proof {
                assert(e@ =~= f.subrange(j - start, f.len() as int));
            }
            return Some(e);
        }
        j = j - 1;
    }
}

/// Whether a path begins with the extended-length prefix `\\?\`.
pub open spec fn has_extended_prefix(s: Seq<char>) -> bool {
    s.len() >= 4 && s[0] == '\\' && s[1] == '\\' && s[2] == '?' && s[3] == '\\'
}

/// Remove the extended-length path prefix (`\\?\`) if present.
pub fn without_extended(p: &str) -> (r: String)
    ensures
        has_extended_prefix(p@) ==> r@ == p@.skip(4),
        !has_extended_prefix(p@) ==> r@ == p@,
{
    let len = p.unicode_len();
    if len >= 4 && p.get_char(0) == '\\' && p.get_char(1) == '\\' && p.get_char(2) == '?'
        && p.get_char(3) == '\\' {
        let r = substring_owned(p, 4, len);
        proof {
            assert(r@ =~= p@.skip(4));
        }
        r
    } else {
        let r = substring_owned(p, 0, len);
        proof {
            assert(r@ =~= p@);
        }
        r
    }
}

/// Wrap a path in double quotes.
pub fn quoted(p: &str) -> (r: String)
    ensures
        r@ == seq!['"'] + p@ + seq!['"'],
{
    let mut r = String::new();
    push_char(&mut r, '"');
    r.append(p);
    push_char(&mut r, '"');
    proof {
        assert(r@ =~= seq!['"'] + p@ + seq!['"']);
    }
    r
}

} // verus!
