//! Icon reference model: a path to a file holding an icon resource and an
//! index within it, serialized in the store as `path,index`.
//!
//! Loading the icon resource itself is a host concern outside the engines;
//! the record only carries the reference.

use vstd::prelude::*;
use crate::digits;
use crate::strutil::{find_last_char, last_index_of, push_char, substring_owned};

verus! {

/// Reference to an icon resource: a file path and an index within it.
#[derive(Clone, Debug)]
pub struct ShellIcon {
    pub path: String,
    pub index: u32,
}

/// The store-native encoding of an icon reference.
pub open spec fn spec_shell_path(path: Seq<char>, index: u32) -> Seq<char> {
    path + seq![','] + digits::spec_u32_string(index as nat)
}

/// The icon reference that a store-native string denotes: the part before
/// the last comma is the path and the part after it the index, with the
/// whole string as path and index zero when there is no comma, and index
/// zero again when the index part does not parse.
pub open spec fn spec_icon_from(s: Seq<char>) -> (Seq<char>, u32) {
    let i = last_index_of(s, ',');
    if i < 0 {
        (s, 0u32)
    } else {
        let idx = s.subrange(i + 1, s.len() as int);
        if digits::spec_u32_parseable(idx) {
            (s.subrange(0, i), digits::digits_val(idx) as u32)
        } else {
            (s.subrange(0, i), 0u32)
        }
    }
}

impl ShellIcon {
    /// Build an icon reference from its parts.
    pub fn new(path: String, index: u32) -> (r: Self)
        ensures
            r.path@ == path@,
            r.index == index,
    {
        ShellIcon { path, index }
    }

    /// The file path of the reference.
    pub fn path(&self) -> (r: &String)
        ensures
            r@ == self.path@,
    {
        &self.path
    }

    /// The index of the reference.
    pub fn index(&self) -> (r: u32)
        ensures
            r == self.index,
    {
        self.index
    }

    /// The spec-level view of the reference.
    pub open spec fn view_parts(&self) -> (Seq<char>, u32) {
        (self.path@, self.index)
    }

    /// The store-native `path,index` encoding of the reference.
    pub fn shell_path(&self) -> (r: String)
        ensures
            r@ == spec_shell_path(self.path@, self.index),
    {
        let mut r = self.path.clone();
        push_char(&mut r, ',');
        let num = digits::u32_to_string(self.index);
        r.append(num.as_str());
        proof {
            assert(r@ =~= spec_shell_path(self.path@, self.index));
        }
        r
    }

    /// Decode a store-native `path,index` string into an icon reference.
    /// An absent comma or an unparseable index yields index zero.
    pub fn from_str(s: &str) -> (r: Self)
        ensures
            r.view_parts() == spec_icon_from(s@),
    {
        let len = s.unicode_len();
        match find_last_char(s, ',') {
            None => {
                let path = substring_owned(s, 0, len);
                proof {
                    assert(path@ =~= s@);
                }
                ShellIcon { path, index: 0 }
            },
            Some(i) => {
                let path = substring_owned(s, 0, i);
                let idx_str = substring_owned(s, i + 1, len);
                let index = match digits::parse_u32(idx_str.as_str()) {
                    Some(v) => v,
                    None => 0,
                };
                ShellIcon { path, index }
            },
        }
    }
}

} // verus!
