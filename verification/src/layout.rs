//! Names under the root directory: objects, snapshots, staging, the pointer.

use vstd::prelude::*;
use vstd::string::*;
use crate::text::{str_eq, text_option};

verus! {

/// Whether `c` is an ASCII letter or digit.
pub open spec fn is_alnum(c: char) -> bool {
    ('0' <= c <= '9') || ('a' <= c <= 'z') || ('A' <= c <= 'Z')
}

/// `c` itself where it is an ASCII letter or digit, else `_`.
pub open spec fn sanitized(c: char) -> char {
    if is_alnum(c) {
        c
    } else {
        '_'
    }
}

/// `s` with every character but ASCII letters and digits replaced by `_`.
pub open spec fn sanitized_text(s: Seq<char>) -> Seq<char> {
    Seq::new(s.len(), |i: int| sanitized(s[i]))
}

/// Tests `is_alnum`.
pub fn is_alnum_char(c: char) -> (b: bool)
    ensures
        b == is_alnum(c),
{
    ('0' <= c && c <= '9') || ('a' <= c && c <= 'z') || ('A' <= c && c <= 'Z')
}

/// Makes a version fit for a directory name's prefix.
pub fn sanitize_prefix(s: &str) -> (r: String)
    ensures
        r@ == sanitized_text(s@),
{
    let n: usize = s.unicode_len();
    let mut r = String::new();
    let mut i: usize = 0;
    proof {
        reveal_strlit("_");
    }
    while i < n
        invariant
            i <= n,
            n == s@.len(),
            "_"@ == seq!['_'],
            r@ == sanitized_text(s@.take(i as int)),
        decreases n - i,
    {
        let ghost before = r@;
        if is_alnum_char(s.get_char(i)) {
            r.append(s.substring_char(i, i + 1));
        } else {
            r.append("_");
        }
        proof {
            assert(r@ =~= sanitized_text(s@.take(i + 1)));
        }
        i += 1;
    }
    proof {
        assert(s@.take(n as int) =~= s@);
    }
    r
}

/// The prefix of the hidden directory in which a version's snapshot is
/// assembled.
pub fn staging_prefix(version: &str) -> (r: String)
    ensures
        r@ == "."@ + sanitized_text(version@) + ".staging-"@,
{
    let mut r = String::from_str(".");
    let clean = sanitize_prefix(version);
    r.append(clean.as_str());
    r.append(".staging-");
    r
}

/// The path of a version's snapshot relative to the root.
pub open spec fn snapshot_path(version: Seq<char>) -> Seq<char> {
    "snapshots/"@ + version
}

/// What the pointer holds when `version` is current: the snapshot's path
/// relative to the root.
pub fn snapshot_target(version: &str) -> (r: String)
    ensures
        r@ == snapshot_path(version@),
{
    let mut r = String::from_str("snapshots/");
    r.append(version);
    r
}

/// The name under which a new pointer is made before it replaces the old
/// one; `unique` tells concurrent writers apart.
pub fn pointer_temp_name(unique: &str) -> (r: String)
    ensures
        r@ == ".current.new."@ + unique@,
{
    let mut r = String::from_str(".current.new.");
    r.append(unique);
    r
}

/// Whether the pointer, read as `existing`, already holds `target`. A
/// pointer that does not exist holds nothing.
pub fn current_points_to(existing: &Option<String>, target: &str) -> (same: bool)
    ensures
        same == (text_option(*existing) == Some(target@)),
{
    match existing {
        Some(held) => str_eq(held.as_str(), target),
        None => false,
    }
}

} // verus!
