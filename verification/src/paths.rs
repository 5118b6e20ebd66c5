//! Path confinement: gates any user-supplied relative path before it
//! may touch the disk.
//!
//! A relative path is rejected outright when it holds a traversal
//! pattern or a separator; a clean one is joined to its base
//! directory. For targets that already exist the caller canonicalizes
//! both sides and checks containment with
//! [`check_canonical_containment`], which closes symlink escapes.

use vstd::prelude::*;

use crate::strutil::{
    concat2,
    concat3,
    contains_char,
    has_dotdot,
    is_prefix_of,
    str_contains_char,
    str_eq,
    str_has_dotdot,
    str_starts_with,
};

verus! {

/// The base directory joined with a relative path by a single
/// separator.
pub open spec fn joined_path(base: Seq<char>, rel: Seq<char>) -> Seq<char> {
    base + seq!['/'] + rel
}

/// Whether a relative path is free of the three rejected tokens.
pub open spec fn path_component_ok(rel: Seq<char>) -> bool {
    !has_dotdot(rel) && !contains_char(rel, '/') && !contains_char(rel, '\\')
}

/// The exact message with which [`validate_path`] rejects `rel`, or
/// `None` when it accepts. The checks run in a fixed order: `".."`
/// first, then `'/'`, then `'\'`.
pub open spec fn token_error_msg(rel: Seq<char>) -> Option<Seq<char>> {
    if has_dotdot(rel) {
        Some("Path contains invalid traversal pattern '..'"@)
    } else if contains_char(rel, '/') {
        Some("Path contains invalid separator '/'"@)
    } else if contains_char(rel, '\\') {
        Some("Path contains invalid separator '\\'"@)
    } else {
        None
    }
}

/// Validates `relative_path` against traversal and separators and, on
/// a pass, joins it to `base_dir`.
///
/// The error names the offending token; the checks run in a fixed
/// order: `".."` first, then `'/'`, then `'\'`. On success the joined
/// path starts with the base directory by construction. Callers must
/// still confine a target that already exists through
/// [`check_canonical_containment`] after canonicalizing.
pub fn validate_path(base_dir: &str, relative_path: &str) -> (r: Result<String, String>)
    ensures
        token_error_msg(relative_path@) matches Some(m) ==> (r matches Err(e) && e@ == m),
        token_error_msg(relative_path@) is None ==> (r matches Ok(p) && p@ == joined_path(
            base_dir@,
            relative_path@,
        )),
        path_component_ok(relative_path@) <==> r is Ok,
{
    if str_has_dotdot(relative_path) {
        return Err("Path contains invalid traversal pattern '..'".to_owned());
    }
    if str_contains_char(relative_path, '/') {
        return Err("Path contains invalid separator '/'".to_owned());
    }
    if str_contains_char(relative_path, '\\') {
        return Err("Path contains invalid separator '\\'".to_owned());
    }
    let joined = concat3(base_dir, "/", relative_path);
    proof {
        reveal_strlit("/");
        assert(joined@ =~= joined_path(base_dir@, relative_path@));
    }
    Ok(joined)
}

/// Whether a canonical path lies within a canonical base directory:
/// either the same path, or below it past a separator.
pub open spec fn within_base(path: Seq<char>, base: Seq<char>) -> bool {
    path == base || is_prefix_of(base + seq!['/'], path)
}

/// Returns whether the canonicalized target lies within the
/// canonicalized base directory.
pub fn canonical_within_base(canonical_path: &str, canonical_base: &str) -> (r: bool)
    ensures
        r == within_base(canonical_path@, canonical_base@),
{
    if str_eq(canonical_path, canonical_base) {
        return true;
    }
    let base_slash = concat2(canonical_base, "/");
    proof {
        reveal_strlit("/");
        assert(base_slash@ =~= canonical_base@ + seq!['/']);
    }
    str_starts_with(canonical_path, base_slash.as_str())
}

/// Accepts a canonicalized target inside the canonicalized base and
/// rejects every other one with the containment error.
pub fn check_canonical_containment(canonical_path: &str, canonical_base: &str) -> (r: Result<
    (),
    String,
>)
    ensures
        within_base(canonical_path@, canonical_base@) ==> r is Ok,
        !within_base(canonical_path@, canonical_base@) ==> (r matches Err(e) && e@
            == "Path resolves outside of base directory"@),
{
    if canonical_within_base(canonical_path, canonical_base) {
        Ok(())
    } else {
        Err("Path resolves outside of base directory".to_owned())
    }
}

} // verus!
