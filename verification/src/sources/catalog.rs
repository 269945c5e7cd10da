//! The owner that a Backstage `catalog-info.yaml` names.
use vstd::prelude::*;

use crate::text::{chars_of, range_has_prefix, string_from_range};

verus! {

/// `group:`, the prefix of a group owner reference.
pub open spec fn group_prefix() -> Seq<char> {
    seq!['g', 'r', 'o', 'u', 'p', ':']
}

/// `user:`, the prefix of a user owner reference.
pub open spec fn user_prefix() -> Seq<char> {
    seq!['u', 's', 'e', 'r', ':']
}

/// The owner named by a `spec.owner` value: without its `group:` prefix, or
/// else its `user:` prefix, when it has one.
pub open spec fn owner_name(owner: Seq<char>) -> Seq<char> {
    if group_prefix().is_prefix_of(owner) {
        owner.skip(6)
    } else if user_prefix().is_prefix_of(owner) {
        owner.skip(5)
    } else {
        owner
    }
}

/// Strip the `group:` prefix from a `spec.owner` value, or else the `user:` prefix.
pub fn strip_prefix(owner: &str) -> (r: String)
    ensures
        r@ == owner_name(owner@),
{
    let v = chars_of(owner);
    let group = vec!['g', 'r', 'o', 'u', 'p', ':'];
    let user = vec!['u', 's', 'e', 'r', ':'];
    assert(group@ =~= group_prefix());
    assert(user@ =~= user_prefix());
    assert(v@.subrange(0, v@.len() as int) =~= v@);
    if range_has_prefix(&v, 0, v.len(), &group) {
        let r = string_from_range(&v, 6, v.len());
        assert(r@ =~= v@.skip(6));
        r
    } else if range_has_prefix(&v, 0, v.len(), &user) {
        let r = string_from_range(&v, 5, v.len());
        assert(r@ =~= v@.skip(5));
        r
    } else {
        owner.to_owned()
    }
}

/// The owner a catalog file names, from its `spec.owner` value (`None` when
/// the file could not be read as a catalog entry or names no owner).
pub fn owner_from_spec(spec_owner: Option<String>) -> (r: Option<String>)
    ensures
        match spec_owner {
            Some(o) => r matches Some(n) && n@ == owner_name(o@),
            None => r is None,
        },
{
    match spec_owner {
        Some(o) => Some(strip_prefix(o.as_str())),
        None => None,
    }
}

} // verus!
