//! Authorization policy evaluator: the single source of truth for the role
//! rules that every mutating operation consults.

use vstd::prelude::*;
use crate::model::{Group, GroupV};

verus! {

/// A role a principal may be required to hold over a group.
///
/// Roles from weakest to strongest requirement: `Member` (principal is in the
/// group's member set), `Admin` (principal is in the group's admin set, or is
/// the owner), `Owner` (principal is exactly the owner). DM groups carry an
/// owner field structurally, but no principal holds a privileged role over a
/// DM: `Admin` and `Owner` checks always deny there.
#[derive(Clone, Copy, PartialEq, Eq, Structural, Debug)]
pub enum Role {
    Member,
    Admin,
    Owner,
}

/// What a role check means, stated over the group's spec-level fields.
pub open spec fn spec_role_allows(
    owner: i64,
    admins: Seq<i64>,
    members: Seq<i64>,
    is_dm: bool,
    principal: i64,
    required: Role,
) -> bool {
    match required {
        Role::Member => members.contains(principal),
        Role::Admin => !is_dm && (admins.contains(principal) || owner == principal),
        Role::Owner => !is_dm && owner == principal,
    }
}

/// What a role check on a group means.
pub open spec fn role_allows(g: GroupV, principal: i64, required: Role) -> bool {
    spec_role_allows(g.owner, g.admins, g.members, g.is_dm, principal, required)
}

/// Evaluates a role check: allow or deny. Denial never reveals whether the
/// resource exists; a nonexistent resource is distinguished upstream by an
/// explicit existence check, never by this evaluator.
pub fn check(g: &Group, principal: i64, required: Role) -> (r: bool)
    ensures
        r == role_allows(g@, principal, required),
{
    match required {
        Role::Member => g.members.contains(principal),
        Role::Admin => !g.is_dm && (g.admins.contains(principal) || g.owner == principal),
        Role::Owner => !g.is_dm && g.owner == principal,
    }
}

/// Monotonicity of roles over a group: whenever the `Owner` check allows, the
/// `Admin` check allows, and whenever the `Admin` check allows, the `Member`
/// check allows — provided the group is well formed (its owner is a member
/// and its admins are members).
pub proof fn lemma_group_role_monotonic(g: GroupV, principal: i64)
    requires
        g.members.contains(g.owner),
        forall|a: i64| #[trigger] g.admins.contains(a) ==> g.members.contains(a),
    ensures
        role_allows(g, principal, Role::Owner) ==> role_allows(g, principal, Role::Admin),
        role_allows(g, principal, Role::Admin) ==> role_allows(g, principal, Role::Member),
{
    lemma_role_monotonic(g.owner, g.admins, g.members, g.is_dm, principal);
}

/// Monotonicity of roles: whenever the `Owner` check allows, the `Admin`
/// check allows, and whenever the `Admin` check allows, the `Member` check
/// allows, for the same principal over the same group — provided the group is
/// well formed (its owner is a member and its admins are members).
pub proof fn lemma_role_monotonic(
    owner: i64,
    admins: Seq<i64>,
    members: Seq<i64>,
    is_dm: bool,
    principal: i64,
)
    requires
        members.contains(owner),
        forall|a: i64| admins.contains(a) ==> members.contains(a),
    ensures
        spec_role_allows(owner, admins, members, is_dm, principal, Role::Owner)
            ==> spec_role_allows(owner, admins, members, is_dm, principal, Role::Admin),
        spec_role_allows(owner, admins, members, is_dm, principal, Role::Admin)
            ==> spec_role_allows(owner, admins, members, is_dm, principal, Role::Member),
{
}

} // verus!
