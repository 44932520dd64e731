//! Group operations: creation, viewing, membership and administration.
//!
//! Every mutating operation consults the policy evaluator; a group that the
//! principal may not see is reported as not found, never as unauthorized, so
//! membership is not leaked.

use vstd::prelude::*;
use vstd::string::StringExecFns;
use crate::idset::IdSet;
use crate::ids::ID_TS_LIMIT;
use crate::model::{ApiError, Channel, ChannelV, Group, GroupV, User, account_user, copy_group, user_of};
use crate::policy::{Role, check, role_allows};
use crate::state::{
    ChatState,
    StateV,
    lemma_wf_gives_except,
    lemma_wf_restore_user_exists,
    removed_member_post,
    seq_ins,
    seq_stripped,
};

verus! {

/// Which error `get_group` reports, if any: a missing group and a group the
/// principal is no member of are both not found.
pub open spec fn get_group_err(s: StateV, principal: i64, id: i64) -> Option<ApiError> {
    if !s.has_group(id) || !s.groups[id].members.contains(principal) {
        Some(ApiError::NotFound)
    } else {
        None
    }
}

/// Which error `make_group` reports, if any.
pub open spec fn make_group_err(s: StateV, principal: i64, name: Seq<char>) -> Option<ApiError> {
    if name.len() == 0 {
        Some(ApiError::BadRequest)
    } else if !s.has_user(principal) {
        Some(ApiError::NotFound)
    } else if s.last_id >= i64::MAX - 1 {
        Some(ApiError::InternalError)
    } else {
        None
    }
}

/// Which error `make_dm` reports, if any. A DM with oneself is malformed: a
/// DM always has exactly two members.
pub open spec fn make_dm_err(s: StateV, principal: i64, uid: i64) -> Option<ApiError> {
    if !s.has_user(uid) || !s.has_user(principal) {
        Some(ApiError::NotFound)
    } else if principal == uid {
        Some(ApiError::BadRequest)
    } else if s.last_id >= i64::MAX - 1 {
        Some(ApiError::InternalError)
    } else {
        None
    }
}

/// Which error `update_group` reports, if any.
pub open spec fn update_group_err(s: StateV, principal: i64, id: i64, name: Seq<char>) -> Option<
    ApiError,
> {
    if name.len() == 0 {
        Some(ApiError::BadRequest)
    } else if !s.has_group(id) {
        Some(ApiError::NotFound)
    } else if !role_allows(s.groups[id], principal, Role::Owner) {
        Some(ApiError::Unauthorized)
    } else {
        None
    }
}

/// Which error `leave_group` reports, if any: the owner cannot leave its own
/// group through the member-removal path.
pub open spec fn leave_group_err(s: StateV, principal: i64, gid: i64) -> Option<ApiError> {
    if !s.has_group(gid) {
        Some(ApiError::NotFound)
    } else if s.groups[gid].owner == principal {
        Some(ApiError::Unauthorized)
    } else {
        None
    }
}

/// Which error `remove_group_member` reports, if any: removing the owner is
/// always denied, whoever asks.
pub open spec fn remove_member_err(s: StateV, principal: i64, gid: i64, uid: i64) -> Option<
    ApiError,
> {
    if !s.has_group(gid) {
        Some(ApiError::NotFound)
    } else if !s.has_user(uid) {
        Some(ApiError::NotFound)
    } else if !role_allows(s.groups[gid], principal, Role::Admin) || s.groups[gid].owner == uid {
        Some(ApiError::Unauthorized)
    } else {
        None
    }
}

/// Which error `add_group_member` reports, if any.
pub open spec fn add_member_err(s: StateV, principal: i64, gid: i64, uid: i64) -> Option<
    ApiError,
> {
    if !s.has_group(gid) {
        Some(ApiError::NotFound)
    } else if !s.has_user(uid) {
        Some(ApiError::NotFound)
    } else if !role_allows(s.groups[gid], principal, Role::Admin) {
        Some(ApiError::Unauthorized)
    } else {
        None
    }
}

/// Which error `add_group_admin` reports, if any: the admin role is an
/// overlay on membership, so the target must already be a member.
pub open spec fn add_admin_err(s: StateV, principal: i64, gid: i64, uid: i64) -> Option<ApiError> {
    if !s.has_group(gid) {
        Some(ApiError::NotFound)
    } else if !s.has_user(uid) {
        Some(ApiError::NotFound)
    } else if !role_allows(s.groups[gid], principal, Role::Owner) {
        Some(ApiError::Unauthorized)
    } else if !s.groups[gid].members.contains(uid) {
        Some(ApiError::NotFound)
    } else {
        None
    }
}

/// Which error `remove_group_admin` reports, if any.
pub open spec fn remove_admin_err(s: StateV, principal: i64, gid: i64, uid: i64) -> Option<
    ApiError,
> {
    if !s.has_group(gid) {
        Some(ApiError::NotFound)
    } else if !s.has_user(uid) {
        Some(ApiError::NotFound)
    } else if !role_allows(s.groups[gid], principal, Role::Owner) {
        Some(ApiError::Unauthorized)
    } else {
        None
    }
}

/// Which error `delete_group` reports, if any: only the owner may delete,
/// and no principal holds the owner role over a DM.
pub open spec fn delete_group_err(s: StateV, principal: i64, id: i64) -> Option<ApiError> {
    if !s.has_group(id) {
        Some(ApiError::NotFound)
    } else if !role_allows(s.groups[id], principal, Role::Owner) {
        Some(ApiError::Unauthorized)
    } else {
        None
    }
}

/// Owner invariant, first half: in a well-formed state, a group's owner is in
/// the group's member set for as long as the owner's account exists.
pub proof fn lemma_owner_is_member(s: StateV, gid: i64)
    requires
        s.wf(),
        s.has_group(gid),
        s.users.dom().contains(s.groups[gid].owner),
    ensures
        s.groups[gid].members.contains(s.groups[gid].owner),
{
}

/// Owner invariant, second half: removing a group's owner through
/// remove-group-member is always refused, whoever asks.
pub proof fn lemma_remove_owner_always_denied(s: StateV, principal: i64, gid: i64)
    requires
        s.wf(),
        s.has_group(gid),
    ensures
        remove_member_err(s, principal, gid, s.groups[gid].owner) is Some,
{
}

/// Which error a member-listing view reports, if any: a group the principal
/// is no member of is reported as not found.
pub open spec fn view_group_err(s: StateV, principal: i64, id: i64) -> Option<ApiError> {
    if !s.has_group(id) {
        Some(ApiError::NotFound)
    } else if !s.groups[id].members.contains(principal) {
        Some(ApiError::NotFound)
    } else {
        None
    }
}

impl ChatState {
    /// The group with the given id, visible to its members only.
    pub fn get_group(&self, principal: i64, id: i64) -> (r: Result<Group, ApiError>)
        requires
            self@.wf(),
        ensures
            r is Ok <==> get_group_err(self@, principal, id) is None,
            r matches Err(e) ==> get_group_err(self@, principal, id) == Some(e),
            r matches Ok(g) ==> g@ == self@.groups[id],
    {
        match self.group_get(id) {
            None => Err(ApiError::NotFound),
            Some(g) => {
                if g.members.contains(principal) {
                    Ok(copy_group(g))
                } else {
                    Err(ApiError::NotFound)
                }
            },
        }
    }

    /// Creates a group: the caller becomes owner, sole admin and sole member,
    /// and a public "main" channel is created with the caller as its sole
    /// member.
    pub fn make_group(&mut self, principal: i64, name: &str, now_ms: u64) -> (r: Result<
        Group,
        ApiError,
    >)
        requires
            old(self)@.wf(),
            now_ms < ID_TS_LIMIT,
        ensures
            final(self)@.wf(),
            r is Ok <==> make_group_err(old(self)@, principal, name@) is None,
            r matches Err(e) ==> make_group_err(old(self)@, principal, name@) == Some(e)
                && final(self)@ == old(self)@,
            r matches Ok(g) ==> {
                let gid = g@.id;
                let cid = g@.channels[0];
                &&& g@.name == name@
                &&& g@.owner == principal
                &&& g@.members == seq![principal]
                &&& g@.admins == seq![principal]
                &&& g@.channels.len() == 1
                &&& !g@.is_dm
                &&& old(self)@.last_id < gid < cid
                &&& !old(self)@.has_group(gid)
                &&& !old(self)@.has_channel(cid)
                &&& final(self)@ =~~= (StateV {
                    last_id: cid,
                    groups: old(self)@.groups.insert(gid, g@),
                    channels: old(self)@.channels.insert(
                        cid,
                        ChannelV {
                            id: cid,
                            group: gid,
                            name: "main"@,
                            members: seq![principal],
                            private: false,
                        },
                    ),
                    user_groups: old(self)@.user_groups.insert(
                        principal,
                        old(self)@.user_groups[principal].push(gid),
                    ),
                    ..old(self)@
                })
            },
    {
        let ghost prev = old(self)@;
        let chars = crate::strings::str_char_vec(name);
        if chars.len() == 0 {
            return Err(ApiError::BadRequest);
        }
        let idx = match self.ug_get(principal) {
            None => {
                proof {
                    assert(prev.user_groups.dom() == prev.users.dom());
                }
                return Err(ApiError::NotFound);
            },
            Some(s) => s.duplicate(),
        };
        if self.last_id() >= i64::MAX - 1 {
            return Err(ApiError::InternalError);
        }
        let gid = self.alloc_id(now_ms);
        let cid = self.alloc_id(now_ms);
        let mut members = IdSet::new();
        members.insert(principal);
        let mut admins = IdSet::new();
        admins.insert(principal);
        let mut channels = IdSet::new();
        channels.insert(cid);
        let g = Group {
            id: gid,
            name: name.to_owned(),
            owner: principal,
            admins,
            members,
            channels,
            is_dm: false,
        };
        let ret = copy_group(&g);
        self.group_put(gid, g);
        let mut cmembers = IdSet::new();
        cmembers.insert(principal);
        self.channel_put(
            cid,
            Channel {
                id: cid,
                group: gid,
                name: String::from_str("main"),
                members: cmembers,
                private: false,
            },
        );
        let mut idx2 = idx;
        idx2.insert(gid);
        self.ug_put(principal, idx2);
        proof {
            let cur = self@;
            reveal_strlit("main");
            assert(ret@.members =~= seq![principal]);
            assert(ret@.admins =~= seq![principal]);
            assert(ret@.channels =~= seq![cid]);
            assert(!prev.has_group(gid));
            assert(!prev.has_channel(cid));
            assert(!prev.user_groups[principal].contains(gid)) by {
                if prev.user_groups[principal].contains(gid) {
                    assert(prev.has_group(gid));
                }
            }
            assert(cur.user_groups[principal] =~= prev.user_groups[principal].push(gid));
            assert(cur =~~= (StateV {
                last_id: cid,
                groups: prev.groups.insert(gid, ret@),
                channels: prev.channels.insert(
                    cid,
                    ChannelV {
                        id: cid,
                        group: gid,
                        name: "main"@,
                        members: seq![principal],
                        private: false,
                    },
                ),
                user_groups: prev.user_groups.insert(
                    principal,
                    prev.user_groups[principal].push(gid),
                ),
                ..prev
            }));
            assert(cur.wf()) by {
                lemma_fresh_group_wf(prev, cur, gid, cid, principal, ret@);
            }
        }
        Ok(ret)
    }

    /// Creates a DM between the caller and `uid`: a two-member group marked
    /// as a DM over which nobody holds a privileged role, with a single
    /// "main" channel holding both members.
    pub fn make_dm(&mut self, principal: i64, uid: i64, now_ms: u64) -> (r: Result<
        Group,
        ApiError,
    >)
        requires
            old(self)@.wf(),
            now_ms < ID_TS_LIMIT,
        ensures
            final(self)@.wf(),
            r is Ok <==> make_dm_err(old(self)@, principal, uid) is None,
            r matches Err(e) ==> make_dm_err(old(self)@, principal, uid) == Some(e)
                && final(self)@ == old(self)@,
            r matches Ok(g) ==> {
                let gid = g@.id;
                let cid = g@.channels[0];
                &&& g@.name == Seq::<char>::empty()
                &&& g@.owner == principal
                &&& g@.members == seq![principal, uid]
                &&& g@.admins == Seq::<i64>::empty()
                &&& g@.channels.len() == 1
                &&& g@.is_dm
                &&& old(self)@.last_id < gid < cid
                &&& !old(self)@.has_group(gid)
                &&& !old(self)@.has_channel(cid)
                &&& final(self)@ =~~= (StateV {
                    last_id: cid,
                    groups: old(self)@.groups.insert(gid, g@),
                    channels: old(self)@.channels.insert(
                        cid,
                        ChannelV {
                            id: cid,
                            group: gid,
                            name: "main"@,
                            members: seq![principal, uid],
                            private: false,
                        },
                    ),
                    user_dms: old(self)@.user_dms.insert(
                        principal,
                        old(self)@.user_dms[principal].push(gid),
                    ).insert(uid, old(self)@.user_dms[uid].push(gid)),
                    ..old(self)@
                })
            },
    {
        let ghost prev = old(self)@;
        if self.user_get(uid).is_none() {
            return Err(ApiError::NotFound);
        }
        let pidx = match self.ud_get(principal) {
            None => {
                proof {
                    assert(prev.user_dms.dom() == prev.users.dom());
                }
                return Err(ApiError::NotFound);
            },
            Some(s) => s.duplicate(),
        };
        if principal == uid {
            return Err(ApiError::BadRequest);
        }
        let uidx = match self.ud_get(uid) {
            None => {
                proof {
                    assert(false);
                }
                return Err(ApiError::NotFound);
            },
            Some(s) => s.duplicate(),
        };
        if self.last_id() >= i64::MAX - 1 {
            return Err(ApiError::InternalError);
        }
        let gid = self.alloc_id(now_ms);
        let cid = self.alloc_id(now_ms);
        let mut members = IdSet::new();
        members.insert(principal);
        members.insert(uid);
        let mut channels = IdSet::new();
        channels.insert(cid);
        let g = Group {
            id: gid,
            name: String::new(),
            owner: principal,
            admins: IdSet::new(),
            members,
            channels,
            is_dm: true,
        };
        let ret = copy_group(&g);
        self.group_put(gid, g);
        let mut cmembers = IdSet::new();
        cmembers.insert(principal);
        cmembers.insert(uid);
        self.channel_put(
            cid,
            Channel {
                id: cid,
                group: gid,
                name: String::from_str("main"),
                members: cmembers,
                private: false,
            },
        );
        let mut pidx2 = pidx;
        pidx2.insert(gid);
        self.ud_put(principal, pidx2);
        let mut uidx2 = uidx;
        uidx2.insert(gid);
        self.ud_put(uid, uidx2);
        proof {
            let cur = self@;
            reveal_strlit("main");
            assert(ret@.members =~= seq![principal, uid]);
            assert(ret@.admins =~= Seq::<i64>::empty());
            assert(ret@.channels =~= seq![cid]);
            assert(!prev.has_group(gid));
            assert(!prev.has_channel(cid));
            assert(!prev.user_dms[principal].contains(gid)) by {
                if prev.user_dms[principal].contains(gid) {
                    assert(prev.has_group(gid));
                }
            }
            assert(!prev.user_dms[uid].contains(gid)) by {
                if prev.user_dms[uid].contains(gid) {
                    assert(prev.has_group(gid));
                }
            }
            assert(cur.user_dms[principal] =~= prev.user_dms[principal].push(gid));
            assert(cur.user_dms[uid] =~= prev.user_dms[uid].push(gid));
            assert(cur =~~= (StateV {
                last_id: cid,
                groups: prev.groups.insert(gid, ret@),
                channels: prev.channels.insert(
                    cid,
                    ChannelV {
                        id: cid,
                        group: gid,
                        name: "main"@,
                        members: seq![principal, uid],
                        private: false,
                    },
                ),
                user_dms: prev.user_dms.insert(
                    principal,
                    prev.user_dms[principal].push(gid),
                ).insert(uid, prev.user_dms[uid].push(gid)),
                ..prev
            }));
            assert(cur.wf()) by {
                lemma_fresh_dm_wf(prev, cur, gid, cid, principal, uid, ret@);
            }
        }
        Ok(ret)
    }

    /// Renames a group; owners only.
    pub fn update_group(&mut self, principal: i64, id: i64, name: &str) -> (r: Result<
        (),
        ApiError,
    >)
        requires
            old(self)@.wf(),
        ensures
            final(self)@.wf(),
            r is Ok <==> update_group_err(old(self)@, principal, id, name@) is None,
            r matches Err(e) ==> update_group_err(old(self)@, principal, id, name@) == Some(e)
                && final(self)@ == old(self)@,
            r is Ok ==> final(self)@ =~~= (StateV {
                groups: old(self)@.groups.insert(
                    id,
                    GroupV { name: name@, ..old(self)@.groups[id] },
                ),
                ..old(self)@
            }),
    {
        let chars = crate::strings::str_char_vec(name);
        if chars.len() == 0 {
            return Err(ApiError::BadRequest);
        }
        let g = match self.group_get(id) {
            None => {
                return Err(ApiError::NotFound);
            },
            Some(g) => {
                if !check(g, principal, Role::Owner) {
                    return Err(ApiError::Unauthorized);
                }
                copy_group(g)
            },
        };
        let g2 = Group { name: name.to_owned(), ..g };
        self.group_put(id, g2);
        proof {
            assert(self@.groups.dom() =~= old(self)@.groups.dom());
        }
        Ok(())
    }

    /// Leaves a group: removes the caller's own membership through the
    /// idempotent removal cascade. The owner cannot leave its own group.
    pub fn leave_group(&mut self, principal: i64, gid: i64) -> (r: Result<(), ApiError>)
        requires
            old(self)@.wf(),
        ensures
            final(self)@.wf(),
            r is Ok <==> leave_group_err(old(self)@, principal, gid) is None,
            r matches Err(e) ==> leave_group_err(old(self)@, principal, gid) == Some(e)
                && final(self)@ == old(self)@,
            r is Ok ==> removed_member_post(old(self)@, final(self)@, gid, principal),
    {
        let ghost prev = old(self)@;
        match self.group_get(gid) {
            None => {
                return Err(ApiError::NotFound);
            },
            Some(g) => {
                if g.owner == principal {
                    return Err(ApiError::Unauthorized);
                }
            },
        }
        proof {
            lemma_wf_gives_except(prev, principal);
        }
        self.cascade_remove_member(gid, principal);
        proof {
            let cur = self@;
            if prev.has_user(principal) {
                lemma_wf_restore_user_exists(cur, principal);
            } else {
                assert forall|g2: i64, u: i64|
                    cur.groups.dom().contains(g2) && #[trigger] cur.groups[g2].members.contains(u)
                        implies cur.users.dom().contains(u) by {
                    if u == principal {
                        if g2 == gid {
                        } else {
                            assert(cur.groups[g2] == prev.groups[g2]);
                            assert(prev.users.dom().contains(principal));
                        }
                    }
                }
            }
        }
        Ok(())
    }

    /// Removes a member from a group; group admins only, and removing the
    /// owner is always denied. The cascade also strips the member from every
    /// channel of the group and drops its admin overlay; run twice, the
    /// second call changes nothing.
    pub fn remove_group_member(&mut self, principal: i64, gid: i64, uid: i64) -> (r: Result<
        (),
        ApiError,
    >)
        requires
            old(self)@.wf(),
        ensures
            final(self)@.wf(),
            r is Ok <==> remove_member_err(old(self)@, principal, gid, uid) is None,
            r matches Err(e) ==> remove_member_err(old(self)@, principal, gid, uid) == Some(e)
                && final(self)@ == old(self)@,
            r is Ok ==> removed_member_post(old(self)@, final(self)@, gid, uid),
    {
        let ghost prev = old(self)@;
        match self.group_get(gid) {
            None => {
                return Err(ApiError::NotFound);
            },
            Some(g) => {
                if self.user_get(uid).is_none() {
                    return Err(ApiError::NotFound);
                }
            },
        }
        match self.group_get(gid) {
            None => {
                proof {
                    assert(false);
                }
                return Err(ApiError::NotFound);
            },
            Some(g) => {
                if !check(g, principal, Role::Admin) || g.owner == uid {
                    return Err(ApiError::Unauthorized);
                }
            },
        }
        proof {
            lemma_wf_gives_except(prev, uid);
        }
        self.cascade_remove_member(gid, uid);
        proof {
            lemma_wf_restore_user_exists(self@, uid);
        }
        Ok(())
    }

    /// Adds a member to a group; group admins only. The new member also
    /// joins every public channel of the group, and the group is recorded in
    /// its membership index. Adding a present member changes nothing.
    pub fn add_group_member(&mut self, principal: i64, gid: i64, uid: i64) -> (r: Result<
        (),
        ApiError,
    >)
        requires
            old(self)@.wf(),
        ensures
            final(self)@.wf(),
            r is Ok <==> add_member_err(old(self)@, principal, gid, uid) is None,
            r matches Err(e) ==> add_member_err(old(self)@, principal, gid, uid) == Some(e)
                && final(self)@ == old(self)@,
            r is Ok ==> {
                &&& final(self)@.groups == old(self)@.groups.insert(
                    gid,
                    GroupV {
                        members: seq_ins(old(self)@.groups[gid].members, uid),
                        ..old(self)@.groups[gid]
                    },
                )
                &&& final(self)@.channels.dom() == old(self)@.channels.dom()
                &&& forall|cid: i64|
                    old(self)@.has_channel(cid) && !old(self)@.groups[gid].channels.contains(cid)
                        ==> final(self)@.channels[cid] == #[trigger] old(self)@.channels[cid]
                &&& forall|cid: i64| #[trigger]
                    old(self)@.groups[gid].channels.contains(cid) ==> final(self)@.channels[cid]
                        == (if old(self)@.channels[cid].private {
                        old(self)@.channels[cid]
                    } else {
                        ChannelV {
                            members: seq_ins(old(self)@.channels[cid].members, uid),
                            ..old(self)@.channels[cid]
                        }
                    })
                &&& final(self)@.user_groups == old(self)@.user_groups.insert(
                    uid,
                    seq_ins(old(self)@.user_groups[uid], gid),
                )
                &&& final(self)@.users == old(self)@.users
                &&& final(self)@.user_dms == old(self)@.user_dms
                &&& final(self)@.messages == old(self)@.messages
                &&& final(self)@.last_id == old(self)@.last_id
            },
    {
        let ghost prev = old(self)@;
        let chans: Vec<i64>;
        match self.group_get(gid) {
            None => {
                return Err(ApiError::NotFound);
            },
            Some(g) => {
                chans = g.channels.to_vec();
            },
        }
        if self.user_get(uid).is_none() {
            return Err(ApiError::NotFound);
        }
        match self.group_get(gid) {
            None => {
                proof {
                    assert(false);
                }
                return Err(ApiError::NotFound);
            },
            Some(g) => {
                if !check(g, principal, Role::Admin) {
                    return Err(ApiError::Unauthorized);
                }
            },
        }
        // Join every public channel of the group.
        let nchan = chans.len();
        for i in 0..nchan
            invariant
                nchan == chans@.len(),
                prev.wf(),
                prev.has_group(gid),
                prev.has_user(uid),
                chans@ == prev.groups[gid].channels,
                self@.users == prev.users,
                self@.messages == prev.messages,
                self@.last_id == prev.last_id,
                self@.groups == prev.groups,
                self@.user_groups == prev.user_groups,
                self@.user_dms == prev.user_dms,
                self@.channels.dom() =~= prev.channels.dom(),
                forall|cid: i64|
                    #![trigger self@.channels[cid]]
                    prev.has_channel(cid) && !chans@.take(i as int).contains(cid)
                        ==> self@.channels[cid] == prev.channels[cid],
                forall|cid: i64|
                    #![trigger chans@.take(i as int).contains(cid)]
                    #![trigger self@.channels[cid]]
                    chans@.take(i as int).contains(cid) ==> self@.channels[cid] == (if prev.channels[
                        cid
                    ].private {
                        prev.channels[cid]
                    } else {
                        ChannelV {
                            members: seq_ins(prev.channels[cid].members, uid),
                            ..prev.channels[cid]
                        }
                    }),
        {
            let cid = chans[i];
            proof {
                assert(prev.groups[gid].channels.contains(cid));
                assert(prev.has_channel(cid));
                assert(chans@.no_duplicates());
                assert(!chans@.take(i as int).contains(cid)) by {
                    if chans@.take(i as int).contains(cid) {
                        let j = chans@.take(i as int).index_of(cid);
                        assert(chans@[j] == chans@[i as int]);
                    }
                }
                assert(self@.channels[cid] == prev.channels[cid]);
            }
            let ghost before = self@;
            let upd: Option<Channel> = match self.channel_get(cid) {
                Some(c) => {
                    if c.private {
                        None
                    } else {
                        let mut m = c.members.duplicate();
                        m.insert(uid);
                        Some(
                            Channel {
                                id: c.id,
                                group: c.group,
                                name: c.name.clone(),
                                members: m,
                                private: c.private,
                            },
                        )
                    }
                },
                None => {
                    proof {
                        assert(false);
                    }
                    return Err(ApiError::InternalError);
                },
            };
            match upd {
                Some(ch) => {
                    self.channel_put(cid, ch);
                },
                None => {},
            }
            proof {
                lemma_take_extend_frame(chans@, i as int, cid, before, self@, prev, uid);
            }
        }
        assert(chans@.take(nchan as int) =~= chans@);
        // Add to the member set and the membership index.
        let g2: Group;
        match self.group_get(gid) {
            Some(g) => {
                let mut members = g.members.duplicate();
                let name = g.name.clone();
                let admins = g.admins.duplicate();
                let channels = g.channels.duplicate();
                let owner = g.owner;
                let is_dm = g.is_dm;
                members.insert(uid);
                g2 = Group { id: gid, name, owner, admins, members, channels, is_dm };
            },
            None => {
                proof {
                    assert(false);
                }
                return Err(ApiError::InternalError);
            },
        }
        self.group_put(gid, g2);
        let idx2: IdSet;
        match self.ug_get(uid) {
            Some(s) => {
                let mut s2 = s.duplicate();
                s2.insert(gid);
                idx2 = s2;
            },
            None => {
                proof {
                    assert(prev.user_groups.dom() == prev.users.dom());
                    assert(false);
                }
                return Err(ApiError::InternalError);
            },
        }
        self.ug_put(uid, idx2);
        proof {
            let cur = self@;
            assert(cur.groups =~= prev.groups.insert(
                gid,
                GroupV { members: seq_ins(prev.groups[gid].members, uid), ..prev.groups[gid] },
            ));
            assert(cur.user_groups =~= prev.user_groups.insert(
                uid,
                seq_ins(prev.user_groups[uid], gid),
            ));
            assert(cur.channels.dom() =~= prev.channels.dom());
            assert forall|cid: i64| #[trigger]
                prev.groups[gid].channels.contains(cid) implies cur.channels[cid] == (
            if prev.channels[cid].private {
                prev.channels[cid]
            } else {
                ChannelV { members: seq_ins(prev.channels[cid].members, uid), ..prev.channels[cid] }
            }) by {
                assert(chans@.take(nchan as int).contains(cid));
            }
            assert(cur.wf()) by {
                lemma_add_member_wf(prev, cur, gid, uid);
            }
        }
        Ok(())
    }

    /// Deletes a group; owners only (so a DM, over which nobody holds the
    /// owner role, cannot be deleted). Every member's group index forgets the
    /// group, every channel of the group is deleted, and the deleted
    /// channels' messages are purged.
    pub fn delete_group(&mut self, principal: i64, id: i64) -> (r: Result<(), ApiError>)
        requires
            old(self)@.wf(),
        ensures
            final(self)@.wf(),
            r is Ok <==> delete_group_err(old(self)@, principal, id) is None,
            r matches Err(e) ==> delete_group_err(old(self)@, principal, id) == Some(e)
                && final(self)@ == old(self)@,
            r is Ok ==> {
                &&& final(self)@.groups == old(self)@.groups.remove(id)
                &&& forall|cid: i64| #[trigger]
                    old(self)@.groups[id].channels.contains(cid) ==> !final(self)@.has_channel(cid)
                &&& forall|cid: i64|
                    old(self)@.has_channel(cid) && !old(self)@.groups[id].channels.contains(cid)
                        ==> final(self)@.has_channel(cid) && final(self)@.channels[cid]
                        == #[trigger] old(self)@.channels[cid]
                &&& forall|cid: i64| #[trigger]
                    final(self)@.has_channel(cid) ==> old(self)@.has_channel(cid)
                &&& final(self)@.messages == crate::messages::msgs_outside(
                    old(self)@.messages,
                    old(self)@.groups[id].channels,
                )
                &&& final(self)@.users == old(self)@.users
                &&& final(self)@.user_dms == old(self)@.user_dms
                &&& final(self)@.last_id == old(self)@.last_id
                &&& final(self)@.user_groups.dom() == old(self)@.user_groups.dom()
                &&& forall|u: i64| #[trigger]
                    old(self)@.user_groups.dom().contains(u) ==> seq_stripped(
                        old(self)@.user_groups[u],
                        final(self)@.user_groups[u],
                        id,
                    )
            },
    {
        let ghost prev = old(self)@;
        let mvec: Vec<i64>;
        let cvec: Vec<i64>;
        let chanset: IdSet;
        match self.group_get(id) {
            None => {
                return Err(ApiError::NotFound);
            },
            Some(g) => {
                if !check(g, principal, Role::Owner) {
                    return Err(ApiError::Unauthorized);
                }
                mvec = g.members.to_vec();
                cvec = g.channels.to_vec();
                chanset = g.channels.duplicate();
            },
        }
        // Forget the group in every member's group index.
        let nm = mvec.len();
        for i in 0..nm
            invariant
                nm == mvec@.len(),
                prev.wf(),
                prev.has_group(id),
                !prev.groups[id].is_dm,
                mvec@ == prev.groups[id].members,
                self@.users == prev.users,
                self@.groups == prev.groups,
                self@.channels == prev.channels,
                self@.messages == prev.messages,
                self@.last_id == prev.last_id,
                self@.user_dms == prev.user_dms,
                self@.user_groups.dom() =~= prev.user_groups.dom(),
                forall|u: i64|
                    #![trigger self@.user_groups[u]]
                    prev.user_groups.dom().contains(u) && !mvec@.take(i as int).contains(u)
                        ==> self@.user_groups[u] == prev.user_groups[u],
                forall|u: i64|
                    #![trigger mvec@.take(i as int).contains(u)]
                    #![trigger self@.user_groups[u]]
                    mvec@.take(i as int).contains(u) ==> seq_stripped(
                        prev.user_groups[u],
                        self@.user_groups[u],
                        id,
                    ),
        {
            let u = mvec[i];
            proof {
                assert(prev.groups[id].members.contains(u));
                assert(prev.users.dom().contains(u));
                assert(mvec@.no_duplicates());
                assert(!mvec@.take(i as int).contains(u)) by {
                    if mvec@.take(i as int).contains(u) {
                        let j = mvec@.take(i as int).index_of(u);
                        assert(mvec@[j] == mvec@[i as int]);
                    }
                }
                assert(self@.user_groups[u] == prev.user_groups[u]);
            }
            let ghost before = self@;
            let idx2: IdSet;
            match self.ug_get(u) {
                Some(s) => {
                    let mut s2 = s.duplicate();
                    s2.remove(id);
                    idx2 = s2;
                },
                None => {
                    proof {
                        assert(false);
                    }
                    return Err(ApiError::InternalError);
                },
            }
            self.ug_put(u, idx2);
            proof {
                assert(seq_stripped(prev.user_groups[u], self@.user_groups[u], id));
                assert forall|u2: i64| #[trigger]
                    mvec@.take(i as int + 1).contains(u2) implies seq_stripped(
                    prev.user_groups[u2],
                    self@.user_groups[u2],
                    id,
                ) by {
                    if u2 != u {
                        let j = mvec@.take(i as int + 1).index_of(u2);
                        assert(mvec@.take(i as int + 1)[j] == u2);
                        assert(j < i as int);
                        assert(mvec@.take(i as int)[j] == u2);
                        assert(mvec@.take(i as int).contains(u2));
                        assert(seq_stripped(prev.user_groups[u2], before.user_groups[u2], id));
                        assert(self@.user_groups[u2] == before.user_groups[u2]);
                    }
                }
                assert forall|u2: i64|
                    prev.user_groups.dom().contains(u2) && !mvec@.take(i as int + 1).contains(
                        u2,
                    ) implies self@.user_groups[u2] == prev.user_groups[u2] by {
                    assert(u2 != u) by {
                        assert(mvec@.take(i as int + 1)[i as int] == u);
                    }
                    assert(!mvec@.take(i as int).contains(u2)) by {
                        if mvec@.take(i as int).contains(u2) {
                            let j = mvec@.take(i as int).index_of(u2);
                            assert(mvec@.take(i as int + 1)[j] == u2);
                        }
                    }
                    assert(before.user_groups[u2] == prev.user_groups[u2]);
                    assert(self@.user_groups[u2] == before.user_groups[u2]);
                }
            }
        }
        proof {
            assert(mvec@.take(nm as int) =~= mvec@);
        }
        // Purge the messages of every channel of the group, then the channels
        // themselves.
        self.purge_channel_messages(&chanset);
        let ghost base = self@;
        let nc = cvec.len();
        for j in 0..nc
            invariant
                nc == cvec@.len(),
                prev.wf(),
                prev.has_group(id),
                cvec@ == prev.groups[id].channels,
                self@.users == base.users,
                self@.groups == base.groups,
                self@.messages == base.messages,
                self@.last_id == base.last_id,
                self@.user_dms == base.user_dms,
                self@.user_groups == base.user_groups,
                base.channels == prev.channels,
                forall|c2: i64|
                    #![trigger cvec@.take(j as int).contains(c2)]
                    #![trigger self@.channels.dom().contains(c2)]
                    cvec@.take(j as int).contains(c2) ==> !self@.channels.dom().contains(c2),
                forall|c2: i64|
                    prev.has_channel(c2) && !cvec@.take(j as int).contains(c2)
                        ==> self@.has_channel(c2) && self@.channels[c2] == #[trigger] prev.channels[
                        c2
                    ],
                forall|c2: i64| #[trigger]
                    self@.channels.dom().contains(c2) ==> prev.has_channel(c2),
        {
            let cid = cvec[j];
            let ghost before = self@;
            self.channel_del(cid);
            proof {
                assert(self@.channels == before.channels.remove(cid));
                assert forall|c2: i64| #[trigger]
                    cvec@.take(j as int + 1).contains(c2) implies !self@.channels.dom().contains(
                    c2,
                ) by {
                    if c2 != cid {
                        let k = cvec@.take(j as int + 1).index_of(c2);
                        assert(cvec@.take(j as int + 1)[k] == c2);
                        assert(k < j as int);
                        assert(cvec@.take(j as int)[k] == c2);
                        assert(cvec@.take(j as int).contains(c2));
                        assert(!before.channels.dom().contains(c2));
                    }
                }
                assert forall|c2: i64|
                    prev.has_channel(c2) && !cvec@.take(j as int + 1).contains(
                        c2,
                    ) implies self@.has_channel(c2) && self@.channels[c2] == prev.channels[c2] by {
                    assert(c2 != cid) by {
                        assert(cvec@.take(j as int + 1)[j as int] == cid);
                        assert(cvec@.take(j as int + 1).contains(cid));
                    }
                    assert(!cvec@.take(j as int).contains(c2)) by {
                        if cvec@.take(j as int).contains(c2) {
                            let k = cvec@.take(j as int).index_of(c2);
                            assert(cvec@.take(j as int + 1)[k] == c2);
                        }
                    }
                    assert(before.has_channel(c2) && before.channels[c2] == prev.channels[c2]);
                }
                assert forall|c2: i64| #[trigger]
                    self@.channels.dom().contains(c2) implies prev.has_channel(c2) by {
                    assert(before.channels.dom().contains(c2));
                }
            }
        }
        proof {
            assert(cvec@.take(nc as int) =~= cvec@);
        }
        let ghost afterchan = self@;
        self.group_del(id);
        proof {
            let cur = self@;
            assert(cur.channels == afterchan.channels);
            let cl = prev.groups[id].channels;
            crate::messages::lemma_msgs_outside_props(prev.messages, cl);
            assert(cur.groups =~= prev.groups.remove(id));
            assert(cur.user_groups.dom() =~= prev.user_groups.dom());
            assert(cur.wf()) by {
                assert(cur.indices_wf()) by {
                    assert(cur.user_groups.dom() =~= cur.users.dom());
                    assert forall|u2: i64, g2: i64|
                        cur.users.dom().contains(u2) && #[trigger] cur.user_groups[u2].contains(
                            g2,
                        ) implies cur.groups.dom().contains(g2) && !cur.groups[g2].is_dm
                        && cur.groups[g2].members.contains(u2) by {
                        assert(seq_stripped(prev.user_groups[u2], cur.user_groups[u2], id))
                            by {
                            if !mvec@.contains(u2) {
                                assert(cur.user_groups[u2] == prev.user_groups[u2]);
                                assert(!prev.user_groups[u2].contains(id)) by {
                                    if prev.user_groups[u2].contains(id) {
                                        assert(prev.groups[id].members.contains(u2));
                                    }
                                }
                            }
                        }
                        assert(g2 != id);
                        assert(prev.user_groups[u2].contains(g2));
                        assert(cur.groups[g2] == prev.groups[g2]);
                    }
                    assert forall|u2: i64, g2: i64|
                        cur.users.dom().contains(u2) && #[trigger] cur.user_dms[u2].contains(
                            g2,
                        ) implies cur.groups.dom().contains(g2) && cur.groups[g2].is_dm
                        && cur.groups[g2].members.contains(u2) by {
                        assert(prev.user_dms[u2].contains(g2));
                        assert(g2 != id) by {
                            if g2 == id {
                                assert(prev.groups[id].is_dm);
                            }
                        }
                    }
                    assert forall|g2: i64, u2: i64|
                        cur.groups.dom().contains(g2) && #[trigger] cur.groups[g2].members.contains(
                            u2,
                        ) && cur.users.dom().contains(u2) implies (if cur.groups[g2].is_dm {
                        cur.user_dms[u2].contains(g2)
                    } else {
                        cur.user_groups[u2].contains(g2)
                    }) by {
                        assert(g2 != id);
                        assert(prev.groups[g2].members.contains(u2));
                        if !prev.groups[g2].is_dm {
                            assert(prev.user_groups[u2].contains(g2));
                            assert(seq_stripped(prev.user_groups[u2], cur.user_groups[u2], id))
                                by {
                                if !mvec@.contains(u2) {
                                    assert(cur.user_groups[u2] == prev.user_groups[u2]);
                                    assert(!prev.user_groups[u2].contains(id)) by {
                                        if prev.user_groups[u2].contains(id) {
                                            assert(prev.groups[id].members.contains(u2));
                                        }
                                    }
                                }
                            }
                        }
                    }
                }
                assert(cur.channels_wf()) by {
                    assert forall|c2: i64| #[trigger] cur.channels.dom().contains(c2) implies {
                        &&& cur.groups.dom().contains(cur.channels[c2].group)
                        &&& cur.groups[cur.channels[c2].group].channels.contains(c2)
                    } by {
                        assert(afterchan.channels.dom().contains(c2));
                        assert(prev.has_channel(c2));
                        assert(!cvec@.contains(c2)) by {
                            if cvec@.contains(c2) {
                                assert(cvec@.take(nc as int).contains(c2));
                                assert(afterchan.channels.dom().contains(c2));
                            }
                        }
                        assert(afterchan.has_channel(c2) && afterchan.channels[c2]
                            == prev.channels[c2]) by {
                            assert(!cvec@.take(nc as int).contains(c2));
                        }
                        assert(cur.channels[c2] == prev.channels[c2]);
                        assert(prev.channels[c2].group != id) by {
                            if prev.channels[c2].group == id {
                                assert(prev.groups[id].channels.contains(c2));
                            }
                        }
                    }
                    assert forall|g2: i64, c2: i64|
                        cur.groups.dom().contains(g2) && #[trigger] cur.groups[
                            g2
                        ].channels.contains(c2) implies cur.channels.dom().contains(c2)
                        && cur.channels[c2].group == g2 by {
                        assert(g2 != id);
                        assert(prev.groups[g2].channels.contains(c2));
                        assert(prev.channels[c2].group == g2);
                        assert(!cvec@.contains(c2)) by {
                            if cvec@.contains(c2) {
                                assert(prev.groups[id].channels.contains(c2));
                                assert(prev.channels[c2].group == id);
                            }
                        }
                    }
                }
                assert(cur.messages_wf()) by {
                    assert forall|i: int|
                        0 <= i < cur.messages.len() implies cur.channels.dom().contains(
                        (#[trigger] cur.messages[i]).channel,
                    ) by {
                        assert(prev.messages.contains(cur.messages[i]));
                        let k = choose|k: int|
                            0 <= k < prev.messages.len() && prev.messages[k] == cur.messages[i];
                        assert(prev.channels.dom().contains(prev.messages[k].channel));
                        assert(!cl.contains(cur.messages[i].channel));
                        assert(!cvec@.contains(cur.messages[i].channel));
                    }
                }
                assert(cur.ids_wf()) by {
                    assert forall|i: int|
                        0 <= i < cur.messages.len() implies 0 < (#[trigger] cur.messages[i]).id
                        <= cur.last_id by {
                        assert(prev.messages.contains(cur.messages[i]));
                        let k = choose|k: int|
                            0 <= k < prev.messages.len() && prev.messages[k] == cur.messages[i];
                        assert(0 < prev.messages[k].id <= prev.last_id);
                    }
                }
                assert(cur.keys_wf());
                assert(cur.groups_wf());
                assert(cur.members_in_users());
                assert(cur.channel_sets_wf());
            }
        }
        Ok(())
    }

    /// The members of a group, visible to members only; no particular order
    /// is guaranteed.
    pub fn get_group_members(&self, principal: i64, id: i64) -> (r: Result<Vec<User>, ApiError>)
        requires
            self@.wf(),
        ensures
            r is Ok <==> view_group_err(self@, principal, id) is None,
            r matches Err(e) ==> view_group_err(self@, principal, id) == Some(e),
            r matches Ok(v) ==> {
                &&& v@.len() == self@.groups[id].members.len()
                &&& forall|i: int|
                    0 <= i < v@.len() ==> (#[trigger] v@[i])@ == user_of(self@.users[self@.groups[
                        id
                    ].members[i]])
            },
    {
        let members: IdSet;
        match self.group_get(id) {
            None => {
                return Err(ApiError::NotFound);
            },
            Some(g) => {
                if !g.members.contains(principal) {
                    return Err(ApiError::NotFound);
                }
                members = g.members.duplicate();
            },
        }
        self.collect_users(Ghost(id), &members)
    }

    /// The admins of a group, visible to members only; no particular order is
    /// guaranteed.
    pub fn get_group_admin(&self, principal: i64, id: i64) -> (r: Result<Vec<User>, ApiError>)
        requires
            self@.wf(),
        ensures
            r is Ok <==> view_group_err(self@, principal, id) is None,
            r matches Err(e) ==> view_group_err(self@, principal, id) == Some(e),
            r matches Ok(v) ==> {
                &&& v@.len() == self@.groups[id].admins.len()
                &&& forall|i: int|
                    0 <= i < v@.len() ==> (#[trigger] v@[i])@ == user_of(self@.users[self@.groups[
                        id
                    ].admins[i]])
            },
    {
        let admins: IdSet;
        match self.group_get(id) {
            None => {
                return Err(ApiError::NotFound);
            },
            Some(g) => {
                if !g.members.contains(principal) {
                    return Err(ApiError::NotFound);
                }
                admins = g.admins.duplicate();
            },
        }
        let ghost gid = id;
        proof {
            assert forall|j: int| 0 <= j < admins@.len() implies self@.has_user(
                #[trigger] admins@[j],
            ) by {
                assert(self@.groups[gid].admins.contains(admins@[j]));
                assert(self@.groups[gid].members.contains(admins@[j]));
            }
        }
        let mut v: Vec<User> = Vec::new();
        let n = admins.len();
        for i in 0..n
            invariant
                self@.wf(),
                n == admins@.len(),
                forall|j: int| 0 <= j < admins@.len() ==> self@.has_user(#[trigger] admins@[j]),
                v@.len() == i,
                forall|j: int|
                    0 <= j < i ==> (#[trigger] v@[j])@ == user_of(self@.users[admins@[j]]),
        {
            let uid = admins.get(i);
            match self.user_get(uid) {
                Some(u) => {
                    v.push(account_user(u));
                },
                None => {
                    proof {
                        assert(false);
                    }
                    return Err(ApiError::InternalError);
                },
            }
        }
        proof {
            assert(admins@ == self@.groups[id].admins);
        }
        Ok(v)
    }

    /// Grants the admin overlay to an existing member; owners only.
    pub fn add_group_admin(&mut self, principal: i64, gid: i64, uid: i64) -> (r: Result<
        (),
        ApiError,
    >)
        requires
            old(self)@.wf(),
        ensures
            final(self)@.wf(),
            r is Ok <==> add_admin_err(old(self)@, principal, gid, uid) is None,
            r matches Err(e) ==> add_admin_err(old(self)@, principal, gid, uid) == Some(e)
                && final(self)@ == old(self)@,
            r is Ok ==> final(self)@ =~~= (StateV {
                groups: old(self)@.groups.insert(
                    gid,
                    GroupV {
                        admins: seq_ins(old(self)@.groups[gid].admins, uid),
                        ..old(self)@.groups[gid]
                    },
                ),
                ..old(self)@
            }),
    {
        let g2: Group;
        match self.group_get(gid) {
            None => {
                return Err(ApiError::NotFound);
            },
            Some(g) => {
                if self.user_get(uid).is_none() {
                    return Err(ApiError::NotFound);
                }
            },
        }
        match self.group_get(gid) {
            None => {
                proof {
                    assert(false);
                }
                return Err(ApiError::InternalError);
            },
            Some(g) => {
                if !check(g, principal, Role::Owner) {
                    return Err(ApiError::Unauthorized);
                }
                if !g.members.contains(uid) {
                    return Err(ApiError::NotFound);
                }
                let mut admins = g.admins.duplicate();
                admins.insert(uid);
                g2 = Group {
                    id: gid,
                    name: g.name.clone(),
                    owner: g.owner,
                    admins,
                    members: g.members.duplicate(),
                    channels: g.channels.duplicate(),
                    is_dm: g.is_dm,
                };
            },
        }
        self.group_put(gid, g2);
        proof {
            assert(self@.groups.dom() =~= old(self)@.groups.dom());
        }
        Ok(())
    }

    /// Revokes the admin overlay; owners only. Revoking from a non-admin
    /// changes nothing.
    pub fn remove_group_admin(&mut self, principal: i64, gid: i64, uid: i64) -> (r: Result<
        (),
        ApiError,
    >)
        requires
            old(self)@.wf(),
        ensures
            final(self)@.wf(),
            r is Ok <==> remove_admin_err(old(self)@, principal, gid, uid) is None,
            r matches Err(e) ==> remove_admin_err(old(self)@, principal, gid, uid) == Some(e)
                && final(self)@ == old(self)@,
            r is Ok ==> {
                &&& final(self)@.groups.dom() == old(self)@.groups.dom()
                &&& forall|g2: i64|
                    old(self)@.has_group(g2) && g2 != gid ==> final(self)@.groups[g2]
                        == #[trigger] old(self)@.groups[g2]
                &&& seq_stripped(
                    old(self)@.groups[gid].admins,
                    final(self)@.groups[gid].admins,
                    uid,
                )
                &&& final(self)@.groups[gid] == (GroupV {
                    admins: final(self)@.groups[gid].admins,
                    ..old(self)@.groups[gid]
                })
                &&& final(self)@ == (StateV { groups: final(self)@.groups, ..old(self)@ })
            },
    {
        let g2: Group;
        match self.group_get(gid) {
            None => {
                return Err(ApiError::NotFound);
            },
            Some(g) => {
                if self.user_get(uid).is_none() {
                    return Err(ApiError::NotFound);
                }
            },
        }
        match self.group_get(gid) {
            None => {
                proof {
                    assert(false);
                }
                return Err(ApiError::InternalError);
            },
            Some(g) => {
                if !check(g, principal, Role::Owner) {
                    return Err(ApiError::Unauthorized);
                }
                let mut admins = g.admins.duplicate();
                admins.remove(uid);
                g2 = Group {
                    id: gid,
                    name: g.name.clone(),
                    owner: g.owner,
                    admins,
                    members: g.members.duplicate(),
                    channels: g.channels.duplicate(),
                    is_dm: g.is_dm,
                };
            },
        }
        self.group_put(gid, g2);
        proof {
            assert(self@.groups.dom() =~= old(self)@.groups.dom());
            assert(self@ =~~= (StateV { groups: self@.groups, ..old(self)@ }));
        }
        Ok(())
    }

    /// Maps member ids to user records; internal helper for the listing
    /// views.
    fn collect_users(&self, Ghost(gid): Ghost<i64>, members: &IdSet) -> (r: Result<
        Vec<User>,
        ApiError,
    >)
        requires
            self@.wf(),
            self@.has_group(gid),
            members@ == self@.groups[gid].members,
        ensures
            r is Ok,
            r matches Ok(v) ==> {
                &&& v@.len() == members@.len()
                &&& forall|i: int|
                    0 <= i < v@.len() ==> (#[trigger] v@[i])@ == user_of(self@.users[members@[i]])
            },
    {
        let mut v: Vec<User> = Vec::new();
        let n = members.len();
        for i in 0..n
            invariant
                self@.wf(),
                self@.has_group(gid),
                members@ == self@.groups[gid].members,
                n == members@.len(),
                v@.len() == i,
                forall|j: int|
                    0 <= j < i ==> (#[trigger] v@[j])@ == user_of(self@.users[members@[j]]),
        {
            let uid = members.get(i);
            proof {
                assert(self@.groups[gid].members.contains(uid));
            }
            match self.user_get(uid) {
                Some(u) => {
                    v.push(account_user(u));
                },
                None => {
                    proof {
                        assert(false);
                    }
                    return Err(ApiError::InternalError);
                },
            }
        }
        Ok(v)
    }
}

/// Maintenance step for the public-channel join loop in `add_group_member`:
/// extending the processed prefix by the channel just handled keeps both
/// frame conditions.
proof fn lemma_take_extend_frame(
    chans: Seq<i64>,
    i: int,
    cid: i64,
    before: StateV,
    cur: StateV,
    prev: StateV,
    uid: i64,
)
    requires
        0 <= i < chans.len(),
        chans[i] == cid,
        chans.no_duplicates(),
        prev.has_channel(cid),
        forall|c2: i64|
            #![trigger before.channels[c2]]
            prev.has_channel(c2) && !chans.take(i).contains(c2) ==> before.channels[c2]
                == prev.channels[c2],
        forall|c2: i64|
            #![trigger chans.take(i).contains(c2)]
            #![trigger before.channels[c2]]
            chans.take(i).contains(c2) ==> before.channels[c2] == (if prev.channels[c2].private {
                prev.channels[c2]
            } else {
                ChannelV { members: seq_ins(prev.channels[c2].members, uid), ..prev.channels[c2] }
            }),
        cur.channels[cid] == (if prev.channels[cid].private {
            prev.channels[cid]
        } else {
            ChannelV { members: seq_ins(prev.channels[cid].members, uid), ..prev.channels[cid] }
        }),
        forall|c2: i64| c2 != cid ==> cur.channels[c2] == #[trigger] before.channels[c2],
    ensures
        forall|c2: i64|
            #![trigger cur.channels[c2]]
            prev.has_channel(c2) && !chans.take(i + 1).contains(c2) ==> cur.channels[c2]
                == prev.channels[c2],
        forall|c2: i64|
            #![trigger chans.take(i + 1).contains(c2)]
            #![trigger cur.channels[c2]]
            chans.take(i + 1).contains(c2) ==> cur.channels[c2] == (if prev.channels[c2].private {
                prev.channels[c2]
            } else {
                ChannelV { members: seq_ins(prev.channels[c2].members, uid), ..prev.channels[c2] }
            }),
{
    assert forall|c2: i64|
        prev.has_channel(c2) && !chans.take(i + 1).contains(c2) implies cur.channels[c2]
        == prev.channels[c2] by {
        assert(c2 != cid) by {
            assert(chans.take(i + 1)[i] == cid);
        }
        assert(!chans.take(i).contains(c2)) by {
            if chans.take(i).contains(c2) {
                let j = chans.take(i).index_of(c2);
                assert(chans.take(i + 1)[j] == c2);
            }
        }
        assert(before.channels[c2] == prev.channels[c2]);
        assert(cur.channels[c2] == before.channels[c2]);
    }
    assert forall|c2: i64| chans.take(i + 1).contains(c2) implies cur.channels[c2] == (
    if prev.channels[c2].private {
        prev.channels[c2]
    } else {
        ChannelV { members: seq_ins(prev.channels[c2].members, uid), ..prev.channels[c2] }
    }) by {
        if c2 != cid {
            let j = chans.take(i + 1).index_of(c2);
            assert(chans.take(i + 1)[j] == c2);
            assert(j < i);
            assert(chans.take(i)[j] == c2);
            assert(chans.take(i).contains(c2));
            assert(before.channels[c2] == (if prev.channels[c2].private {
                prev.channels[c2]
            } else {
                ChannelV { members: seq_ins(prev.channels[c2].members, uid), ..prev.channels[c2] }
            }));
            assert(cur.channels[c2] == before.channels[c2]);
        }
    }
}

/// Well-formedness of the state after a fresh group was created.
proof fn lemma_fresh_group_wf(prev: StateV, cur: StateV, gid: i64, cid: i64, principal: i64, g: GroupV)
    requires
        prev.wf(),
        prev.has_user(principal),
        prev.last_id < gid < cid,
        g == (GroupV {
            id: gid,
            name: g.name,
            owner: principal,
            admins: seq![principal],
            members: seq![principal],
            channels: seq![cid],
            is_dm: false,
        }),
        cur == (StateV {
            last_id: cid,
            groups: prev.groups.insert(gid, g),
            channels: prev.channels.insert(
                cid,
                ChannelV {
                    id: cid,
                    group: gid,
                    name: "main"@,
                    members: seq![principal],
                    private: false,
                },
            ),
            user_groups: prev.user_groups.insert(
                principal,
                prev.user_groups[principal].push(gid),
            ),
            ..prev
        }),
    ensures
        cur.wf(),
{
    assert(!prev.has_group(gid));
    assert(!prev.has_channel(cid));
    assert(!prev.user_groups[principal].contains(gid)) by {
        if prev.user_groups[principal].contains(gid) {
            assert(prev.has_group(gid));
        }
    }
    assert(cur.user_groups[principal].no_duplicates()) by {
        assert(prev.user_groups[principal].no_duplicates());
        assert(cur.user_groups[principal].drop_last() == prev.user_groups[principal]);
    }
    assert(cur.user_groups.dom() =~= cur.users.dom());
    assert(cur.indices_wf()) by {
        assert forall|uid: i64, g2: i64|
            cur.users.dom().contains(uid) && #[trigger] cur.user_groups[uid].contains(
                g2,
            ) implies cur.groups.dom().contains(g2) && !cur.groups[g2].is_dm && cur.groups[
            g2
        ].members.contains(uid) by {
            if uid == principal && g2 == gid {
                assert(cur.groups[gid].members == seq![principal]);
                assert(cur.groups[gid].members[0] == principal);
                assert(cur.groups[gid].members.contains(principal));
            } else if uid == principal {
                assert(cur.user_groups[principal].drop_last() == prev.user_groups[principal]);
                if cur.user_groups[principal].contains(g2) && g2 != gid {
                    let j = cur.user_groups[principal].index_of(g2);
                    assert(j < prev.user_groups[principal].len());
                    assert(prev.user_groups[principal][j] == g2);
                    assert(prev.user_groups[principal].contains(g2));
                }
            } else {
                assert(prev.user_groups[uid].contains(g2));
            }
        }
        assert forall|g2: i64, uid: i64|
            cur.groups.dom().contains(g2) && #[trigger] cur.groups[g2].members.contains(uid)
                && cur.users.dom().contains(uid) implies (if cur.groups[g2].is_dm {
            cur.user_dms[uid].contains(g2)
        } else {
            cur.user_groups[uid].contains(g2)
        }) by {
            if g2 == gid {
                assert(cur.groups[gid].members == seq![principal]);
                assert(uid == principal);
                assert(cur.user_groups[principal].last() == gid);
            } else {
                assert(prev.groups[g2].members.contains(uid));
                if !prev.groups[g2].is_dm && uid == principal {
                    assert(prev.user_groups[principal].contains(g2));
                    let j = prev.user_groups[principal].index_of(g2);
                    assert(cur.user_groups[principal][j] == g2);
                }
            }
        }
    }
    assert(cur.channels_wf()) by {
        assert forall|c2: i64| #[trigger] cur.channels.dom().contains(c2) implies {
            &&& cur.groups.dom().contains(cur.channels[c2].group)
            &&& cur.groups[cur.channels[c2].group].channels.contains(c2)
        } by {
            if c2 == cid {
                assert(cur.groups[gid].channels.contains(cid)) by {
                    assert(cur.groups[gid].channels[0] == cid);
                }
            } else {
                assert(prev.channels[c2].group != gid);
            }
        }
    }
    assert(cur.groups_wf()) by {
        assert forall|g2: i64| #[trigger] cur.groups.dom().contains(g2) implies {
            let gg = cur.groups[g2];
            &&& gg.members.no_duplicates()
            &&& gg.admins.no_duplicates()
            &&& gg.channels.no_duplicates()
            &&& (cur.users.dom().contains(gg.owner) ==> gg.members.contains(gg.owner))
            &&& (forall|a: i64| #[trigger] gg.admins.contains(a) ==> gg.members.contains(a))
        } by {
            if g2 == gid {
                assert(cur.groups[gid].members.contains(principal)) by {
                    assert(cur.groups[gid].members[0] == principal);
                }
            }
        }
    }
    assert(cur.members_in_users());
    assert(cur.keys_wf());
    assert(cur.ids_wf());
    assert(cur.channel_sets_wf());
    assert(cur.messages_wf());
}

/// Well-formedness of the state after a fresh DM was created.
proof fn lemma_fresh_dm_wf(
    prev: StateV,
    cur: StateV,
    gid: i64,
    cid: i64,
    principal: i64,
    uid: i64,
    g: GroupV,
)
    requires
        prev.wf(),
        prev.has_user(principal),
        prev.has_user(uid),
        principal != uid,
        prev.last_id < gid < cid,
        g == (GroupV {
            id: gid,
            name: g.name,
            owner: principal,
            admins: Seq::<i64>::empty(),
            members: seq![principal, uid],
            channels: seq![cid],
            is_dm: true,
        }),
        cur == (StateV {
            last_id: cid,
            groups: prev.groups.insert(gid, g),
            channels: prev.channels.insert(
                cid,
                ChannelV {
                    id: cid,
                    group: gid,
                    name: "main"@,
                    members: seq![principal, uid],
                    private: false,
                },
            ),
            user_dms: prev.user_dms.insert(
                principal,
                prev.user_dms[principal].push(gid),
            ).insert(uid, prev.user_dms[uid].push(gid)),
            ..prev
        }),
    ensures
        cur.wf(),
{
    assert(!prev.has_group(gid));
    assert(!prev.has_channel(cid));
    assert(!prev.user_dms[principal].contains(gid)) by {
        if prev.user_dms[principal].contains(gid) {
            assert(prev.has_group(gid));
        }
    }
    assert(!prev.user_dms[uid].contains(gid)) by {
        if prev.user_dms[uid].contains(gid) {
            assert(prev.has_group(gid));
        }
    }
    assert(cur.user_dms[principal].no_duplicates()) by {
        assert(cur.user_dms[principal].drop_last() == prev.user_dms[principal]);
    }
    assert(cur.user_dms[uid].no_duplicates()) by {
        assert(cur.user_dms[uid].drop_last() == prev.user_dms[uid]);
    }
    assert(cur.user_dms.dom() =~= cur.users.dom());
    assert(cur.indices_wf()) by {
        assert forall|u2: i64, g2: i64|
            cur.users.dom().contains(u2) && #[trigger] cur.user_dms[u2].contains(
                g2,
            ) implies cur.groups.dom().contains(g2) && cur.groups[g2].is_dm && cur.groups[
            g2
        ].members.contains(u2) by {
            if (u2 == principal || u2 == uid) && g2 == gid {
                assert(cur.groups[gid].members.contains(u2)) by {
                    if u2 == principal {
                        assert(cur.groups[gid].members[0] == principal);
                    } else {
                        assert(cur.groups[gid].members[1] == uid);
                    }
                }
            } else if u2 == principal || u2 == uid {
                assert(cur.user_dms[u2].drop_last() == prev.user_dms[u2]);
                let j = cur.user_dms[u2].index_of(g2);
                assert(j < prev.user_dms[u2].len());
                assert(prev.user_dms[u2][j] == g2);
                assert(prev.user_dms[u2].contains(g2));
            } else {
                assert(prev.user_dms[u2].contains(g2));
            }
        }
        assert forall|g2: i64, u2: i64|
            cur.groups.dom().contains(g2) && #[trigger] cur.groups[g2].members.contains(u2)
                && cur.users.dom().contains(u2) implies (if cur.groups[g2].is_dm {
            cur.user_dms[u2].contains(g2)
        } else {
            cur.user_groups[u2].contains(g2)
        }) by {
            if g2 == gid {
                assert(u2 == principal || u2 == uid) by {
                    assert(cur.groups[gid].members == seq![principal, uid]);
                }
                assert(cur.user_dms[u2].last() == gid);
            } else {
                assert(prev.groups[g2].members.contains(u2));
                if prev.groups[g2].is_dm && (u2 == principal || u2 == uid) {
                    assert(prev.user_dms[u2].contains(g2));
                    let j = prev.user_dms[u2].index_of(g2);
                    assert(cur.user_dms[u2][j] == g2);
                }
            }
        }
    }
    assert(cur.channels_wf()) by {
        assert forall|c2: i64| #[trigger] cur.channels.dom().contains(c2) implies {
            &&& cur.groups.dom().contains(cur.channels[c2].group)
            &&& cur.groups[cur.channels[c2].group].channels.contains(c2)
        } by {
            if c2 == cid {
                assert(cur.groups[gid].channels[0] == cid);
            } else {
                assert(prev.channels[c2].group != gid);
            }
        }
    }
    assert(cur.groups_wf()) by {
        assert forall|g2: i64| #[trigger] cur.groups.dom().contains(g2) implies {
            let gg = cur.groups[g2];
            &&& gg.members.no_duplicates()
            &&& gg.admins.no_duplicates()
            &&& gg.channels.no_duplicates()
            &&& (cur.users.dom().contains(gg.owner) ==> gg.members.contains(gg.owner))
            &&& (forall|a: i64| #[trigger] gg.admins.contains(a) ==> gg.members.contains(a))
        } by {
            if g2 == gid {
                assert(cur.groups[gid].members[0] == principal);
            }
        }
    }
    assert(cur.members_in_users()) by {
        assert forall|g2: i64, u2: i64|
            cur.groups.dom().contains(g2) && #[trigger] cur.groups[g2].members.contains(
                u2,
            ) implies cur.users.dom().contains(u2) by {
            if g2 == gid {
                assert(cur.groups[gid].members == seq![principal, uid]);
            } else {
                assert(prev.groups[g2].members.contains(u2));
            }
        }
    }
    assert(cur.keys_wf());
    assert(cur.ids_wf());
    assert(cur.channel_sets_wf());
    assert(cur.messages_wf());
}

/// Well-formedness of the state after a member was added to a group and its
/// public channels.
proof fn lemma_add_member_wf(prev: StateV, cur: StateV, gid: i64, uid: i64)
    requires
        prev.wf(),
        prev.has_group(gid),
        prev.has_user(uid),
        !prev.groups[gid].is_dm,
        cur.groups == prev.groups.insert(
            gid,
            GroupV { members: seq_ins(prev.groups[gid].members, uid), ..prev.groups[gid] },
        ),
        cur.user_groups == prev.user_groups.insert(uid, seq_ins(prev.user_groups[uid], gid)),
        cur.channels.dom() == prev.channels.dom(),
        forall|cid: i64|
            #![trigger cur.channels[cid]]
            prev.has_channel(cid) && !prev.groups[gid].channels.contains(cid) ==> cur.channels[cid]
                == prev.channels[cid],
        forall|cid: i64| #[trigger]
            prev.groups[gid].channels.contains(cid) ==> cur.channels[cid] == (if prev.channels[
                cid
            ].private {
                prev.channels[cid]
            } else {
                ChannelV { members: seq_ins(prev.channels[cid].members, uid), ..prev.channels[cid] }
            }),
        cur.users == prev.users,
        cur.user_dms == prev.user_dms,
        cur.messages == prev.messages,
        cur.last_id == prev.last_id,
    ensures
        cur.wf(),
{
    let m0 = prev.groups[gid].members;
    let i0 = prev.user_groups[uid];
    assert(seq_ins(m0, uid).contains(uid)) by {
        if !m0.contains(uid) {
            assert(seq_ins(m0, uid).last() == uid);
        }
    }
    assert(seq_ins(i0, gid).contains(gid)) by {
        if !i0.contains(gid) {
            assert(seq_ins(i0, gid).last() == gid);
        }
    }
    assert forall|y: i64| #[trigger]
        seq_ins(m0, uid).contains(y) implies m0.contains(y) || y == uid by {
        if !m0.contains(uid) && y != uid {
            let j = seq_ins(m0, uid).index_of(y);
            assert(j < m0.len());
            assert(m0[j] == y);
        }
    }
    assert forall|y: i64| #[trigger]
        seq_ins(i0, gid).contains(y) implies i0.contains(y) || y == gid by {
        if !i0.contains(gid) && y != gid {
            let j = seq_ins(i0, gid).index_of(y);
            assert(j < i0.len());
            assert(i0[j] == y);
        }
    }
    assert(seq_ins(m0, uid).no_duplicates()) by {
        if !m0.contains(uid) {
            assert(seq_ins(m0, uid).drop_last() == m0);
        }
    }
    assert(seq_ins(i0, gid).no_duplicates()) by {
        if !i0.contains(gid) {
            assert(seq_ins(i0, gid).drop_last() == i0);
        }
    }
    assert(cur.keys_wf()) by {
        assert forall|cid: i64| #[trigger]
            cur.channels.dom().contains(cid) implies cur.channels[cid].id == cid by {
            if prev.groups[gid].channels.contains(cid) {
            } else {
                assert(cur.channels[cid] == prev.channels[cid]);
            }
        }
    }
    assert(cur.ids_wf());
    assert(cur.groups_wf()) by {
        assert forall|g2: i64| #[trigger] cur.groups.dom().contains(g2) implies {
            let gg = cur.groups[g2];
            &&& gg.members.no_duplicates()
            &&& gg.admins.no_duplicates()
            &&& gg.channels.no_duplicates()
            &&& (cur.users.dom().contains(gg.owner) ==> gg.members.contains(gg.owner))
            &&& (forall|a: i64| #[trigger] gg.admins.contains(a) ==> gg.members.contains(a))
        } by {
            if g2 == gid {
                assert(cur.groups[gid].members == seq_ins(m0, uid));
                assert forall|y: i64| m0.contains(y) implies seq_ins(m0, uid).contains(y) by {
                    if !m0.contains(uid) {
                        let j = m0.index_of(y);
                        assert(seq_ins(m0, uid)[j] == y);
                    }
                }
            }
        }
    }
    assert(cur.members_in_users()) by {
        assert forall|g2: i64, u2: i64|
            cur.groups.dom().contains(g2) && #[trigger] cur.groups[g2].members.contains(
                u2,
            ) implies cur.users.dom().contains(u2) by {
            if g2 == gid {
                if u2 != uid {
                    assert(m0.contains(u2));
                }
            }
        }
    }
    assert(cur.channel_sets_wf()) by {
        assert forall|cid: i64| #[trigger]
            cur.channels.dom().contains(cid) implies cur.channels[cid].members.no_duplicates() by {
            if prev.groups[gid].channels.contains(cid) {
                let cm = prev.channels[cid].members;
                if !prev.channels[cid].private && !cm.contains(uid) {
                    assert(cur.channels[cid].members == cm.push(uid));
                    assert(cm.push(uid).drop_last() == cm);
                }
            } else {
                assert(cur.channels[cid] == prev.channels[cid]);
            }
        }
    }
    assert(cur.indices_wf()) by {
        assert(cur.user_groups.dom() =~= cur.users.dom());
        assert forall|u2: i64, g2: i64|
            cur.users.dom().contains(u2) && #[trigger] cur.user_groups[u2].contains(
                g2,
            ) implies cur.groups.dom().contains(g2) && !cur.groups[g2].is_dm && cur.groups[
            g2
        ].members.contains(u2) by {
            if u2 == uid {
                if g2 == gid {
                    assert(cur.groups[gid].members.contains(uid));
                } else {
                    assert(i0.contains(g2));
                    assert(prev.groups[g2].members.contains(uid));
                    if g2 == gid {
                    } else {
                        assert(cur.groups[g2] == prev.groups[g2]);
                    }
                }
            } else {
                assert(prev.user_groups[u2].contains(g2));
                if g2 == gid {
                    assert(m0.contains(u2));
                    assert forall|y: i64| m0.contains(y) implies seq_ins(m0, uid).contains(
                        y,
                    ) by {
                        if !m0.contains(uid) {
                            let j = m0.index_of(y);
                            assert(seq_ins(m0, uid)[j] == y);
                        }
                    }
                }
            }
        }
        assert forall|u2: i64, g2: i64|
            cur.users.dom().contains(u2) && #[trigger] cur.user_dms[u2].contains(
                g2,
            ) implies cur.groups.dom().contains(g2) && cur.groups[g2].is_dm && cur.groups[
            g2
        ].members.contains(u2) by {
            assert(prev.user_dms[u2].contains(g2));
            assert(g2 != gid);
        }
        assert forall|g2: i64, u2: i64|
            cur.groups.dom().contains(g2) && #[trigger] cur.groups[g2].members.contains(u2)
                && cur.users.dom().contains(u2) implies (if cur.groups[g2].is_dm {
            cur.user_dms[u2].contains(g2)
        } else {
            cur.user_groups[u2].contains(g2)
        }) by {
            if g2 == gid {
                if u2 == uid {
                    assert(cur.user_groups[uid].contains(gid));
                } else {
                    assert(m0.contains(u2));
                    assert(prev.user_groups[u2].contains(gid));
                    assert(cur.user_groups[u2] == prev.user_groups[u2]);
                }
            } else {
                assert(prev.groups[g2].members.contains(u2));
                if u2 == uid && !prev.groups[g2].is_dm {
                    assert(i0.contains(g2));
                    assert forall|y: i64| i0.contains(y) implies seq_ins(i0, gid).contains(
                        y,
                    ) by {
                        if !i0.contains(gid) {
                            let j = i0.index_of(y);
                            assert(seq_ins(i0, gid)[j] == y);
                        }
                    }
                }
            }
        }
    }
    assert(cur.channels_wf()) by {
        assert forall|cid: i64| #[trigger] cur.channels.dom().contains(cid) implies {
            &&& cur.groups.dom().contains(cur.channels[cid].group)
            &&& cur.groups[cur.channels[cid].group].channels.contains(cid)
        } by {
            if prev.groups[gid].channels.contains(cid) {
                assert(cur.channels[cid].group == prev.channels[cid].group);
            } else {
                assert(cur.channels[cid] == prev.channels[cid]);
            }
            assert(cur.groups[cur.channels[cid].group].channels == prev.groups[prev.channels[
                cid
            ].group].channels);
        }
    }
    assert(cur.messages_wf());
}

} // verus!
