//! Channel operations: creation, renaming, privacy, membership and deletion.

use vstd::prelude::*;
use crate::idset::IdSet;
use crate::ids::ID_TS_LIMIT;
use crate::model::{ApiError, Channel, ChannelV, Group, GroupV, User, account_user, copy_channel, user_of};
use crate::policy::{Role, check, role_allows};
use crate::groups::view_group_err;
use crate::state::{ChatState, StateV, seq_ins, seq_stripped};

verus! {

/// Which error `make_channel` reports, if any.
pub open spec fn make_channel_err(s: StateV, principal: i64, gid: i64, name: Seq<char>) -> Option<
    ApiError,
> {
    if name.len() == 0 {
        Some(ApiError::BadRequest)
    } else if !s.has_group(gid) {
        Some(ApiError::NotFound)
    } else if !crate::policy::role_allows(s.groups[gid], principal, Role::Admin) {
        Some(ApiError::Unauthorized)
    } else if s.last_id == i64::MAX {
        Some(ApiError::InternalError)
    } else {
        None
    }
}

/// Which error a channel mutation gated on the parent group's admins
/// reports, if any.
pub open spec fn channel_admin_err(s: StateV, principal: i64, id: i64) -> Option<ApiError> {
    if !s.has_channel(id) {
        Some(ApiError::NotFound)
    } else if !role_allows(s.groups[s.channels[id].group], principal, Role::Admin) {
        Some(ApiError::Unauthorized)
    } else {
        None
    }
}

/// Which error `update_channel` reports, if any.
pub open spec fn update_channel_err(s: StateV, principal: i64, id: i64, name: Seq<char>) -> Option<
    ApiError,
> {
    if name.len() == 0 {
        Some(ApiError::BadRequest)
    } else {
        channel_admin_err(s, principal, id)
    }
}

/// Which error `get_channel` reports, if any: a missing channel and a channel
/// the principal is no member of are both not found.
pub open spec fn get_channel_err(s: StateV, principal: i64, id: i64) -> Option<ApiError> {
    if !s.has_channel(id) || !s.channels[id].members.contains(principal) {
        Some(ApiError::NotFound)
    } else {
        None
    }
}

/// Which error a channel-member mutation reports, if any.
pub open spec fn channel_member_err(s: StateV, principal: i64, cid: i64, uid: i64) -> Option<
    ApiError,
> {
    if !s.has_channel(cid) {
        Some(ApiError::NotFound)
    } else if !s.has_user(uid) {
        Some(ApiError::NotFound)
    } else {
        channel_admin_err(s, principal, cid)
    }
}

/// The channels from `cl` whose member set holds `p`, in order.
pub open spec fn visible_channels(s: StateV, cl: Seq<i64>, p: i64) -> Seq<i64>
    decreases cl.len(),
{
    if cl.len() == 0 {
        Seq::empty()
    } else if s.channels[cl[0]].members.contains(p) {
        seq![cl[0]] + visible_channels(s, cl.skip(1), p)
    } else {
        visible_channels(s, cl.skip(1), p)
    }
}

/// The ids from `ms` that still name existing users, in order.
pub open spec fn live_users(s: StateV, ms: Seq<i64>) -> Seq<i64>
    decreases ms.len(),
{
    if ms.len() == 0 {
        Seq::empty()
    } else if s.has_user(ms[0]) {
        seq![ms[0]] + live_users(s, ms.skip(1))
    } else {
        live_users(s, ms.skip(1))
    }
}

impl ChatState {
    /// The channels of a group that are accessible to the caller: those the
    /// caller is a member of, in the group's channel order. Visible to group
    /// members only.
    pub fn get_channels(&self, principal: i64, gid: i64) -> (r: Result<Vec<Channel>, ApiError>)
        requires
            self@.wf(),
        ensures
            r is Ok <==> view_group_err(self@, principal, gid) is None,
            r matches Err(e) ==> view_group_err(self@, principal, gid) == Some(e),
            r matches Ok(v) ==> {
                let vis = visible_channels(self@, self@.groups[gid].channels, principal);
                &&& v@.len() == vis.len()
                &&& forall|i: int|
                    0 <= i < v@.len() ==> (#[trigger] v@[i])@ == self@.channels[vis[i]]
            },
    {
        let chans: Vec<i64>;
        match self.group_get(gid) {
            None => {
                return Err(ApiError::NotFound);
            },
            Some(g) => {
                if !g.members.contains(principal) {
                    return Err(ApiError::NotFound);
                }
                chans = g.channels.to_vec();
            },
        }
        let ghost cl = self@.groups[gid].channels;
        let mut v: Vec<Channel> = Vec::new();
        let n = chans.len();
        proof {
            assert(cl.skip(0) =~= cl);
        }
        for i in 0..n
            invariant
                self@.wf(),
                self@.has_group(gid),
                n == chans@.len(),
                chans@ == cl,
                cl == self@.groups[gid].channels,
                visible_channels(self@, cl, principal) == v@.map_values(|c: Channel| c@.id)
                    + visible_channels(self@, cl.skip(i as int), principal),
                forall|j: int|
                    0 <= j < v@.len() ==> (#[trigger] v@[j])@ == self@.channels[v@[j]@.id]
                        && self@.has_channel(v@[j]@.id),
        {
            let cid = chans[i];
            proof {
                assert(self@.groups[gid].channels.contains(cid));
                assert(cl.skip(i as int).len() > 0);
                assert(cl.skip(i as int)[0] == cl[i as int]);
                assert(cl.skip(i as int).skip(1) =~= cl.skip(i as int + 1));
            }
            let ghost v0 = v@;
            match self.channel_get(cid) {
                None => {
                    proof {
                        assert(false);
                    }
                    return Err(ApiError::InternalError);
                },
                Some(c) => {
                    if c.members.contains(principal) {
                        v.push(copy_channel(c));
                        proof {
                            assert(v@.map_values(|c2: Channel| c2@.id) =~= v0.map_values(
                                |c2: Channel| c2@.id,
                            ) + seq![cid]);
                            assert(v0.map_values(|c2: Channel| c2@.id) + (seq![cid]
                                + visible_channels(self@, cl.skip(i as int + 1), principal)) =~= (
                            v0.map_values(|c2: Channel| c2@.id) + seq![cid]) + visible_channels(
                                self@,
                                cl.skip(i as int + 1),
                                principal,
                            ));
                        }
                    }
                },
            }
        }
        proof {
            assert(cl.skip(n as int) =~= Seq::<i64>::empty());
            let vis = visible_channels(self@, cl, principal);
            let ids = v@.map_values(|c: Channel| c@.id);
            assert(vis =~= ids + Seq::<i64>::empty());
            assert(vis =~= ids);
            assert forall|j: int| 0 <= j < v@.len() implies (#[trigger] v@[j])@ == self@.channels[
                vis[j]
            ] by {
                assert(ids[j] == v@[j]@.id);
            }
        }
        Ok(v)
    }

    /// Creates a channel in a group; group admins only. The channel starts
    /// public, with the caller as its only member.
    pub fn make_channel(&mut self, principal: i64, gid: i64, name: &str, now_ms: u64) -> (r: Result<
        Channel,
        ApiError,
    >)
        requires
            old(self)@.wf(),
            now_ms < ID_TS_LIMIT,
        ensures
            final(self)@.wf(),
            r is Ok <==> make_channel_err(old(self)@, principal, gid, name@) is None,
            r matches Err(e) ==> make_channel_err(old(self)@, principal, gid, name@) == Some(e)
                && final(self)@ == old(self)@,
            r matches Ok(c) ==> {
                let cid = c@.id;
                &&& c@ == (ChannelV {
                    id: cid,
                    group: gid,
                    name: name@,
                    members: seq![principal],
                    private: false,
                })
                &&& old(self)@.last_id < cid
                &&& !old(self)@.has_channel(cid)
                &&& final(self)@ =~~= (StateV {
                    last_id: cid,
                    groups: old(self)@.groups.insert(
                        gid,
                        GroupV {
                            channels: old(self)@.groups[gid].channels.push(cid),
                            ..old(self)@.groups[gid]
                        },
                    ),
                    channels: old(self)@.channels.insert(cid, c@),
                    ..old(self)@
                })
            },
    {
        let ghost prev = old(self)@;
        let chars = crate::strings::str_char_vec(name);
        if chars.len() == 0 {
            return Err(ApiError::BadRequest);
        }
        let g2: Group;
        match self.group_get(gid) {
            None => {
                return Err(ApiError::NotFound);
            },
            Some(g) => {
                if !check(g, principal, Role::Admin) {
                    return Err(ApiError::Unauthorized);
                }
                g2 = crate::model::copy_group(g);
            },
        }
        if self.last_id() == i64::MAX {
            return Err(ApiError::InternalError);
        }
        let cid = self.alloc_id(now_ms);
        let mut cmembers = IdSet::new();
        cmembers.insert(principal);
        let c = Channel { id: cid, group: gid, name: name.to_owned(), members: cmembers, private: false };
        let ret = copy_channel(&c);
        self.channel_put(cid, c);
        let mut channels2 = g2.channels;
        channels2.insert(cid);
        let g3 = Group {
            id: gid,
            name: g2.name,
            owner: g2.owner,
            admins: g2.admins,
            members: g2.members,
            channels: channels2,
            is_dm: g2.is_dm,
        };
        self.group_put(gid, g3);
        proof {
            let cur = self@;
            assert(!prev.has_channel(cid));
            assert(!prev.groups[gid].channels.contains(cid)) by {
                if prev.groups[gid].channels.contains(cid) {
                    assert(prev.has_channel(cid));
                }
            }
            assert(ret@.members =~= seq![principal]);
            assert(cur =~~= (StateV {
                last_id: cid,
                groups: prev.groups.insert(
                    gid,
                    GroupV { channels: prev.groups[gid].channels.push(cid), ..prev.groups[gid] },
                ),
                channels: prev.channels.insert(cid, ret@),
                ..prev
            }));
            assert(cur.wf()) by {
                lemma_fresh_channel_wf(prev, cur, gid, cid, ret@);
            }
        }
        Ok(ret)
    }

    /// Renames a channel; admins of the parent group only.
    pub fn update_channel(&mut self, principal: i64, id: i64, name: &str) -> (r: Result<
        (),
        ApiError,
    >)
        requires
            old(self)@.wf(),
        ensures
            final(self)@.wf(),
            r is Ok <==> update_channel_err(old(self)@, principal, id, name@) is None,
            r matches Err(e) ==> update_channel_err(old(self)@, principal, id, name@) == Some(e)
                && final(self)@ == old(self)@,
            r is Ok ==> final(self)@ =~~= (StateV {
                channels: old(self)@.channels.insert(
                    id,
                    ChannelV { name: name@, ..old(self)@.channels[id] },
                ),
                ..old(self)@
            }),
    {
        let chars = crate::strings::str_char_vec(name);
        if chars.len() == 0 {
            return Err(ApiError::BadRequest);
        }
        let c2: Channel;
        match self.channel_get(id) {
            None => {
                return Err(ApiError::NotFound);
            },
            Some(c) => {
                c2 = copy_channel(c);
            },
        }
        match self.group_get(c2.group) {
            None => {
                proof {
                    assert(false);
                }
                return Err(ApiError::InternalError);
            },
            Some(g) => {
                if !check(g, principal, Role::Admin) {
                    return Err(ApiError::Unauthorized);
                }
            },
        }
        let c3 = Channel { name: name.to_owned(), ..c2 };
        self.channel_put(id, c3);
        proof {
            assert(self@.channels.dom() =~= old(self)@.channels.dom());
        }
        Ok(())
    }

    /// Sets a channel's privacy flag; admins of the parent group only. A
    /// private channel's membership is independent of the group's
    /// channel-join default.
    pub fn make_channel_private(&mut self, principal: i64, id: i64, val: bool) -> (r: Result<
        (),
        ApiError,
    >)
        requires
            old(self)@.wf(),
        ensures
            final(self)@.wf(),
            r is Ok <==> channel_admin_err(old(self)@, principal, id) is None,
            r matches Err(e) ==> channel_admin_err(old(self)@, principal, id) == Some(e)
                && final(self)@ == old(self)@,
            r is Ok ==> final(self)@ =~~= (StateV {
                channels: old(self)@.channels.insert(
                    id,
                    ChannelV { private: val, ..old(self)@.channels[id] },
                ),
                ..old(self)@
            }),
    {
        let c2: Channel;
        match self.channel_get(id) {
            None => {
                return Err(ApiError::NotFound);
            },
            Some(c) => {
                c2 = copy_channel(c);
            },
        }
        match self.group_get(c2.group) {
            None => {
                proof {
                    assert(false);
                }
                return Err(ApiError::InternalError);
            },
            Some(g) => {
                if !check(g, principal, Role::Admin) {
                    return Err(ApiError::Unauthorized);
                }
            },
        }
        let c3 = Channel { private: val, ..c2 };
        self.channel_put(id, c3);
        proof {
            assert(self@.channels.dom() =~= old(self)@.channels.dom());
        }
        Ok(())
    }

    /// The channel with the given id, visible to its members only.
    pub fn get_channel(&self, principal: i64, id: i64) -> (r: Result<Channel, ApiError>)
        requires
            self@.wf(),
        ensures
            r is Ok <==> get_channel_err(self@, principal, id) is None,
            r matches Err(e) ==> get_channel_err(self@, principal, id) == Some(e),
            r matches Ok(c) ==> c@ == self@.channels[id],
    {
        match self.channel_get(id) {
            None => Err(ApiError::NotFound),
            Some(c) => {
                if c.members.contains(principal) {
                    Ok(copy_channel(c))
                } else {
                    Err(ApiError::NotFound)
                }
            },
        }
    }

    /// The members that can access a channel, as hash-free user records;
    /// deleted accounts that still linger in a member set are skipped. The
    /// roster is a management view: admins of the parent group only.
    pub fn get_channel_members(&self, principal: i64, id: i64) -> (r: Result<Vec<User>, ApiError>)
        requires
            self@.wf(),
        ensures
            r is Ok <==> channel_admin_err(self@, principal, id) is None,
            r matches Err(e) ==> channel_admin_err(self@, principal, id) == Some(e),
            r matches Ok(v) ==> {
                let live = live_users(self@, self@.channels[id].members);
                &&& v@.len() == live.len()
                &&& forall|i: int|
                    0 <= i < v@.len() ==> (#[trigger] v@[i])@ == user_of(self@.users[live[i]])
            },
    {
        let members: IdSet;
        let grp: i64;
        match self.channel_get(id) {
            None => {
                return Err(ApiError::NotFound);
            },
            Some(c) => {
                grp = c.group;
                members = c.members.duplicate();
            },
        }
        match self.group_get(grp) {
            None => {
                proof {
                    assert(false);
                }
                return Err(ApiError::InternalError);
            },
            Some(g) => {
                if !check(g, principal, Role::Admin) {
                    return Err(ApiError::Unauthorized);
                }
            },
        }
        let ghost ms = members@;
        let mut v: Vec<User> = Vec::new();
        let n = members.len();
        proof {
            assert(ms.skip(0) =~= ms);
        }
        for i in 0..n
            invariant
                self@.wf(),
                n == members@.len(),
                members@ == ms,
                live_users(self@, ms) == v@.map_values(|u: User| u@.id) + live_users(
                    self@,
                    ms.skip(i as int),
                ),
                forall|j: int|
                    0 <= j < v@.len() ==> self@.has_user(#[trigger] v@[j]@.id) && v@[j]@
                        == user_of(self@.users[v@[j]@.id]),
        {
            let uid = members.get(i);
            proof {
                assert(ms.skip(i as int).len() > 0);
                assert(ms.skip(i as int)[0] == ms[i as int]);
                assert(ms.skip(i as int).skip(1) =~= ms.skip(i as int + 1));
            }
            let ghost v0 = v@;
            match self.user_get(uid) {
                Some(u) => {
                    v.push(account_user(u));
                    proof {
                        assert(v@.map_values(|u2: User| u2@.id) =~= v0.map_values(
                            |u2: User| u2@.id,
                        ) + seq![uid]);
                        assert(v0.map_values(|u2: User| u2@.id) + (seq![uid] + live_users(
                            self@,
                            ms.skip(i as int + 1),
                        )) =~= (v0.map_values(|u2: User| u2@.id) + seq![uid]) + live_users(
                            self@,
                            ms.skip(i as int + 1),
                        ));
                    }
                },
                None => {},
            }
        }
        proof {
            assert(ms.skip(n as int) =~= Seq::<i64>::empty());
            let live = live_users(self@, ms);
            let ids = v@.map_values(|u: User| u@.id);
            assert(live =~= ids + Seq::<i64>::empty());
            assert(live =~= ids);
            assert forall|j: int| 0 <= j < v@.len() implies (#[trigger] v@[j])@ == user_of(
                self@.users[live[j]],
            ) by {
                assert(ids[j] == v@[j]@.id);
            }
        }
        Ok(v)
    }

    /// Adds a member to a channel; admins of the parent group only. Adding a
    /// present member changes nothing.
    pub fn add_channel_member(&mut self, principal: i64, cid: i64, uid: i64) -> (r: Result<
        (),
        ApiError,
    >)
        requires
            old(self)@.wf(),
        ensures
            final(self)@.wf(),
            r is Ok <==> channel_member_err(old(self)@, principal, cid, uid) is None,
            r matches Err(e) ==> channel_member_err(old(self)@, principal, cid, uid) == Some(e)
                && final(self)@ == old(self)@,
            r is Ok ==> final(self)@ =~~= (StateV {
                channels: old(self)@.channels.insert(
                    cid,
                    ChannelV {
                        members: seq_ins(old(self)@.channels[cid].members, uid),
                        ..old(self)@.channels[cid]
                    },
                ),
                ..old(self)@
            }),
    {
        let c2: Channel;
        match self.channel_get(cid) {
            None => {
                return Err(ApiError::NotFound);
            },
            Some(c) => {
                if self.user_get(uid).is_none() {
                    return Err(ApiError::NotFound);
                }
                c2 = copy_channel(c);
            },
        }
        match self.group_get(c2.group) {
            None => {
                proof {
                    assert(false);
                }
                return Err(ApiError::InternalError);
            },
            Some(g) => {
                if !check(g, principal, Role::Admin) {
                    return Err(ApiError::Unauthorized);
                }
            },
        }
        let mut members = c2.members;
        members.insert(uid);
        let c3 = Channel { id: c2.id, group: c2.group, name: c2.name, members, private: c2.private };
        self.channel_put(cid, c3);
        proof {
            let prev = old(self)@;
            assert(self@.channels.dom() =~= prev.channels.dom());
            assert(self@.channels[cid].members == seq_ins(prev.channels[cid].members, uid));
            assert(self@.wf()) by {
                assert forall|c4: i64| #[trigger]
                    self@.channels.dom().contains(c4) implies self@.channels[
                    c4
                ].members.no_duplicates() by {
                    if c4 != cid {
                        assert(self@.channels[c4] == prev.channels[c4]);
                    }
                }
            }
        }
        Ok(())
    }

    /// Removes a member from a channel; admins of the parent group only.
    /// Removing an absent member changes nothing.
    pub fn remove_channel_member(&mut self, principal: i64, cid: i64, uid: i64) -> (r: Result<
        (),
        ApiError,
    >)
        requires
            old(self)@.wf(),
        ensures
            final(self)@.wf(),
            r is Ok <==> channel_member_err(old(self)@, principal, cid, uid) is None,
            r matches Err(e) ==> channel_member_err(old(self)@, principal, cid, uid) == Some(e)
                && final(self)@ == old(self)@,
            r is Ok ==> {
                &&& final(self)@.channels.dom() == old(self)@.channels.dom()
                &&& seq_stripped(
                    old(self)@.channels[cid].members,
                    final(self)@.channels[cid].members,
                    uid,
                )
                &&& final(self)@.channels[cid] == (ChannelV {
                    members: final(self)@.channels[cid].members,
                    ..old(self)@.channels[cid]
                })
                &&& forall|c2: i64|
                    old(self)@.has_channel(c2) && c2 != cid ==> final(self)@.channels[c2]
                        == #[trigger] old(self)@.channels[c2]
                &&& final(self)@ == (StateV { channels: final(self)@.channels, ..old(self)@ })
            },
    {
        let c2: Channel;
        match self.channel_get(cid) {
            None => {
                return Err(ApiError::NotFound);
            },
            Some(c) => {
                if self.user_get(uid).is_none() {
                    return Err(ApiError::NotFound);
                }
                c2 = copy_channel(c);
            },
        }
        match self.group_get(c2.group) {
            None => {
                proof {
                    assert(false);
                }
                return Err(ApiError::InternalError);
            },
            Some(g) => {
                if !check(g, principal, Role::Admin) {
                    return Err(ApiError::Unauthorized);
                }
            },
        }
        let mut members = c2.members;
        members.remove(uid);
        let c3 = Channel { id: c2.id, group: c2.group, name: c2.name, members, private: c2.private };
        self.channel_put(cid, c3);
        proof {
            let prev = old(self)@;
            assert(self@.channels.dom() =~= prev.channels.dom());
            assert(self@ =~~= (StateV { channels: self@.channels, ..prev }));
            assert(self@.wf()) by {
                assert forall|c4: i64| #[trigger]
                    self@.channels.dom().contains(c4) implies self@.channels[
                    c4
                ].members.no_duplicates() by {
                    if c4 != cid {
                        assert(self@.channels[c4] == prev.channels[c4]);
                    }
                }
            }
        }
        Ok(())
    }
}

/// Well-formedness of the state after a fresh channel was created in `gid`.
pub(crate) proof fn lemma_fresh_channel_wf(prev: StateV, cur: StateV, gid: i64, cid: i64, c: ChannelV)
    requires
        prev.wf(),
        prev.has_group(gid),
        prev.last_id < cid,
        c.id == cid,
        c.group == gid,
        c.members.no_duplicates(),
        cur == (StateV {
            last_id: cid,
            groups: prev.groups.insert(
                gid,
                GroupV { channels: prev.groups[gid].channels.push(cid), ..prev.groups[gid] },
            ),
            channels: prev.channels.insert(cid, c),
            ..prev
        }),
    ensures
        cur.wf(),
{
    assert(!prev.has_channel(cid));
    assert(!prev.groups[gid].channels.contains(cid)) by {
        if prev.groups[gid].channels.contains(cid) {
            assert(prev.has_channel(cid));
        }
    }
    let cl = prev.groups[gid].channels;
    assert(cur.groups[gid].channels.no_duplicates()) by {
        assert(cl.push(cid).drop_last() == cl);
    }
    assert(cur.groups_wf());
    assert(cur.members_in_users());
    assert(cur.indices_wf());
    assert(cur.channels_wf()) by {
        assert forall|c2: i64| #[trigger] cur.channels.dom().contains(c2) implies {
            &&& cur.groups.dom().contains(cur.channels[c2].group)
            &&& cur.groups[cur.channels[c2].group].channels.contains(c2)
        } by {
            if c2 == cid {
                assert(cur.groups[gid].channels.last() == cid);
            } else {
                assert(prev.groups[prev.channels[c2].group].channels.contains(c2));
                if prev.channels[c2].group == gid {
                    let j = cl.index_of(c2);
                    assert(cl.push(cid)[j] == c2);
                }
            }
        }
        assert forall|g2: i64, c2: i64|
            cur.groups.dom().contains(g2) && #[trigger] cur.groups[g2].channels.contains(
                c2,
            ) implies cur.channels.dom().contains(c2) && cur.channels[c2].group == g2 by {
            if g2 == gid && c2 != cid {
                let j = cl.push(cid).index_of(c2);
                assert(j < cl.len());
                assert(cl[j] == c2);
                assert(cl.contains(c2));
            } else if g2 != gid {
                assert(prev.groups[g2].channels.contains(c2));
            }
        }
    }
    assert(cur.keys_wf());
    assert(cur.ids_wf());
    assert(cur.channel_sets_wf());
    assert(cur.messages_wf());
}

} // verus!
