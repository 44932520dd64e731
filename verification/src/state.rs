//! The membership graph: the entity store, its well-formedness invariant,
//! and the user-facing operations on it.
//!
//! The graph manager is the sole writer of all entities. Cascading mutations
//! (deleting a user, removing a member) are sequences of set-semantic steps,
//! each idempotent, so a supervising retry loop can safely re-drive a failed
//! cascade to completion.

use vstd::prelude::*;
use std::collections::HashMap;
use crate::hexstr::{is_valid_hash, is_hex_string, hex_bytes, hex_decode, bytes_eq};
use crate::ids::{IdGenerator, ID_TS_LIMIT};
use crate::idset::IdSet;
use crate::model::{
    Account,
    AccountV,
    ApiError,
    Channel,
    ChannelV,
    Group,
    GroupV,
    Message,
    MessageV,
    User,
    account_user,
    map_view,
    msgs_view,
    user_of,
};
use crate::strings::{str_char_vec, chars_to_string};
use crate::token::{Claims, TokenService, DEFAULT_TTL_MS, valid_token};

verus! {

broadcast use vstd::std_specs::hash::group_hash_axioms;

/// Spec-level view of the whole membership graph.
#[verifier::ext_equal]
pub ghost struct StateV {
    pub last_id: i64,
    pub users: Map<i64, AccountV>,
    pub user_groups: Map<i64, Seq<i64>>,
    pub user_dms: Map<i64, Seq<i64>>,
    pub groups: Map<i64, GroupV>,
    pub channels: Map<i64, ChannelV>,
    pub messages: Seq<MessageV>,
}

impl StateV {
    /// Keys match the `id` field of the entity they map to, and every stored
    /// password hash is a valid 64-digit hex string.
    pub open spec fn keys_wf(self) -> bool {
        &&& forall|uid: i64| #[trigger]
            self.users.dom().contains(uid) ==> self.users[uid].id == uid && is_valid_hash(
                self.users[uid].hash,
            )
        &&& forall|gid: i64| #[trigger]
            self.groups.dom().contains(gid) ==> self.groups[gid].id == gid
        &&& forall|cid: i64| #[trigger]
            self.channels.dom().contains(cid) ==> self.channels[cid].id == cid
    }

    /// Every id in use was issued by the generator: positive and no larger
    /// than the last issued id, so a fresh id collides with nothing.
    pub open spec fn ids_wf(self) -> bool {
        &&& 0 <= self.last_id
        &&& forall|uid: i64| #[trigger]
            self.users.dom().contains(uid) ==> 0 < uid <= self.last_id
        &&& forall|gid: i64| #[trigger]
            self.groups.dom().contains(gid) ==> 0 < gid <= self.last_id && 0 < self.groups[
                gid
            ].owner <= self.last_id
        &&& forall|cid: i64| #[trigger]
            self.channels.dom().contains(cid) ==> 0 < cid <= self.last_id
        &&& forall|i: int|
            0 <= i < self.messages.len() ==> 0 < #[trigger] self.messages[i].id <= self.last_id
    }

    /// Per-group structure: the member, admin and channel sets are
    /// duplicate-free; the owner is a member as long as its account exists;
    /// and admins are members (the admin role is an overlay on membership).
    pub open spec fn groups_wf(self) -> bool {
        forall|gid: i64| #[trigger] self.groups.dom().contains(gid) ==> {
            let g = self.groups[gid];
            &&& g.members.no_duplicates()
            &&& g.admins.no_duplicates()
            &&& g.channels.no_duplicates()
            &&& (self.users.dom().contains(g.owner) ==> g.members.contains(g.owner))
            &&& (forall|a: i64| #[trigger] g.admins.contains(a) ==> g.members.contains(a))
        }
    }

    /// Group members are existing users, except possibly `x` (the one user a
    /// deletion cascade is in the middle of unwinding).
    pub open spec fn members_in_users_except(self, x: i64) -> bool {
        forall|gid: i64, u: i64|
            self.groups.dom().contains(gid) && #[trigger] self.groups[gid].members.contains(u)
                && u != x ==> self.users.dom().contains(u)
    }

    /// Group members are existing users.
    pub open spec fn members_in_users(self) -> bool {
        forall|gid: i64, u: i64|
            self.groups.dom().contains(gid) && #[trigger] self.groups[gid].members.contains(u)
                ==> self.users.dom().contains(u)
    }

    /// Channel member sets are duplicate-free.
    pub open spec fn channel_sets_wf(self) -> bool {
        forall|cid: i64| #[trigger]
            self.channels.dom().contains(cid) ==> self.channels[cid].members.no_duplicates()
    }

    /// The per-user membership indices exist exactly for existing users, are
    /// duplicate-free, and agree with the groups' member sets in both
    /// directions.
    pub open spec fn indices_wf(self) -> bool {
        &&& self.user_groups.dom() == self.users.dom()
        &&& self.user_dms.dom() == self.users.dom()
        &&& forall|uid: i64| #[trigger]
            self.users.dom().contains(uid) ==> self.user_groups[uid].no_duplicates()
                && self.user_dms[uid].no_duplicates()
        &&& forall|uid: i64, gid: i64|
            self.users.dom().contains(uid) && #[trigger] self.user_groups[uid].contains(gid)
                ==> self.groups.dom().contains(gid) && !self.groups[gid].is_dm
                && self.groups[gid].members.contains(uid)
        &&& forall|uid: i64, gid: i64|
            self.users.dom().contains(uid) && #[trigger] self.user_dms[uid].contains(gid)
                ==> self.groups.dom().contains(gid) && self.groups[gid].is_dm
                && self.groups[gid].members.contains(uid)
        &&& forall|gid: i64, uid: i64|
            self.groups.dom().contains(gid) && #[trigger] self.groups[gid].members.contains(uid)
                && self.users.dom().contains(uid) ==> (if self.groups[gid].is_dm {
                self.user_dms[uid].contains(gid)
            } else {
                self.user_groups[uid].contains(gid)
            })
    }

    /// Channels and groups reference each other consistently: every channel's
    /// parent group exists and lists it, and every listed channel exists and
    /// points back at its group.
    pub open spec fn channels_wf(self) -> bool {
        &&& forall|cid: i64| #[trigger] self.channels.dom().contains(cid) ==> {
            &&& self.groups.dom().contains(self.channels[cid].group)
            &&& self.groups[self.channels[cid].group].channels.contains(cid)
        }
        &&& forall|gid: i64, cid: i64|
            self.groups.dom().contains(gid) && #[trigger] self.groups[gid].channels.contains(cid)
                ==> self.channels.dom().contains(cid) && self.channels[cid].group == gid
    }

    /// Every message sits in an existing channel, and message ids are unique.
    pub open spec fn messages_wf(self) -> bool {
        &&& forall|i: int|
            0 <= i < self.messages.len() ==> self.channels.dom().contains(
                #[trigger] self.messages[i].channel,
            )
        &&& forall|i: int, j: int|
            0 <= i < j < self.messages.len() ==> self.messages[i].id != self.messages[j].id
    }

    /// All invariant clauses except that group members must be existing
    /// users, which may be broken for the single user `x` while a deletion
    /// cascade unwinds its memberships.
    pub open spec fn wf_except(self, x: i64) -> bool {
        &&& self.keys_wf()
        &&& self.ids_wf()
        &&& self.groups_wf()
        &&& self.members_in_users_except(x)
        &&& self.channel_sets_wf()
        &&& self.indices_wf()
        &&& self.channels_wf()
        &&& self.messages_wf()
    }

    /// The whole well-formedness invariant: established by the constructor
    /// and preserved by every operation.
    pub open spec fn wf(self) -> bool {
        &&& self.keys_wf()
        &&& self.ids_wf()
        &&& self.groups_wf()
        &&& self.members_in_users()
        &&& self.channel_sets_wf()
        &&& self.indices_wf()
        &&& self.channels_wf()
        &&& self.messages_wf()
    }

    /// Whether a user exists.
    pub open spec fn has_user(self, uid: i64) -> bool {
        self.users.dom().contains(uid)
    }

    /// Whether a group exists.
    pub open spec fn has_group(self, gid: i64) -> bool {
        self.groups.dom().contains(gid)
    }

    /// Whether a channel exists.
    pub open spec fn has_channel(self, cid: i64) -> bool {
        self.channels.dom().contains(cid)
    }

    /// Whether `uid` has been fully removed from group `gid`: not a member,
    /// not an admin, in none of the group's channels, and the group is gone
    /// from the user's membership indices.
    pub open spec fn member_removed(self, gid: i64, uid: i64) -> bool {
        &&& !self.groups[gid].members.contains(uid)
        &&& !self.groups[gid].admins.contains(uid)
        &&& forall|cid: i64| #[trigger]
            self.groups[gid].channels.contains(cid) ==> !self.channels[cid].members.contains(uid)
        &&& (self.user_groups.dom().contains(uid) ==> !self.user_groups[uid].contains(gid))
        &&& (self.user_dms.dom().contains(uid) ==> !self.user_dms[uid].contains(gid))
    }
}

/// How a duplicate-free id sequence relates to itself after a set-semantic
/// removal of `x`: `x` is gone, everything else is untouched, and removing an
/// absent id changes nothing.
pub open spec fn seq_stripped(s1: Seq<i64>, s2: Seq<i64>, x: i64) -> bool {
    &&& !s2.contains(x)
    &&& forall|y: i64| y != x ==> s2.contains(y) == s1.contains(y)
    &&& s2.no_duplicates()
    &&& (!s1.contains(x) ==> s2 == s1)
    &&& (s1.contains(x) && s1.no_duplicates() ==> s2.len() == s1.len() - 1)
}

/// How a group relates to itself after user `x` was removed from its member
/// and admin sets: every other field is untouched.
pub open spec fn group_stripped(g1: GroupV, g2: GroupV, x: i64) -> bool {
    &&& g2.id == g1.id
    &&& g2.name == g1.name
    &&& g2.owner == g1.owner
    &&& g2.channels == g1.channels
    &&& g2.is_dm == g1.is_dm
    &&& seq_stripped(g1.members, g2.members, x)
    &&& seq_stripped(g1.admins, g2.admins, x)
    &&& (!g1.members.contains(x) && !g1.admins.contains(x) ==> g2 == g1)
}

/// How a channel relates to itself after user `x` was removed from its
/// member set: every other field is untouched.
pub open spec fn chan_stripped(c1: ChannelV, c2: ChannelV, x: i64) -> bool {
    &&& c2.id == c1.id
    &&& c2.group == c1.group
    &&& c2.name == c1.name
    &&& c2.private == c1.private
    &&& seq_stripped(c1.members, c2.members, x)
    &&& (!c1.members.contains(x) ==> c2 == c1)
}

/// The sequence after a set-semantic insert of `x`: unchanged if present,
/// appended otherwise.
pub open spec fn seq_ins(s: Seq<i64>, x: i64) -> Seq<i64> {
    if s.contains(x) {
        s
    } else {
        s.push(x)
    }
}

/// How the whole state relates to itself across the remove-group-member
/// cascade on `(gid, uid)`: the user is fully removed from the group, the
/// group's channels and the user's indices, and nothing else changes. Running
/// the cascade on an already-removed pair changes nothing at all.
pub open spec fn removed_member_post(pre: StateV, post: StateV, gid: i64, uid: i64) -> bool {
    &&& post.member_removed(gid, uid)
    &&& post.users == pre.users
    &&& post.messages == pre.messages
    &&& post.last_id == pre.last_id
    &&& post.groups.dom() == pre.groups.dom()
    &&& post.channels.dom() == pre.channels.dom()
    &&& post.user_groups.dom() == pre.user_groups.dom()
    &&& post.user_dms.dom() == pre.user_dms.dom()
    &&& forall|g2: i64|
        pre.has_group(g2) && g2 != gid ==> post.groups[g2] == #[trigger] pre.groups[g2]
    &&& group_stripped(pre.groups[gid], post.groups[gid], uid)
    &&& forall|cid: i64|
        pre.has_channel(cid) && !pre.groups[gid].channels.contains(cid) ==> post.channels[cid]
            == #[trigger] pre.channels[cid]
    &&& forall|cid: i64| #[trigger]
        pre.groups[gid].channels.contains(cid) ==> chan_stripped(
            pre.channels[cid],
            post.channels[cid],
            uid,
        )
    &&& forall|u2: i64|
        pre.user_groups.dom().contains(u2) && u2 != uid ==> post.user_groups[u2]
            == #[trigger] pre.user_groups[u2]
    &&& forall|u2: i64|
        pre.user_dms.dom().contains(u2) && u2 != uid ==> post.user_dms[u2] == #[trigger] pre.user_dms[u2]
    &&& (pre.user_groups.dom().contains(uid) ==> seq_stripped(
        pre.user_groups[uid],
        post.user_groups[uid],
        gid,
    ))
    &&& (pre.user_dms.dom().contains(uid) ==> seq_stripped(
        pre.user_dms[uid],
        post.user_dms[uid],
        gid,
    ))
    &&& (pre.member_removed(gid, uid) ==> post == pre)
}

/// The full invariant gives the weakened one, for any user.
pub proof fn lemma_wf_gives_except(s: StateV, x: i64)
    requires
        s.wf(),
    ensures
        s.wf_except(x),
{
}

/// The weakened invariant is the full one while the user still exists.
pub proof fn lemma_wf_restore_user_exists(s: StateV, x: i64)
    requires
        s.wf_except(x),
        s.users.dom().contains(x),
    ensures
        s.wf(),
{
}

/// The weakened invariant is the full one once the user is a member of no
/// group.
pub proof fn lemma_wf_restore_no_member(s: StateV, x: i64)
    requires
        s.wf_except(x),
        forall|gid: i64| #[trigger]
            s.groups.dom().contains(gid) ==> !s.groups[gid].members.contains(x),
    ensures
        s.wf(),
{
}

/// The membership graph manager. Owns the entity store and the id generator;
/// every mutation goes through its methods, which preserve `wf`.
pub struct ChatState {
    gen: IdGenerator,
    users: HashMap<i64, Account>,
    user_groups: HashMap<i64, IdSet>,
    user_dms: HashMap<i64, IdSet>,
    groups: HashMap<i64, Group>,
    channels: HashMap<i64, Channel>,
    messages: Vec<Message>,
}

impl View for ChatState {
    type V = StateV;

    closed spec fn view(&self) -> StateV {
        StateV {
            last_id: self.gen.last_id(),
            users: map_view(self.users@),
            user_groups: map_view(self.user_groups@),
            user_dms: map_view(self.user_dms@),
            groups: map_view(self.groups@),
            channels: map_view(self.channels@),
            messages: msgs_view(self.messages@),
        }
    }
}

impl ChatState {
    /// An empty graph.
    pub fn new() -> (s: ChatState)
        ensures
            s@.wf(),
            s@.users =~= Map::<i64, AccountV>::empty(),
            s@.groups =~= Map::<i64, GroupV>::empty(),
            s@.channels =~= Map::<i64, ChannelV>::empty(),
            s@.messages =~= Seq::<MessageV>::empty(),
    {
        let s = ChatState {
            gen: IdGenerator::new(),
            users: HashMap::new(),
            user_groups: HashMap::new(),
            user_dms: HashMap::new(),
            groups: HashMap::new(),
            channels: HashMap::new(),
            messages: Vec::new(),
        };
        proof {
            assert(s@.users =~= Map::<i64, AccountV>::empty());
            assert(s@.user_groups =~= Map::<i64, Seq<i64>>::empty());
            assert(s@.user_dms =~= Map::<i64, Seq<i64>>::empty());
            assert(s@.groups =~= Map::<i64, GroupV>::empty());
            assert(s@.channels =~= Map::<i64, ChannelV>::empty());
            assert(s@.messages =~= Seq::<MessageV>::empty());
        }
        s
    }

    /// Looks a user's stored account up.
    pub(crate) fn user_get(&self, uid: i64) -> (r: Option<&Account>)
        ensures
            r is Some <==> self@.has_user(uid),
            r matches Some(u) ==> u@ == self@.users[uid],
    {
        let r = self.users.get(&uid);
        proof {
            if self.users@.contains_key(uid) {
                assert(self@.users.dom().contains(uid));
            }
        }
        r
    }

    /// Looks a group up.
    pub(crate) fn group_get(&self, gid: i64) -> (r: Option<&Group>)
        ensures
            r is Some <==> self@.has_group(gid),
            r matches Some(g) ==> g@ == self@.groups[gid],
    {
        self.groups.get(&gid)
    }

    /// Looks a channel up.
    pub(crate) fn channel_get(&self, cid: i64) -> (r: Option<&Channel>)
        ensures
            r is Some <==> self@.has_channel(cid),
            r matches Some(c) ==> c@ == self@.channels[cid],
    {
        self.channels.get(&cid)
    }

    /// Looks a user's group index up.
    pub(crate) fn ug_get(&self, uid: i64) -> (r: Option<&IdSet>)
        ensures
            r is Some <==> self@.user_groups.dom().contains(uid),
            r matches Some(s) ==> s@ == self@.user_groups[uid],
    {
        self.user_groups.get(&uid)
    }

    /// Looks a user's DM index up.
    pub(crate) fn ud_get(&self, uid: i64) -> (r: Option<&IdSet>)
        ensures
            r is Some <==> self@.user_dms.dom().contains(uid),
            r matches Some(s) ==> s@ == self@.user_dms[uid],
    {
        self.user_dms.get(&uid)
    }

    /// Stores a user's account record.
    pub(crate) fn user_put(&mut self, uid: i64, u: Account)
        ensures
            final(self)@ =~~= (StateV { users: old(self)@.users.insert(uid, u@), ..old(self)@ }),
    {
        self.users.insert(uid, u);
    }

    /// Stores a group record.
    pub(crate) fn group_put(&mut self, gid: i64, g: Group)
        ensures
            final(self)@ =~~= (StateV { groups: old(self)@.groups.insert(gid, g@), ..old(self)@ }),
    {
        self.groups.insert(gid, g);
    }

    /// Stores a channel record.
    pub(crate) fn channel_put(&mut self, cid: i64, c: Channel)
        ensures
            final(self)@ =~~= (StateV {
                channels: old(self)@.channels.insert(cid, c@),
                ..old(self)@
            }),
    {
        self.channels.insert(cid, c);
    }

    /// Stores a user's group index.
    pub(crate) fn ug_put(&mut self, uid: i64, s: IdSet)
        ensures
            final(self)@ =~~= (StateV {
                user_groups: old(self)@.user_groups.insert(uid, s@),
                ..old(self)@
            }),
    {
        self.user_groups.insert(uid, s);
    }

    /// Stores a user's DM index.
    pub(crate) fn ud_put(&mut self, uid: i64, s: IdSet)
        ensures
            final(self)@ =~~= (StateV {
                user_dms: old(self)@.user_dms.insert(uid, s@),
                ..old(self)@
            }),
    {
        self.user_dms.insert(uid, s);
    }

    /// Deletes a user record together with its membership indices.
    pub(crate) fn user_del(&mut self, uid: i64)
        ensures
            final(self)@ =~~= (StateV {
                users: old(self)@.users.remove(uid),
                user_groups: old(self)@.user_groups.remove(uid),
                user_dms: old(self)@.user_dms.remove(uid),
                ..old(self)@
            }),
    {
        self.users.remove(&uid);
        self.user_groups.remove(&uid);
        self.user_dms.remove(&uid);
    }

    /// Deletes a group record.
    pub(crate) fn group_del(&mut self, gid: i64)
        ensures
            final(self)@ =~~= (StateV { groups: old(self)@.groups.remove(gid), ..old(self)@ }),
    {
        self.groups.remove(&gid);
    }

    /// Deletes a channel record.
    pub(crate) fn channel_del(&mut self, cid: i64)
        ensures
            final(self)@ =~~= (StateV { channels: old(self)@.channels.remove(cid), ..old(self)@ }),
    {
        self.channels.remove(&cid);
    }

    /// Issues a fresh id, strictly above every id in use.
    pub(crate) fn alloc_id(&mut self, now_ms: u64) -> (r: i64)
        requires
            now_ms < ID_TS_LIMIT,
            old(self)@.last_id < i64::MAX,
        ensures
            final(self)@ =~~= (StateV { last_id: r, ..old(self)@ }),
            old(self)@.last_id < r,
            old(self)@.last_id < i64::MAX - 1 ==> r < i64::MAX,
    {
        self.gen.next_id(now_ms)
    }

    /// How many messages the log holds.
    pub(crate) fn msg_count(&self) -> (r: usize)
        ensures
            r == self@.messages.len(),
    {
        self.messages.len()
    }

    /// The message at position `i` of the log.
    pub(crate) fn msg_at(&self, i: usize) -> (r: &Message)
        requires
            i < self@.messages.len(),
        ensures
            r@ == self@.messages[i as int],
    {
        &self.messages[i]
    }

    /// Appends a message to the log.
    pub(crate) fn msgs_push(&mut self, m: Message)
        ensures
            final(self)@ =~~= (StateV {
                messages: old(self)@.messages.push(m@),
                ..old(self)@
            }),
    {
        self.messages.push(m);
        proof {
            assert(msgs_view(self.messages@) =~= msgs_view(old(self).messages@).push(
                self.messages@.last()@,
            ));
        }
    }

    /// Removes the message at position `i` of the log.
    pub(crate) fn msg_remove(&mut self, i: usize)
        requires
            i < old(self)@.messages.len(),
        ensures
            final(self)@ =~~= (StateV {
                messages: old(self)@.messages.remove(i as int),
                ..old(self)@
            }),
    {
        self.messages.remove(i);
        proof {
            assert(msgs_view(self.messages@) =~= msgs_view(old(self).messages@).remove(i as int));
        }
    }

    /// Replaces the message at position `i` of the log.
    pub(crate) fn msg_update(&mut self, i: usize, m: Message)
        requires
            i < old(self)@.messages.len(),
        ensures
            final(self)@ =~~= (StateV {
                messages: old(self)@.messages.update(i as int, m@),
                ..old(self)@
            }),
    {
        let ghost mv = m@;
        self.messages.set(i, m);
        proof {
            assert(msgs_view(self.messages@) =~= msgs_view(old(self).messages@).update(
                i as int,
                mv,
            ));
        }
    }

    /// Replaces the whole message log.
    pub(crate) fn msgs_replace(&mut self, v: Vec<Message>)
        ensures
            final(self)@ =~~= (StateV { messages: msgs_view(v@), ..old(self)@ }),
    {
        self.messages = v;
    }

    /// The most recently issued id; fresh ids will be strictly larger.
    pub fn last_id(&self) -> (r: i64)
        ensures
            r == self@.last_id,
    {
        self.gen.last()
    }

    /// The remove-group-member cascade: removes `uid` from the group's member
    /// and admin sets, from every channel belonging to the group, and removes
    /// the group from `uid`'s membership indices. Every step has set
    /// semantics, so the cascade is idempotent: run on an already-removed
    /// pair it changes nothing.
    pub(crate) fn cascade_remove_member(&mut self, gid: i64, uid: i64)
        requires
            old(self)@.wf_except(uid),
            old(self)@.has_group(gid),
            old(self)@.has_user(uid) ==> old(self)@.groups[gid].owner != uid,
        ensures
            final(self)@.wf_except(uid),
            final(self)@.member_removed(gid, uid),
            final(self)@.users == old(self)@.users,
            final(self)@.messages == old(self)@.messages,
            final(self)@.last_id == old(self)@.last_id,
            final(self)@.groups.dom() =~= old(self)@.groups.dom(),
            final(self)@.channels.dom() =~= old(self)@.channels.dom(),
            final(self)@.user_groups.dom() =~= old(self)@.user_groups.dom(),
            final(self)@.user_dms.dom() =~= old(self)@.user_dms.dom(),
            forall|g2: i64|
                old(self)@.has_group(g2) && g2 != gid
                    ==> final(self)@.groups[g2] == old(self)@.groups[g2],
            group_stripped(old(self)@.groups[gid], final(self)@.groups[gid], uid),
            forall|cid: i64|
                old(self)@.has_channel(cid) && !old(self)@.groups[gid].channels.contains(cid)
                    ==> final(self)@.channels[cid] == old(self)@.channels[cid],
            forall|cid: i64| #[trigger]
                old(self)@.groups[gid].channels.contains(cid) ==> chan_stripped(
                    old(self)@.channels[cid],
                    final(self)@.channels[cid],
                    uid,
                ),
            forall|u2: i64|
                old(self)@.user_groups.dom().contains(u2) && u2 != uid
                    ==> final(self)@.user_groups[u2] == old(self)@.user_groups[u2],
            forall|u2: i64|
                old(self)@.user_dms.dom().contains(u2) && u2 != uid ==> final(self)@.user_dms[u2]
                    == old(self)@.user_dms[u2],
            old(self)@.user_groups.dom().contains(uid) ==> seq_stripped(
                old(self)@.user_groups[uid],
                final(self)@.user_groups[uid],
                gid,
            ),
            old(self)@.user_dms.dom().contains(uid) ==> seq_stripped(
                old(self)@.user_dms[uid],
                final(self)@.user_dms[uid],
                gid,
            ),
            old(self)@.member_removed(gid, uid) ==> final(self)@ == old(self)@,
            !old(self)@.user_groups.dom().contains(uid)
                ==> final(self)@.user_groups == old(self)@.user_groups,
            !old(self)@.user_dms.dom().contains(uid)
                ==> final(self)@.user_dms == old(self)@.user_dms,
            removed_member_post(old(self)@, final(self)@, gid, uid),
    {
        let ghost prev = old(self)@;
        let chans: Vec<i64>;
        match self.group_get(gid) {
            Some(g) => {
                chans = g.channels.to_vec();
            },
            None => {
                proof {
                    assert(false);
                }
                return ;
            },
        }
        assert(chans@ == prev.groups[gid].channels);
        // Remove the user from every channel belonging to the group.
        let nchan = chans.len();
        for i in 0..nchan
            invariant
                nchan == chans@.len(),
                prev.wf_except(uid),
                prev.has_group(gid),
                chans@ == prev.groups[gid].channels,
                self@.users == prev.users,
                self@.messages == prev.messages,
                self@.last_id == prev.last_id,
                self@.groups == prev.groups,
                self@.user_groups == prev.user_groups,
                self@.user_dms == prev.user_dms,
                self@.channels.dom() =~= prev.channels.dom(),
                forall|cid: i64|
                    prev.has_channel(cid) && !chans@.take(i as int).contains(cid)
                        ==> self@.channels[cid] == prev.channels[cid],
                forall|cid: i64|
                    #![trigger chans@.take(i as int).contains(cid)]
                    #![trigger self@.channels[cid]]
                    chans@.take(i as int).contains(cid) ==> chan_stripped(
                        prev.channels[cid],
                        self@.channels[cid],
                        uid,
                    ),
        {
            let cid = chans[i];
            proof {
                assert(prev.groups[gid].channels.contains(cid));
                assert(prev.has_channel(cid));
                assert(chans@.no_duplicates());
                assert(!chans@.take(i as int).contains(cid)) by {
                    if chans@.take(i as int).contains(cid) {
                        let j = chans@.take(i as int).index_of(cid);
                        assert(chans@[j] == chans@[i as int]);
                    }
                }
                assert(self@.channels[cid] == prev.channels[cid]);
            }
            let ghost before = self@;
            let cidv: i64;
            let cgroup: i64;
            let cname: String;
            let cpriv: bool;
            let mut cmembers: IdSet;
            match self.channel_get(cid) {
                Some(c) => {
                    cidv = c.id;
                    cgroup = c.group;
                    cname = c.name.clone();
                    cpriv = c.private;
                    cmembers = c.members.duplicate();
                },
                None => {
                    proof {
                        assert(false);
                    }
                    return ;
                },
            }
            cmembers.remove(uid);
            self.channel_put(
                cid,
                Channel { id: cidv, group: cgroup, name: cname, members: cmembers, private: cpriv },
            );
            proof {
                assert(self@.channels == before.channels.insert(cid, ChannelV {
                    id: cidv,
                    group: cgroup,
                    name: cname@,
                    members: cmembers@,
                    private: cpriv,
                }));
                assert(seq_stripped(prev.channels[cid].members, cmembers@, uid));
                assert(chan_stripped(prev.channels[cid], self@.channels[cid], uid));
                assert forall|c2: i64| #[trigger]
                    chans@.take(i as int + 1).contains(c2) implies chan_stripped(
                    prev.channels[c2],
                    self@.channels[c2],
                    uid,
                ) by {
                    if c2 != cid {
                        let j = chans@.take(i as int + 1).index_of(c2);
                        assert(chans@.take(i as int + 1)[j] == c2);
                        assert(j < i as int);
                        assert(chans@.take(i as int)[j] == c2);
                        assert(chans@.take(i as int).contains(c2));
                        assert(chan_stripped(prev.channels[c2], before.channels[c2], uid));
                        assert(self@.channels[c2] == before.channels[c2]);
                    } else {
                        assert(chan_stripped(prev.channels[c2], self@.channels[c2], uid));
                    }
                }
                assert forall|c2: i64|
                    prev.has_channel(c2) && !chans@.take(i as int + 1).contains(
                        c2,
                    ) implies self@.channels[c2] == prev.channels[c2] by {
                    assert(c2 != cid) by {
                        assert(chans@.take(i as int + 1)[i as int] == cid);
                        assert(chans@.take(i as int + 1).contains(cid));
                    }
                    assert(!chans@.take(i as int).contains(c2)) by {
                        if chans@.take(i as int).contains(c2) {
                            let j = chans@.take(i as int).index_of(c2);
                            assert(chans@.take(i as int + 1)[j] == c2);
                        }
                    }
                    assert(self@.channels[c2] == before.channels[c2]);
                }
            }
        }
        assert(chans@.take(nchan as int) =~= chans@);
        let ghost mid = self@;
        proof {
            assert forall|cid: i64| #[trigger] chans@.contains(cid) implies chan_stripped(
                prev.channels[cid],
                mid.channels[cid],
                uid,
            ) by {
                assert(chans@.take(nchan as int).contains(cid));
            }
            assert forall|cid: i64|
                prev.has_channel(cid) && !chans@.contains(cid) implies mid.channels[cid]
                    == prev.channels[cid] by {
                assert(!chans@.take(nchan as int).contains(cid));
            }
        }
        // Remove the user from the group's member and admin sets.
        let gname: String;
        let gowner: i64;
        let gdm: bool;
        let mut gmembers: IdSet;
        let mut gadmins: IdSet;
        let gchannels: IdSet;
        match self.group_get(gid) {
            Some(g) => {
                gname = g.name.clone();
                gowner = g.owner;
                gdm = g.is_dm;
                gmembers = g.members.duplicate();
                gadmins = g.admins.duplicate();
                gchannels = g.channels.duplicate();
            },
            None => {
                proof {
                    assert(false);
                }
                return ;
            },
        }
        gmembers.remove(uid);
        gadmins.remove(uid);
        self.group_put(
            gid,
            Group {
                id: gid,
                name: gname,
                owner: gowner,
                admins: gadmins,
                members: gmembers,
                channels: gchannels,
                is_dm: gdm,
            },
        );
        // Remove the group from the user's membership indices.
        let gidx = match self.ug_get(uid) {
            Some(s) => Some(s.duplicate()),
            None => None,
        };
        if let Some(mut s) = gidx {
            s.remove(gid);
            self.ug_put(uid, s);
        }
        let didx = match self.ud_get(uid) {
            Some(s) => Some(s.duplicate()),
            None => None,
        };
        if let Some(mut s) = didx {
            s.remove(gid);
            self.ud_put(uid, s);
        }
        proof {
            let cur = self@;
            assert(cur.channels == mid.channels);
            assert(group_stripped(prev.groups[gid], cur.groups[gid], uid));
            assert(cur.groups.dom() =~= prev.groups.dom());
            assert(cur.user_groups.dom() =~= prev.user_groups.dom());
            assert(cur.user_dms.dom() =~= prev.user_dms.dom());
            assert forall|cid: i64| #[trigger]
                prev.groups[gid].channels.contains(cid) implies chan_stripped(
                prev.channels[cid],
                cur.channels[cid],
                uid,
            ) by {
                assert(chans@.contains(cid));
                assert(chan_stripped(prev.channels[cid], mid.channels[cid], uid));
            }
            assert(cur.member_removed(gid, uid)) by {
                assert forall|cid: i64| #[trigger]
                    cur.groups[gid].channels.contains(cid) implies !cur.channels[
                    cid
                ].members.contains(uid) by {
                    assert(prev.groups[gid].channels.contains(cid));
                }
            }
            assert(cur.wf_except(uid)) by {
                assert(cur.keys_wf()) by {
                    assert forall|cid: i64| #[trigger]
                        cur.channels.dom().contains(cid) implies cur.channels[cid].id == cid by {
                        if chans@.contains(cid) {
                            assert(chan_stripped(prev.channels[cid], cur.channels[cid], uid));
                        } else {
                            assert(prev.has_channel(cid));
                            assert(mid.channels[cid] == prev.channels[cid]);
                            assert(cur.channels[cid] == prev.channels[cid]);
                        }
                    }
                }
                assert(cur.groups_wf()) by {
                    assert forall|g2: i64| #[trigger] cur.groups.dom().contains(g2) implies {
                        let g = cur.groups[g2];
                        &&& g.members.no_duplicates()
                        &&& g.admins.no_duplicates()
                        &&& g.channels.no_duplicates()
                        &&& (cur.users.dom().contains(g.owner) ==> g.members.contains(g.owner))
                        &&& (forall|a: i64| #[trigger] g.admins.contains(a) ==> g.members.contains(
                            a,
                        ))
                    } by {
                        assert(prev.groups.dom().contains(g2));
                        if g2 == gid {
                            assert(cur.users.dom().contains(cur.groups[g2].owner)
                                ==> cur.groups[g2].members.contains(cur.groups[g2].owner)) by {
                                if prev.users.dom().contains(prev.groups[gid].owner) {
                                    assert(prev.groups[gid].owner != uid);
                                }
                            }
                        }
                    }
                }
                assert(cur.members_in_users_except(uid));
                assert(cur.channel_sets_wf()) by {
                    assert forall|cid: i64| #[trigger]
                        cur.channels.dom().contains(cid) implies cur.channels[
                        cid
                    ].members.no_duplicates() by {
                        if chans@.contains(cid) {
                            assert(chan_stripped(prev.channels[cid], cur.channels[cid], uid));
                        } else {
                            assert(prev.has_channel(cid));
                            assert(mid.channels[cid] == prev.channels[cid]);
                            assert(cur.channels[cid] == prev.channels[cid]);
                        }
                    }
                }
                assert(cur.indices_wf());
                assert(cur.channels_wf()) by {
                    assert forall|cid: i64| #[trigger] cur.channels.dom().contains(cid) implies {
                        &&& cur.groups.dom().contains(cur.channels[cid].group)
                        &&& cur.groups[cur.channels[cid].group].channels.contains(cid)
                    } by {
                        assert(prev.channels.dom().contains(cid));
                        if chans@.contains(cid) {
                            assert(chan_stripped(prev.channels[cid], cur.channels[cid], uid));
                        } else {
                            assert(prev.has_channel(cid));
                            assert(mid.channels[cid] == prev.channels[cid]);
                            assert(cur.channels[cid] == prev.channels[cid]);
                        }
                        assert(cur.channels[cid].group == prev.channels[cid].group);
                        assert(cur.groups[cur.channels[cid].group].channels == prev.groups[
                            prev.channels[cid].group
                        ].channels);
                    }
                }
                assert(cur.messages_wf());
            }
            if prev.member_removed(gid, uid) {
                assert forall|cid: i64| #[trigger]
                    cur.channels.dom().contains(cid) implies cur.channels[cid] == prev.channels[
                    cid
                ] by {
                    if chans@.contains(cid) {
                        assert(prev.groups[gid].channels.contains(cid));
                        assert(!prev.channels[cid].members.contains(uid));
                        assert(chan_stripped(prev.channels[cid], cur.channels[cid], uid));
                    } else {
                        assert(prev.has_channel(cid));
                        assert(mid.channels[cid] == prev.channels[cid]);
                    }
                }
                assert(cur.channels =~= prev.channels);
                assert(cur.groups[gid] == prev.groups[gid]);
                assert(cur.groups =~= prev.groups);
                if prev.user_groups.dom().contains(uid) {
                    assert(cur.user_groups[uid] == prev.user_groups[uid]);
                }
                assert(cur.user_groups =~= prev.user_groups);
                assert(cur.user_dms =~= prev.user_dms);
                assert(cur =~~= prev);
            }
        }
    }
}

/// Which error `login` reports, if any: wrong hash length is malformed input,
/// an unknown user id is not found, and a hash that does not decode to the
/// stored hash's bytes (hex comparison is case-insensitive) is unauthorized.
pub open spec fn login_err(s: StateV, id: i64, hash: Seq<char>) -> Option<ApiError> {
    if hash.len() != 64 {
        Some(ApiError::BadRequest)
    } else if !s.has_user(id) {
        Some(ApiError::NotFound)
    } else if !(is_hex_string(hash) && hex_bytes(hash) == hex_bytes(s.users[id].hash)) {
        Some(ApiError::Unauthorized)
    } else {
        None
    }
}

/// Which error `make_user` reports, if any: a hash that is not 64 hex digits
/// is malformed input, and an exhausted id space is an internal failure.
pub open spec fn make_user_err(s: StateV, hash: Seq<char>) -> Option<ApiError> {
    if !is_valid_hash(hash) {
        Some(ApiError::BadRequest)
    } else if s.last_id == i64::MAX {
        Some(ApiError::InternalError)
    } else {
        None
    }
}

impl ChatState {
    /// Logs a user in: checks the presented password hash against the stored
    /// one (by decoded bytes, so hex case does not matter) and returns a
    /// signed bearer token with the default lifetime.
    pub fn login(&self, svc: &TokenService, id: i64, hash: &str, now_ms: i64) -> (r: Result<
        String,
        ApiError,
    >)
        requires
            self@.wf(),
            0 <= now_ms,
            now_ms + DEFAULT_TTL_MS <= i64::MAX,
        ensures
            r is Ok <==> login_err(self@, id, hash@) is None,
            r matches Err(e) ==> login_err(self@, id, hash@) == Some(e),
            r matches Ok(t) ==> valid_token(
                svc.secret(),
                t@,
                Claims { id, exp: (now_ms + DEFAULT_TTL_MS) as i64 },
            ),
    {
        let hv = str_char_vec(hash);
        if hv.len() != 64 {
            return Err(ApiError::BadRequest);
        }
        let stored = match self.user_get(id) {
            None => {
                return Err(ApiError::NotFound);
            },
            Some(u) => match hex_decode(u.hash.as_str()) {
                Some(b) => b,
                None => {
                    proof {
                        assert(false);
                    }
                    return Err(ApiError::InternalError);
                },
            },
        };
        let given = match hex_decode(hash) {
            Some(b) => b,
            None => {
                return Err(ApiError::Unauthorized);
            },
        };
        if bytes_eq(&given, &stored) {
            Ok(svc.issue(id, now_ms, DEFAULT_TTL_MS))
        } else {
            Err(ApiError::Unauthorized)
        }
    }

    /// The user with the given id — id, username and email only, never the
    /// stored password hash. Requires no authorization.
    pub fn get_user(&self, id: i64) -> (r: Result<User, ApiError>)
        ensures
            r is Ok <==> self@.has_user(id),
            r matches Ok(u) ==> u@ == user_of(self@.users[id]),
            r matches Err(e) ==> e == ApiError::NotFound,
    {
        match self.user_get(id) {
            Some(a) => Ok(account_user(a)),
            None => Err(ApiError::NotFound),
        }
    }

    /// Creates a user: cleans the display name, stores the record, and
    /// initializes its empty group and DM membership indices.
    pub fn make_user(&mut self, name: &str, email: &str, hash: &str, now_ms: u64) -> (r: Result<
        User,
        ApiError,
    >)
        requires
            old(self)@.wf(),
            now_ms < ID_TS_LIMIT,
        ensures
            final(self)@.wf(),
            r is Ok <==> make_user_err(old(self)@, hash@) is None,
            r matches Err(e) ==> make_user_err(old(self)@, hash@) == Some(e)
                && final(self)@ == old(self)@,
            r matches Ok(u) ==> {
                &&& !old(self)@.has_user(u@.id)
                &&& u@.id > old(self)@.last_id
                &&& u@.username == cleaned_name(name@)
                &&& u@.email == email@
                &&& final(self)@ =~~= (StateV {
                    last_id: u@.id,
                    users: old(self)@.users.insert(
                        u@.id,
                        AccountV {
                            id: u@.id,
                            username: u@.username,
                            email: u@.email,
                            hash: hash@,
                        },
                    ),
                    user_groups: old(self)@.user_groups.insert(u@.id, Seq::empty()),
                    user_dms: old(self)@.user_dms.insert(u@.id, Seq::empty()),
                    ..old(self)@
                })
            },
    {
        let hv = str_char_vec(hash);
        if hv.len() != 64 {
            return Err(ApiError::BadRequest);
        }
        if hex_decode(hash).is_none() {
            return Err(ApiError::BadRequest);
        }
        if self.last_id() == i64::MAX {
            return Err(ApiError::InternalError);
        }
        let uid = self.alloc_id(now_ms);
        let username = clean_name(name);
        let acct = Account { id: uid, username, email: email.to_owned(), hash: hash.to_owned() };
        let ret = account_user(&acct);
        self.user_put(uid, acct);
        self.ug_put(uid, IdSet::new());
        self.ud_put(uid, IdSet::new());
        proof {
            let prev = old(self)@;
            let cur = self@;
            assert(!prev.has_user(uid));
            assert(is_valid_hash(cur.users[uid].hash));
            assert forall|gid: i64| #[trigger]
                prev.groups.dom().contains(gid) implies !prev.groups[gid].members.contains(
                uid,
            ) by {
                if prev.groups[gid].members.contains(uid) {
                    assert(prev.users.dom().contains(uid));
                }
            }
            assert(cur.wf()) by {
                assert forall|gid: i64, u2: i64|
                    cur.groups.dom().contains(gid) && #[trigger] cur.groups[gid].members.contains(
                        u2,
                    ) implies cur.users.dom().contains(u2) by {
                    assert(prev.users.dom().contains(u2));
                }
                assert(cur.indices_wf()) by {
                    assert(cur.user_groups.dom() =~= cur.users.dom());
                    assert(cur.user_dms.dom() =~= cur.users.dom());
                }
            }
        }
        Ok(ret)
    }

    /// Updates the caller's own display name and email.
    pub fn update_user(&mut self, principal: i64, name: &str, email: &str) -> (r: Result<
        (),
        ApiError,
    >)
        requires
            old(self)@.wf(),
        ensures
            final(self)@.wf(),
            r is Ok <==> old(self)@.has_user(principal),
            r matches Err(e) ==> e == ApiError::NotFound && final(self)@ == old(self)@,
            r is Ok ==> final(self)@ =~~= (StateV {
                users: old(self)@.users.insert(
                    principal,
                    AccountV {
                        username: name@,
                        email: email@,
                        ..old(self)@.users[principal]
                    },
                ),
                ..old(self)@
            }),
    {
        let hash: String = match self.user_get(principal) {
            None => {
                return Err(ApiError::NotFound);
            },
            Some(u) => u.hash.clone(),
        };
        self.user_put(
            principal,
            Account { id: principal, username: name.to_owned(), email: email.to_owned(), hash },
        );
        proof {
            assert(self@.users.dom() =~= old(self)@.users.dom());
        }
        Ok(())
    }

    /// Deletes the caller's own account: removes the user record and its
    /// membership indices, then unwinds the user from every group and DM it
    /// belonged to (member set, admin set, every channel of the group). The
    /// steps are set-semantic and idempotent, so the cascade is safe to
    /// re-drive. Groups the user owned persist, ownerless in effect; channel
    /// memberships in groups the user did not belong to also persist.
    pub fn delete_user(&mut self, principal: i64) -> (r: Result<(), ApiError>)
        requires
            old(self)@.wf(),
        ensures
            final(self)@.wf(),
            r is Ok <==> old(self)@.has_user(principal),
            r matches Err(e) ==> e == ApiError::NotFound && final(self)@ == old(self)@,
            r is Ok ==> {
                &&& final(self)@.users == old(self)@.users.remove(principal)
                &&& final(self)@.user_groups == old(self)@.user_groups.remove(principal)
                &&& final(self)@.user_dms == old(self)@.user_dms.remove(principal)
                &&& final(self)@.messages == old(self)@.messages
                &&& final(self)@.last_id == old(self)@.last_id
                &&& final(self)@.groups.dom() =~= old(self)@.groups.dom()
                &&& final(self)@.channels.dom() =~= old(self)@.channels.dom()
                &&& forall|gid: i64| #[trigger]
                    old(self)@.has_group(gid) ==> group_stripped(
                        old(self)@.groups[gid],
                        final(self)@.groups[gid],
                        principal,
                    )
                &&& forall|cid: i64| #[trigger]
                    old(self)@.has_channel(cid) ==> (if old(self)@.groups[old(self)@.channels[
                        cid
                    ].group].members.contains(principal) {
                        chan_stripped(
                            old(self)@.channels[cid],
                            final(self)@.channels[cid],
                            principal,
                        )
                    } else {
                        final(self)@.channels[cid] == old(self)@.channels[cid]
                    })
            },
    {
        let ghost prev = old(self)@;
        let glist: Vec<i64>;
        let dlist: Vec<i64>;
        match self.ug_get(principal) {
            None => {
                proof {
                    assert(prev.user_groups.dom() == prev.users.dom());
                }
                return Err(ApiError::NotFound);
            },
            Some(s) => {
                glist = s.to_vec();
            },
        }
        match self.ud_get(principal) {
            None => {
                proof {
                    assert(false);
                }
                return Err(ApiError::NotFound);
            },
            Some(s) => {
                dlist = s.to_vec();
            },
        }
        let mut all: Vec<i64> = glist;
        let mut k: usize = 0;
        let dn = dlist.len();
        while k < dn
            invariant
                dn == dlist@.len(),
                k <= dn,
                all@ == prev.user_groups[principal] + dlist@.take(k as int),
                self@ == prev,
                prev.wf(),
                prev.has_user(principal),
                dlist@ == prev.user_dms[principal],
            decreases dn - k,
        {
            all.push(dlist[k]);
            proof {
                assert(all@ =~= prev.user_groups[principal] + dlist@.take(k as int + 1));
            }
            k = k + 1;
        }
        proof {
            assert(dlist@.take(dn as int) =~= dlist@);
        }
        assert(all@ == prev.user_groups[principal] + prev.user_dms[principal]);
        self.user_del(principal);
        proof {
            lemma_wf_gives_except(prev, principal);
            assert(self@.wf_except(principal)) by {
                assert(self@.users.dom() =~= prev.users.dom().remove(principal));
                assert(self@.user_groups.dom() =~= self@.users.dom());
                assert(self@.user_dms.dom() =~= self@.users.dom());
            }
            assert forall|g2: i64| #[trigger] all@.contains(g2) implies prev.has_group(g2) by {
                if prev.user_groups[principal].contains(g2) {
                } else {
                    let j = all@.index_of(g2);
                    assert(all@[j] == g2);
                    if j < prev.user_groups[principal].len() {
                        assert(prev.user_groups[principal].contains(g2));
                    } else {
                        assert(prev.user_dms[principal][j - prev.user_groups[
                            principal
                        ].len()] == g2);
                        assert(prev.user_dms[principal].contains(g2));
                    }
                }
            }
        }
        let ghost base = self@;
        let an = all.len();
        for i in 0..an
            invariant
                an == all@.len(),
                prev.wf(),
                prev.has_user(principal),
                forall|g2: i64| #[trigger] all@.contains(g2) ==> prev.has_group(g2),
                base.users == prev.users.remove(principal),
                base.user_groups == prev.user_groups.remove(principal),
                base.user_dms == prev.user_dms.remove(principal),
                base.groups == prev.groups,
                base.channels == prev.channels,
                base.messages == prev.messages,
                base.last_id == prev.last_id,
                self@.wf_except(principal),
                self@.users == base.users,
                self@.user_groups == base.user_groups,
                self@.user_dms == base.user_dms,
                self@.messages == base.messages,
                self@.last_id == base.last_id,
                self@.groups.dom() =~= prev.groups.dom(),
                self@.channels.dom() =~= prev.channels.dom(),
                forall|g2: i64|
                    #![trigger self@.groups[g2]]
                    prev.has_group(g2) && !all@.take(i as int).contains(g2) ==> self@.groups[g2]
                        == prev.groups[g2],
                forall|g2: i64|
                    #![trigger all@.take(i as int).contains(g2)]
                    #![trigger self@.groups[g2]]
                    all@.take(i as int).contains(g2) ==> group_stripped(
                        prev.groups[g2],
                        self@.groups[g2],
                        principal,
                    ) && self@.member_removed(g2, principal),
                forall|cid: i64|
                    #![trigger self@.channels[cid]]
                    prev.has_channel(cid) && !all@.take(i as int).contains(
                        prev.channels[cid].group,
                    ) ==> self@.channels[cid] == prev.channels[cid],
                forall|cid: i64|
                    #![trigger self@.channels[cid]]
                    prev.has_channel(cid) && all@.take(i as int).contains(
                        prev.channels[cid].group,
                    ) ==> chan_stripped(prev.channels[cid], self@.channels[cid], principal),
        {
            let gid = all[i];
            let ghost before = self@;
            proof {
                assert(all@.contains(gid));
                assert(prev.has_group(gid));
                assert(self@.has_group(gid));
                assert(!self@.has_user(principal)) by {
                    assert(self@.users.dom() =~= prev.users.dom().remove(principal));
                }
            }
            self.cascade_remove_member(gid, principal);
            proof {
                let cur = self@;
                assert forall|g2: i64| #[trigger]
                    all@.take(i as int + 1).contains(g2) implies group_stripped(
                    prev.groups[g2],
                    cur.groups[g2],
                    principal,
                ) && cur.member_removed(g2, principal) by {
                    if g2 == gid {
                        if all@.take(i as int).contains(gid) {
                            assert(before.member_removed(gid, principal));
                            assert(cur == before);
                            assert(group_stripped(prev.groups[gid], cur.groups[gid], principal));
                        } else {
                            assert(before.groups[gid] == prev.groups[gid]);
                            assert(group_stripped(before.groups[gid], cur.groups[gid], principal));
                            assert(cur.member_removed(gid, principal));
                        }
                    } else {
                        let j = all@.take(i as int + 1).index_of(g2);
                        assert(all@.take(i as int + 1)[j] == g2);
                        assert(j < i as int);
                        assert(all@.take(i as int)[j] == g2);
                        assert(all@.take(i as int).contains(g2));
                        assert(all@.contains(g2)) by {
                            let j2 = all@.take(i as int).index_of(g2);
                            assert(all@[j2] == g2);
                        }
                        assert(prev.has_group(g2));
                        assert(before.has_group(g2));
                        assert(group_stripped(prev.groups[g2], before.groups[g2], principal));
                        assert(cur.groups[g2] == before.groups[g2]);
                        assert(cur.member_removed(g2, principal)) by {
                            assert(before.member_removed(g2, principal));
                            assert forall|cid: i64| #[trigger]
                                cur.groups[g2].channels.contains(cid) implies !cur.channels[
                                cid
                            ].members.contains(principal) by {
                                assert(prev.has_group(g2));
                                assert(before.groups[g2].channels.contains(cid));
                                assert(before.has_channel(cid));
                                assert(before.channels[cid].group == g2);
                                assert(!before.channels[cid].members.contains(principal));
                                if before.groups[gid].channels.contains(cid) {
                                    assert(before.channels[cid].group == gid);
                                } else {
                                    assert(cur.channels[cid] == before.channels[cid]);
                                }
                                assert(!cur.channels[cid].members.contains(principal)) by {
                                    if before.groups[gid].channels.contains(cid) {
                                        assert(chan_stripped(
                                            before.channels[cid],
                                            cur.channels[cid],
                                            principal,
                                        ));
                                    }
                                }
                            }
                        }
                    }
                }
                assert forall|g2: i64|
                    prev.has_group(g2) && !all@.take(i as int + 1).contains(
                        g2,
                    ) implies cur.groups[g2] == prev.groups[g2] by {
                    assert(!all@.take(i as int).contains(g2)) by {
                        if all@.take(i as int).contains(g2) {
                            let j = all@.take(i as int).index_of(g2);
                            assert(all@.take(i as int + 1)[j] == g2);
                        }
                    }
                    assert(g2 != gid) by {
                        assert(all@.take(i as int + 1)[i as int] == gid);
                    }
                    assert(before.has_group(g2));
                    assert(before.groups[g2] == prev.groups[g2]);
                }
                assert forall|cid: i64|
                    prev.has_channel(cid) && !all@.take(i as int + 1).contains(
                        prev.channels[cid].group,
                    ) implies cur.channels[cid] == prev.channels[cid] by {
                    let grp = prev.channels[cid].group;
                    assert(!all@.take(i as int).contains(grp)) by {
                        if all@.take(i as int).contains(grp) {
                            let j = all@.take(i as int).index_of(grp);
                            assert(all@.take(i as int + 1)[j] == grp);
                        }
                    }
                    assert(grp != gid) by {
                        assert(all@.take(i as int + 1)[i as int] == gid);
                    }
                    assert(before.has_channel(cid));
                    assert(before.channels[cid] == prev.channels[cid]);
                    assert(before.channels[cid].group == grp);
                    assert(!before.groups[gid].channels.contains(cid)) by {
                        if before.groups[gid].channels.contains(cid) {
                            assert(before.channels[cid].group == gid);
                        }
                    }
                    assert(cur.channels[cid] == before.channels[cid]);
                }
                assert forall|cid: i64|
                    prev.has_channel(cid) && all@.take(i as int + 1).contains(
                        prev.channels[cid].group,
                    ) implies chan_stripped(prev.channels[cid], cur.channels[cid], principal) by {
                    let grp = prev.channels[cid].group;
                    if grp == gid {
                        if all@.take(i as int).contains(gid) {
                            assert(chan_stripped(
                                prev.channels[cid],
                                before.channels[cid],
                                principal,
                            ));
                            assert(cur == before || !before.groups[gid].channels.contains(cid)
                                || chan_stripped(
                                before.channels[cid],
                                cur.channels[cid],
                                principal,
                            ));
                            if cur != before && before.groups[gid].channels.contains(cid) {
                                assert(!before.channels[cid].members.contains(principal));
                                assert(chan_stripped(
                                    before.channels[cid],
                                    cur.channels[cid],
                                    principal,
                                ));
                                assert(cur.channels[cid] == before.channels[cid]);
                            }
                        } else {
                            assert(before.channels[cid] == prev.channels[cid]);
                            assert(prev.groups[gid].channels == before.groups[gid].channels);
                            assert(prev.groups[gid].channels.contains(cid)) by {
                                assert(prev.channels_wf());
                            }
                            assert(chan_stripped(
                                before.channels[cid],
                                cur.channels[cid],
                                principal,
                            ));
                        }
                    } else {
                        let j = all@.take(i as int + 1).index_of(grp);
                        assert(all@.take(i as int + 1)[j] == grp);
                        assert(j < i as int);
                        assert(all@.take(i as int)[j] == grp);
                        assert(all@.take(i as int).contains(grp));
                        assert(before.has_channel(cid));
                        assert(chan_stripped(prev.channels[cid], before.channels[cid], principal));
                        assert(!before.groups[gid].channels.contains(cid)) by {
                            if before.groups[gid].channels.contains(cid) {
                                assert(before.channels[cid].group == gid);
                                assert(before.channels[cid].group == prev.channels[cid].group);
                            }
                        }
                        assert(cur.channels[cid] == before.channels[cid]);
                    }
                }
            }
        }
        proof {
            assert(all@.take(an as int) =~= all@);
            let cur = self@;
            assert forall|gid: i64| #[trigger]
                cur.groups.dom().contains(gid) implies !cur.groups[gid].members.contains(
                principal,
            ) by {
                assert(prev.has_group(gid));
                if all@.contains(gid) {
                } else {
                    assert(cur.groups[gid] == prev.groups[gid]);
                    if prev.groups[gid].members.contains(principal) {
                        assert(prev.users.dom().contains(principal));
                        if prev.groups[gid].is_dm {
                            assert(prev.user_dms[principal].contains(gid));
                            assert(all@.contains(gid)) by {
                                let j = prev.user_dms[principal].index_of(gid);
                                assert(all@[prev.user_groups[principal].len() + j] == gid);
                            }
                        } else {
                            assert(prev.user_groups[principal].contains(gid));
                            assert(all@.contains(gid)) by {
                                let j = prev.user_groups[principal].index_of(gid);
                                assert(all@[j] == gid);
                            }
                        }
                    }
                }
            }
            lemma_wf_restore_no_member(cur, principal);
            assert forall|gid: i64| #[trigger]
                prev.has_group(gid) implies group_stripped(
                prev.groups[gid],
                cur.groups[gid],
                principal,
            ) by {
                if !all@.contains(gid) {
                    assert(cur.groups[gid] == prev.groups[gid]);
                    assert(!prev.groups[gid].members.contains(principal));
                    assert(!prev.groups[gid].admins.contains(principal));
                }
            }
            assert forall|cid: i64| #[trigger]
                prev.has_channel(cid) implies (if prev.groups[prev.channels[
                cid
            ].group].members.contains(principal) {
                chan_stripped(prev.channels[cid], cur.channels[cid], principal)
            } else {
                cur.channels[cid] == prev.channels[cid]
            }) by {
                let grp = prev.channels[cid].group;
                assert(prev.has_group(grp));
                if prev.groups[grp].members.contains(principal) {
                    assert(prev.users.dom().contains(principal));
                    assert(all@.contains(grp)) by {
                        if prev.groups[grp].is_dm {
                            let j = prev.user_dms[principal].index_of(grp);
                            assert(all@[prev.user_groups[principal].len() + j] == grp);
                        } else {
                            let j = prev.user_groups[principal].index_of(grp);
                            assert(all@[j] == grp);
                        }
                    }
                } else {
                    assert(!all@.contains(grp)) by {
                        if all@.contains(grp) {
                            let j = all@.index_of(grp);
                            if j < prev.user_groups[principal].len() {
                                assert(prev.user_groups[principal].contains(grp));
                            } else {
                                assert(prev.user_dms[principal][j - prev.user_groups[
                                    principal
                                ].len()] == grp);
                                assert(prev.user_dms[principal].contains(grp));
                            }
                        }
                    }
                }
            }
        }
        Ok(())
    }

    /// The groups accessible to the caller, from its membership index.
    pub fn get_groups(&self, principal: i64) -> (r: Result<Vec<Group>, ApiError>)
        requires
            self@.wf(),
        ensures
            r is Ok <==> self@.has_user(principal),
            r matches Err(e) ==> e == ApiError::NotFound,
            r matches Ok(v) ==> {
                &&& v@.len() == self@.user_groups[principal].len()
                &&& forall|i: int|
                    0 <= i < v@.len() ==> (#[trigger] v@[i])@ == self@.groups[self@.user_groups[
                        principal
                    ][i]]
            },
    {
        let idx = match self.ug_get(principal) {
            None => {
                proof {
                    assert(self@.user_groups.dom() == self@.users.dom());
                }
                return Err(ApiError::NotFound);
            },
            Some(s) => s.duplicate(),
        };
        let mut v: Vec<Group> = Vec::new();
        let n = idx.len();
        for i in 0..n
            invariant
                self@.wf(),
                self@.has_user(principal),
                n == idx@.len(),
                idx@ == self@.user_groups[principal],
                v@.len() == i,
                forall|j: int|
                    0 <= j < i ==> (#[trigger] v@[j])@ == self@.groups[self@.user_groups[
                        principal
                    ][j]],
        {
            let gid = idx.get(i);
            match self.group_get(gid) {
                Some(g) => {
                    v.push(crate::model::copy_group(g));
                },
                None => {
                    proof {
                        assert(self@.user_groups[principal].contains(gid));
                        assert(false);
                    }
                    return Err(ApiError::InternalError);
                },
            }
        }
        Ok(v)
    }

    /// The DMs accessible to the caller, from its DM index.
    pub fn get_dms(&self, principal: i64) -> (r: Result<Vec<Group>, ApiError>)
        requires
            self@.wf(),
        ensures
            r is Ok <==> self@.has_user(principal),
            r matches Err(e) ==> e == ApiError::NotFound,
            r matches Ok(v) ==> {
                &&& v@.len() == self@.user_dms[principal].len()
                &&& forall|i: int|
                    0 <= i < v@.len() ==> (#[trigger] v@[i])@ == self@.groups[self@.user_dms[
                        principal
                    ][i]]
            },
    {
        let idx = match self.ud_get(principal) {
            None => {
                proof {
                    assert(self@.user_dms.dom() == self@.users.dom());
                }
                return Err(ApiError::NotFound);
            },
            Some(s) => s.duplicate(),
        };
        let mut v: Vec<Group> = Vec::new();
        let n = idx.len();
        for i in 0..n
            invariant
                self@.wf(),
                self@.has_user(principal),
                n == idx@.len(),
                idx@ == self@.user_dms[principal],
                v@.len() == i,
                forall|j: int|
                    0 <= j < i ==> (#[trigger] v@[j])@ == self@.groups[self@.user_dms[
                        principal
                    ][j]],
        {
            let gid = idx.get(i);
            match self.group_get(gid) {
                Some(g) => {
                    v.push(crate::model::copy_group(g));
                },
                None => {
                    proof {
                        assert(self@.user_dms[principal].contains(gid));
                        assert(false);
                    }
                    return Err(ApiError::InternalError);
                },
            }
        }
        Ok(v)
    }
}

/// Whether `c` is one of the control, zero-width or other non-printing
/// characters that are stripped from display names.
pub open spec fn spec_disallowed_char(c: char) -> bool {
    ||| c == '\u{202e}'
    ||| c == '\u{0009}'
    ||| c == '\u{00AD}'
    ||| c == '\u{034F}'
    ||| c == '\u{061C}'
    ||| c == '\u{115F}'
    ||| c == '\u{1160}'
    ||| c == '\u{17B4}'
    ||| c == '\u{17B5}'
    ||| c == '\u{180E}'
    ||| ('\u{2000}' <= c && c <= '\u{200F}')
    ||| c == '\u{202F}'
    ||| c == '\u{205F}'
    ||| ('\u{2060}' <= c && c <= '\u{2064}')
    ||| ('\u{206A}' <= c && c <= '\u{206F}')
    ||| c == '\u{3000}'
    ||| c == '\u{2800}'
    ||| c == '\u{3164}'
    ||| c == '\u{FEFF}'
    ||| c == '\u{FFA0}'
    ||| c == '\u{1D159}'
    ||| ('\u{1D173}' <= c && c <= '\u{1D17A}')
}

/// Whether `c` is kept by name cleaning.
fn is_allowed_char(c: char) -> (r: bool)
    ensures
        r == !spec_disallowed_char(c),
{
    !(c == '\u{202e}' || c == '\u{0009}' || c == '\u{00AD}' || c == '\u{034F}' || c == '\u{061C}'
        || c == '\u{115F}' || c == '\u{1160}' || c == '\u{17B4}' || c == '\u{17B5}' || c
        == '\u{180E}' || ('\u{2000}' <= c && c <= '\u{200F}') || c == '\u{202F}' || c == '\u{205F}'
        || ('\u{2060}' <= c && c <= '\u{2064}') || ('\u{206A}' <= c && c <= '\u{206F}') || c
        == '\u{3000}' || c == '\u{2800}' || c == '\u{3164}' || c == '\u{FEFF}' || c == '\u{FFA0}'
        || c == '\u{1D159}' || ('\u{1D173}' <= c && c <= '\u{1D17A}'))
}

/// The display name with every disallowed character removed, in order.
pub open spec fn cleaned_name(s: Seq<char>) -> Seq<char>
    decreases s.len(),
{
    if s.len() == 0 {
        Seq::empty()
    } else if spec_disallowed_char(s[0]) {
        cleaned_name(s.skip(1))
    } else {
        seq![s[0]] + cleaned_name(s.skip(1))
    }
}

/// Cleans a display name: strips the disallowed characters, keeping the rest
/// in order.
pub fn clean_name(name: &str) -> (r: String)
    ensures
        r@ == cleaned_name(name@),
{
    let chars = str_char_vec(name);
    let mut kept: Vec<char> = Vec::new();
    let n = chars.len();
    proof {
        assert(chars@.skip(0) =~= chars@);
    }
    for i in 0..n
        invariant
            n == chars@.len(),
            chars@ == name@,
            cleaned_name(name@) == kept@ + cleaned_name(chars@.skip(i as int)),
    {
        proof {
            assert(chars@.skip(i as int).len() > 0);
            assert(chars@.skip(i as int)[0] == chars@[i as int]);
            assert(chars@.skip(i as int).skip(1) =~= chars@.skip(i as int + 1));
        }
        if is_allowed_char(chars[i]) {
            let ghost k0 = kept@;
            kept.push(chars[i]);
            proof {
                assert(kept@ =~= k0 + seq![chars@[i as int]]);
                assert(kept@ + cleaned_name(chars@.skip(i as int + 1)) =~= k0 + (seq![
                    chars@[i as int],
                ] + cleaned_name(chars@.skip(i as int + 1))));
            }
        }
    }
    proof {
        assert(chars@.skip(n as int) =~= Seq::<char>::empty());
        assert(kept@ + Seq::<char>::empty() =~= kept@);
    }
    chars_to_string(&kept)
}

} // verus!
