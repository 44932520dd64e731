//! Message metadata operations: recording, listing, searching, threads, and
//! deletion — together with channel deletion, which purges the channel's
//! messages.

use vstd::prelude::*;
use crate::idset::IdSet;
use crate::ids::ID_TS_LIMIT;
use crate::model::{
    ApiError,
    Channel,
    ChannelV,
    Group,
    GroupV,
    Message,
    MessageV,
    copy_channel,
    copy_message,
};
use crate::policy::{Role, check, role_allows};
use crate::state::{ChatState, StateV, seq_stripped};
use crate::strings::{contains_sub, seq_contains_sub, str_char_vec};

verus! {

/// The messages of `s` whose channel is not in `chans`, in order.
pub open spec fn msgs_outside(s: Seq<MessageV>, chans: Seq<i64>) -> Seq<MessageV>
    decreases s.len(),
{
    if s.len() == 0 {
        Seq::empty()
    } else if chans.contains(s[0].channel) {
        msgs_outside(s.skip(1), chans)
    } else {
        seq![s[0]] + msgs_outside(s.skip(1), chans)
    }
}

/// The messages of `s` that sit in channel `cid`, in order.
pub open spec fn chan_msgs(s: Seq<MessageV>, cid: i64) -> Seq<MessageV>
    decreases s.len(),
{
    if s.len() == 0 {
        Seq::empty()
    } else if s[0].channel == cid {
        seq![s[0]] + chan_msgs(s.skip(1), cid)
    } else {
        chan_msgs(s.skip(1), cid)
    }
}

/// The messages of `s` whose content contains `term`, in order.
pub open spec fn msgs_matching(s: Seq<MessageV>, term: Seq<char>) -> Seq<MessageV>
    decreases s.len(),
{
    if s.len() == 0 {
        Seq::empty()
    } else if seq_contains_sub(s[0].content, term) {
        seq![s[0]] + msgs_matching(s.skip(1), term)
    } else {
        msgs_matching(s.skip(1), term)
    }
}

/// The last `n` entries of `s` (all of them when `n` exceeds the length).
pub open spec fn last_n(s: Seq<MessageV>, n: int) -> Seq<MessageV> {
    if n >= s.len() {
        s
    } else {
        s.skip(s.len() - n)
    }
}

/// Whether the log holds a message with the given id.
pub open spec fn has_msg(s: Seq<MessageV>, mid: i64) -> bool {
    exists|i: int| 0 <= i < s.len() && (#[trigger] s[i]).id == mid
}

/// The position of the message with the given id (unique while the log is
/// well formed).
pub open spec fn msg_index(s: Seq<MessageV>, mid: i64) -> int {
    choose|i: int| 0 <= i < s.len() && (#[trigger] s[i]).id == mid
}

/// The message with the given id.
pub open spec fn msg_at_id(s: Seq<MessageV>, mid: i64) -> MessageV {
    s[msg_index(s, mid)]
}

/// Every message kept by `msgs_outside` comes from the original log, sits in
/// none of the purged channels, and distinct ids stay distinct.
pub proof fn lemma_msgs_outside_props(s: Seq<MessageV>, chans: Seq<i64>)
    ensures
        msgs_outside(s, chans).len() <= s.len(),
        forall|i: int|
            0 <= i < msgs_outside(s, chans).len() ==> s.contains(
                #[trigger] msgs_outside(s, chans)[i],
            ) && !chans.contains(msgs_outside(s, chans)[i].channel),
        (forall|i: int, j: int| 0 <= i < j < s.len() ==> s[i].id != s[j].id) ==> (forall|
            i: int,
            j: int,
        |
            0 <= i < j < msgs_outside(s, chans).len() ==> msgs_outside(s, chans)[i].id
                != msgs_outside(s, chans)[j].id),
    decreases s.len(),
{
    if s.len() == 0 {
    } else {
        let rest = s.skip(1);
        lemma_msgs_outside_props(rest, chans);
        let r = msgs_outside(s, chans);
        let rr = msgs_outside(rest, chans);
        assert forall|i: int| 0 <= i < rr.len() implies s.contains(#[trigger] rr[i]) by {
            assert(rest.contains(rr[i]));
            let j = choose|j: int| 0 <= j < rest.len() && rest[j] == rr[i];
            assert(s[j + 1] == rr[i]);
        }
        if forall|i: int, j: int| 0 <= i < j < s.len() ==> s[i].id != s[j].id {
            assert forall|i: int, j: int|
                0 <= i < j < rest.len() implies rest[i].id != rest[j].id by {
                assert(rest[i] == s[i + 1]);
                assert(rest[j] == s[j + 1]);
            }
            if !chans.contains(s[0].channel) {
                assert(r == seq![s[0]] + rr);
                assert forall|i: int, j: int|
                    0 <= i < j < r.len() implies r[i].id != r[j].id by {
                    if i == 0 {
                        assert(r[j] == rr[j - 1]);
                        assert(rest.contains(rr[j - 1]));
                        let k = choose|k: int| 0 <= k < rest.len() && rest[k] == rr[j - 1];
                        assert(s[k + 1] == r[j]);
                        assert(s[0].id != s[k + 1].id);
                    } else {
                        assert(r[i] == rr[i - 1]);
                        assert(r[j] == rr[j - 1]);
                    }
                }
            }
        }
    }
}

/// Which error `add_message` reports, if any: the channel must exist and the
/// author must be one of its members.
pub open spec fn add_message_err(s: StateV, author: i64, cid: i64) -> Option<ApiError> {
    if !s.has_channel(cid) {
        Some(ApiError::NotFound)
    } else if !s.channels[cid].members.contains(author) {
        Some(ApiError::Unauthorized)
    } else if s.last_id == i64::MAX {
        Some(ApiError::InternalError)
    } else {
        None
    }
}

/// Which error the message listing and search views report, if any.
pub open spec fn view_channel_err(s: StateV, principal: i64, cid: i64) -> Option<ApiError> {
    if !s.has_channel(cid) {
        Some(ApiError::NotFound)
    } else if !s.channels[cid].members.contains(principal) {
        Some(ApiError::NotFound)
    } else {
        None
    }
}

/// Which error `make_thread` reports, if any.
pub open spec fn make_thread_err(s: StateV, principal: i64, id: i64, name: Seq<char>) -> Option<
    ApiError,
> {
    if name.len() == 0 {
        Some(ApiError::BadRequest)
    } else if !has_msg(s.messages, id) {
        Some(ApiError::NotFound)
    } else if !(msg_at_id(s.messages, id).author == principal || role_allows(
        s.groups[s.channels[msg_at_id(s.messages, id).channel].group],
        principal,
        Role::Admin,
    )) {
        Some(ApiError::Unauthorized)
    } else if msg_at_id(s.messages, id).thread matches Some(t) && !s.has_channel(t) {
        Some(ApiError::NotFound)
    } else if msg_at_id(s.messages, id).thread is None && s.last_id == i64::MAX {
        Some(ApiError::InternalError)
    } else {
        None
    }
}

/// Which error `delete_message` reports, if any.
pub open spec fn delete_message_err(s: StateV, principal: i64, id: i64) -> Option<ApiError> {
    if !has_msg(s.messages, id) {
        Some(ApiError::NotFound)
    } else if !(msg_at_id(s.messages, id).author == principal || role_allows(
        s.groups[s.channels[msg_at_id(s.messages, id).channel].group],
        principal,
        Role::Admin,
    )) {
        Some(ApiError::Unauthorized)
    } else {
        None
    }
}

/// Which error `delete_channel` reports, if any.
pub open spec fn delete_channel_err(s: StateV, principal: i64, id: i64) -> Option<ApiError> {
    if !s.has_channel(id) {
        Some(ApiError::NotFound)
    } else if !role_allows(s.groups[s.channels[id].group], principal, Role::Admin) {
        Some(ApiError::Unauthorized)
    } else {
        None
    }
}

impl ChatState {
    /// Scans the log for the message with the given id.
    fn msg_find(&self, mid: i64) -> (r: Option<usize>)
        requires
            self@.wf(),
        ensures
            r is Some <==> has_msg(self@.messages, mid),
            r matches Some(i) ==> i == msg_index(self@.messages, mid) && i
                < self@.messages.len() && self@.messages[i as int].id == mid,
    {
        let n = self.msg_count();
        for i in 0..n
            invariant
                self@.wf(),
                n == self@.messages.len(),
                forall|j: int| 0 <= j < i ==> (#[trigger] self@.messages[j]).id != mid,
        {
            if self.msg_at(i).id == mid {
                proof {
                    let k = msg_index(self@.messages, mid);
                    assert(0 <= k < self@.messages.len() && self@.messages[k].id == mid);
                    if k != i {
                        assert(self@.messages[k].id == self@.messages[i as int].id);
                    }
                }
                return Some(i);
            }
        }
        None
    }

    /// Records a message in a channel; the author must be a channel member.
    /// This is the store-level write path used by the separate delivery
    /// service; it performs no delivery of its own.
    pub fn add_message(&mut self, author: i64, cid: i64, content: &str, now_ms: u64) -> (r: Result<
        Message,
        ApiError,
    >)
        requires
            old(self)@.wf(),
            now_ms < ID_TS_LIMIT,
        ensures
            final(self)@.wf(),
            r is Ok <==> add_message_err(old(self)@, author, cid) is None,
            r matches Err(e) ==> add_message_err(old(self)@, author, cid) == Some(e)
                && final(self)@ == old(self)@,
            r matches Ok(m) ==> {
                &&& m@ == (MessageV {
                    id: m@.id,
                    channel: cid,
                    author,
                    content: content@,
                    thread: None,
                })
                &&& old(self)@.last_id < m@.id
                &&& final(self)@ =~~= (StateV {
                    last_id: m@.id,
                    messages: old(self)@.messages.push(m@),
                    ..old(self)@
                })
            },
    {
        match self.channel_get(cid) {
            None => {
                return Err(ApiError::NotFound);
            },
            Some(c) => {
                if !c.members.contains(author) {
                    return Err(ApiError::Unauthorized);
                }
            },
        }
        if self.last_id() == i64::MAX {
            return Err(ApiError::InternalError);
        }
        let mid = self.alloc_id(now_ms);
        let m = Message { id: mid, channel: cid, author, content: content.to_owned(), thread: None };
        let ret = copy_message(&m);
        self.msgs_push(m);
        proof {
            let prev = old(self)@;
            let cur = self@;
            assert(cur.wf()) by {
                assert forall|i: int, j: int|
                    0 <= i < j < cur.messages.len() implies cur.messages[i].id != cur.messages[
                    j
                ].id by {
                    if j == cur.messages.len() - 1 {
                        assert(cur.messages[i] == prev.messages[i]);
                        assert(0 < prev.messages[i].id <= prev.last_id);
                    }
                }
            }
        }
        Ok(ret)
    }

    /// A batch of the most recent messages in a channel, oldest first;
    /// visible to channel members only.
    pub fn get_channel_messages(&self, principal: i64, cid: i64, num_msgs: u64) -> (r: Result<
        Vec<Message>,
        ApiError,
    >)
        requires
            self@.wf(),
        ensures
            r is Ok <==> view_channel_err(self@, principal, cid) is None,
            r matches Err(e) ==> view_channel_err(self@, principal, cid) == Some(e),
            r matches Ok(v) ==> {
                let wanted = last_n(chan_msgs(self@.messages, cid), num_msgs as int);
                &&& v@.len() == wanted.len()
                &&& forall|i: int| 0 <= i < v@.len() ==> (#[trigger] v@[i])@ == wanted[i]
            },
    {
        match self.channel_get(cid) {
            None => {
                return Err(ApiError::NotFound);
            },
            Some(c) => {
                if !c.members.contains(principal) {
                    return Err(ApiError::NotFound);
                }
            },
        }
        let all = self.collect_chan_msgs(cid);
        Ok(suffix_msgs(all, num_msgs))
    }

    /// The messages of the channel, in log order, as copies.
    fn collect_chan_msgs(&self, cid: i64) -> (v: Vec<Message>)
        requires
            self@.wf(),
        ensures
            v@.len() == chan_msgs(self@.messages, cid).len(),
            forall|i: int|
                0 <= i < v@.len() ==> (#[trigger] v@[i])@ == chan_msgs(self@.messages, cid)[i],
    {
        let ghost mv = self@.messages;
        let mut v: Vec<Message> = Vec::new();
        let n = self.msg_count();
        proof {
            assert(mv.skip(0) =~= mv);
        }
        for i in 0..n
            invariant
                self@.wf(),
                n == mv.len(),
                mv == self@.messages,
                chan_msgs(mv, cid) == v@.map_values(|m: Message| m@) + chan_msgs(
                    mv.skip(i as int),
                    cid,
                ),
        {
            proof {
                assert(mv.skip(i as int).len() > 0);
                assert(mv.skip(i as int)[0] == mv[i as int]);
                assert(mv.skip(i as int).skip(1) =~= mv.skip(i as int + 1));
            }
            let ghost v0 = v@;
            let m = self.msg_at(i);
            if m.channel == cid {
                v.push(copy_message(m));
                proof {
                    assert(v@.map_values(|m2: Message| m2@) =~= v0.map_values(|m2: Message| m2@)
                        + seq![mv[i as int]]);
                    assert(v0.map_values(|m2: Message| m2@) + (seq![mv[i as int]] + chan_msgs(
                        mv.skip(i as int + 1),
                        cid,
                    )) =~= (v0.map_values(|m2: Message| m2@) + seq![mv[i as int]]) + chan_msgs(
                        mv.skip(i as int + 1),
                        cid,
                    ));
                }
            }
        }
        proof {
            assert(mv.skip(n as int) =~= Seq::<MessageV>::empty());
            let cm = chan_msgs(mv, cid);
            let vm = v@.map_values(|m: Message| m@);
            assert(cm =~= vm + Seq::<MessageV>::empty());
            assert(cm =~= vm);
        }
        v
    }

    /// A batch of the most recent messages in a channel whose content
    /// contains `term`, searching no further back than the last 100 channel
    /// messages; visible to channel members only. (`off` is accepted for
    /// interface compatibility and ignored.)
    pub fn search_channel(&self, principal: i64, cid: i64, term: &str, off: u64) -> (r: Result<
        Vec<Message>,
        ApiError,
    >)
        requires
            self@.wf(),
        ensures
            r is Ok <==> view_channel_err(self@, principal, cid) is None,
            r matches Err(e) ==> view_channel_err(self@, principal, cid) == Some(e),
            r matches Ok(v) ==> {
                let wanted = msgs_matching(last_n(chan_msgs(self@.messages, cid), 100), term@);
                &&& v@.len() == wanted.len()
                &&& forall|i: int| 0 <= i < v@.len() ==> (#[trigger] v@[i])@ == wanted[i]
            },
    {
        match self.channel_get(cid) {
            None => {
                return Err(ApiError::NotFound);
            },
            Some(c) => {
                if !c.members.contains(principal) {
                    return Err(ApiError::NotFound);
                }
            },
        }
        let all = self.collect_chan_msgs(cid);
        let recent = suffix_msgs(all, 100);
        let ghost base = last_n(chan_msgs(self@.messages, cid), 100);
        let tv = str_char_vec(term);
        let mut v: Vec<Message> = Vec::new();
        let n = recent.len();
        proof {
            assert(base.skip(0) =~= base);
        }
        for i in 0..n
            invariant
                n == recent@.len(),
                tv@ == term@,
                base.len() == recent@.len(),
                forall|j: int| 0 <= j < recent@.len() ==> (#[trigger] recent@[j])@ == base[j],
                msgs_matching(base, term@) == v@.map_values(|m: Message| m@) + msgs_matching(
                    base.skip(i as int),
                    term@,
                ),
        {
            proof {
                assert(base.skip(i as int).len() > 0);
                assert(base.skip(i as int)[0] == base[i as int]);
                assert(base.skip(i as int).skip(1) =~= base.skip(i as int + 1));
                assert(recent@[i as int]@ == base[i as int]);
            }
            let ghost v0 = v@;
            let cv = str_char_vec(recent[i].content.as_str());
            if contains_sub(&cv, &tv) {
                v.push(copy_message(&recent[i]));
                proof {
                    assert(v@.map_values(|m2: Message| m2@) =~= v0.map_values(|m2: Message| m2@)
                        + seq![base[i as int]]);
                    assert(v0.map_values(|m2: Message| m2@) + (seq![base[i as int]]
                        + msgs_matching(base.skip(i as int + 1), term@)) =~= (v0.map_values(
                        |m2: Message| m2@,
                    ) + seq![base[i as int]]) + msgs_matching(base.skip(i as int + 1), term@));
                }
            }
        }
        proof {
            assert(base.skip(n as int) =~= Seq::<MessageV>::empty());
            let wm = msgs_matching(base, term@);
            let vm = v@.map_values(|m: Message| m@);
            assert(wm =~= vm + Seq::<MessageV>::empty());
            assert(wm =~= vm);
        }
        Ok(v)
    }

    /// Attaches a thread to a message, or returns the existing one: a thread
    /// is a private channel in the message's group with the caller as its
    /// sole initial member. Attaching is idempotent — if the message already
    /// has a thread, that thread's channel is returned and nothing changes.
    /// Only the message's author or an admin of the parent group may thread.
    pub fn make_thread(&mut self, principal: i64, id: i64, name: &str, now_ms: u64) -> (r: Result<
        Channel,
        ApiError,
    >)
        requires
            old(self)@.wf(),
            now_ms < ID_TS_LIMIT,
        ensures
            final(self)@.wf(),
            r is Ok <==> make_thread_err(old(self)@, principal, id, name@) is None,
            r matches Err(e) ==> make_thread_err(old(self)@, principal, id, name@) == Some(e)
                && final(self)@ == old(self)@,
            r matches Ok(c) ==> {
                let m = msg_at_id(old(self)@.messages, id);
                if m.thread is Some {
                    final(self)@ == old(self)@ && c@ == old(self)@.channels[m.thread->0]
                } else {
                    let tid = c@.id;
                    let grp = old(self)@.channels[m.channel].group;
                    &&& c@ == (ChannelV {
                        id: tid,
                        group: grp,
                        name: name@,
                        members: seq![principal],
                        private: true,
                    })
                    &&& old(self)@.last_id < tid
                    &&& !old(self)@.has_channel(tid)
                    &&& final(self)@ =~~= (StateV {
                        last_id: tid,
                        channels: old(self)@.channels.insert(tid, c@),
                        groups: old(self)@.groups.insert(
                            grp,
                            GroupV {
                                channels: old(self)@.groups[grp].channels.push(tid),
                                ..old(self)@.groups[grp]
                            },
                        ),
                        messages: old(self)@.messages.update(
                            msg_index(old(self)@.messages, id),
                            MessageV { thread: Some(tid), ..m },
                        ),
                        ..old(self)@
                    })
                }
            },
    {
        let ghost prev = old(self)@;
        let chars = str_char_vec(name);
        if chars.len() == 0 {
            return Err(ApiError::BadRequest);
        }
        let idx = match self.msg_find(id) {
            None => {
                return Err(ApiError::NotFound);
            },
            Some(i) => i,
        };
        let mchannel: i64;
        let mauthor: i64;
        let mthread: Option<i64>;
        let mcontent: String;
        {
            let m = self.msg_at(idx);
            mchannel = m.channel;
            mauthor = m.author;
            mthread = m.thread;
            mcontent = m.content.clone();
        }
        proof {
            assert(self@.channels.dom().contains(self@.messages[idx as int].channel));
        }
        let grp: i64;
        match self.channel_get(mchannel) {
            None => {
                proof {
                    assert(false);
                }
                return Err(ApiError::InternalError);
            },
            Some(c) => {
                grp = c.group;
            },
        }
        match self.group_get(grp) {
            None => {
                proof {
                    assert(false);
                }
                return Err(ApiError::InternalError);
            },
            Some(g) => {
                if !(mauthor == principal || check(g, principal, Role::Admin)) {
                    return Err(ApiError::Unauthorized);
                }
            },
        }
        if let Some(t) = mthread {
            match self.channel_get(t) {
                None => {
                    return Err(ApiError::NotFound);
                },
                Some(c) => {
                    return Ok(copy_channel(c));
                },
            }
        }
        if self.last_id() == i64::MAX {
            return Err(ApiError::InternalError);
        }
        let tid = self.alloc_id(now_ms);
        let mut tmembers = IdSet::new();
        tmembers.insert(principal);
        let c = Channel { id: tid, group: grp, name: name.to_owned(), members: tmembers, private: true };
        let ret = copy_channel(&c);
        self.channel_put(tid, c);
        let g3: Group;
        match self.group_get(grp) {
            None => {
                proof {
                    assert(false);
                }
                return Err(ApiError::InternalError);
            },
            Some(g) => {
                let mut channels2 = g.channels.duplicate();
                channels2.insert(tid);
                g3 = Group {
                    id: grp,
                    name: g.name.clone(),
                    owner: g.owner,
                    admins: g.admins.duplicate(),
                    members: g.members.duplicate(),
                    channels: channels2,
                    is_dm: g.is_dm,
                };
            },
        }
        self.group_put(grp, g3);
        let ghost mid_state = self@;
        self.msg_update(
            idx,
            Message { id, channel: mchannel, author: mauthor, content: mcontent, thread: Some(tid) },
        );
        proof {
            let cur = self@;
            assert(!prev.has_channel(tid));
            assert(!prev.groups[grp].channels.contains(tid)) by {
                if prev.groups[grp].channels.contains(tid) {
                    assert(prev.has_channel(tid));
                }
            }
            assert(ret@.members =~= seq![principal]);
            assert(mid_state =~~= (StateV {
                last_id: tid,
                groups: prev.groups.insert(
                    grp,
                    GroupV { channels: prev.groups[grp].channels.push(tid), ..prev.groups[grp] },
                ),
                channels: prev.channels.insert(tid, ret@),
                ..prev
            }));
            assert(mid_state.wf()) by {
                crate::channels::lemma_fresh_channel_wf(prev, mid_state, grp, tid, ret@);
            }
            let m0 = prev.messages[idx as int];
            assert(cur =~~= (StateV {
                messages: mid_state.messages.update(
                    idx as int,
                    MessageV { thread: Some(tid), ..m0 },
                ),
                ..mid_state
            }));
            assert(cur.wf()) by {
                assert(cur.messages_wf()) by {
                    assert forall|i: int|
                        0 <= i < cur.messages.len() implies cur.channels.dom().contains(
                        (#[trigger] cur.messages[i]).channel,
                    ) by {
                        if i != idx as int {
                            assert(cur.messages[i] == mid_state.messages[i]);
                        }
                    }
                    assert forall|i: int, j: int|
                        0 <= i < j < cur.messages.len() implies cur.messages[i].id
                        != cur.messages[j].id by {
                        assert(cur.messages[i].id == mid_state.messages[i].id);
                        assert(cur.messages[j].id == mid_state.messages[j].id);
                    }
                }
                assert(cur.ids_wf()) by {
                    assert forall|i: int|
                        0 <= i < cur.messages.len() implies 0 < (#[trigger] cur.messages[i]).id
                        <= cur.last_id by {
                        assert(cur.messages[i].id == mid_state.messages[i].id);
                    }
                }
            }
        }
        Ok(ret)
    }

    /// Deletes a message; only its author or an admin of the parent group
    /// may. An attached thread channel persists independently.
    pub fn delete_message(&mut self, principal: i64, id: i64) -> (r: Result<(), ApiError>)
        requires
            old(self)@.wf(),
        ensures
            final(self)@.wf(),
            r is Ok <==> delete_message_err(old(self)@, principal, id) is None,
            r matches Err(e) ==> delete_message_err(old(self)@, principal, id) == Some(e)
                && final(self)@ == old(self)@,
            r is Ok ==> final(self)@ =~~= (StateV {
                messages: old(self)@.messages.remove(msg_index(old(self)@.messages, id)),
                ..old(self)@
            }),
    {
        let ghost prev = old(self)@;
        let idx = match self.msg_find(id) {
            None => {
                return Err(ApiError::NotFound);
            },
            Some(i) => i,
        };
        let mchannel: i64;
        let mauthor: i64;
        {
            let m = self.msg_at(idx);
            mchannel = m.channel;
            mauthor = m.author;
        }
        proof {
            assert(self@.channels.dom().contains(self@.messages[idx as int].channel));
        }
        let grp: i64;
        match self.channel_get(mchannel) {
            None => {
                proof {
                    assert(false);
                }
                return Err(ApiError::InternalError);
            },
            Some(c) => {
                grp = c.group;
            },
        }
        match self.group_get(grp) {
            None => {
                proof {
                    assert(false);
                }
                return Err(ApiError::InternalError);
            },
            Some(g) => {
                if !(mauthor == principal || check(g, principal, Role::Admin)) {
                    return Err(ApiError::Unauthorized);
                }
            },
        }
        self.msg_remove(idx);
        proof {
            let cur = self@;
            prev.messages.remove_ensures(idx as int);
            assert(cur.wf()) by {
                assert forall|i: int|
                    0 <= i < cur.messages.len() implies cur.channels.dom().contains(
                    (#[trigger] cur.messages[i]).channel,
                ) && 0 < cur.messages[i].id <= cur.last_id by {
                    if i < idx as int {
                        assert(cur.messages[i] == prev.messages[i]);
                    } else {
                        assert(cur.messages[i] == prev.messages[i + 1]);
                    }
                }
                assert forall|i: int, j: int|
                    0 <= i < j < cur.messages.len() implies cur.messages[i].id != cur.messages[
                    j
                ].id by {
                    let a = if i < idx as int { i } else { i + 1 };
                    let b = if j < idx as int { j } else { j + 1 };
                    assert(cur.messages[i] == prev.messages[a]);
                    assert(cur.messages[j] == prev.messages[b]);
                    assert(prev.messages[a].id != prev.messages[b].id);
                }
            }
        }
        Ok(())
    }

    /// Deletes a channel; admins of the parent group only. The channel leaves
    /// its group's channel list and its messages are purged.
    pub fn delete_channel(&mut self, principal: i64, id: i64) -> (r: Result<(), ApiError>)
        requires
            old(self)@.wf(),
        ensures
            final(self)@.wf(),
            r is Ok <==> delete_channel_err(old(self)@, principal, id) is None,
            r matches Err(e) ==> delete_channel_err(old(self)@, principal, id) == Some(e)
                && final(self)@ == old(self)@,
            r is Ok ==> {
                let grp = old(self)@.channels[id].group;
                &&& final(self)@.channels == old(self)@.channels.remove(id)
                &&& final(self)@.groups.dom() == old(self)@.groups.dom()
                &&& forall|g2: i64|
                    old(self)@.has_group(g2) && g2 != grp ==> final(self)@.groups[g2]
                        == #[trigger] old(self)@.groups[g2]
                &&& seq_stripped(
                    old(self)@.groups[grp].channels,
                    final(self)@.groups[grp].channels,
                    id,
                )
                &&& final(self)@.groups[grp] == (GroupV {
                    channels: final(self)@.groups[grp].channels,
                    ..old(self)@.groups[grp]
                })
                &&& final(self)@.messages == msgs_outside(old(self)@.messages, seq![id])
                &&& final(self)@.users == old(self)@.users
                &&& final(self)@.user_groups == old(self)@.user_groups
                &&& final(self)@.user_dms == old(self)@.user_dms
                &&& final(self)@.last_id == old(self)@.last_id
            },
    {
        let ghost prev = old(self)@;
        let grp: i64;
        match self.channel_get(id) {
            None => {
                return Err(ApiError::NotFound);
            },
            Some(c) => {
                grp = c.group;
            },
        }
        let g3: Group;
        match self.group_get(grp) {
            None => {
                proof {
                    assert(false);
                }
                return Err(ApiError::InternalError);
            },
            Some(g) => {
                if !check(g, principal, Role::Admin) {
                    return Err(ApiError::Unauthorized);
                }
                let mut channels2 = g.channels.duplicate();
                channels2.remove(id);
                g3 = Group {
                    id: grp,
                    name: g.name.clone(),
                    owner: g.owner,
                    admins: g.admins.duplicate(),
                    members: g.members.duplicate(),
                    channels: channels2,
                    is_dm: g.is_dm,
                };
            },
        }
        self.group_put(grp, g3);
        self.channel_del(id);
        let mut purged = IdSet::new();
        purged.insert(id);
        self.purge_channel_messages(&purged);
        proof {
            let cur = self@;
            assert(purged@ =~= seq![id]);
            assert(cur.groups.dom() =~= prev.groups.dom());
            assert(cur.channels =~= prev.channels.remove(id));
            lemma_msgs_outside_props(prev.messages, seq![id]);
            assert(cur.wf()) by {
                assert(cur.messages_wf()) by {
                    assert forall|i: int|
                        0 <= i < cur.messages.len() implies cur.channels.dom().contains(
                        (#[trigger] cur.messages[i]).channel,
                    ) by {
                        assert(prev.messages.contains(cur.messages[i]));
                        let j = choose|j: int|
                            0 <= j < prev.messages.len() && prev.messages[j] == cur.messages[i];
                        assert(prev.channels.dom().contains(prev.messages[j].channel));
                        assert(!seq![id].contains(cur.messages[i].channel));
                        assert(seq![id][0] == id);
                        assert(cur.messages[i].channel != id);
                    }
                }
                assert(cur.ids_wf()) by {
                    assert forall|i: int|
                        0 <= i < cur.messages.len() implies 0 < (#[trigger] cur.messages[i]).id
                        <= cur.last_id by {
                        assert(prev.messages.contains(cur.messages[i]));
                        let j = choose|j: int|
                            0 <= j < prev.messages.len() && prev.messages[j] == cur.messages[i];
                        assert(0 < prev.messages[j].id <= prev.last_id);
                    }
                }
                assert(cur.channels_wf()) by {
                    assert forall|c2: i64| #[trigger] cur.channels.dom().contains(c2) implies {
                        &&& cur.groups.dom().contains(cur.channels[c2].group)
                        &&& cur.groups[cur.channels[c2].group].channels.contains(c2)
                    } by {
                        assert(prev.channels.dom().contains(c2));
                        assert(cur.channels[c2] == prev.channels[c2]);
                        assert(prev.groups[prev.channels[c2].group].channels.contains(c2));
                        if prev.channels[c2].group == grp {
                            assert(cur.groups[grp].channels.contains(c2));
                        }
                    }
                    assert forall|g2: i64, c2: i64|
                        cur.groups.dom().contains(g2) && #[trigger] cur.groups[
                            g2
                        ].channels.contains(c2) implies cur.channels.dom().contains(c2)
                        && cur.channels[c2].group == g2 by {
                        if g2 == grp {
                            assert(prev.groups[grp].channels.contains(c2));
                            assert(c2 != id);
                        } else {
                            assert(prev.groups[g2].channels.contains(c2));
                            assert(c2 != id) by {
                                if c2 == id {
                                    assert(prev.channels[id].group == g2);
                                }
                            }
                        }
                    }
                }
                assert(cur.groups_wf());
                assert(cur.members_in_users());
                assert(cur.keys_wf());
                assert(cur.channel_sets_wf());
                assert(cur.indices_wf());
            }
        }
        Ok(())
    }

    /// Drops every message that sits in one of the given channels.
    pub(crate) fn purge_channel_messages(&mut self, chans: &IdSet)
        ensures
            final(self)@ =~~= (StateV {
                messages: msgs_outside(old(self)@.messages, chans@),
                ..old(self)@
            }),
    {
        let ghost mv = self@.messages;
        let mut kept: Vec<Message> = Vec::new();
        let n = self.msg_count();
        proof {
            assert(mv.skip(0) =~= mv);
        }
        for i in 0..n
            invariant
                n == mv.len(),
                mv == self@.messages,
                self@ == old(self)@,
                msgs_outside(mv, chans@) == kept@.map_values(|m: Message| m@) + msgs_outside(
                    mv.skip(i as int),
                    chans@,
                ),
        {
            proof {
                assert(mv.skip(i as int).len() > 0);
                assert(mv.skip(i as int)[0] == mv[i as int]);
                assert(mv.skip(i as int).skip(1) =~= mv.skip(i as int + 1));
            }
            let ghost k0 = kept@;
            let m = self.msg_at(i);
            if !chans.contains(m.channel) {
                kept.push(copy_message(m));
                proof {
                    assert(kept@.map_values(|m2: Message| m2@) =~= k0.map_values(
                        |m2: Message| m2@,
                    ) + seq![mv[i as int]]);
                    assert(k0.map_values(|m2: Message| m2@) + (seq![mv[i as int]] + msgs_outside(
                        mv.skip(i as int + 1),
                        chans@,
                    )) =~= (k0.map_values(|m2: Message| m2@) + seq![mv[i as int]]) + msgs_outside(
                        mv.skip(i as int + 1),
                        chans@,
                    ));
                }
            }
        }
        proof {
            assert(mv.skip(n as int) =~= Seq::<MessageV>::empty());
            let om = msgs_outside(mv, chans@);
            let km = kept@.map_values(|m: Message| m@);
            assert(om =~= km + Seq::<MessageV>::empty());
            assert(om =~= km);
        }
        self.msgs_replace(kept);
    }
}

/// The last `n` messages of `v`, as copies.
fn suffix_msgs(v: Vec<Message>, n: u64) -> (r: Vec<Message>)
    ensures
        r@.len() == last_n(v@.map_values(|m: Message| m@), n as int).len(),
        forall|i: int|
            0 <= i < r@.len() ==> (#[trigger] r@[i])@ == last_n(
                v@.map_values(|m: Message| m@),
                n as int,
            )[i],
{
    let len = v.len();
    let start: usize = if n >= len as u64 {
        0
    } else {
        len - (n as usize)
    };
    let mut r: Vec<Message> = Vec::new();
    for i in start..len
        invariant
            start <= len,
            len == v@.len(),
            r@.len() == i - start,
            forall|j: int| 0 <= j < r@.len() ==> (#[trigger] r@[j])@ == v@[start + j]@,
    {
        r.push(copy_message(&v[i]));
    }
    proof {
        let full = v@.map_values(|m: Message| m@);
        let wanted = last_n(full, n as int);
        if n as int >= full.len() {
            assert(start == 0);
            assert(wanted == full);
        } else {
            assert(wanted =~= full.skip(start as int));
        }
        assert forall|i: int| 0 <= i < r@.len() implies (#[trigger] r@[i])@ == wanted[i] by {
            assert(r@[i]@ == v@[start + i]@);
            assert(wanted[i] == full[start + i]);
            assert(full[start + i] == v@[start + i]@);
        }
    }
    r
}

} // verus!
