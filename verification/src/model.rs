//! The entity model: users, groups, channels and messages, with their
//! spec-level views.

use vstd::prelude::*;
use crate::idset::IdSet;

verus! {

/// A user account as stored: profile plus login credential. The password
/// hash is a 64-character hex string; this core never sees a raw password,
/// and no view ever returns the stored hash — see [`User`].
#[derive(Debug)]
pub struct Account {
    pub id: i64,
    pub username: String,
    pub email: String,
    pub hash: String,
}

/// Spec-level view of a stored account.
#[verifier::ext_equal]
pub ghost struct AccountV {
    pub id: i64,
    pub username: Seq<char>,
    pub email: Seq<char>,
    pub hash: Seq<char>,
}

impl View for Account {
    type V = AccountV;

    open spec fn view(&self) -> AccountV {
        AccountV { id: self.id, username: self.username@, email: self.email@, hash: self.hash@ }
    }
}

/// The user record the views hand out: id, username and email only. The
/// stored password hash never leaves the store, since it is the login
/// credential itself.
#[derive(Debug)]
pub struct User {
    pub id: i64,
    pub username: String,
    pub email: String,
}

/// Spec-level view of a user record.
#[verifier::ext_equal]
pub ghost struct UserV {
    pub id: i64,
    pub username: Seq<char>,
    pub email: Seq<char>,
}

impl View for User {
    type V = UserV;

    open spec fn view(&self) -> UserV {
        UserV { id: self.id, username: self.username@, email: self.email@ }
    }
}

/// The hash-free user record an account stands for.
pub open spec fn user_of(a: AccountV) -> UserV {
    UserV { id: a.id, username: a.username, email: a.email }
}

/// A group: one owner, admin and member sets, an ordered list of channels.
/// A DM is a group with `is_dm` set; it carries an owner structurally, but no
/// principal holds a privileged role over it.
#[derive(Debug)]
pub struct Group {
    pub id: i64,
    pub name: String,
    pub owner: i64,
    pub admins: IdSet,
    pub members: IdSet,
    pub channels: IdSet,
    pub is_dm: bool,
}

/// Spec-level view of a group.
#[verifier::ext_equal]
pub ghost struct GroupV {
    pub id: i64,
    pub name: Seq<char>,
    pub owner: i64,
    pub admins: Seq<i64>,
    pub members: Seq<i64>,
    pub channels: Seq<i64>,
    pub is_dm: bool,
}

impl View for Group {
    type V = GroupV;

    open spec fn view(&self) -> GroupV {
        GroupV {
            id: self.id,
            name: self.name@,
            owner: self.owner,
            admins: self.admins@,
            members: self.members@,
            channels: self.channels@,
            is_dm: self.is_dm,
        }
    }
}

/// A channel inside a group. A thread is structurally a private channel.
#[derive(Debug)]
pub struct Channel {
    pub id: i64,
    pub group: i64,
    pub name: String,
    pub members: IdSet,
    pub private: bool,
}

/// Spec-level view of a channel.
#[verifier::ext_equal]
pub ghost struct ChannelV {
    pub id: i64,
    pub group: i64,
    pub name: Seq<char>,
    pub members: Seq<i64>,
    pub private: bool,
}

impl View for Channel {
    type V = ChannelV;

    open spec fn view(&self) -> ChannelV {
        ChannelV {
            id: self.id,
            group: self.group,
            name: self.name@,
            members: self.members@,
            private: self.private,
        }
    }
}

/// Message metadata: author, channel, content, and at most one attached
/// thread.
#[derive(Debug)]
pub struct Message {
    pub id: i64,
    pub channel: i64,
    pub author: i64,
    pub content: String,
    pub thread: Option<i64>,
}

/// Spec-level view of a message.
#[verifier::ext_equal]
pub ghost struct MessageV {
    pub id: i64,
    pub channel: i64,
    pub author: i64,
    pub content: Seq<char>,
    pub thread: Option<i64>,
}

impl View for Message {
    type V = MessageV;

    open spec fn view(&self) -> MessageV {
        MessageV {
            id: self.id,
            channel: self.channel,
            author: self.author,
            content: self.content@,
            thread: self.thread,
        }
    }
}

/// The error taxonomy every operation reports failures through. `BadRequest`
/// is malformed input; `NotFound` covers both a missing entity and a resource
/// the principal may not see (so membership is not leaked); `Unauthorized` is
/// an authenticated but under-privileged principal, or a missing, invalid or
/// expired token; `InternalError` is a failure of the underlying resources
/// (such as id-space exhaustion), never surfaced as a crash.
#[derive(Clone, Copy, PartialEq, Eq, Structural, Debug)]
pub enum ApiError {
    BadRequest,
    NotFound,
    Unauthorized,
    InternalError,
}

/// The view of a map of entities: same keys, each value replaced by its view.
pub open spec fn map_view<T: View>(m: Map<i64, T>) -> Map<i64, T::V> {
    Map::new(|k: i64| m.dom().contains(k), |k: i64| m[k]@)
}

/// The view of a sequence of messages.
pub open spec fn msgs_view(s: Seq<Message>) -> Seq<MessageV> {
    s.map_values(|m: Message| m@)
}

/// The hash-free user record of a stored account.
pub fn account_user(a: &Account) -> (r: User)
    ensures
        r@ == user_of(a@),
{
    User { id: a.id, username: a.username.clone(), email: a.email.clone() }
}

/// A copy of a group record.
pub fn copy_group(g: &Group) -> (r: Group)
    ensures
        r@ == g@,
{
    Group {
        id: g.id,
        name: g.name.clone(),
        owner: g.owner,
        admins: g.admins.duplicate(),
        members: g.members.duplicate(),
        channels: g.channels.duplicate(),
        is_dm: g.is_dm,
    }
}

/// A copy of a channel record.
pub fn copy_channel(c: &Channel) -> (r: Channel)
    ensures
        r@ == c@,
{
    Channel {
        id: c.id,
        group: c.group,
        name: c.name.clone(),
        members: c.members.duplicate(),
        private: c.private,
    }
}

/// A copy of a message record.
pub fn copy_message(m: &Message) -> (r: Message)
    ensures
        r@ == m@,
{
    Message {
        id: m.id,
        channel: m.channel,
        author: m.author,
        content: m.content.clone(),
        thread: m.thread,
    }
}

} // verus!
