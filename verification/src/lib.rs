//! Identity, token and membership-graph core for a chat control plane.
//!
//! The crate manages users, groups, channels, threads and message metadata,
//! and gates every mutation behind a role check tied to group
//! ownership/admin/member roles. Real-time delivery is out of scope; this
//! core only manages metadata and permissions.

pub mod channels;
pub mod groups;
pub mod hexstr;
pub mod ids;
pub mod idset;
pub mod messages;
pub mod model;
pub mod policy;
pub mod state;
pub mod strings;
pub mod token;
