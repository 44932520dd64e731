use scuttlebutt::ids::IdGenerator;
use scuttlebutt::model::ApiError;
use scuttlebutt::policy::{check, Role};
use scuttlebutt::state::ChatState;
use scuttlebutt::token::{Claims, TokenService, DEFAULT_TTL_MS};

const NOW: u64 = 1_700_000_000_000 - 1_420_070_400_000;
const HASH_A: &str = "aaaaaaaaaaaaaaaaaaaaaaaaaaaaaaaaaaaaaaaaaaaaaaaaaaaaaaaaaaaaaaaa";
const HASH_B: &str = "0123456789abcdef0123456789abcdef0123456789abcdef0123456789abcdef";

fn fresh() -> ChatState {
    ChatState::new()
}

fn user(s: &mut ChatState, name: &str) -> i64 {
    s.make_user(name, "user@example.com", HASH_A, NOW).unwrap().id
}

#[test]
fn unique_ids_many_calls() {
    let mut gen = IdGenerator::new();
    let mut seen = std::collections::HashSet::new();
    let mut last = 0i64;
    for k in 0..4000u64 {
        // A clock that stalls, jumps back and leaps forward.
        let now = match k % 4 {
            0 => 7,
            1 => 7,
            2 => 3,
            _ => 9 + k,
        };
        let id = gen.next_id(now);
        assert!(id > last, "ids must be strictly increasing");
        last = id;
        assert!(seen.insert(id), "ids must never repeat");
    }
    assert_eq!(seen.len(), 4000);
}

#[test]
fn token_round_trip() {
    let svc = TokenService::new(b"sekrit".to_vec());
    let token = svc.issue(42, 1000, DEFAULT_TTL_MS);
    let claims = svc.verify(&token, 1000).expect("fresh token must verify");
    assert_eq!(claims, Claims { id: 42, exp: 1000 + DEFAULT_TTL_MS });
    // Still valid just before the expiry, gone just after.
    assert!(svc.verify(&token, 1000 + DEFAULT_TTL_MS).is_some());
    assert!(svc.verify(&token, 1000 + DEFAULT_TTL_MS + 1).is_none());
}

#[test]
fn token_rejects_bit_flips() {
    let svc = TokenService::new(b"sekrit".to_vec());
    let token = svc.issue(7, 500, DEFAULT_TTL_MS);
    let bytes = token.as_bytes();
    for i in 0..bytes.len() {
        let mut mutated = bytes.to_vec();
        mutated[i] ^= 1;
        let flipped = String::from_utf8(mutated).unwrap();
        assert!(
            svc.verify(&flipped, 500).is_none(),
            "a flipped token must not verify"
        );
    }
}

#[test]
fn token_requires_canonical_form() {
    let svc = TokenService::new(b"sekrit".to_vec());
    let token = svc.issue(7, 500, DEFAULT_TTL_MS);
    // Stripping the base64 padding leaves a string the decoder alone would
    // still accept; verification must reject the non-canonical form.
    let stripped: String = token.chars().filter(|c| *c != '=').collect();
    assert_ne!(stripped, token, "an issued token carries padding");
    assert!(svc.verify(&stripped, 500).is_none());
}

#[test]
fn token_rejects_wrong_key() {
    let svc = TokenService::new(b"sekrit".to_vec());
    let other = TokenService::new(b"other".to_vec());
    let token = svc.issue(7, 500, DEFAULT_TTL_MS);
    assert!(other.verify(&token, 500).is_none());
}

#[test]
fn login_scenarios() {
    let mut s = fresh();
    let svc = TokenService::new(b"key".to_vec());
    let uid = user(&mut s, "alice");
    // 63-character hash: malformed.
    let short = &HASH_A[..63];
    assert_eq!(s.login(&svc, uid, short, 1000).unwrap_err(), ApiError::BadRequest);
    // Unknown user: not found.
    assert_eq!(s.login(&svc, uid + 1, HASH_A, 1000).unwrap_err(), ApiError::NotFound);
    // Wrong hash: unauthorized.
    assert_eq!(s.login(&svc, uid, HASH_B, 1000).unwrap_err(), ApiError::Unauthorized);
    // Correct hash: a verifiable token.
    let token = s.login(&svc, uid, HASH_A, 1000).expect("login must succeed");
    let claims = svc.verify(&token, 1000).expect("login token must verify");
    assert_eq!(claims.id, uid);
}

#[test]
fn login_hash_comparison_is_case_insensitive() {
    let mut s = fresh();
    let svc = TokenService::new(b"key".to_vec());
    let uid = s
        .make_user("carol", "c@example.com", "ABCDEF0123456789ABCDEF0123456789ABCDEF0123456789ABCDEF0123456789", NOW)
        .unwrap()
        .id;
    // The stored hash is upper-case; the presented one lower-case. They
    // decode to the same bytes, so login succeeds.
    let lower = "abcdef0123456789abcdef0123456789abcdef0123456789abcdef0123456789";
    assert!(s.login(&svc, uid, lower, 1000).is_ok());
}

#[test]
fn make_user_cleans_name() {
    let mut s = fresh();
    let u = s
        .make_user("al\u{200B}ice\u{202e}", "a@example.com", HASH_A, NOW)
        .unwrap();
    assert_eq!(u.username, "alice");
    assert_eq!(s.make_user("bob", "b@e.com", "xyz", NOW).unwrap_err(), ApiError::BadRequest);
    assert_eq!(s.make_user("bob", "b@e.com", &"g".repeat(64), NOW).unwrap_err(), ApiError::BadRequest,
        "a 64-character non-hex hash is malformed");
}

#[test]
fn create_group_scenario() {
    let mut s = fresh();
    let a1 = user(&mut s, "a");
    let g = s.make_group(a1, "eng", NOW).expect("create group");
    assert_eq!(g.owner, a1);
    assert_eq!(g.members.to_vec(), vec![a1]);
    assert_eq!(g.admins.to_vec(), vec![a1]);
    assert!(!g.is_dm);
    assert_eq!(g.name, "eng");
    let chans = g.channels.to_vec();
    assert_eq!(chans.len(), 1);
    let main = s.get_channel(a1, chans[0]).expect("main channel");
    assert_eq!(main.name, "main");
    assert!(!main.private);
    assert_eq!(main.members.to_vec(), vec![a1]);
    assert_eq!(main.group, g.id);
    // The group appears in the creator's index.
    let groups = s.get_groups(a1).unwrap();
    assert_eq!(groups.len(), 1);
    assert_eq!(groups[0].id, g.id);
    // Empty names are malformed.
    assert_eq!(s.make_group(a1, "", NOW).unwrap_err(), ApiError::BadRequest);
}

#[test]
fn add_member_scenario() {
    let mut s = fresh();
    let a = user(&mut s, "a");
    let b = user(&mut s, "b");
    let g = s.make_group(a, "eng", NOW).unwrap();
    let main = g.channels.to_vec()[0];
    s.add_group_member(a, g.id, b).expect("admin adds member");
    let got = s.get_group(b, g.id).expect("b sees the group now");
    assert!(got.members.contains(b));
    let main_now = s.get_channel(b, main).expect("b joined the public main channel");
    assert!(main_now.members.contains(b));
    let bs_groups = s.get_groups(b).unwrap();
    assert!(bs_groups.iter().any(|gr| gr.id == g.id));
    // A non-admin may not add members.
    let c = user(&mut s, "c");
    assert_eq!(s.add_group_member(b, g.id, c).unwrap_err(), ApiError::Unauthorized);
}

#[test]
fn remove_member_scenario_and_idempotence() {
    let mut s = fresh();
    let a = user(&mut s, "a");
    let b = user(&mut s, "b");
    let g = s.make_group(a, "eng", NOW).unwrap();
    let main = g.channels.to_vec()[0];
    s.add_group_member(a, g.id, b).unwrap();
    s.remove_group_member(a, g.id, b).expect("admin removes member");
    assert_eq!(s.get_group(b, g.id).unwrap_err(), ApiError::NotFound, "b no longer sees the group");
    let got = s.get_group(a, g.id).unwrap();
    assert!(!got.members.contains(b));
    let main_now = s.get_channel(a, main).unwrap();
    assert!(!main_now.members.contains(b));
    assert!(s.get_groups(b).unwrap().is_empty());
    // Removing again is a no-op, not an error.
    s.remove_group_member(a, g.id, b).expect("second removal must succeed");
    let again = s.get_group(a, g.id).unwrap();
    assert_eq!(again.members.to_vec(), got.members.to_vec());
}

#[test]
fn owner_cannot_be_removed_or_leave() {
    let mut s = fresh();
    let a = user(&mut s, "a");
    let b = user(&mut s, "b");
    let g = s.make_group(a, "eng", NOW).unwrap();
    s.add_group_member(a, g.id, b).unwrap();
    s.add_group_admin(a, g.id, b).unwrap();
    // Even an admin (and even the owner) cannot remove the owner.
    assert_eq!(s.remove_group_member(b, g.id, a).unwrap_err(), ApiError::Unauthorized);
    assert_eq!(s.remove_group_member(a, g.id, a).unwrap_err(), ApiError::Unauthorized);
    assert_eq!(s.leave_group(a, g.id).unwrap_err(), ApiError::Unauthorized);
    let got = s.get_group(a, g.id).unwrap();
    assert!(got.members.contains(a), "owner stays a member");
}

#[test]
fn role_monotonicity_scenario() {
    let mut s = fresh();
    let a = user(&mut s, "a");
    let b = user(&mut s, "b");
    let g = s.make_group(a, "eng", NOW).unwrap();
    s.add_group_member(a, g.id, b).unwrap();
    let got = s.get_group(a, g.id).unwrap();
    // Owner passes every check.
    assert!(check(&got, a, Role::Owner));
    assert!(check(&got, a, Role::Admin));
    assert!(check(&got, a, Role::Member));
    // A plain member passes only the member check.
    assert!(!check(&got, b, Role::Owner));
    assert!(!check(&got, b, Role::Admin));
    assert!(check(&got, b, Role::Member));
}

#[test]
fn admin_overlay() {
    let mut s = fresh();
    let a = user(&mut s, "a");
    let b = user(&mut s, "b");
    let c = user(&mut s, "c");
    let g = s.make_group(a, "eng", NOW).unwrap();
    // Admin requires membership.
    assert_eq!(s.add_group_admin(a, g.id, c).unwrap_err(), ApiError::NotFound);
    s.add_group_member(a, g.id, b).unwrap();
    // Only the owner grants admin.
    assert_eq!(s.add_group_admin(b, g.id, b).unwrap_err(), ApiError::Unauthorized);
    s.add_group_admin(a, g.id, b).unwrap();
    let got = s.get_group(a, g.id).unwrap();
    assert!(check(&got, b, Role::Admin));
    // Removing membership drops the admin overlay.
    s.remove_group_member(a, g.id, b).unwrap();
    let got = s.get_group(a, g.id).unwrap();
    assert!(!got.admins.contains(b));
}

#[test]
fn delete_group_scenario() {
    let mut s = fresh();
    let a = user(&mut s, "a");
    let b = user(&mut s, "b");
    let g = s.make_group(a, "eng", NOW).unwrap();
    let main = g.channels.to_vec()[0];
    s.add_group_member(a, g.id, b).unwrap();
    // A non-owner may not delete the group.
    assert_eq!(s.delete_group(b, g.id).unwrap_err(), ApiError::Unauthorized);
    s.delete_group(a, g.id).expect("owner deletes the group");
    assert_eq!(s.get_group(a, g.id).unwrap_err(), ApiError::NotFound);
    assert_eq!(s.get_channel(a, main).unwrap_err(), ApiError::NotFound);
    assert!(s.get_groups(a).unwrap().is_empty());
    assert!(s.get_groups(b).unwrap().is_empty());
}

#[test]
fn dm_scenarios() {
    let mut s = fresh();
    let a = user(&mut s, "a");
    let b = user(&mut s, "b");
    assert_eq!(s.make_dm(a, a, NOW).unwrap_err(), ApiError::BadRequest, "no DM with oneself");
    let dm = s.make_dm(a, b, NOW).expect("create dm");
    assert!(dm.is_dm);
    assert_eq!(dm.members.to_vec(), vec![a, b]);
    assert!(dm.admins.to_vec().is_empty());
    assert!(s.get_dms(a).unwrap().iter().any(|g| g.id == dm.id));
    assert!(s.get_dms(b).unwrap().iter().any(|g| g.id == dm.id));
    // Nobody holds a privileged role over a DM.
    assert_eq!(s.delete_group(a, dm.id).unwrap_err(), ApiError::Unauthorized);
    assert_eq!(s.update_group(a, dm.id, "renamed").unwrap_err(), ApiError::Unauthorized);
    let c = user(&mut s, "c");
    assert_eq!(s.add_group_member(a, dm.id, c).unwrap_err(), ApiError::Unauthorized);
}

#[test]
fn delete_user_cascade() {
    let mut s = fresh();
    let a = user(&mut s, "a");
    let b = user(&mut s, "b");
    let g = s.make_group(a, "eng", NOW).unwrap();
    let main = g.channels.to_vec()[0];
    s.add_group_member(a, g.id, b).unwrap();
    s.delete_user(b).expect("b deletes its account");
    assert_eq!(s.get_user(b).unwrap_err(), ApiError::NotFound);
    let got = s.get_group(a, g.id).unwrap();
    assert!(!got.members.contains(b));
    let main_now = s.get_channel(a, main).unwrap();
    assert!(!main_now.members.contains(b));
    // Deleting again reports not found.
    assert_eq!(s.delete_user(b).unwrap_err(), ApiError::NotFound);
}

#[test]
fn channel_lifecycle() {
    let mut s = fresh();
    let a = user(&mut s, "a");
    let b = user(&mut s, "b");
    let g = s.make_group(a, "eng", NOW).unwrap();
    s.add_group_member(a, g.id, b).unwrap();
    let c = s.make_channel(a, g.id, "random", NOW).expect("admin creates channel");
    assert_eq!(c.name, "random");
    assert!(!c.private);
    assert_eq!(c.members.to_vec(), vec![a]);
    // A non-admin may not create, rename or privatize.
    assert_eq!(s.make_channel(b, g.id, "nope", NOW).unwrap_err(), ApiError::Unauthorized);
    assert_eq!(s.update_channel(b, c.id, "x").unwrap_err(), ApiError::Unauthorized);
    assert_eq!(s.make_channel_private(b, c.id, true).unwrap_err(), ApiError::Unauthorized);
    s.update_channel(a, c.id, "general").unwrap();
    s.make_channel_private(a, c.id, true).unwrap();
    let got = s.get_channel(a, c.id).unwrap();
    assert_eq!(got.name, "general");
    assert!(got.private);
    // Channel membership.
    s.add_channel_member(a, c.id, b).unwrap();
    assert!(s.get_channel(b, c.id).is_ok());
    // The roster is a management view: a plain member may not read it.
    assert_eq!(s.get_channel_members(b, c.id).unwrap_err(), ApiError::Unauthorized);
    let members = s.get_channel_members(a, c.id).unwrap();
    let ids: Vec<i64> = members.iter().map(|u| u.id).collect();
    assert_eq!(ids, vec![a, b]);
    s.remove_channel_member(a, c.id, b).unwrap();
    assert_eq!(s.get_channel(b, c.id).unwrap_err(), ApiError::NotFound);
    // get_channels lists only channels the caller can see.
    let visible_b = s.get_channels(b, g.id).unwrap();
    assert_eq!(visible_b.len(), 1, "b sees only the public main channel");
    let visible_a = s.get_channels(a, g.id).unwrap();
    assert_eq!(visible_a.len(), 2);
    // Deletion.
    assert_eq!(s.delete_channel(b, c.id).unwrap_err(), ApiError::Unauthorized);
    s.delete_channel(a, c.id).unwrap();
    assert_eq!(s.get_channel(a, c.id).unwrap_err(), ApiError::NotFound);
}

#[test]
fn messages_and_search() {
    let mut s = fresh();
    let a = user(&mut s, "a");
    let g = s.make_group(a, "eng", NOW).unwrap();
    let main = g.channels.to_vec()[0];
    let m1 = s.add_message(a, main, "hello world", NOW).unwrap();
    let _m2 = s.add_message(a, main, "quarterly report", NOW).unwrap();
    let m3 = s.add_message(a, main, "hello again", NOW).unwrap();
    // An outsider cannot post.
    let b = user(&mut s, "b");
    assert_eq!(s.add_message(b, main, "hi", NOW).unwrap_err(), ApiError::Unauthorized);
    // Listing returns the most recent batch, oldest first.
    let last_two = s.get_channel_messages(a, main, 2).unwrap();
    assert_eq!(last_two.len(), 2);
    assert_eq!(last_two[0].content, "quarterly report");
    assert_eq!(last_two[1].content, "hello again");
    // Membership is required for listing and searching.
    assert_eq!(s.get_channel_messages(b, main, 2).unwrap_err(), ApiError::NotFound);
    assert_eq!(s.search_channel(b, main, "hello", 0).unwrap_err(), ApiError::NotFound);
    let hits = s.search_channel(a, main, "hello", 0).unwrap();
    assert_eq!(hits.len(), 2);
    assert_eq!(hits[0].id, m1.id);
    assert_eq!(hits[1].id, m3.id);
    // Deletion: only the author or an admin.
    s.add_group_member(a, g.id, b).unwrap();
    assert_eq!(s.delete_message(b, m1.id).unwrap_err(), ApiError::Unauthorized);
    s.delete_message(a, m1.id).unwrap();
    assert_eq!(s.delete_message(a, m1.id).unwrap_err(), ApiError::NotFound);
    assert_eq!(s.search_channel(a, main, "hello", 0).unwrap().len(), 1);
}

#[test]
fn thread_attachment_is_idempotent() {
    let mut s = fresh();
    let a = user(&mut s, "a");
    let g = s.make_group(a, "eng", NOW).unwrap();
    let main = g.channels.to_vec()[0];
    let m = s.add_message(a, main, "discuss", NOW).unwrap();
    let t1 = s.make_thread(a, m.id, "side talk", NOW).expect("create thread");
    assert!(t1.private);
    assert_eq!(t1.group, g.id);
    assert_eq!(t1.members.to_vec(), vec![a]);
    // A second attempt returns the existing thread and changes nothing.
    let t2 = s.make_thread(a, m.id, "other name", NOW).expect("idempotent re-attach");
    assert_eq!(t2.id, t1.id);
    assert_eq!(t2.name, "side talk");
    // An unrelated user may not thread someone else's message.
    let b = user(&mut s, "b");
    assert_eq!(s.make_thread(b, m.id, "nope", NOW).unwrap_err(), ApiError::Unauthorized);
    // Deleting the message leaves the thread channel in place.
    s.delete_message(a, m.id).unwrap();
    assert!(s.get_channel(a, t1.id).is_ok());
}

#[test]
fn update_user_and_group() {
    let mut s = fresh();
    let a = user(&mut s, "a");
    s.update_user(a, "anna", "anna@example.com").unwrap();
    let u = s.get_user(a).unwrap();
    assert_eq!(u.username, "anna");
    assert_eq!(u.email, "anna@example.com");
    let g = s.make_group(a, "eng", NOW).unwrap();
    let b = user(&mut s, "b");
    s.add_group_member(a, g.id, b).unwrap();
    assert_eq!(s.update_group(b, g.id, "dev").unwrap_err(), ApiError::Unauthorized);
    assert_eq!(s.update_group(a, g.id, "").unwrap_err(), ApiError::BadRequest);
    s.update_group(a, g.id, "dev").unwrap();
    assert_eq!(s.get_group(a, g.id).unwrap().name, "dev");
}

#[test]
fn group_views_require_membership() {
    let mut s = fresh();
    let a = user(&mut s, "a");
    let outsider = user(&mut s, "x");
    let g = s.make_group(a, "eng", NOW).unwrap();
    assert_eq!(s.get_group(outsider, g.id).unwrap_err(), ApiError::NotFound);
    assert!(s.get_group_members(outsider, g.id).is_err());
    assert!(s.get_group_admin(outsider, g.id).is_err());
    let members = s.get_group_members(a, g.id).unwrap();
    assert_eq!(members.len(), 1);
    assert_eq!(members[0].id, a);
    let admins = s.get_group_admin(a, g.id).unwrap();
    assert_eq!(admins.len(), 1);
    assert_eq!(admins[0].id, a);
}
