//! Bearer-token issuance and verification.
//!
//! A token binds a principal id and an expiry into a compact signed form:
//! `base64(claims-bytes) "." base64(hmac-sha256(secret, claims-bytes))`.
//! Claims are 16 bytes: the id and the expiry (milliseconds), each as eight
//! little-endian bytes. Possession of a validly signed, unexpired token is
//! proof of principal identity; there is no revocation, so a token stays
//! valid until it expires. Verification collapses every failure (parse,
//! signature, expiry) into a single "no claims" outcome so that callers
//! cannot distinguish the reasons.

use vstd::prelude::*;
use vstd::string::StringExecFns;
use hmac::Mac;
use crate::strings::{chars_eq, str_char_vec};
use crate::hexstr::bytes_eq;

verus! {

/// The signed payload of a bearer token: principal id and expiry
/// (milliseconds since the epoch). Not persisted; lives only for a token's
/// lifetime.
#[derive(Clone, Copy, PartialEq, Eq, Structural, Debug)]
pub struct Claims {
    pub id: i64,
    pub exp: i64,
}

/// Default token lifetime: one day, in milliseconds.
pub const DEFAULT_TTL_MS: i64 = 86400000;

/// What `base64::encode` returns for the given bytes.
pub uninterp spec fn b64_of(bytes: Seq<u8>) -> Seq<char>;

/// What HMAC-SHA256 returns for the given key and message.
pub uninterp spec fn hmac_sha256_of(key: Seq<u8>, msg: Seq<u8>) -> Seq<u8>;

/// Whether `s` contains no `'.'` — the separator between a token's payload
/// and signature segments, never produced by base64.
pub open spec fn dotless(s: Seq<char>) -> bool {
    forall|i: int| 0 <= i < s.len() ==> s[i] != '.'
}

/// The eight little-endian bytes of `u`.
pub open spec fn u64_bytes(u: u64) -> Seq<u8> {
    seq![
        (u & 0xff) as u8,
        ((u >> 8) & 0xff) as u8,
        ((u >> 16) & 0xff) as u8,
        ((u >> 24) & 0xff) as u8,
        ((u >> 32) & 0xff) as u8,
        ((u >> 40) & 0xff) as u8,
        ((u >> 48) & 0xff) as u8,
        ((u >> 56) & 0xff) as u8,
    ]
}

/// The value of eight little-endian bytes.
pub open spec fn u64_of_bytes(b: Seq<u8>) -> u64
    recommends
        b.len() == 8,
{
    (b[0] as u64) | ((b[1] as u64) << 8) | ((b[2] as u64) << 16) | ((b[3] as u64) << 24) | ((
    b[4] as u64) << 32) | ((b[5] as u64) << 40) | ((b[6] as u64) << 48) | ((b[7] as u64) << 56)
}

/// The 16-byte serialization of a claims value.
pub open spec fn claims_bytes(c: Claims) -> Seq<u8> {
    u64_bytes(c.id as u64) + u64_bytes(c.exp as u64)
}

/// The claims a 16-byte payload stands for; anything of another length is
/// malformed.
pub open spec fn spec_parse_claims(b: Seq<u8>) -> Option<Claims> {
    if b.len() == 16 {
        Some(
            Claims {
                id: u64_of_bytes(b.subrange(0, 8)) as i64,
                exp: u64_of_bytes(b.subrange(8, 16)) as i64,
            },
        )
    } else {
        None
    }
}

/// Round trip of the byte-level claims codec.
pub proof fn lemma_claims_bytes_round_trip(c: Claims)
    ensures
        spec_parse_claims(claims_bytes(c)) == Some(c),
{
    let b = claims_bytes(c);
    assert(b.subrange(0, 8) =~= u64_bytes(c.id as u64));
    assert(b.subrange(8, 16) =~= u64_bytes(c.exp as u64));
    lemma_u64_bytes_round_trip(c.id as u64);
    lemma_u64_bytes_round_trip(c.exp as u64);
    let id = c.id;
    let exp = c.exp;
    assert((id as u64) as i64 == id) by (bit_vector);
    assert((exp as u64) as i64 == exp) by (bit_vector);
}

/// Round trip of the little-endian `u64` codec.
pub proof fn lemma_u64_bytes_round_trip(u: u64)
    ensures
        u64_of_bytes(u64_bytes(u)) == u,
{
    let b = u64_bytes(u);
    assert(((u & 0xff) as u8 as u64) | ((((u >> 8) & 0xff) as u8 as u64) << 8) | ((((u >> 16)
        & 0xff) as u8 as u64) << 16) | ((((u >> 24) & 0xff) as u8 as u64) << 24) | ((((u >> 32)
        & 0xff) as u8 as u64) << 32) | ((((u >> 40) & 0xff) as u8 as u64) << 40) | ((((u >> 48)
        & 0xff) as u8 as u64) << 48) | ((((u >> 56) & 0xff) as u8 as u64) << 56) == u)
        by (bit_vector);
}

/// The token for payload `p` signed with `secret`.
pub open spec fn token_for(secret: Seq<u8>, p: Seq<u8>) -> Seq<char> {
    b64_of(p) + seq!['.'] + b64_of(hmac_sha256_of(secret, p))
}

/// Whether `token` is exactly the signed form of payload `p`, and `p` parses
/// to claims `c`.
pub open spec fn valid_token_with(secret: Seq<u8>, token: Seq<char>, c: Claims, p: Seq<u8>) -> bool {
    &&& token == token_for(secret, p)
    &&& dotless(b64_of(p))
    &&& dotless(b64_of(hmac_sha256_of(secret, p)))
    &&& spec_parse_claims(p) == Some(c)
}

/// Whether `token` is a validly signed token carrying claims `c`.
pub open spec fn valid_token(secret: Seq<u8>, token: Seq<char>, c: Claims) -> bool {
    exists|p: Seq<u8>| valid_token_with(secret, token, c, p)
}

/// Whether `token` ought to be accepted at time `now_ms`: validly signed and
/// not yet expired.
pub open spec fn token_accepted(secret: Seq<u8>, token: Seq<char>, now_ms: i64) -> bool {
    exists|c: Claims| valid_token(secret, token, c) && now_ms <= c.exp
}

/// Relies on `base64::encode` (standard alphabet): its output is drawn from
/// `A-Z a-z 0-9 + / =`, so it never contains `'.'`, and `base64::decode`
/// inverts it, so distinct byte strings have distinct encodings.
#[verifier::external_body]
fn b64_encode(data: &Vec<u8>) -> (r: String)
    ensures
        r@ == b64_of(data@),
        dotless(r@),
        forall|b2: Seq<u8>| b64_of(b2) == r@ ==> b2 == data@,
{
    base64::encode(data)
}

/// Relies on `base64::decode` (standard alphabet): it accepts every string
/// `base64::encode` produces, rejects any string holding a character outside
/// the base64 alphabet (`'.'` included), and inverts the encoder, so a string
/// has at most one preimage. A success says nothing about the input's exact
/// text — this decoder also accepts unpadded forms, which the encoder never
/// emits — so a caller that needs the canonical form re-encodes the bytes and
/// compares.
#[verifier::external_body]
fn b64_decode_chars(s: &Vec<char>) -> (r: Option<Vec<u8>>)
    ensures
        r matches Some(b) ==> forall|b2: Seq<u8>| b64_of(b2) == s@ ==> b2 == b@,
        r is Some ==> dotless(s@),
        (exists|b: Seq<u8>| b64_of(b) == s@) ==> r is Some,
{
    let owned: String = s.iter().collect();
    base64::decode(owned.as_bytes()).ok()
}

/// Relies on `hmac::Hmac::<sha2::Sha256>` (`new_from_slice`, `update`,
/// `finalize`): computes the 32-byte HMAC-SHA256 of the message under the
/// key, a function of the two arguments alone. HMAC accepts keys of any
/// length, so `new_from_slice` cannot fail here.
#[verifier::external_body]
fn hmac_sha256(key: &Vec<u8>, msg: &Vec<u8>) -> (r: Vec<u8>)
    ensures
        r@ == hmac_sha256_of(key@, msg@),
        r@.len() == 32,
{
    let mut mac = hmac::Hmac::<sha2::Sha256>::new_from_slice(key.as_slice()).unwrap();
    mac.update(msg.as_slice());
    mac.finalize().into_bytes().to_vec()
}

/// Appends the eight little-endian bytes of `u` to `v`.
fn push_u64_le(v: &mut Vec<u8>, u: u64)
    ensures
        final(v)@ == old(v)@ + u64_bytes(u),
{
    v.push((u & 0xff) as u8);
    v.push(((u >> 8) & 0xff) as u8);
    v.push(((u >> 16) & 0xff) as u8);
    v.push(((u >> 24) & 0xff) as u8);
    v.push(((u >> 32) & 0xff) as u8);
    v.push(((u >> 40) & 0xff) as u8);
    v.push(((u >> 48) & 0xff) as u8);
    v.push(((u >> 56) & 0xff) as u8);
    assert(v@ =~= old(v)@ + u64_bytes(u));
}

/// Serializes claims to their 16-byte payload.
fn claims_to_bytes(c: &Claims) -> (r: Vec<u8>)
    ensures
        r@ == claims_bytes(*c),
{
    let mut v: Vec<u8> = Vec::new();
    push_u64_le(&mut v, c.id as u64);
    push_u64_le(&mut v, c.exp as u64);
    assert(v@ =~= claims_bytes(*c));
    v
}

/// Reads the eight little-endian bytes starting at `at`.
fn read_u64_le(b: &Vec<u8>, at: usize) -> (r: u64)
    requires
        at + 8 <= b@.len(),
    ensures
        r == u64_of_bytes(b@.subrange(at as int, at + 8)),
{
    let blen = b.len();
    let r = (b[at] as u64) | ((b[at + 1] as u64) << 8) | ((b[at + 2] as u64) << 16) | ((b[at
        + 3] as u64) << 24) | ((b[at + 4] as u64) << 32) | ((b[at + 5] as u64) << 40) | ((b[at
        + 6] as u64) << 48) | ((b[at + 7] as u64) << 56);
    assert(b@.subrange(at as int, at + 8)[0] == b@[at as int]);
    r
}

/// Structurally decodes a 16-byte payload into claims, without trusting it.
fn parse_claims(b: &Vec<u8>) -> (r: Option<Claims>)
    ensures
        r == spec_parse_claims(b@),
{
    if b.len() != 16 {
        return None;
    }
    let id_u = read_u64_le(b, 0);
    let exp_u = read_u64_le(b, 8);
    Some(Claims { id: id_u as i64, exp: exp_u as i64 })
}

/// Copies `v[a..b]`.
fn copy_range(v: &Vec<char>, a: usize, b: usize) -> (r: Vec<char>)
    requires
        a <= b <= v@.len(),
    ensures
        r@ == v@.subrange(a as int, b as int),
{
    let mut r: Vec<char> = Vec::new();
    for i in a..b
        invariant
            a <= b <= v@.len(),
            r@ == v@.subrange(a as int, i as int),
    {
        r.push(v[i]);
        assert(r@ =~= v@.subrange(a as int, i + 1 as int));
    }
    r
}

/// In a token built from payload `p`, the first `'.'` sits exactly at the end
/// of the payload segment, so a first-dot split recovers both segments.
proof fn lemma_split_at_first_dot(
    secret: Seq<u8>,
    token: Seq<char>,
    c: Claims,
    p: Seq<u8>,
    k: int,
)
    requires
        valid_token_with(secret, token, c, p),
        0 <= k < token.len(),
        token[k] == '.',
        forall|j: int| 0 <= j < k ==> token[j] != '.',
    ensures
        b64_of(p) == token.subrange(0, k),
        b64_of(hmac_sha256_of(secret, p)) == token.subrange(k + 1, token.len() as int),
{
    let pb = b64_of(p);
    let sb = b64_of(hmac_sha256_of(secret, p));
    assert(token.len() == pb.len() + 1 + sb.len());
    assert(token[pb.len() as int] == '.');
    if pb.len() < k {
        assert(token[pb.len() as int] != '.');
        assert(false);
    }
    if pb.len() > k {
        assert(token[k] == pb[k]);
        assert(false);
    }
    assert(pb =~= token.subrange(0, k));
    assert(sb =~= token.subrange(k + 1, token.len() as int));
}

/// Token acceptance law: a validly signed token is accepted at every instant
/// up to and including its embedded expiry (and `verify`'s contract then
/// pins the returned claims to exactly the token's own).
pub proof fn lemma_valid_token_accepted(secret: Seq<u8>, token: Seq<char>, c: Claims, now_ms: i64)
    requires
        valid_token(secret, token, c),
        now_ms <= c.exp,
    ensures
        token_accepted(secret, token, now_ms),
{
}

/// The token service: owns the process-lifetime signing secret (generated at
/// process start; restarting the process invalidates all outstanding tokens).
pub struct TokenService {
    secret: Vec<u8>,
}

impl TokenService {
    /// The signing secret.
    pub closed spec fn secret(&self) -> Seq<u8> {
        self.secret@
    }

    /// A service signing with the given secret.
    pub fn new(secret: Vec<u8>) -> (r: TokenService)
        ensures
            r.secret() == secret@,
    {
        TokenService { secret }
    }

    /// Issues a signed bearer token binding `id` and the expiry
    /// `now_ms + ttl_ms`.
    pub fn issue(&self, id: i64, now_ms: i64, ttl_ms: i64) -> (t: String)
        requires
            0 <= now_ms,
            0 <= ttl_ms,
            now_ms + ttl_ms <= i64::MAX,
        ensures
            valid_token(self.secret(), t@, Claims { id, exp: (now_ms + ttl_ms) as i64 }),
    {
        let c = Claims { id, exp: now_ms + ttl_ms };
        let payload = claims_to_bytes(&c);
        let payload_s = b64_encode(&payload);
        let mac = hmac_sha256(&self.secret, &payload);
        let sig_s = b64_encode(&mac);
        let t = payload_s.concat(".").concat(sig_s.as_str());
        proof {
            reveal_strlit(".");
            assert(t@ =~= token_for(self.secret(), payload@));
            lemma_claims_bytes_round_trip(c);
            assert(valid_token_with(self.secret(), t@, c, payload@));
        }
        t
    }

    /// Verifies a presented token: structurally decodes the claims segment
    /// without trusting it, fast-fails if the embedded expiry has passed,
    /// then performs full signature verification against the secret. Both
    /// segments must be in the canonical form the issuer emits (the decoder
    /// alone would also take unpadded text, so each decoded segment is
    /// re-encoded and compared before it is trusted). Returns the claims
    /// exactly when the token is validly signed and unexpired; every failure
    /// collapses into `None`.
    pub fn verify(&self, token: &str, now_ms: i64) -> (r: Option<Claims>)
        ensures
            r matches Some(c) ==> valid_token(self.secret(), token@, c) && now_ms <= c.exp,
            r matches Some(c) ==> forall|c2: Claims|
                valid_token(self.secret(), token@, c2) ==> c2 == c,
            r is None ==> !token_accepted(self.secret(), token@, now_ms),
    {
        let ghost secret = self.secret();
        let chars = str_char_vec(token);
        let n = chars.len();
        let mut k: usize = 0;
        while k < n && chars[k] != '.'
            invariant
                0 <= k <= n,
                n == chars@.len(),
                chars@ == token@,
                forall|j: int| 0 <= j < k ==> chars@[j] != '.',
            decreases n - k,
        {
            k = k + 1;
        }
        if k == n {
            proof {
                if token_accepted(secret, token@, now_ms) {
                    let c = choose|c: Claims|
                        valid_token(secret, token@, c) && now_ms <= c.exp;
                    let p = choose|p: Seq<u8>| valid_token_with(secret, token@, c, p);
                    assert(token@[b64_of(p).len() as int] == '.');
                    assert(false);
                }
            }
            return None;
        }
        assert(chars@[k as int] == '.');
        let payload_seg = copy_range(&chars, 0, k);
        let sig_seg = copy_range(&chars, k + 1, n);
        let payload = match b64_decode_chars(&payload_seg) {
            None => {
                proof {
                    if token_accepted(secret, token@, now_ms) {
                        let c = choose|c: Claims|
                            valid_token(secret, token@, c) && now_ms <= c.exp;
                        let p = choose|p: Seq<u8>| valid_token_with(secret, token@, c, p);
                        lemma_split_at_first_dot(secret, token@, c, p, k as int);
                        assert(b64_of(p) == payload_seg@);
                        assert(false);
                    }
                }
                return None;
            },
            Some(b) => b,
        };
        // Only the canonical (padded) encoding is accepted: the decoder also
        // takes unpadded forms, which `issue` never emits, so the bytes are
        // re-encoded and compared with the segment as presented.
        let payload_enc = b64_encode(&payload);
        let payload_reenc = str_char_vec(payload_enc.as_str());
        if !chars_eq(&payload_reenc, &payload_seg) {
            proof {
                if token_accepted(secret, token@, now_ms) {
                    let c = choose|c: Claims| valid_token(secret, token@, c) && now_ms <= c.exp;
                    let p = choose|p: Seq<u8>| valid_token_with(secret, token@, c, p);
                    lemma_split_at_first_dot(secret, token@, c, p, k as int);
                    assert(b64_of(p) == payload_seg@);
                    assert(p == payload@);
                    assert(false);
                }
            }
            return None;
        }
        assert(b64_of(payload@) == payload_seg@);
        let claims = match parse_claims(&payload) {
            None => {
                proof {
                    if token_accepted(secret, token@, now_ms) {
                        let c = choose|c: Claims|
                            valid_token(secret, token@, c) && now_ms <= c.exp;
                        let p = choose|p: Seq<u8>| valid_token_with(secret, token@, c, p);
                        lemma_split_at_first_dot(secret, token@, c, p, k as int);
                        assert(b64_of(p) == payload_seg@);
                        assert(p == payload@);
                        assert(false);
                    }
                }
                return None;
            },
            Some(c) => c,
        };
        if claims.exp < now_ms {
            // Fast-fail pre-check on unverified data; the expiry is checked
            // again below as part of full acceptance.
            proof {
                if token_accepted(secret, token@, now_ms) {
                    let c = choose|c: Claims| valid_token(secret, token@, c) && now_ms <= c.exp;
                    let p = choose|p: Seq<u8>| valid_token_with(secret, token@, c, p);
                    lemma_split_at_first_dot(secret, token@, c, p, k as int);
                    assert(b64_of(p) == payload_seg@);
                    assert(p == payload@);
                    assert(c == claims);
                    assert(false);
                }
            }
            return None;
        }
        let mac = hmac_sha256(&self.secret, &payload);
        let sig = match b64_decode_chars(&sig_seg) {
            None => {
                proof {
                    if token_accepted(secret, token@, now_ms) {
                        let c = choose|c: Claims|
                            valid_token(secret, token@, c) && now_ms <= c.exp;
                        let p = choose|p: Seq<u8>| valid_token_with(secret, token@, c, p);
                        lemma_split_at_first_dot(secret, token@, c, p, k as int);
                        assert(b64_of(p) == payload_seg@);
                        assert(p == payload@);
                        assert(b64_of(hmac_sha256_of(secret, p)) == sig_seg@);
                        assert(false);
                    }
                }
                return None;
            },
            Some(s) => s,
        };
        // The signature segment must be canonical too.
        let sig_enc = b64_encode(&sig);
        let sig_reenc = str_char_vec(sig_enc.as_str());
        if !chars_eq(&sig_reenc, &sig_seg) {
            proof {
                if token_accepted(secret, token@, now_ms) {
                    let c2 = choose|c2: Claims|
                        valid_token(secret, token@, c2) && now_ms <= c2.exp;
                    let p2 = choose|p2: Seq<u8>| valid_token_with(secret, token@, c2, p2);
                    lemma_split_at_first_dot(secret, token@, c2, p2, k as int);
                    assert(b64_of(p2) == payload_seg@);
                    assert(p2 == payload@);
                    assert(b64_of(hmac_sha256_of(secret, p2)) == sig_seg@);
                    assert(hmac_sha256_of(secret, p2) == sig@);
                    assert(false);
                }
            }
            return None;
        }
        assert(b64_of(sig@) == sig_seg@);
        if bytes_eq(&sig, &mac) {
            proof {
                assert(token@ =~= token@.subrange(0, k as int) + seq!['.'] + token@.subrange(
                    k as int + 1,
                    token@.len() as int,
                ));
                assert forall|i: int| 0 <= i < payload_seg@.len() implies payload_seg@[i]
                    != '.' by {
                    assert(payload_seg@[i] == chars@[i]);
                }
                assert(b64_of(hmac_sha256_of(secret, payload@)) == sig_seg@);
                assert(valid_token_with(secret, token@, claims, payload@));
                assert forall|c2: Claims| valid_token(secret, token@, c2) implies c2 == claims by {
                    let p2 = choose|p2: Seq<u8>| valid_token_with(secret, token@, c2, p2);
                    lemma_split_at_first_dot(secret, token@, c2, p2, k as int);
                    assert(b64_of(p2) == payload_seg@);
                    assert(p2 == payload@);
                }
            }
            Some(claims)
        } else {
            proof {
                if token_accepted(secret, token@, now_ms) {
                    let c2 = choose|c2: Claims|
                        valid_token(secret, token@, c2) && now_ms <= c2.exp;
                    let p2 = choose|p2: Seq<u8>| valid_token_with(secret, token@, c2, p2);
                    lemma_split_at_first_dot(secret, token@, c2, p2, k as int);
                    assert(b64_of(p2) == payload_seg@);
                    assert(p2 == payload@);
                    assert(b64_of(hmac_sha256_of(secret, p2)) == sig_seg@);
                    assert(sig@ == mac@);
                    assert(false);
                }
            }
            None
        }
    }
}

} // verus!
