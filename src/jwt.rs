use vstd::prelude::*;
use jwt_simple::prelude::{Claims, Clock, Duration, HS256Key, MACLike, VerificationOptions};
use crate::structs::{Gate, GateView, gates_view};
use std::collections::BTreeMap;

verus! {

/// The signing key of access tokens.
pub struct Jwt {
    key: String,
}

/// The claims that an access token carries.
pub struct JWTToken {
    pub username: String,
    pub session_id: String,
    pub available_rooms: Vec<Gate>,
}

pub struct JWTTokenView {
    pub username: Seq<char>,
    pub session_id: Seq<char>,
    pub available_rooms: Seq<GateView>,
}

impl View for JWTToken {
    type V = JWTTokenView;

    open spec fn view(&self) -> JWTTokenView {
        JWTTokenView {
            username: self.username@,
            session_id: self.session_id@,
            available_rooms: gates_view(self.available_rooms@),
        }
    }
}

/// A gate as signed into a token: id, name, description, retries.
pub type GateTuple = (i32, String, String, i32);

/// The claims as signed: username, session id and the gates.
pub type ClaimsParts = (String, String, Vec<GateTuple>);

pub type GateTupleView = (i32, Seq<char>, Seq<char>, i32);

pub type ClaimsPartsView = (Seq<char>, Seq<char>, Seq<GateTupleView>);

pub open spec fn tuple_view(t: GateTuple) -> GateTupleView {
    (t.0, t.1@, t.2@, t.3)
}

pub open spec fn parts_view(p: ClaimsParts) -> ClaimsPartsView {
    (p.0@, p.1@, p.2@.map_values(|t: GateTuple| tuple_view(t)))
}

/// The signed form of a token's claims.
pub open spec fn parts_of(t: JWTTokenView) -> ClaimsPartsView {
    (
        t.username,
        t.session_id,
        t.available_rooms.map_values(|g: GateView| (g.id, g.name, g.description, g.retries)),
    )
}

/// The claims that a signed form stands for.
pub open spec fn token_of(p: ClaimsPartsView) -> JWTTokenView {
    JWTTokenView {
        username: p.0,
        session_id: p.1,
        available_rooms: p.2.map_values(
            |t: GateTupleView| GateView { id: t.0, name: t.1, description: t.2, retries: t.3 },
        ),
    }
}

/// Claims read back from their signed form are the claims that were signed.
pub proof fn lemma_claims_round_trip(t: JWTTokenView)
    ensures
        token_of(parts_of(t)) == t,
{
    assert(token_of(parts_of(t)).available_rooms =~= t.available_rooms);
}

/// Whatever verification hands out for a token that was issued with the
/// claims `t` (its payload holds `parts_of(t)`) is exactly `t`: the user,
/// the session id and the gates that were signed, in the same order.
pub proof fn lemma_issued_claims_come_back(access: Seq<char>, t: JWTTokenView, r: Option<JWTTokenView>)
    requires
        payload_claims(access, "claims"@) == Some(parts_of(t)),
        r is Some ==> payload_claims(access, "claims"@) is Some
            && r->0 == token_of(payload_claims(access, "claims"@)->0),
    ensures
        r is Some ==> r->0 == t,
{
    lemma_claims_round_trip(t);
}

/// A token issued with no validity at second `t0` is refused at `t0` and at
/// every later second.
pub proof fn lemma_zero_validity_refused(t0: u64, now: u64)
    requires
        t0 <= MAX_UNIX_SECS,
        t0 <= now,
    ensures
        !accepted(Some(expiry_after(t0, 0)), now),
{
}

/// An access token is accepted only while the current second is before its
/// expiry second: a token that expires now is refused.
pub open spec fn accepted(exp: Option<u64>, now: u64) -> bool {
    match exp {
        Some(e) => now < e,
        None => false,
    }
}

impl JWTToken {
    /// The claims in the form that is signed.
    pub fn to_parts(&self) -> (r: ClaimsParts)
        ensures
            parts_view(r) == parts_of(self@),
    {
        let mut v: Vec<GateTuple> = Vec::new();
        let mut i: usize = 0;
        while i < self.available_rooms.len()
            invariant
                i <= self.available_rooms@.len(),
                v.len() == i,
                forall|j: int| 0 <= j < i ==> #[trigger] tuple_view(v@[j]) == (
                    self.available_rooms@[j].id,
                    self.available_rooms@[j].name@,
                    self.available_rooms@[j].description@,
                    self.available_rooms@[j].retries,
                ),
            decreases self.available_rooms.len() - i,
        {
            let g = &self.available_rooms[i];
            v.push((g.id, g.name.clone(), g.description.clone(), g.retries));
            i = i + 1;
        }
        let r = (self.username.clone(), self.session_id.clone(), v);
        assert(parts_view(r).2 =~= parts_of(self@).2);
        r
    }

    /// The claims that a signed form stands for.
    pub fn from_parts(p: ClaimsParts) -> (r: JWTToken)
        ensures
            r@ == token_of(parts_view(p)),
    {
        let (username, session_id, v) = p;
        let ghost pv = parts_view((username, session_id, v));
        let mut rooms: Vec<Gate> = Vec::new();
        let mut i: usize = 0;
        while i < v.len()
            invariant
                i <= v@.len(),
                rooms.len() == i,
                forall|j: int| 0 <= j < i ==> #[trigger] rooms@[j]@ == (GateView {
                    id: v@[j].0,
                    name: v@[j].1@,
                    description: v@[j].2@,
                    retries: v@[j].3,
                }),
            decreases v.len() - i,
        {
            let t = &v[i];
            rooms.push(Gate { id: t.0, name: t.1.clone(), description: t.2.clone(), retries: t.3 });
            i = i + 1;
        }
        let r = JWTToken { username, session_id, available_rooms: rooms };
        assert(r@.available_rooms =~= token_of(pv).available_rooms);
        r
    }
}

/// The signed form of the claims of a new session: the user, the session id
/// and the gates, as they are.
pub fn claims_for(username: String, session_id: String, available_rooms: Vec<Gate>) -> (r: ClaimsParts)
    ensures
        parts_view(r) == parts_of(
            JWTTokenView { username: username@, session_id: session_id@, available_rooms: gates_view(available_rooms@) },
        ),
{
    let claims = JWTToken { username, session_id, available_rooms };
    claims.to_parts()
}

/// The claims of a token whose signature was checked, given its expiry
/// second and the current second: kept while `now` is before the expiry,
/// refused otherwise.
pub fn accept_claims(verified: Option<(ClaimsParts, Option<u64>)>, now: u64) -> (r: Option<JWTToken>)
    ensures
        match verified {
            Some((parts, exp)) => if accepted(exp, now) {
                r is Some && r->0@ == token_of(parts_view(parts))
            } else {
                r is None
            },
            None => r is None,
        },
{
    match verified {
        Some((parts, exp)) => {
            match exp {
                Some(e) => {
                    if now < e {
                        Some(JWTToken::from_parts(parts))
                    } else {
                        None
                    }
                },
                None => None,
            }
        },
        None => None,
    }
}

/// The last second that coarsetime's clock and timestamps can express.
pub const MAX_UNIX_SECS: u64 = 0xFFFF_FFFF;

/// The expiry second of a token issued at second `t0`, valid for `valid`
/// seconds; capped at the last expressible second.
pub open spec fn expiry_after(t0: u64, valid: u64) -> u64 {
    if t0 + valid > MAX_UNIX_SECS {
        MAX_UNIX_SECS
    } else {
        (t0 + valid) as u64
    }
}

/// What the payload of `token` holds under the member `member`, read as
/// signed claims (`None` when the token or the member cannot be read so).
pub uninterp spec fn payload_claims(token: Seq<char>, member: Seq<char>) -> Option<ClaimsPartsView>;

/// The expiry second that the payload of `token` states, if any.
pub uninterp spec fn payload_expiry(token: Seq<char>) -> Option<u64>;

/// What jwt_simple's HS256 verification of `token` under `key` at Unix
/// second `now` gives: the claims under `member` and the expiry second.
pub uninterp spec fn verified_claims(key: Seq<char>, member: Seq<char>, token: Seq<char>, now: u64) -> Option<(ClaimsPartsView, Option<u64>)>;

pub open spec fn verified_view(o: Option<(ClaimsParts, Option<u64>)>) -> Option<(ClaimsPartsView, Option<u64>)> {
    match o {
        Some((p, exp)) => Some((parts_view(p), exp)),
        None => None,
    }
}

/// Relies on jwt_simple's HS256Key::authenticate: signs the claims under
/// the payload member `member`, issued and valid from second `issued_at`,
/// expiring at second `expires_at`. Claims::with_custom_claims builds the
/// claim set (with no validity of its own); its three times are then set.
/// Token::build fails only when JSON or base64 encoding fails, which cannot
/// happen on strings, integers and vectors of them; serde_json reads back
/// what it wrote, and seconds up to 2^32 - 1 are stored exactly.
#[verifier::external_body]
fn hs256_sign(key: &String, member: &str, claims: ClaimsParts, issued_at: u64, expires_at: u64) -> (r: Option<String>)
    requires
        issued_at <= MAX_UNIX_SECS,
        expires_at <= MAX_UNIX_SECS,
    ensures
        r is Some,
        payload_claims(r->0@, member@) == Some(parts_view(claims)),
        payload_expiry(r->0@) == Some(expires_at),
{
    let custom = BTreeMap::from([(member.to_owned(), claims)]);
    let mut c = Claims::with_custom_claims(custom, Duration::from_secs(0));
    c.issued_at = Some(Duration::from_secs(issued_at));
    c.invalid_before = Some(Duration::from_secs(issued_at));
    c.expires_at = Some(Duration::from_secs(expires_at));
    HS256Key::from_bytes(key.as_bytes()).authenticate(c).ok()
}

/// Relies on jwt_simple's HS256Key::verify_token, with no time tolerance
/// and with `now` as the verification time: the claims (the payload member
/// `member`) and the expiry second of a token whose signature holds under
/// `key`. The outcome depends on the key, the token and the time alone, and
/// what it returns is read from the token's payload.
#[verifier::external_body]
fn hs256_verify(key: &String, member: &str, token: &str, now: u64) -> (r: Option<(ClaimsParts, Option<u64>)>)
    ensures
        verified_view(r) == verified_claims(key@, member@, token@, now),
        match r {
            Some((parts, exp)) => payload_claims(token@, member@) == Some(parts_view(parts))
                && exp == payload_expiry(token@),
            None => true,
        },
{
    let options = VerificationOptions {
        time_tolerance: Some(Duration::from_secs(0)),
        artificial_time: Some(Duration::from_secs(now)),
        ..Default::default()
    };
    let k = HS256Key::from_bytes(key.as_bytes());
    let mut c = k.verify_token::<BTreeMap<String, ClaimsParts>>(token, Some(options)).ok()?;
    Some((c.custom.remove(member)?, c.expires_at.map(|t| t.as_secs())))
}

/// Relies on coarsetime's Clock::now_since_epoch (through jwt_simple): the
/// current Unix time in whole seconds. coarsetime keeps seconds in the upper
/// 32 bits of a u64, so the value fits 32 bits; nothing else is promised.
#[verifier::external_body]
fn unix_now_secs() -> (r: u64)
    ensures
        r <= MAX_UNIX_SECS,
{
    Clock::now_since_epoch().as_secs()
}

/// A lowercase hexadecimal digit.
pub open spec fn is_hex_digit(c: char) -> bool {
    ('0' <= c && c <= '9') || ('a' <= c && c <= 'f')
}

/// The text of a random (version 4) UUID: 32 lowercase hex digits in groups
/// of 8-4-4-4-12, the version digit `4`, the variant digit one of 8, 9, a, b.
pub open spec fn is_uuid_v4_text(s: Seq<char>) -> bool {
    &&& s.len() == 36
    &&& forall|i: int| 0 <= i < 36 ==> if i == 8 || i == 13 || i == 18 || i == 23 {
        s[i] == '-'
    } else {
        is_hex_digit(#[trigger] s[i])
    }
    &&& s[14] == '4'
    &&& (s[19] == '8' || s[19] == '9' || s[19] == 'a' || s[19] == 'b')
}

/// Relies on uuid's Uuid::new_v4, which draws 122 random bits and sets the
/// version and variant bits, and on its Display, the lowercase hyphenated
/// form.
#[verifier::external_body]
fn new_uuid_v4() -> (r: String)
    ensures
        is_uuid_v4_text(r@),
{
    uuid::Uuid::new_v4().to_string()
}

impl Jwt {
    pub fn new(key: String) -> (r: Jwt)
        ensures
            r.key() == key@,
    {
        Jwt { key }
    }

    pub closed spec fn key(&self) -> Seq<char> {
        self.key@
    }

    /// Issues an access token for `username` carrying `available_rooms`,
    /// valid for `valid_for_secs` seconds from now, with a fresh refresh
    /// token and a fresh session id: `(access, refresh, session)`. The access
    /// token's payload holds the user, the session id and the gates as given.
    pub fn issue_token(&self, username: String, available_rooms: Vec<Gate>, valid_for_secs: u64) -> (r: (String, String, String))
        ensures
            is_uuid_v4_text(r.1@),
            is_uuid_v4_text(r.2@),
            payload_claims(r.0@, "claims"@) == Some(parts_of(
                JWTTokenView { username: username@, session_id: r.2@, available_rooms: gates_view(available_rooms@) },
            )),
            exists|t0: u64| t0 <= MAX_UNIX_SECS && payload_expiry(r.0@) == Some(#[trigger] expiry_after(t0, valid_for_secs)),
    {
        let refresh_token = new_uuid_v4();
        let session_id = new_uuid_v4();
        let parts = claims_for(username, session_id.clone(), available_rooms);
        let now = unix_now_secs();
        let expires_at = if valid_for_secs > MAX_UNIX_SECS - now {
            MAX_UNIX_SECS
        } else {
            now + valid_for_secs
        };
        assert(expires_at == expiry_after(now, valid_for_secs));
        let access = hs256_sign(&self.key, "claims", parts, now, expires_at);
        match access {
            Some(access) => (access, refresh_token, session_id),
            None => {
                proof {
                    assert(false);
                }
                (String::new(), refresh_token, session_id)
            },
        }
    }

    /// The claims of `token` when its signature holds under this key at the
    /// current second and it has not expired by then. Claims handed out are
    /// those in the token's payload.
    pub fn verify_token(&self, token: String) -> (r: Option<JWTToken>)
        ensures
            exists|now: u64|
                match #[trigger] verified_claims(self.key(), "claims"@, token@, now) {
                    Some((parts, exp)) => if accepted(exp, now) {
                        r is Some && r->0@ == token_of(parts)
                    } else {
                        r is None
                    },
                    None => r is None,
                },
            r is Some ==> payload_claims(token@, "claims"@) is Some
                && r->0@ == token_of(payload_claims(token@, "claims"@)->0)
                && exists|now: u64| accepted(payload_expiry(token@), now),
    {
        let now = unix_now_secs();
        let verified = hs256_verify(&self.key, "claims", token.as_str(), now);
        let r = accept_claims(verified, now);
        proof {
            reveal_strlit("claims");
            assert(match verified_claims(self.key(), "claims"@, token@, now) {
                Some((parts, exp)) => if accepted(exp, now) {
                    r is Some && r->0@ == token_of(parts)
                } else {
                    r is None
                },
                None => r is None,
            });
            if r is Some {
                assert(accepted(payload_expiry(token@), now));
            }
        }
        r
    }
}

} // verus!
