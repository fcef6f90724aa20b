use vstd::prelude::*;
use crate::db::{Db, EventLogView, EventType, RecordView, log_of, without_user};
use crate::gates;
use crate::jwt::{JWTToken, JWTTokenView, Jwt, is_uuid_v4_text, parts_of, payload_claims};
use crate::login;
use crate::logout;
use crate::structs::{Errors, Gate, GateView, clone_gates, gates_view};

verus! {

/// How long an access token stays valid, in seconds.
pub const ACCESS_TOKEN_SECS: u64 = 300;

pub open spec fn rooms_view(o: Option<Vec<Gate>>) -> Option<Seq<GateView>> {
    match o {
        Some(v) => Some(gates_view(v@)),
        None => None,
    }
}

/// The access token `access` carries the claims of a session of `username`
/// with the gates `rooms`.
pub open spec fn carries(access: Seq<char>, username: Seq<char>, rooms: Seq<GateView>) -> bool {
    exists|session: Seq<char>|
        payload_claims(access, "claims"@) == Some(
            #[trigger] parts_of(JWTTokenView { username, session_id: session, available_rooms: rooms }),
        )
}

/// What a login does: with no answer from the directory, `InvalidLogin`
/// and nothing changed; otherwise a pair of tokens whose access token
/// carries the user and the resolved gates, and one new refresh record for
/// the new refresh token with those gates.
pub open spec fn login_outcome(
    m0: Map<Seq<char>, RecordView>,
    username: Seq<char>,
    rooms: Option<Seq<GateView>>,
    r: Result<login::Response, Errors>,
    m1: Map<Seq<char>, RecordView>,
) -> bool {
    match rooms {
        None => r == Err::<login::Response, Errors>(Errors::InvalidLogin) && m1 == m0,
        Some(g) => match r {
            Ok(resp) => m1 == m0.insert(
                resp.refresh_token@,
                RecordView { username, refresh_token: resp.refresh_token@, rooms: g },
            ) && carries(resp.access_token@, username, g),
            Err(_) => false,
        },
    }
}

/// What a refresh with `t` does: `NotFound` with nothing changed when no
/// record holds `t`; otherwise the record is consumed, a new pair of tokens
/// for the same user and gates is returned, and a new record for the new
/// refresh token is added.
pub open spec fn refresh_outcome(
    m0: Map<Seq<char>, RecordView>,
    t: Seq<char>,
    r: Result<login::Response, Errors>,
    m1: Map<Seq<char>, RecordView>,
) -> bool {
    if !m0.contains_key(t) {
        r == Err::<login::Response, Errors>(Errors::NotFound) && m1 == m0
    } else {
        match r {
            Ok(resp) => m1 == m0.remove(t).insert(
                resp.refresh_token@,
                RecordView { username: m0[t].username, refresh_token: resp.refresh_token@, rooms: m0[t].rooms },
            ) && carries(resp.access_token@, m0[t].username, m0[t].rooms),
            Err(_) => false,
        }
    }
}

/// Issues a pair of tokens for `username` with `rooms` and records the
/// refresh token; also returns the new session id.
pub fn issue_token<D: Db>(username: &str, rooms: &Vec<Gate>, jwt: &Jwt, db: &mut D) -> (r: (login::Response, String))
    requires
        old(db).wf(),
    ensures
        final(db).wf(),
        final(db).events() == old(db).events(),
        final(db).records() == old(db).records().insert(
            r.0.refresh_token@,
            RecordView { username: username@, refresh_token: r.0.refresh_token@, rooms: gates_view(rooms@) },
        ),
        is_uuid_v4_text(r.0.refresh_token@),
        payload_claims(r.0.access_token@, "claims"@) == Some(parts_of(
            JWTTokenView { username: username@, session_id: r.1@, available_rooms: gates_view(rooms@) },
        )),
{
    let (access_token, refresh_token, session_id) = jwt.issue_token(username.to_owned(), clone_gates(rooms), ACCESS_TOKEN_SECS);
    db.store_refresh(username, refresh_token.as_str(), rooms);
    (login::Response { access_token, refresh_token }, session_id)
}

/// Logs `username` in, given the gates that the directory resolved for the
/// presented credentials (`None` when it rejected them).
pub fn login<D: Db>(jwt: &Jwt, db: &mut D, username: &str, rooms: Option<Vec<Gate>>, ip: &str, date: i64) -> (r: Result<login::Response, Errors>)
    requires
        old(db).wf(),
    ensures
        final(db).wf(),
        login_outcome(old(db).records(), username@, rooms_view(rooms), r, final(db).records()),
        match r {
            Ok(_) => final(db).events().drop_last() == old(db).events() && final(db).events().len() > 0
                && final(db).events().last() == log_of(
                    ip@,
                    username@,
                    final(db).events().last().session_id,
                    EventType::SuccessfulLogin,
                    date,
                ),
            Err(_) => final(db).events() == old(db).events().push(
                log_of(ip@, username@, Seq::empty(), EventType::FailedLogin, date),
            ),
        },
{
    match rooms {
        Some(rooms) => {
            let (resp, session_id) = issue_token(username, &rooms, jwt, db);
            db.log_event(ip, username, session_id.as_str(), EventType::SuccessfulLogin, date);
            assert(payload_claims(resp.access_token@, "claims"@) == Some(parts_of(
                JWTTokenView { username: username@, session_id: session_id@, available_rooms: gates_view(rooms@) },
            )));
            Ok(resp)
        },
        None => {
            db.log_event(ip, username, "", EventType::FailedLogin, date);
            proof {
                reveal_strlit("");
                assert(""@ =~= Seq::<char>::empty());
            }
            Err(Errors::InvalidLogin)
        },
    }
}

/// Trades the refresh token `refresh_token` for a new pair of tokens, with
/// the gates frozen into its record. The presented token is consumed.
pub fn refresh<D: Db>(jwt: &Jwt, db: &mut D, refresh_token: &str, ip: &str, date: i64) -> (r: Result<login::Response, Errors>)
    requires
        old(db).wf(),
    ensures
        final(db).wf(),
        refresh_outcome(old(db).records(), refresh_token@, r, final(db).records()),
        match r {
            Ok(_) => final(db).events().drop_last() == old(db).events() && final(db).events().len() > 0
                && final(db).events().last() == log_of(
                    ip@,
                    old(db).records()[refresh_token@].username,
                    final(db).events().last().session_id,
                    EventType::SuccessfulRefresh,
                    date,
                ),
            Err(_) => final(db).events() == old(db).events().push(
                log_of(ip@, Seq::empty(), refresh_token@, EventType::FailedRefresh, date),
            ),
        },
{
    match db.remove_by_refresh_token(refresh_token) {
        Some(item) => {
            let (resp, session_id) = issue_token(item.username.as_str(), &item.rooms, jwt, db);
            db.log_event(ip, item.username.as_str(), session_id.as_str(), EventType::SuccessfulRefresh, date);
            assert(payload_claims(resp.access_token@, "claims"@) == Some(parts_of(
                JWTTokenView { username: item.username@, session_id: session_id@, available_rooms: gates_view(item.rooms@) },
            )));
            Ok(resp)
        },
        None => {
            db.log_event(ip, "", refresh_token, EventType::FailedRefresh, date);
            proof {
                reveal_strlit("");
                assert(""@ =~= Seq::<char>::empty());
            }
            Err(Errors::NotFound)
        },
    }
}

/// Logs the holder of `token` out: every refresh record of that user is
/// deleted. The access token itself stays valid until it expires.
pub fn logout<D: Db>(db: &mut D, token: &JWTToken) -> (r: logout::Response)
    requires
        old(db).wf(),
    ensures
        final(db).wf(),
        final(db).records() == without_user(old(db).records(), token.username@),
        final(db).events() == old(db).events(),
        r.success,
{
    db.remove_by_username(token.username.as_str());
    logout::Response { success: true }
}

/// The index of the first gate of `s` named `name`.
pub open spec fn first_named(s: Seq<GateView>, name: Seq<char>, i: int) -> bool {
    0 <= i < s.len() && s[i].name == name && forall|j: int| 0 <= j < i ==> s[j].name != name
}

/// A gate of `token` named `name`, if the token allows one.
pub fn find_gate(token: &JWTToken, name: &str) -> (r: Option<Gate>)
    ensures
        match r {
            Some(g) => exists|i: int| first_named(token@.available_rooms, name@, i) && token@.available_rooms[i] == g@,
            None => forall|i: int| 0 <= i < token@.available_rooms.len() ==> token@.available_rooms[i].name != name@,
        },
{
    let n = name.to_owned();
    let mut i: usize = 0;
    while i < token.available_rooms.len()
        invariant
            i <= token.available_rooms@.len(),
            n@ == name@,
            forall|j: int| 0 <= j < i ==> #[trigger] token.available_rooms@[j].name@ != name@,
        decreases token.available_rooms.len() - i,
    {
        if token.available_rooms[i].name == n {
            let g = token.available_rooms[i].cloned();
            assert(first_named(token@.available_rooms, name@, i as int));
            return Some(g);
        }
        i = i + 1;
    }
    None
}

/// Decides a gate-open request of the holder of `token` and audits it: the
/// gate to actuate when the token allows a gate of that name, `Unauthorized`
/// otherwise. The audit records the authorized attempt, whatever the
/// actuation then does.
pub fn open_gate<D: Db>(db: &mut D, token: &JWTToken, name: &str, ip: &str, date: i64) -> (r: Result<Gate, Errors>)
    requires
        old(db).wf(),
    ensures
        final(db).wf(),
        final(db).records() == old(db).records(),
        match r {
            Ok(g) => (exists|i: int| first_named(token@.available_rooms, name@, i) && token@.available_rooms[i] == g@)
                && final(db).events() == old(db).events().push((EventLogView {
                    ip: ip@,
                    username: token.username@,
                    event_type: "Successful access to gate"@,
                    date,
                    session_id: token.session_id@,
                    gate: Some(name@),
                })),
            Err(e) => e == Errors::Unauthorized
                && (forall|i: int| 0 <= i < token@.available_rooms.len() ==> token@.available_rooms[i].name != name@)
                && final(db).events() == old(db).events().push((EventLogView {
                    ip: ip@,
                    username: token.username@,
                    event_type: "Unauthorized gate access"@,
                    date,
                    session_id: token.session_id@,
                    gate: Some(name@),
                })),
        },
{
    match find_gate(token, name) {
        Some(g) => {
            db.log_event(ip, token.username.as_str(), token.session_id.as_str(), EventType::SuccessfulGateAccess { gate: name.to_owned() }, date);
            Ok(g)
        },
        None => {
            db.log_event(ip, token.username.as_str(), token.session_id.as_str(), EventType::UnauthorizedGateAccess { gate: name.to_owned() }, date);
            Err(Errors::Unauthorized)
        },
    }
}

/// The gates that `token` allows.
pub fn gates_list(token: &JWTToken) -> (r: gates::Response)
    ensures
        gates_view(r.gates@) == token@.available_rooms,
{
    gates::Response { gates: clone_gates(&token.available_rooms) }
}

/// A refresh token is consumed at most once: after a refresh with `t`
/// (whatever its outcome, and unless the new refresh token happens to be `t`
/// itself), a second refresh with `t` finds nothing.
pub proof fn lemma_refresh_single_use(
    m0: Map<Seq<char>, RecordView>,
    t: Seq<char>,
    r1: Result<login::Response, Errors>,
    m1: Map<Seq<char>, RecordView>,
    r2: Result<login::Response, Errors>,
    m2: Map<Seq<char>, RecordView>,
)
    requires
        refresh_outcome(m0, t, r1, m1),
        r1 is Ok ==> r1->Ok_0.refresh_token@ != t,
        refresh_outcome(m1, t, r2, m2),
    ensures
        !m1.contains_key(t),
        r2 == Err::<login::Response, Errors>(Errors::NotFound),
{
}

/// Two logins of one user leave two refresh records side by side, each for
/// that user with the resolved gates; consuming one of them leaves the other
/// as it was, so each can be used once.
pub proof fn lemma_two_sessions(
    m0: Map<Seq<char>, RecordView>,
    username: Seq<char>,
    g: Seq<GateView>,
    r1: Result<login::Response, Errors>,
    m1: Map<Seq<char>, RecordView>,
    r2: Result<login::Response, Errors>,
    m2: Map<Seq<char>, RecordView>,
    r3: Result<login::Response, Errors>,
    m3: Map<Seq<char>, RecordView>,
)
    requires
        login_outcome(m0, username, Some(g), r1, m1),
        login_outcome(m1, username, Some(g), r2, m2),
        r1 is Ok,
        r2 is Ok,
        r1->Ok_0.refresh_token@ != r2->Ok_0.refresh_token@,
        refresh_outcome(m2, r1->Ok_0.refresh_token@, r3, m3),
        r3 is Ok ==> r3->Ok_0.refresh_token@ != r2->Ok_0.refresh_token@,
    ensures
        m2.contains_key(r1->Ok_0.refresh_token@),
        m2.contains_key(r2->Ok_0.refresh_token@),
        m2[r1->Ok_0.refresh_token@].username == username,
        m2[r2->Ok_0.refresh_token@].username == username,
        m2[r1->Ok_0.refresh_token@].rooms == g,
        m2[r2->Ok_0.refresh_token@].rooms == g,
        r3 != Err::<login::Response, Errors>(Errors::NotFound),
        m3.contains_key(r2->Ok_0.refresh_token@),
        m3[r2->Ok_0.refresh_token@] == m2[r2->Ok_0.refresh_token@],
{
}

/// After a logout of `username`, no record of that user is left, and a
/// refresh with any refresh token that the user held finds nothing.
pub proof fn lemma_logout_revokes(
    m0: Map<Seq<char>, RecordView>,
    username: Seq<char>,
    t: Seq<char>,
    r: Result<login::Response, Errors>,
    m2: Map<Seq<char>, RecordView>,
)
    requires
        m0.contains_key(t),
        m0[t].username == username,
        refresh_outcome(without_user(m0, username), t, r, m2),
    ensures
        forall|k: Seq<char>| #[trigger] without_user(m0, username).contains_key(k) ==> without_user(m0, username)[k].username != username,
        r == Err::<login::Response, Errors>(Errors::NotFound),
{
}

} // verus!
