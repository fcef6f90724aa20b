use barrier_backend::auth::{Auth, FakeAuth, LDAPAuth};
use barrier_backend::config::Config;
use barrier_backend::db::{Cache, Db};
use barrier_backend::jwt::{accept_claims, JWTToken, Jwt};
use barrier_backend::login::Response;
use barrier_backend::session::{find_gate, gates_list, login, logout, open_gate, refresh};
use barrier_backend::structs::{Errors, Gate};
use barrier_backend::token::{bearer_token, HeaderError};

const LOGIN_1: &str = "login1";
const PASSWORD_1: &str = "password1";
const REFRESH_TOKEN_1: &str = "REFRESH_TOKEN_1";
const JWT_SIGN_KEY: &str = "jwt";
const IP: &str = "0.0.0.0";

fn gate(id: i32, name: &str) -> Gate {
    Gate {
        id,
        retries: 1,
        name: name.to_string(),
        description: "".to_string(),
    }
}

struct Env {
    jwt: Jwt,
    db: Cache,
    auth: FakeAuth,
}

fn init_test_env() -> Env {
    let jwt = Jwt::new(JWT_SIGN_KEY.to_string());
    let mut db = Cache::new();
    let mut auth = FakeAuth::new();
    auth.add_user(LOGIN_1, PASSWORD_1, &vec![gate(1, ""), gate(2, "")]);
    db.store_refresh(LOGIN_1, REFRESH_TOKEN_1, &vec![gate(1, ""), gate(2, "")]);
    Env { jwt, db, auth }
}

fn do_login(env: &mut Env, user: &str, password: &str) -> Result<Response, Errors> {
    let rooms = env.auth.get_available_rooms(user, password);
    login(&env.jwt, &mut env.db, user, rooms, IP, 0)
}

fn login_ok(env: &mut Env) -> Response {
    let body = do_login(env, LOGIN_1, PASSWORD_1).unwrap();
    assert!(!body.access_token.is_empty());
    assert!(!body.refresh_token.is_empty());
    body
}

fn status(r: &Result<Response, Errors>) -> u16 {
    match r {
        Ok(_) => 200,
        Err(e) => e.status_code(),
    }
}

/// What a request with `Authorization: Bearer <token>` to list gates gets.
fn list_status(env: &Env, header: &str) -> u16 {
    match bearer_token(header) {
        Ok(t) => match env.jwt.verify_token(t) {
            Some(_) => 200,
            None => Errors::Unauthorized.status_code(),
        },
        Err(e) => e.status_code(),
    }
}

#[test]
fn got_200_on_success_login() {
    let mut env = init_test_env();
    let r = do_login(&mut env, LOGIN_1, PASSWORD_1);
    assert_eq!(status(&r), 200);
    let body = r.unwrap();
    assert!(!body.access_token.is_empty());
    assert!(!body.refresh_token.is_empty());

    // can get data
    assert_eq!(list_status(&env, &format!("Bearer {}", body.access_token)), 200);

    // can refresh
    let r = refresh(&env.jwt, &mut env.db, &body.refresh_token, IP, 0);
    assert_eq!(status(&r), 200);
    let body = r.unwrap();
    assert!(!body.access_token.is_empty());
    assert!(!body.refresh_token.is_empty());
}

#[test]
fn got_403_on_invalid_login() {
    let mut env = init_test_env();
    let r = do_login(&mut env, "NOT_VALID_LOGIN", "NOT_VALID_PASSWORD");
    assert_eq!(status(&r), 403);
}

#[test]
fn got_200_on_success_refresh() {
    let mut env = init_test_env();
    let r = refresh(&env.jwt, &mut env.db, REFRESH_TOKEN_1, IP, 0);
    assert_eq!(status(&r), 200);
    let body = r.unwrap();
    assert!(!body.access_token.is_empty());
    assert!(!body.refresh_token.is_empty());
}

#[test]
fn multiple_refresh_tokens_are_valid() {
    let mut env = init_test_env();
    let body1 = login_ok(&mut env);
    let body2 = login_ok(&mut env);

    let resp1 = refresh(&env.jwt, &mut env.db, &body1.refresh_token, IP, 0);
    let resp2 = refresh(&env.jwt, &mut env.db, &body2.refresh_token, IP, 0);

    assert_eq!(status(&resp1), 200);
    assert_eq!(status(&resp2), 200);

    let body1 = resp1.unwrap();
    let body2 = resp2.unwrap();
    assert!(!body1.access_token.is_empty());
    assert!(!body1.refresh_token.is_empty());
    assert!(!body2.access_token.is_empty());
    assert!(!body2.refresh_token.is_empty());
}

#[test]
fn got_200_on_success_logout() {
    let mut env = init_test_env();
    let body = login_ok(&mut env);
    let header = format!("Bearer {}", body.access_token);
    let token = env.jwt.verify_token(bearer_token(&header).unwrap()).unwrap();
    let resp = logout(&mut env.db, &token);
    assert!(resp.success);
}

#[test]
fn got_401_on_failed_logout() {
    let env = init_test_env();
    let header = format!("Bearer {}", "NOT_VALID_TOKEN");
    let token = bearer_token(&header).unwrap();
    assert!(env.jwt.verify_token(token).is_none());
    assert_eq!(Errors::Unauthorized.status_code(), 401);
}

#[test]
fn use_refresh_token_only_once() {
    let mut env = init_test_env();
    let r = refresh(&env.jwt, &mut env.db, REFRESH_TOKEN_1, IP, 0);
    assert_eq!(status(&r), 200);
    let r = refresh(&env.jwt, &mut env.db, REFRESH_TOKEN_1, IP, 0);
    assert_eq!(status(&r), 404);
}

#[test]
fn got_404_on_invalid_refresh() {
    let mut env = init_test_env();
    let r = refresh(&env.jwt, &mut env.db, "INVALID_REFRESH_TOKEN", IP, 0);
    assert_eq!(status(&r), 404);
}

fn expired_token() -> String {
    let (access, _, _) = Jwt::new(JWT_SIGN_KEY.to_string())
        .issue_token("admin".to_string(), vec![gate(1, ""), gate(2, "")], 0);
    access
}

#[test]
fn got_401_on_expired_token() {
    let env = init_test_env();
    let token = expired_token();
    assert_eq!(list_status(&env, &format!("Bearer {}", token)), 401);
}

#[test]
fn got_403_on_expired_token() {
    let env = init_test_env();
    let token = expired_token();
    assert_eq!(list_status(&env, &format!("Bearer {}", token)), 401);
}

#[test]
fn open_the_gate() {
    let mut env = init_test_env();
    let (access, _, _) = Jwt::new(JWT_SIGN_KEY.to_string())
        .issue_token("admin".to_string(), vec![gate(1, "bathroom"), gate(2, "kitchen")], 60);
    let token = env.jwt.verify_token(bearer_token(&format!("Bearer {}", access)).unwrap()).unwrap();

    // open the available room
    let r = open_gate(&mut env.db, &token, "bathroom", IP, 0);
    assert_eq!(r.as_ref().map(|g| g.id), Ok(1));

    // open the unavailable room
    let r = open_gate(&mut env.db, &token, "not_found", IP, 0);
    assert_eq!(r.as_ref().map_err(|e| e.status_code()).err(), Some(401));
}

#[test]
fn list_of_gates() {
    let env = init_test_env();
    let given = vec![gate(3, ""), gate(4, ""), gate(10, ""), gate(100, "")];
    let (access, _, _) = Jwt::new(JWT_SIGN_KEY.to_string())
        .issue_token("admin".to_string(), given.clone(), 60);
    let token = env.jwt.verify_token(access).unwrap();
    let body = gates_list(&token);
    assert_eq!(&body.gates, &given);
    for (a, b) in body.gates.iter().zip(given.iter()) {
        assert_eq!(a.name, b.name);
        assert_eq!(a.retries, b.retries);
    }
}

#[test]
fn token_signed_with_one_key_fails_under_another() {
    let (access, refresh_token, session) = Jwt::new("K1".to_string())
        .issue_token("u".to_string(), vec![gate(1, "a")], 60);
    assert_eq!(refresh_token.len(), 36);
    assert_eq!(session.len(), 36);
    assert_eq!(&refresh_token[14..15], "4");
    assert!(refresh_token.chars().enumerate().all(|(i, c)| if [8, 13, 18, 23].contains(&i) { c == '-' } else { c.is_ascii_hexdigit() && !c.is_ascii_uppercase() }));
    assert_ne!(refresh_token, session);
    assert!(Jwt::new("K2".to_string()).verify_token(access.clone()).is_none());
    let t = Jwt::new("K1".to_string()).verify_token(access).unwrap();
    assert_eq!(t.username, "u");
    assert_eq!(t.available_rooms[0].name, "a");
}

fn sample_claims() -> JWTToken {
    JWTToken {
        username: "u".to_string(),
        session_id: "s".to_string(),
        available_rooms: vec![gate(7, "g")],
    }
}

#[test]
fn claims_expiring_now_are_refused() {
    let parts = sample_claims().to_parts();
    assert!(accept_claims(Some((parts.clone(), Some(100))), 100).is_none());
    assert!(accept_claims(Some((parts.clone(), Some(100))), 101).is_none());
    assert!(accept_claims(Some((parts.clone(), None)), 0).is_none());
    assert!(accept_claims(None, 0).is_none());
    let t = accept_claims(Some((parts, Some(100))), 99).unwrap();
    assert_eq!(t.username, "u");
    assert_eq!(t.session_id, "s");
    assert_eq!(t.available_rooms[0].id, 7);
}

#[test]
fn claims_round_trip() {
    let t = JWTToken::from_parts(sample_claims().to_parts());
    assert_eq!(t.username, "u");
    assert_eq!(t.session_id, "s");
    assert_eq!(t.available_rooms, vec![gate(7, "g")]);
    assert_eq!(t.available_rooms[0].name, "g");
}

#[test]
fn logout_revokes_every_refresh_token() {
    let mut env = init_test_env();
    let b1 = login_ok(&mut env);
    let b2 = login_ok(&mut env);
    let token = env.jwt.verify_token(b1.access_token.clone()).unwrap();
    logout(&mut env.db, &token);
    assert_eq!(env.db.len(), 0);
    assert_eq!(status(&refresh(&env.jwt, &mut env.db, &b1.refresh_token, IP, 0)), 404);
    assert_eq!(status(&refresh(&env.jwt, &mut env.db, &b2.refresh_token, IP, 0)), 404);
    assert_eq!(status(&refresh(&env.jwt, &mut env.db, REFRESH_TOKEN_1, IP, 0)), 404);
    // the access token is not revoked
    assert!(env.jwt.verify_token(b1.access_token).is_some());
}

#[test]
fn audit_records_authorized_attempts() {
    let mut env = init_test_env();
    let token = sample_claims();
    assert!(open_gate(&mut env.db, &token, "g", IP, 5).is_ok());
    assert_eq!(Errors::Unauthorized.message(), "Unauthorized access");
    assert!(find_gate(&token, "G").is_none());
    assert_eq!(env.db.event_count(), 1);
}

#[test]
fn bearer_header_errors() {
    assert_eq!(bearer_token(""), Err(HeaderError::MissingType));
    assert_eq!(bearer_token("   "), Err(HeaderError::MissingType));
    assert_eq!(bearer_token("Basic abc"), Err(HeaderError::UnsupportedType));
    assert_eq!(bearer_token("bearer abc"), Err(HeaderError::UnsupportedType));
    assert_eq!(bearer_token("Bearer"), Err(HeaderError::MissingToken));
    assert_eq!(bearer_token("Bearer \t "), Err(HeaderError::MissingToken));
    assert_eq!(bearer_token("  Bearer\tabc.def  extra"), Ok("abc.def".to_string()));
    assert_eq!(HeaderError::MissingToken.status_code(), 400);
    assert_eq!(HeaderError::UnsupportedType.message(), "unsupported Authorization type");
}

#[test]
fn example_scenario_one_group_one_gate() {
    let mut config = Config::default();
    config.gates[0].group = "G1".to_string();
    let ldap = LDAPAuth::new(
        "s".to_string(),
        "b".to_string(),
        "d".to_string(),
        None,
        config.get_mappings(),
    );
    let rooms = ldap.rooms_for_entries(&vec![Some(vec!["G1".to_string()])]);
    let jwt = Jwt::new("key".to_string());
    let mut db = Cache::new();
    let body = login(&jwt, &mut db, "a", rooms, IP, 0).unwrap();
    let token = jwt.verify_token(body.access_token).unwrap();
    assert_eq!(token.available_rooms.len(), 1);
    assert_eq!(token.available_rooms[0].id, 1);
    assert_eq!(token.available_rooms[0].name, "Gate");
    let g = open_gate(&mut db, &token, "Gate", IP, 0).unwrap();
    assert_eq!((g.id, g.retries), (1, 1));
    let e = open_gate(&mut db, &token, "Missing", IP, 0).unwrap_err();
    assert_eq!(e.status_code(), 401);
}

#[test]
fn claims_of_a_new_session_are_signed_as_given() {
    let (user, session, gates) = barrier_backend::jwt::claims_for("u".to_string(), "s".to_string(), vec![gate(4, "n")]);
    assert_eq!(user, "u");
    assert_eq!(session, "s");
    assert_eq!(gates, vec![(4, "n".to_string(), "".to_string(), 1)]);
}
