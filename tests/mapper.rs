use barrier_backend::auth::{Auth, FakeAuth, LDAPAuth};
use barrier_backend::config::{Config, NamedGate, ConfigGate, GroupGates};
use barrier_backend::mapper::{resolve_gates, GroupMapping};
use barrier_backend::order::str_lt;
use barrier_backend::structs::Gate;

fn gate(id: i32, name: &str) -> Gate {
    Gate {
        id,
        retries: 1,
        name: name.to_string(),
        description: format!("d{}", id),
    }
}

fn mappings() -> Vec<GroupMapping> {
    vec![
        GroupMapping { group: "a".to_string(), gates: vec![gate(1, "zeta"), gate(2, "alpha")] },
        GroupMapping { group: "b".to_string(), gates: vec![gate(3, "alpha"), gate(4, "mid")] },
    ]
}

#[test]
fn resolve_sorts_and_dedups_by_name() {
    let groups = vec!["b".to_string(), "unknown".to_string(), "a".to_string()];
    let r = resolve_gates(&groups, &mappings());
    let names: Vec<&str> = r.iter().map(|g| g.name.as_str()).collect();
    assert_eq!(names, vec!["alpha", "mid", "zeta"]);
    // the first gate met with a name is kept
    assert_eq!(r[0].id, 3);
    assert_eq!(r[0].description, "d3");
}

#[test]
fn resolve_of_unknown_groups_is_empty() {
    assert!(resolve_gates(&vec!["x".to_string()], &mappings()).is_empty());
    assert!(resolve_gates(&vec![], &mappings()).is_empty());
    assert!(resolve_gates(&vec!["a".to_string()], &vec![]).is_empty());
}

#[test]
fn name_order_is_lexicographic() {
    assert!(str_lt("a", "b"));
    assert!(str_lt("", "a"));
    assert!(str_lt("ab", "abc"));
    assert!(!str_lt("abc", "ab"));
    assert!(!str_lt("x", "x"));
    assert!(str_lt("Z", "a"));
    assert!(str_lt("é", "ê"));
}

#[test]
fn no_rows_is_a_failed_login_and_unmatched_rows_give_no_gates() {
    let ldap = LDAPAuth::new("s".to_string(), "b".to_string(), "d".to_string(), None, mappings());
    assert!(ldap.rooms_for_entries(&vec![]).is_none());
    assert_eq!(ldap.rooms_for_entries(&vec![None]), Some(vec![]));
    assert_eq!(ldap.rooms_for_entries(&vec![Some(vec!["nope".to_string()])]), Some(vec![]));
    let r = ldap.rooms_for_entries(&vec![None, Some(vec!["a".to_string()])]).unwrap();
    assert_eq!(r.len(), 2);
    assert_eq!(r[0].name, "alpha");
    assert_eq!(r[1].name, "zeta");
}

#[test]
fn mappings_follow_configuration() {
    let mut config = Config::default();
    config.gates.push(GroupGates {
        group: "staff".to_string(),
        gates: vec!["Gate".to_string(), "Unknown".to_string(), "Back".to_string()],
    });
    config.gate_mapping.push(NamedGate {
        name: "Back".to_string(),
        gate: ConfigGate { id: 9, description: "back door".to_string(), retries: 3 },
    });
    let m = config.get_mappings();
    assert_eq!(m.len(), 2);
    assert_eq!(m[0].group, "group");
    assert_eq!(m[0].gates.len(), 1);
    assert_eq!(m[0].gates[0].name, "Gate");
    assert_eq!(m[0].gates[0].description, "Example gate");
    assert_eq!(m[1].group, "staff");
    assert_eq!(m[1].gates.len(), 2);
    assert_eq!(m[1].gates[1].name, "Back");
    assert_eq!((m[1].gates[1].id, m[1].gates[1].retries), (9, 3));
}

#[test]
fn gates_are_equal_by_controller_id() {
    let a = gate(1, "x");
    let mut b = gate(1, "y");
    b.retries = 5;
    assert_eq!(a, b);
    assert_ne!(a, gate(2, "x"));
}

#[test]
fn directory_templates_take_the_username() {
    let ldap = LDAPAuth::new(
        "ldap://host".to_string(),
        "dc=x".to_string(),
        "uid=%(username),ou=people".to_string(),
        Some("(member=%(username))".to_string()),
        vec![],
    );
    assert_eq!(ldap.bind_dn("alice"), "uid=alice,ou=people");
    assert_eq!(ldap.search_filter("bob"), Some("(member=bob)".to_string()));
    assert_eq!(ldap.ldap_server(), "ldap://host");
    assert_eq!(ldap.ldap_base(), "dc=x");
    let plain = LDAPAuth::new("s".to_string(), "b".to_string(), "cn=admin".to_string(), None, vec![]);
    assert_eq!(plain.bind_dn("alice"), "cn=admin");
    assert_eq!(plain.search_filter("alice"), None);
}

#[test]
fn mapping_uniqueness_is_detected() {
    assert!(barrier_backend::mapper::mappings_unique(&mappings()));
    let mut m = mappings();
    m.push(GroupMapping { group: "a".to_string(), gates: vec![] });
    assert!(!barrier_backend::mapper::mappings_unique(&m));
    assert!(barrier_backend::mapper::mappings_unique(&vec![]));
}

#[test]
fn fake_directory_replaces_entries_for_the_same_credentials() {
    let mut auth = FakeAuth::new();
    assert!(auth.get_available_rooms("u", "p").is_none());
    auth.add_user("u", "p", &vec![gate(1, "a")]);
    auth.add_user("v", "p", &vec![gate(2, "b")]);
    auth.add_user("u", "p", &vec![gate(3, "c")]);
    let r = auth.get_available_rooms("u", "p").unwrap();
    assert_eq!(r.len(), 1);
    assert_eq!(r[0].id, 3);
    assert_eq!(auth.get_available_rooms("v", "p").unwrap()[0].id, 2);
    assert!(auth.get_available_rooms("u", "x").is_none());
}
