use vstd::prelude::*;
use crate::mapper::{GroupMapping, groups_unique, flat_gates, is_authorization_of, resolve_gates, strings_view};
use crate::structs::{Gate, GateView, clone_gates, gates_view};

verus! {

/// A directory that checks credentials and tells which gates their owner may
/// operate (`None` when it rejects them).
pub trait Auth {
    fn get_available_rooms(&self, username: &str, password: &str) -> Option<Vec<Gate>>;
}

/// The settings of an LDAP directory and the group-to-gate mappings.
pub struct LDAPAuth {
    ldap_server: String,
    ldap_base: String,
    ldap_bind: String,
    ldap_filter: Option<String>,
    gate_mappings: Vec<GroupMapping>,
}

/// The text `s` with every occurrence of `from` replaced by `to`.
pub uninterp spec fn replaced(s: Seq<char>, from: Seq<char>, to: Seq<char>) -> Seq<char>;

/// Relies on std's str::replace: every non-overlapping occurrence of `from`,
/// left to right, is replaced by `to`; the result depends on the three texts
/// alone.
#[verifier::external_body]
fn replace_all(s: &str, from: &str, to: &str) -> (r: String)
    ensures
        r@ == replaced(s@, from@, to@),
{
    s.replace(from, to)
}

/// The placeholder that stands for the user's name in directory templates.
pub const USERNAME_PLACEHOLDER: &'static str = "%(username)";

/// The group names of the directory's result rows, row by row; a row
/// without the group attribute adds none.
pub open spec fn entry_groups(entries: Seq<Option<Vec<String>>>) -> Seq<Seq<char>>
    decreases entries.len(),
{
    if entries.len() == 0 {
        Seq::empty()
    } else {
        entry_groups(entries.drop_last()) + match entries.last() {
            Some(v) => strings_view(v@),
            None => Seq::empty(),
        }
    }
}

impl LDAPAuth {
    pub fn new(
        ldap_server: String,
        ldap_base: String,
        ldap_bind: String,
        ldap_filter: Option<String>,
        gate_mappings: Vec<GroupMapping>,
    ) -> (r: LDAPAuth)
        requires
            groups_unique(gate_mappings@),
        ensures
            r.server() == ldap_server@,
            r.base() == ldap_base@,
            r.bind() == ldap_bind@,
            r.mappings() == gate_mappings@,
            r.filter() == (match ldap_filter {
                Some(f) => Some(f@),
                None => None::<Seq<char>>,
            }),
    {
        LDAPAuth { ldap_server, ldap_base, ldap_bind, ldap_filter, gate_mappings }
    }

    /// Each group is mapped once.
    #[verifier::type_invariant]
    spec fn inv(&self) -> bool {
        groups_unique(self.gate_mappings@)
    }

    pub closed spec fn server(&self) -> Seq<char> {
        self.ldap_server@
    }

    pub closed spec fn base(&self) -> Seq<char> {
        self.ldap_base@
    }

    pub closed spec fn bind(&self) -> Seq<char> {
        self.ldap_bind@
    }

    pub closed spec fn mappings(&self) -> Seq<GroupMapping> {
        self.gate_mappings@
    }

    pub fn ldap_server(&self) -> (r: &String)
        ensures
            r@ == self.server(),
    {
        &self.ldap_server
    }

    pub fn ldap_base(&self) -> (r: &String)
        ensures
            r@ == self.base(),
    {
        &self.ldap_base
    }

    /// The bind DN for `username`: the bind template with the placeholder
    /// filled in.
    pub fn bind_dn(&self, username: &str) -> (r: String)
        ensures
            r@ == replaced(self.bind(), USERNAME_PLACEHOLDER@, username@),
    {
        replace_all(self.ldap_bind.as_str(), USERNAME_PLACEHOLDER, username)
    }

    /// The search filter for `username`, if one is configured: the filter
    /// template with the placeholder filled in.
    pub fn search_filter(&self, username: &str) -> (r: Option<String>)
        ensures
            r is Some == self.filter() is Some,
            r is Some ==> r->0@ == replaced(self.filter()->0, USERNAME_PLACEHOLDER@, username@),
    {
        match &self.ldap_filter {
            Some(f) => Some(replace_all(f.as_str(), USERNAME_PLACEHOLDER, username)),
            None => None,
        }
    }

    pub closed spec fn filter(&self) -> Option<Seq<char>> {
        match self.ldap_filter {
            Some(f) => Some(f@),
            None => None,
        }
    }

    /// The gates of a user whose directory search returned `entries`, each
    /// the group attribute of one result row: no rows at all is a failed
    /// login; otherwise the groups of all rows are resolved, and rows that
    /// match no gate give a login with no gates.
    pub fn rooms_for_entries(&self, entries: &Vec<Option<Vec<String>>>) -> (r: Option<Vec<Gate>>)
        ensures
            entries@.len() == 0 ==> r is None,
            entries@.len() > 0 ==> r is Some && is_authorization_of(
                flat_gates(entry_groups(entries@), self.mappings()),
                gates_view(r->0@),
            ),
    {
        if entries.len() == 0 {
            return None;
        }
        let mut groups: Vec<String> = Vec::new();
        let mut i: usize = 0;
        while i < entries.len()
            invariant
                i <= entries@.len(),
                strings_view(groups@) == entry_groups(entries@.take(i as int)),
            decreases entries.len() - i,
        {
            let ghost before = strings_view(groups@);
            proof {
                assert(entries@.take(i + 1).drop_last() =~= entries@.take(i as int));
            }
            match &entries[i] {
                Some(v) => {
                    let mut j: usize = 0;
                    while j < v.len()
                        invariant
                            j <= v@.len(),
                            strings_view(groups@) == before + strings_view(v@.take(j as int)),
                        decreases v.len() - j,
                    {
                        let ghost g0 = groups@;
                        groups.push(v[j].clone());
                        proof {
                            assert(strings_view(groups@) =~= strings_view(g0).push(v@[j as int]@));
                            assert(strings_view(v@.take(j + 1)) =~= strings_view(v@.take(j as int)).push(v@[j as int]@));
                            assert(strings_view(groups@) =~= before + strings_view(v@.take(j + 1)));
                        }
                        j = j + 1;
                    }
                    proof {
                        assert(v@.take(v@.len() as int) =~= v@);
                    }
                },
                None => {
                    proof {
                        assert(before =~= before + Seq::<Seq<char>>::empty());
                    }
                },
            }
            i = i + 1;
        }
        proof {
            assert(entries@.take(entries@.len() as int) =~= entries@);
        }
        Some(resolve_gates(&groups, &self.gate_mappings))
    }
}

/// One user of the in-memory directory.
pub struct FakeUser {
    pub login: String,
    pub password: String,
    pub rooms: Vec<Gate>,
}

/// A directory held in memory, for tests and demonstrations.
pub struct FakeAuth {
    users: Vec<FakeUser>,
}

/// `u` holds an entry for these credentials at index `i`.
pub open spec fn holds(u: Seq<FakeUser>, i: int, login: Seq<char>, password: Seq<char>) -> bool {
    0 <= i < u.len() && u[i].login@ == login && u[i].password@ == password
}

/// The gates of the first entry for these credentials.
pub open spec fn fake_lookup(users: Seq<FakeUser>, login: Seq<char>, password: Seq<char>) -> Option<Seq<GateView>>
    decreases users.len(),
{
    if users.len() == 0 {
        None
    } else if users[0].login@ == login && users[0].password@ == password {
        Some(gates_view(users[0].rooms@))
    } else {
        fake_lookup(users.drop_first(), login, password)
    }
}

/// No two entries are for the same credentials.
pub open spec fn credentials_unique(u: Seq<FakeUser>) -> bool {
    forall|i: int, j: int|
        0 <= i < j < u.len() ==> !(#[trigger] u[i].login@ == #[trigger] u[j].login@ && u[i].password@ == u[j].password@)
}

proof fn lemma_lookup_found(u: Seq<FakeUser>, login: Seq<char>, password: Seq<char>, k: int)
    requires
        holds(u, k, login, password),
        forall|l: int| 0 <= l < k ==> !holds(u, l, login, password),
    ensures
        fake_lookup(u, login, password) == Some(gates_view(u[k].rooms@)),
    decreases k,
{
    if k > 0 {
        assert(!holds(u, 0, login, password));
        assert forall|l: int| 0 <= l < k - 1 implies !holds(u.drop_first(), l, login, password) by {
            assert(!holds(u, l + 1, login, password));
        }
        lemma_lookup_found(u.drop_first(), login, password, k - 1);
    }
}

proof fn lemma_lookup_absent(u: Seq<FakeUser>, login: Seq<char>, password: Seq<char>)
    requires
        forall|l: int| 0 <= l < u.len() ==> !holds(u, l, login, password),
    ensures
        fake_lookup(u, login, password) is None,
    decreases u.len(),
{
    if u.len() > 0 {
        assert(!holds(u, 0, login, password));
        assert forall|l: int| 0 <= l < u.len() - 1 implies !holds(u.drop_first(), l, login, password) by {
            assert(!holds(u, l + 1, login, password));
        }
        lemma_lookup_absent(u.drop_first(), login, password);
    }
}

/// Changing entries that hold other credentials leaves a lookup as it was.
proof fn lemma_lookup_same(u: Seq<FakeUser>, v: Seq<FakeUser>, login: Seq<char>, password: Seq<char>)
    requires
        u.len() <= v.len(),
        forall|i: int| 0 <= i < u.len() ==> (#[trigger] holds(u, i, login, password) <==> holds(v, i, login, password)),
        forall|i: int| 0 <= i < u.len() && holds(u, i, login, password) ==> #[trigger] u[i].rooms@ == v[i].rooms@,
        forall|i: int| u.len() <= i < v.len() ==> !(#[trigger] holds(v, i, login, password)),
    ensures
        fake_lookup(v, login, password) == fake_lookup(u, login, password),
    decreases u.len(),
{
    if exists|i: int| holds(u, i, login, password) {
        let k = choose|i: int| holds(u, i, login, password);
        let f = first_holding(u, login, password, k);
        lemma_lookup_found(u, login, password, f);
        assert forall|l: int| 0 <= l < f implies !holds(v, l, login, password) by {
            assert(!holds(u, l, login, password));
        }
        assert(holds(v, f, login, password));
        lemma_lookup_found(v, login, password, f);
    } else {
        lemma_lookup_absent(u, login, password);
        assert forall|l: int| 0 <= l < v.len() implies !holds(v, l, login, password) by {
            if l < u.len() {
                assert(!holds(u, l, login, password));
            }
        }
        lemma_lookup_absent(v, login, password);
    }
}

/// The first index at or below `k` that holds the credentials.
proof fn first_holding(u: Seq<FakeUser>, login: Seq<char>, password: Seq<char>, k: int) -> (f: int)
    requires
        holds(u, k, login, password),
    ensures
        holds(u, f, login, password),
        forall|l: int| 0 <= l < f ==> !holds(u, l, login, password),
    decreases k,
{
    if exists|l: int| 0 <= l < k && holds(u, l, login, password) {
        let l = choose|l: int| 0 <= l < k && holds(u, l, login, password);
        first_holding(u, login, password, l)
    } else {
        k
    }
}

impl FakeAuth {
    pub closed spec fn lookup(&self, login: Seq<char>, password: Seq<char>) -> Option<Seq<GateView>> {
        fake_lookup(self.users@, login, password)
    }

    /// Each pair of credentials has one entry.
    pub closed spec fn wf(&self) -> bool {
        credentials_unique(self.users@)
    }

    /// A directory without users.
    pub fn new() -> (r: FakeAuth)
        ensures
            r.wf(),
            forall|l: Seq<char>, p: Seq<char>| r.lookup(l, p) is None,
    {
        FakeAuth { users: Vec::new() }
    }

    /// The index of the first entry for these credentials.
    fn position(&self, login: &String, password: &String) -> (r: Option<usize>)
        ensures
            match r {
                Some(i) => holds(self.users@, i as int, login@, password@)
                    && forall|l: int| 0 <= l < i ==> !holds(self.users@, l, login@, password@),
                None => forall|l: int| 0 <= l < self.users@.len() ==> !holds(self.users@, l, login@, password@),
            },
    {
        let mut i: usize = 0;
        while i < self.users.len()
            invariant
                i <= self.users@.len(),
                forall|l: int| 0 <= l < i ==> !holds(self.users@, l, login@, password@),
            decreases self.users.len() - i,
        {
            if self.users[i].login == *login && self.users[i].password == *password {
                return Some(i);
            }
            i = i + 1;
        }
        None
    }

    /// Adds a user, or replaces the gates of the one with the same
    /// credentials.
    pub fn add_user(&mut self, login: &str, password: &str, available_rooms: &Vec<Gate>)
        requires
            old(self).wf(),
        ensures
            final(self).wf(),
            final(self).lookup(login@, password@) == Some(gates_view(available_rooms@)),
            forall|l: Seq<char>, p: Seq<char>|
                !(l == login@ && p == password@) ==> #[trigger] final(self).lookup(l, p) == old(self).lookup(l, p),
    {
        let lg = login.to_owned();
        let pw = password.to_owned();
        let entry = FakeUser { login: lg.clone(), password: pw.clone(), rooms: clone_gates(available_rooms) };
        let ghost u = self.users@;
        match self.position(&lg, &pw) {
            Some(i) => {
                self.users.set(i, entry);
                proof {
                    let v = self.users@;
                    assert forall|a: int, b: int| 0 <= a < b < v.len() implies !(#[trigger] v[a].login@ == #[trigger] v[b].login@
                        && v[a].password@ == v[b].password@) by {
                        if a != i && b != i {
                            assert(v[a] == u[a] && v[b] == u[b]);
                        } else if a == i {
                            assert(v[b] == u[b]);
                            assert(!(u[i as int].login@ == u[b].login@ && u[i as int].password@ == u[b].password@));
                        } else {
                            assert(v[a] == u[a]);
                            assert(!(u[a].login@ == u[i as int].login@ && u[a].password@ == u[i as int].password@));
                        }
                    }
                    assert forall|l: int| 0 <= l < i implies !holds(v, l, login@, password@) by {
                        assert(v[l] == u[l]);
                    }
                    lemma_lookup_found(v, login@, password@, i as int);
                    assert forall|l: Seq<char>, p: Seq<char>|
                        !(l == login@ && p == password@) implies #[trigger] fake_lookup(v, l, p) == fake_lookup(u, l, p) by {
                        assert forall|k: int| 0 <= k < u.len() implies (#[trigger] holds(u, k, l, p) <==> holds(v, k, l, p)) by {
                            if k != i {
                                assert(v[k] == u[k]);
                            }
                        }
                        assert forall|k: int| 0 <= k < u.len() && holds(u, k, l, p) implies #[trigger] u[k].rooms@ == v[k].rooms@ by {
                            if k != i {
                                assert(v[k] == u[k]);
                            }
                        }
                        lemma_lookup_same(u, v, l, p);
                    }
                }
            },
            None => {
                self.users.push(entry);
                proof {
                    let v = self.users@;
                    assert forall|a: int, b: int| 0 <= a < b < v.len() implies !(#[trigger] v[a].login@ == #[trigger] v[b].login@
                        && v[a].password@ == v[b].password@) by {
                        assert(v[a] == u[a]);
                        if b < u.len() {
                            assert(v[b] == u[b]);
                        } else {
                            assert(!holds(u, a, login@, password@));
                        }
                    }
                    assert forall|l: int| 0 <= l < u.len() implies !holds(v, l, login@, password@) by {
                        assert(v[l] == u[l]);
                        assert(!holds(u, l, lg@, pw@));
                    }
                    lemma_lookup_found(v, login@, password@, u.len() as int);
                    assert forall|l: Seq<char>, p: Seq<char>|
                        !(l == login@ && p == password@) implies #[trigger] fake_lookup(v, l, p) == fake_lookup(u, l, p) by {
                        assert forall|k: int| 0 <= k < u.len() implies (#[trigger] holds(u, k, l, p) <==> holds(v, k, l, p)) by {
                            assert(v[k] == u[k]);
                        }
                        assert forall|k: int| 0 <= k < u.len() && holds(u, k, l, p) implies #[trigger] u[k].rooms@ == v[k].rooms@ by {
                            assert(v[k] == u[k]);
                        }
                        lemma_lookup_same(u, v, l, p);
                    }
                }
            },
        }
    }

    /// The gates of the user with these credentials, if there is one.
    pub fn find_rooms(&self, username: &str, password: &str) -> (r: Option<Vec<Gate>>)
        ensures
            match r {
                Some(v) => self.lookup(username@, password@) == Some(gates_view(v@)),
                None => self.lookup(username@, password@) is None,
            },
    {
        let u = username.to_owned();
        let p = password.to_owned();
        match self.position(&u, &p) {
            Some(i) => {
                proof {
                    lemma_lookup_found(self.users@, username@, password@, i as int);
                }
                Some(clone_gates(&self.users[i].rooms))
            },
            None => {
                proof {
                    lemma_lookup_absent(self.users@, username@, password@);
                }
                None
            },
        }
    }
}

impl Auth for FakeAuth {
    fn get_available_rooms(&self, username: &str, password: &str) -> Option<Vec<Gate>> {
        self.find_rooms(username, password)
    }
}

} // verus!
