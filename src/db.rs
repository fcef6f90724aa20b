use vstd::prelude::*;
use crate::structs::{Gate, GateView, gates_view, clone_gates};

verus! {

/// An outstanding refresh token: who holds it and the gates frozen into it.
#[derive(PartialEq, Eq, Debug)]
pub struct RefreshTokenItem {
    pub username: String,
    pub refresh_token: String,
    pub rooms: Vec<Gate>,
}

pub struct RecordView {
    pub username: Seq<char>,
    pub refresh_token: Seq<char>,
    pub rooms: Seq<GateView>,
}

impl View for RefreshTokenItem {
    type V = RecordView;

    open spec fn view(&self) -> RecordView {
        RecordView {
            username: self.username@,
            refresh_token: self.refresh_token@,
            rooms: gates_view(self.rooms@),
        }
    }
}

/// The kinds of audited events.
pub enum EventType {
    SuccessfulLogin,
    FailedLogin,
    SuccessfulRefresh,
    FailedRefresh,
    SuccessfulGateAccess { gate: String },
    UnauthorizedGateAccess { gate: String },
}

pub open spec fn event_label(e: EventType) -> Seq<char> {
    match e {
        EventType::SuccessfulLogin => "Successful login"@,
        EventType::FailedLogin => "Failed login"@,
        EventType::SuccessfulRefresh => "Successful refresh token"@,
        EventType::FailedRefresh => "Failed refresh token"@,
        EventType::SuccessfulGateAccess { .. } => "Successful access to gate"@,
        EventType::UnauthorizedGateAccess { .. } => "Unauthorized gate access"@,
    }
}

pub open spec fn event_gate(e: EventType) -> Option<Seq<char>> {
    match e {
        EventType::SuccessfulGateAccess { gate } => Some(gate@),
        EventType::UnauthorizedGateAccess { gate } => Some(gate@),
        _ => None,
    }
}

/// One audit record; `date` is in milliseconds since the Unix epoch.
pub struct EventLog {
    pub ip: String,
    pub username: String,
    pub event_type: String,
    pub date: i64,
    pub session_id: String,
    pub gate: Option<String>,
}

pub struct EventLogView {
    pub ip: Seq<char>,
    pub username: Seq<char>,
    pub event_type: Seq<char>,
    pub date: i64,
    pub session_id: Seq<char>,
    pub gate: Option<Seq<char>>,
}

impl View for EventLog {
    type V = EventLogView;

    open spec fn view(&self) -> EventLogView {
        EventLogView {
            ip: self.ip@,
            username: self.username@,
            event_type: self.event_type@,
            date: self.date,
            session_id: self.session_id@,
            gate: match self.gate {
                Some(g) => Some(g@),
                None => None,
            },
        }
    }
}

/// The audit record of `event`.
pub open spec fn log_of(ip: Seq<char>, username: Seq<char>, session_id: Seq<char>, event: EventType, date: i64) -> EventLogView {
    EventLogView { ip, username, event_type: event_label(event), date, session_id, gate: event_gate(event) }
}

/// Builds the audit record of an event.
pub fn event_to_log(ip: &str, username: &str, session_id: &str, event: EventType, date: i64) -> (r: EventLog)
    ensures
        r@ == log_of(ip@, username@, session_id@, event, date),
{
    let ghost e = event;
    let (label, gate) = match event {
        EventType::SuccessfulLogin => ("Successful login", None),
        EventType::FailedLogin => ("Failed login", None),
        EventType::SuccessfulRefresh => ("Successful refresh token", None),
        EventType::FailedRefresh => ("Failed refresh token", None),
        EventType::SuccessfulGateAccess { gate } => ("Successful access to gate", Some(gate)),
        EventType::UnauthorizedGateAccess { gate } => ("Unauthorized gate access", Some(gate)),
    };
    let r = EventLog {
        ip: ip.to_owned(),
        username: username.to_owned(),
        event_type: label.to_owned(),
        date,
        session_id: session_id.to_owned(),
        gate,
    };
    proof {
        assert(r@.gate == event_gate(e));
    }
    r
}

/// The outstanding records keyed by refresh-token value.
pub open spec fn records_of(s: Seq<RefreshTokenItem>) -> Map<Seq<char>, RecordView> {
    Map::new(
        |k: Seq<char>| exists|i: int| 0 <= i < s.len() && #[trigger] s[i].refresh_token@ == k,
        |k: Seq<char>| s[choose|i: int| 0 <= i < s.len() && #[trigger] s[i].refresh_token@ == k]@,
    )
}

pub open spec fn tokens_unique(s: Seq<RefreshTokenItem>) -> bool {
    forall|i: int, j: int|
        0 <= i < s.len() && 0 <= j < s.len() && i != j ==> #[trigger] s[i].refresh_token@ != #[trigger] s[j].refresh_token@
}

/// The records of `m` that do not belong to `username`.
pub open spec fn without_user(m: Map<Seq<char>, RecordView>, username: Seq<char>) -> Map<Seq<char>, RecordView> {
    Map::new(|k: Seq<char>| m.contains_key(k) && m[k].username != username, |k: Seq<char>| m[k])
}

/// The record that `records_of` gives for an item's token is that item's.
proof fn lemma_records_at(s: Seq<RefreshTokenItem>, i: int)
    requires
        tokens_unique(s),
        0 <= i < s.len(),
    ensures
        records_of(s).contains_key(s[i].refresh_token@),
        records_of(s)[s[i].refresh_token@] == s[i]@,
{
    let k = s[i].refresh_token@;
    assert(records_of(s).contains_key(k));
    let j = choose|j: int| 0 <= j < s.len() && #[trigger] s[j].refresh_token@ == k;
    assert(j == i);
}

/// The ledger of refresh tokens, held in memory, with the audit trail.
pub struct Cache {
    items: Vec<RefreshTokenItem>,
    audit: Vec<EventLog>,
}

/// A store of single-use refresh tokens and audit events.
pub trait Db {
    spec fn wf(&self) -> bool;

    /// The outstanding records, keyed by refresh-token value.
    spec fn records(&self) -> Map<Seq<char>, RecordView>;

    /// The audit events written so far, oldest first.
    spec fn events(&self) -> Seq<EventLogView>;

    /// Appends an audit event.
    fn log_event(&mut self, ip: &str, username: &str, session_id: &str, event: EventType, date: i64)
        requires
            old(self).wf(),
        ensures
            final(self).wf(),
            final(self).records() == old(self).records(),
            final(self).events() == old(self).events().push(log_of(ip@, username@, session_id@, event, date)),
    ;

    /// Records a new refresh token for `username` with the gates frozen into it.
    fn store_refresh(&mut self, username: &str, refresh_token: &str, rooms: &Vec<Gate>)
        requires
            old(self).wf(),
        ensures
            final(self).wf(),
            final(self).records() == old(self).records().insert(
                refresh_token@,
                RecordView { username: username@, refresh_token: refresh_token@, rooms: gates_view(rooms@) },
            ),
            final(self).events() == old(self).events(),
    ;

    /// Takes the record of `refresh_token` out of the store, if there is one.
    fn remove_by_refresh_token(&mut self, refresh_token: &str) -> (r: Option<RefreshTokenItem>)
        requires
            old(self).wf(),
        ensures
            final(self).wf(),
            final(self).events() == old(self).events(),
            match r {
                Some(item) => old(self).records().contains_key(refresh_token@)
                    && item@ == old(self).records()[refresh_token@]
                    && final(self).records() == old(self).records().remove(refresh_token@),
                None => !old(self).records().contains_key(refresh_token@)
                    && final(self).records() == old(self).records(),
            },
    ;

    /// Deletes every record of `username`.
    fn remove_by_username(&mut self, username: &str)
        requires
            old(self).wf(),
        ensures
            final(self).wf(),
            final(self).records() == without_user(old(self).records(), username@),
            final(self).events() == old(self).events(),
    ;
}

proof fn lemma_records_remove(s: Seq<RefreshTokenItem>, i: int)
    requires
        tokens_unique(s),
        0 <= i < s.len(),
    ensures
        tokens_unique(s.remove(i)),
        records_of(s.remove(i)) == records_of(s).remove(s[i].refresh_token@),
{
    let t = s.remove(i);
    let k0 = s[i].refresh_token@;
    assert forall|a: int, b: int|
        0 <= a < t.len() && 0 <= b < t.len() && a != b implies #[trigger] t[a].refresh_token@ != #[trigger] t[b].refresh_token@ by {
        let a2 = if a < i { a } else { a + 1 };
        let b2 = if b < i { b } else { b + 1 };
        assert(t[a] == s[a2] && t[b] == s[b2]);
    }
    assert forall|k: Seq<char>| #[trigger] records_of(t).contains_key(k) == records_of(s).remove(k0).contains_key(k) by {
        if records_of(t).contains_key(k) {
            let j = choose|j: int| 0 <= j < t.len() && #[trigger] t[j].refresh_token@ == k;
            let j2 = if j < i { j } else { j + 1 };
            assert(s[j2] == t[j]);
            assert(s[j2].refresh_token@ == k);
        }
        if records_of(s).remove(k0).contains_key(k) {
            let j = choose|j: int| 0 <= j < s.len() && #[trigger] s[j].refresh_token@ == k;
            assert(j != i);
            let j2 = if j < i { j } else { j - 1 };
            assert(t[j2] == s[j]);
            assert(t[j2].refresh_token@ == k);
        }
    }
    assert forall|k: Seq<char>| #[trigger] records_of(t).contains_key(k) implies records_of(t)[k] == records_of(s)[k] by {
        let j = choose|j: int| 0 <= j < t.len() && #[trigger] t[j].refresh_token@ == k;
        let j2 = if j < i { j } else { j + 1 };
        assert(s[j2] == t[j]);
        lemma_records_at(t, j);
        lemma_records_at(s, j2);
    }
    assert(records_of(t) =~= records_of(s).remove(k0));
}

proof fn lemma_records_push(s: Seq<RefreshTokenItem>, x: RefreshTokenItem)
    requires
        tokens_unique(s),
        !records_of(s).contains_key(x.refresh_token@),
    ensures
        tokens_unique(s.push(x)),
        records_of(s.push(x)) == records_of(s).insert(x.refresh_token@, x@),
{
    let t = s.push(x);
    assert forall|a: int, b: int|
        0 <= a < t.len() && 0 <= b < t.len() && a != b implies #[trigger] t[a].refresh_token@ != #[trigger] t[b].refresh_token@ by {
        if a == s.len() {
            assert(t[b] == s[b]);
            if s[b].refresh_token@ == x.refresh_token@ {
                assert(records_of(s).contains_key(x.refresh_token@));
            }
        } else if b == s.len() {
            assert(t[a] == s[a]);
            if s[a].refresh_token@ == x.refresh_token@ {
                assert(records_of(s).contains_key(x.refresh_token@));
            }
        } else {
            assert(t[a] == s[a] && t[b] == s[b]);
        }
    }
    let m = records_of(s).insert(x.refresh_token@, x@);
    assert forall|k: Seq<char>| #[trigger] records_of(t).contains_key(k) == m.contains_key(k) by {
        if records_of(t).contains_key(k) {
            let j = choose|j: int| 0 <= j < t.len() && #[trigger] t[j].refresh_token@ == k;
            if j < s.len() {
                assert(s[j] == t[j]);
                assert(s[j].refresh_token@ == k);
            }
        }
        if records_of(s).contains_key(k) {
            let j = choose|j: int| 0 <= j < s.len() && #[trigger] s[j].refresh_token@ == k;
            assert(t[j] == s[j]);
            assert(t[j].refresh_token@ == k);
        }
        if k == x.refresh_token@ {
            assert(t[s.len() as int].refresh_token@ == k);
        }
    }
    assert forall|k: Seq<char>| #[trigger] records_of(t).contains_key(k) implies records_of(t)[k] == m[k] by {
        let j = choose|j: int| 0 <= j < t.len() && #[trigger] t[j].refresh_token@ == k;
        lemma_records_at(t, j);
        if j < s.len() {
            assert(s[j] == t[j]);
            lemma_records_at(s, j);
        }
    }
    assert(records_of(t) =~= m);
}

proof fn lemma_records_len(s: Seq<RefreshTokenItem>)
    requires
        tokens_unique(s),
    ensures
        records_of(s).dom().finite(),
        records_of(s).len() == s.len(),
{
    let keys = s.map_values(|r: RefreshTokenItem| r.refresh_token@);
    assert forall|a: int, b: int| 0 <= a < keys.len() && 0 <= b < keys.len() && a != b implies keys[a] != keys[b] by {
        assert(keys[a] == s[a].refresh_token@ && keys[b] == s[b].refresh_token@);
    }
    keys.unique_seq_to_set();
    assert forall|k: Seq<char>| #[trigger] records_of(s).dom().contains(k) == keys.to_set().contains(k) by {
        if records_of(s).dom().contains(k) {
            let j = choose|j: int| 0 <= j < s.len() && #[trigger] s[j].refresh_token@ == k;
            assert(keys[j] == k);
        }
        if keys.to_set().contains(k) {
            let j = choose|j: int| 0 <= j < keys.len() && keys[j] == k;
            assert(s[j].refresh_token@ == k);
        }
    }
    assert(records_of(s).dom() =~= keys.to_set());
}

impl Cache {
    /// An empty store with an empty audit trail.
    pub fn new() -> (r: Cache)
        ensures
            r.wf(),
            r.records() == Map::<Seq<char>, RecordView>::empty(),
            r.events() == Seq::<EventLogView>::empty(),
    {
        let r = Cache { items: Vec::new(), audit: Vec::new() };
        assert(r.records() =~= Map::<Seq<char>, RecordView>::empty());
        assert(r.events() =~= Seq::<EventLogView>::empty());
        r
    }

    /// The number of outstanding records.
    pub fn len(&self) -> (r: usize)
        requires
            self.wf(),
        ensures
            r == self.records().len(),
    {
        proof {
            lemma_records_len(self.items@);
        }
        self.items.len()
    }

    /// The number of audit events written.
    pub fn event_count(&self) -> (r: usize)
        ensures
            r == self.events().len(),
    {
        self.audit.len()
    }

    fn find(&self, refresh_token: &str) -> (r: Option<usize>)
        requires
            self.wf(),
        ensures
            match r {
                Some(i) => i < self.items@.len() && self.items@[i as int].refresh_token@ == refresh_token@,
                None => !self.records().contains_key(refresh_token@),
            },
    {
        let t = refresh_token.to_owned();
        let mut i: usize = 0;
        while i < self.items.len()
            invariant
                i <= self.items@.len(),
                t@ == refresh_token@,
                forall|j: int| 0 <= j < i ==> #[trigger] self.items@[j].refresh_token@ != t@,
            decreases self.items.len() - i,
        {
            if self.items[i].refresh_token == t {
                return Some(i);
            }
            i = i + 1;
        }
        None
    }
}

impl Db for Cache {
    closed spec fn wf(&self) -> bool {
        tokens_unique(self.items@)
    }

    closed spec fn records(&self) -> Map<Seq<char>, RecordView> {
        records_of(self.items@)
    }

    closed spec fn events(&self) -> Seq<EventLogView> {
        self.audit@.map_values(|e: EventLog| e@)
    }

    fn log_event(&mut self, ip: &str, username: &str, session_id: &str, event: EventType, date: i64) {
        let e = event_to_log(ip, username, session_id, event, date);
        self.audit.push(e);
        assert(self.events() =~= old(self).events().push(e@));
    }

    fn store_refresh(&mut self, username: &str, refresh_token: &str, rooms: &Vec<Gate>) {
        match self.find(refresh_token) {
            Some(i) => {
                proof {
                    lemma_records_remove(self.items@, i as int);
                }
                self.items.remove(i);
            },
            None => {},
        }
        let item = RefreshTokenItem {
            username: username.to_owned(),
            refresh_token: refresh_token.to_owned(),
            rooms: clone_gates(rooms),
        };
        proof {
            lemma_records_push(self.items@, item);
        }
        self.items.push(item);
        proof {
            assert(records_of(self.items@) =~= old(self).records().insert(refresh_token@, item@));
        }
    }

    fn remove_by_refresh_token(&mut self, refresh_token: &str) -> (r: Option<RefreshTokenItem>) {
        match self.find(refresh_token) {
            Some(i) => {
                proof {
                    lemma_records_remove(self.items@, i as int);
                    lemma_records_at(self.items@, i as int);
                }
                let item = self.items.remove(i);
                Some(item)
            },
            None => None,
        }
    }

    fn remove_by_username(&mut self, username: &str) {
        let u = username.to_owned();
        let mut kept: Vec<RefreshTokenItem> = Vec::new();
        let ghost src = self.items@;
        let ghost m = records_of(src);
        while self.items.len() > 0
            invariant
                tokens_unique(self.items@),
                tokens_unique(kept@),
                self.audit@ == old(self).audit@,
                u@ == username@,
                m == records_of(src),
                tokens_unique(src),
                forall|k: Seq<char>| #[trigger] records_of(kept@).contains_key(k) ==> !records_of(self.items@).contains_key(k),
                forall|k: Seq<char>| #[trigger] without_user(m, u@).contains_key(k) <==> (
                    records_of(kept@).contains_key(k) || (records_of(self.items@).contains_key(k)
                        && records_of(self.items@)[k].username != u@)),
                forall|k: Seq<char>| #[trigger] records_of(kept@).contains_key(k) ==> records_of(kept@)[k] == m[k],
                forall|k: Seq<char>| #[trigger] records_of(self.items@).contains_key(k) ==> records_of(self.items@)[k] == m[k],
            decreases self.items.len(),
        {
            let last = (self.items.len() - 1) as usize;
            proof {
                lemma_records_remove(self.items@, last as int);
                lemma_records_at(self.items@, last as int);
            }
            let item = self.items.remove(last);
            if item.username != u {
                proof {
                    lemma_records_push(kept@, item);
                }
                kept.push(item);
            }
        }
        self.items = kept;
        proof {
            assert(records_of(self.items@) =~= without_user(m, u@));
        }
    }
}

} // verus!
