use vstd::prelude::*;
use crate::mapper::{GroupMapping, groups_unique};
use crate::structs::{Gate, GateView, gates_view};

verus! {

/// Where and how to reach the directory.
pub struct Ldap {
    pub server: String,
    pub base: String,
    pub bind: String,
    pub filter: Option<String>,
}

/// A configured gate, named by the entry that holds it.
pub struct ConfigGate {
    pub id: i32,
    pub description: String,
    pub retries: i32,
}

/// A gate name with its configuration.
pub struct NamedGate {
    pub name: String,
    pub gate: ConfigGate,
}

/// A directory group with the names of the gates it opens.
pub struct GroupGates {
    pub group: String,
    pub gates: Vec<String>,
}

/// The process configuration.
pub struct Config {
    pub listen_addr: String,
    pub jwt_key: String,
    pub mongo_uri: String,
    pub dry_run: bool,
    pub log_level: String,
    pub gate_server: String,
    pub gates: Vec<GroupGates>,
    pub gate_mapping: Vec<NamedGate>,
    pub ldap: Ldap,
}

pub fn default_dry_run() -> (r: bool)
    ensures
        !r,
{
    false
}

pub fn default_log_level() -> (r: String)
    ensures
        r@ == "warn"@,
{
    "warn".to_owned()
}

pub fn default_listen_addr() -> (r: String)
    ensures
        r@ == "127.0.0.1:7000"@,
{
    "127.0.0.1:7000".to_owned()
}

pub fn default_retries() -> (r: i32)
    ensures
        r == 1,
{
    1
}

/// The configured gate that the first entry of `mapping` named `name` describes.
pub open spec fn configured_gate(mapping: Seq<NamedGate>, name: Seq<char>) -> Option<GateView>
    decreases mapping.len(),
{
    if mapping.len() == 0 {
        None
    } else if mapping[0].name@ == name {
        Some(GateView { id: mapping[0].gate.id, name, description: mapping[0].gate.description@, retries: mapping[0].gate.retries })
    } else {
        configured_gate(mapping.drop_first(), name)
    }
}

/// The gates that `names` stand for, in order; names without an entry are
/// dropped.
pub open spec fn configured_gates(names: Seq<Seq<char>>, mapping: Seq<NamedGate>) -> Seq<GateView>
    decreases names.len(),
{
    if names.len() == 0 {
        Seq::empty()
    } else {
        let rest = configured_gates(names.drop_last(), mapping);
        match configured_gate(mapping, names.last()) {
            Some(g) => rest.push(g),
            None => rest,
        }
    }
}

proof fn lemma_configured_gate_found(mapping: Seq<NamedGate>, name: Seq<char>, k: int)
    requires
        0 <= k < mapping.len(),
        mapping[k].name@ == name,
        forall|l: int| 0 <= l < k ==> mapping[l].name@ != name,
    ensures
        configured_gate(mapping, name) == Some(
            GateView { id: mapping[k].gate.id, name, description: mapping[k].gate.description@, retries: mapping[k].gate.retries },
        ),
    decreases k,
{
    if k > 0 {
        lemma_configured_gate_found(mapping.drop_first(), name, k - 1);
    }
}

proof fn lemma_configured_gate_absent(mapping: Seq<NamedGate>, name: Seq<char>)
    requires
        forall|l: int| 0 <= l < mapping.len() ==> mapping[l].name@ != name,
    ensures
        configured_gate(mapping, name) is None,
    decreases mapping.len(),
{
    if mapping.len() > 0 {
        lemma_configured_gate_absent(mapping.drop_first(), name);
    }
}

fn lookup_gate(mapping: &Vec<NamedGate>, name: &String) -> (r: Option<Gate>)
    ensures
        match r {
            Some(g) => configured_gate(mapping@, name@) == Some(g@),
            None => configured_gate(mapping@, name@) is None,
        },
{
    let mut k: usize = 0;
    while k < mapping.len()
        invariant
            k <= mapping@.len(),
            forall|l: int| 0 <= l < k ==> mapping@[l].name@ != name@,
        decreases mapping.len() - k,
    {
        if mapping[k].name == *name {
            proof {
                lemma_configured_gate_found(mapping@, name@, k as int);
            }
            let c = &mapping[k].gate;
            return Some(Gate { id: c.id, name: name.clone(), description: c.description.clone(), retries: c.retries });
        }
        k = k + 1;
    }
    proof {
        lemma_configured_gate_absent(mapping@, name@);
    }
    None
}

impl Config {
    /// No group is listed twice, and no gate name is configured twice.
    pub open spec fn keys_unique(&self) -> bool {
        &&& forall|i: int, j: int|
            0 <= i < j < self.gates@.len() ==> #[trigger] self.gates@[i].group@ != #[trigger] self.gates@[j].group@
        &&& forall|i: int, j: int|
            0 <= i < j < self.gate_mapping@.len() ==> #[trigger] self.gate_mapping@[i].name@
                != #[trigger] self.gate_mapping@[j].name@
    }

    /// For each configured group, the gates its names stand for.
    pub fn get_mappings(&self) -> (r: Vec<GroupMapping>)
        ensures
            r@.len() == self.gates@.len(),
            forall|i: int| 0 <= i < r@.len() ==> (#[trigger] r@[i]).group@ == self.gates@[i].group@
                && gates_view(r@[i].gates@) == configured_gates(
                    self.gates@[i].gates@.map_values(|s: String| s@),
                    self.gate_mapping@,
                ),
            self.keys_unique() ==> groups_unique(r@),
    {
        let mut r: Vec<GroupMapping> = Vec::new();
        let mut i: usize = 0;
        while i < self.gates.len()
            invariant
                i <= self.gates@.len(),
                r@.len() == i,
                forall|q: int| 0 <= q < i ==> (#[trigger] r@[q]).group@ == self.gates@[q].group@
                    && gates_view(r@[q].gates@) == configured_gates(
                        self.gates@[q].gates@.map_values(|s: String| s@),
                        self.gate_mapping@,
                    ),
            decreases self.gates.len() - i,
        {
            let names = &self.gates[i].gates;
            let ghost nv = names@.map_values(|s: String| s@);
            let mut gs: Vec<Gate> = Vec::new();
            let mut j: usize = 0;
            while j < names.len()
                invariant
                    j <= names@.len(),
                    nv == names@.map_values(|s: String| s@),
                    gates_view(gs@) == configured_gates(nv.take(j as int), self.gate_mapping@),
                decreases names.len() - j,
            {
                let found = lookup_gate(&self.gate_mapping, &names[j]);
                proof {
                    assert(nv.take(j + 1).drop_last() =~= nv.take(j as int));
                }
                match found {
                    Some(g) => {
                        gs.push(g);
                        proof {
                            assert(gates_view(gs@) =~= configured_gates(nv.take(j as int), self.gate_mapping@).push(g@));
                        }
                    },
                    None => {},
                }
                j = j + 1;
            }
            proof {
                assert(nv.take(names@.len() as int) =~= nv);
            }
            r.push(GroupMapping { group: self.gates[i].group.clone(), gates: gs });
            i = i + 1;
        }
        r
    }
}

impl Default for Config {
    /// A configuration with placeholders to fill in, and one example group
    /// mapped to one example gate.
    fn default() -> (r: Config)
        ensures
            r.listen_addr@ == "127.0.0.1:7000"@,
            !r.dry_run,
            r.log_level@ == "warn"@,
            r.gates@.len() == 1,
            r.gates@[0].group@ == "group"@,
            r.gates@[0].gates@.len() == 1,
            r.gates@[0].gates@[0]@ == "Gate"@,
            r.gate_mapping@.len() == 1,
            r.gate_mapping@[0].name@ == "Gate"@,
            r.gate_mapping@[0].gate.id == 1,
            r.gate_mapping@[0].gate.description@ == "Example gate"@,
            r.gate_mapping@[0].gate.retries == 1,
            r.keys_unique(),
    {
        let mut names: Vec<String> = Vec::new();
        names.push("Gate".to_owned());
        let mut gates: Vec<GroupGates> = Vec::new();
        gates.push(GroupGates { group: "group".to_owned(), gates: names });
        let mut gate_mapping: Vec<NamedGate> = Vec::new();
        gate_mapping.push(NamedGate {
            name: "Gate".to_owned(),
            gate: ConfigGate { id: 1, description: "Example gate".to_owned(), retries: 1 },
        });
        Config {
            listen_addr: default_listen_addr(),
            jwt_key: "PLEASE FILL JWT KEY".to_owned(),
            mongo_uri: "mongo://please-fill-uri/".to_owned(),
            dry_run: default_dry_run(),
            log_level: default_log_level(),
            gate_server: "PLEASE FILL GATE SERVER ADDRESS".to_owned(),
            gates,
            gate_mapping,
            ldap: Ldap {
                server: "PLEASE FILL LDAP SERVER ADDRESS".to_owned(),
                base: "PLEASE FILL LDAP BASE".to_owned(),
                bind: "PLEASE FILL LDAP BIND".to_owned(),
                filter: Some("PLEASE FILL LDAP FILTER OR DELETE THIS LINE".to_owned()),
            },
        }
    }
}

} // verus!
