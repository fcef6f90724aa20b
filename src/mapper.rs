use vstd::prelude::*;
use crate::order::{seq_lt, str_lt, lemma_lt_irreflexive, lemma_lt_trichotomy, lemma_lt_transitive};
use crate::structs::{Gate, GateView, gates_view};

verus! {

/// The gates that members of one directory group may operate.
pub struct GroupMapping {
    pub group: String,
    pub gates: Vec<Gate>,
}

/// No two mappings are for the same group.
pub open spec fn groups_unique(m: Seq<GroupMapping>) -> bool {
    forall|i: int, j: int| 0 <= i < j < m.len() ==> #[trigger] m[i].group@ != #[trigger] m[j].group@
}

/// Whether no two mappings of `m` are for the same group.
pub fn mappings_unique(m: &Vec<GroupMapping>) -> (r: bool)
    ensures
        r == groups_unique(m@),
{
    let mut i: usize = 0;
    while i < m.len()
        invariant
            i <= m@.len(),
            forall|a: int, b: int| 0 <= a < b < m@.len() && a < i ==> #[trigger] m@[a].group@ != #[trigger] m@[b].group@,
        decreases m.len() - i,
    {
        let mut j: usize = i + 1;
        while j < m.len()
            invariant
                i < m@.len(),
                i + 1 <= j <= m@.len(),
                forall|a: int, b: int| 0 <= a < b < m@.len() && a < i ==> #[trigger] m@[a].group@ != #[trigger] m@[b].group@,
                forall|b: int| i < b < j ==> m@[i as int].group@ != #[trigger] m@[b].group@,
            decreases m.len() - j,
        {
            if m[i].group == m[j].group {
                return false;
            }
            j = j + 1;
        }
        i = i + 1;
    }
    true
}

/// The views of a sequence of strings.
pub open spec fn strings_view(s: Seq<String>) -> Seq<Seq<char>> {
    s.map_values(|x: String| x@)
}

/// The gates configured for `group`: those of the first mapping for it, none
/// for a group that no mapping names.
pub open spec fn mapped_gates(m: Seq<GroupMapping>, group: Seq<char>) -> Seq<GateView>
    decreases m.len(),
{
    if m.len() == 0 {
        Seq::empty()
    } else if m[0].group@ == group {
        gates_view(m[0].gates@)
    } else {
        mapped_gates(m.drop_first(), group)
    }
}

/// All gates matched by `groups`, group by group, in order and with repeats.
pub open spec fn flat_gates(groups: Seq<Seq<char>>, m: Seq<GroupMapping>) -> Seq<GateView>
    decreases groups.len(),
{
    if groups.len() == 0 {
        Seq::empty()
    } else {
        flat_gates(groups.drop_last(), m) + mapped_gates(m, groups.last())
    }
}

/// Strictly increasing names: sorted, and no name twice.
pub open spec fn sorted_by_name(r: Seq<GateView>) -> bool {
    forall|a: int, b: int| 0 <= a < b < r.len() ==> seq_lt(#[trigger] r[a].name, #[trigger] r[b].name)
}

pub open spec fn has_name(r: Seq<GateView>, n: Seq<char>) -> bool {
    exists|k: int| 0 <= k < r.len() && #[trigger] r[k].name == n
}

/// `g` is the first gate of `flat` that bears its name.
pub open spec fn first_with_name(flat: Seq<GateView>, g: GateView) -> bool {
    exists|j: int|
        0 <= j < flat.len() && #[trigger] flat[j] == g && forall|l: int| 0 <= l < j ==> flat[l].name != g.name
}

/// `r` is the authorization set drawn from `flat`: one gate per name found in
/// `flat` (the first with that name), sorted by name.
pub open spec fn is_authorization_of(flat: Seq<GateView>, r: Seq<GateView>) -> bool {
    &&& sorted_by_name(r)
    &&& forall|k: int| 0 <= k < r.len() ==> first_with_name(flat, #[trigger] r[k])
    &&& forall|j: int| 0 <= j < flat.len() ==> has_name(r, #[trigger] flat[j].name)
}

proof fn lemma_mapped_found(m: Seq<GroupMapping>, group: Seq<char>, k: int)
    requires
        0 <= k < m.len(),
        m[k].group@ == group,
        forall|l: int| 0 <= l < k ==> m[l].group@ != group,
    ensures
        mapped_gates(m, group) == gates_view(m[k].gates@),
    decreases k,
{
    if k > 0 {
        lemma_mapped_found(m.drop_first(), group, k - 1);
    }
}

proof fn lemma_mapped_absent(m: Seq<GroupMapping>, group: Seq<char>)
    requires
        forall|l: int| 0 <= l < m.len() ==> m[l].group@ != group,
    ensures
        mapped_gates(m, group) == Seq::<GateView>::empty(),
    decreases m.len(),
{
    if m.len() > 0 {
        lemma_mapped_absent(m.drop_first(), group);
    }
}

/// The index of the first mapping for `group`.
fn find_mapping(m: &Vec<GroupMapping>, group: &String) -> (r: Option<usize>)
    ensures
        match r {
            Some(k) => k < m@.len() && m@[k as int].group@ == group@ && mapped_gates(m@, group@)
                == gates_view(m@[k as int].gates@),
            None => mapped_gates(m@, group@) == Seq::<GateView>::empty(),
        },
{
    let mut k: usize = 0;
    while k < m.len()
        invariant
            k <= m.len(),
            forall|l: int| 0 <= l < k ==> m@[l].group@ != group@,
        decreases m.len() - k,
    {
        if m[k].group == *group {
            proof {
                lemma_mapped_found(m@, group@, k as int);
            }
            return Some(k);
        }
        k = k + 1;
    }
    proof {
        lemma_mapped_absent(m@, group@);
    }
    None
}

/// Every gate that `groups` reach through `m`, in order, repeats kept.
fn collect_gates(groups: &Vec<String>, m: &Vec<GroupMapping>) -> (r: Vec<Gate>)
    ensures
        gates_view(r@) == flat_gates(strings_view(groups@), m@),
{
    let ghost sv = strings_view(groups@);
    let mut flat: Vec<Gate> = Vec::new();
    let mut i: usize = 0;
    while i < groups.len()
        invariant
            i <= groups.len(),
            sv == strings_view(groups@),
            gates_view(flat@) == flat_gates(sv.take(i as int), m@),
        decreases groups.len() - i,
    {
        let ghost before = gates_view(flat@);
        match find_mapping(m, &groups[i]) {
            Some(k) => {
                let src = &m[k].gates;
                let base = flat.len();
                let mut j: usize = 0;
                while j < src.len()
                    invariant
                        j <= src.len(),
                        flat.len() == base + j,
                        before.len() == base,
                        forall|q: int| 0 <= q < base ==> #[trigger] flat@[q]@ == before[q],
                        forall|q: int| 0 <= q < j ==> #[trigger] flat@[base + q]@ == src@[q]@,
                    decreases src.len() - j,
                {
                    flat.push(src[j].cloned());
                    j = j + 1;
                }
                proof {
                    assert forall|q: int| base <= q < flat.len() implies #[trigger] flat@[q]@ == src@[q - base]@ by {
                        assert(flat@[base + (q - base)]@ == src@[q - base]@);
                    }
                    assert(gates_view(flat@) =~= before + gates_view(src@));
                }
            },
            None => {},
        }
        proof {
            assert(sv.take(i + 1).drop_last() =~= sv.take(i as int));
            assert(sv.take(i + 1).last() == groups@[i as int]@);
        }
        i = i + 1;
    }
    proof {
        assert(sv.take(groups.len() as int) =~= sv);
    }
    flat
}

proof fn lemma_has_name_insert(r: Seq<GateView>, k: int, x: GateView, n: Seq<char>)
    requires
        0 <= k <= r.len(),
        has_name(r, n),
    ensures
        has_name(r.insert(k, x), n),
{
    let w = choose|w: int| 0 <= w < r.len() && #[trigger] r[w].name == n;
    if w < k {
        assert(r.insert(k, x)[w].name == n);
    } else {
        assert(r.insert(k, x)[w + 1].name == n);
    }
}

/// Resolves the gates of a user from the names of the directory groups they
/// belong to: unknown groups are dropped, the matched gates are merged, one
/// gate is kept per name (the first met), and the result is sorted by name.
pub fn resolve_gates(groups: &Vec<String>, m: &Vec<GroupMapping>) -> (r: Vec<Gate>)
    ensures
        is_authorization_of(flat_gates(strings_view(groups@), m@), gates_view(r@)),
{
    let flat = collect_gates(groups, m);
    let ghost fv = gates_view(flat@);
    let mut out: Vec<Gate> = Vec::new();
    let ghost idx: Seq<int> = Seq::empty();
    let mut i: usize = 0;
    while i < flat.len()
        invariant
            i <= flat.len(),
            fv == gates_view(flat@),
            sorted_by_name(gates_view(out@)),
            idx.len() == out.len(),
            forall|k: int|
                0 <= k < out.len() ==> 0 <= #[trigger] idx[k] < i && fv[idx[k]] == out@[k]@
                    && forall|l: int| 0 <= l < idx[k] ==> fv[l].name != out@[k].name@,
            forall|j: int| 0 <= j < i ==> has_name(gates_view(out@), #[trigger] fv[j].name),
        decreases flat.len() - i,
    {
        let x = &flat[i];
        let ghost ov = gates_view(out@);
        let mut k: usize = 0;
        while k < out.len() && str_lt(&out[k].name, &x.name)
            invariant
                k <= out.len(),
                ov == gates_view(out@),
                forall|q: int| 0 <= q < k ==> seq_lt(#[trigger] ov[q].name, x.name@),
            decreases out.len() - k,
        {
            k = k + 1;
        }
        if k < out.len() && out[k].name == x.name {
            proof {
                assert(ov[k as int].name == fv[i as int].name);
            }
        } else {
            proof {
                if k < out.len() {
                    lemma_lt_trichotomy(ov[k as int].name, x.name@);
                    assert forall|q: int| k <= q < ov.len() implies seq_lt(x.name@, #[trigger] ov[q].name) by {
                        if q > k {
                            lemma_lt_transitive(x.name@, ov[k as int].name, ov[q].name);
                        }
                    }
                }
                assert forall|q: int| 0 <= q < ov.len() implies #[trigger] ov[q].name != x.name@ by {
                    if ov[q].name == x.name@ {
                        lemma_lt_irreflexive(x.name@);
                    }
                }
                assert forall|l: int| 0 <= l < i implies fv[l].name != x.name@ by {
                    if fv[l].name == x.name@ {
                        assert(has_name(ov, fv[l].name));
                    }
                }
            }
            out.insert(k, x.cloned());
            proof {
                let nv = gates_view(out@);
                assert(nv =~= ov.insert(k as int, x@));
                idx = idx.insert(k as int, i as int);
                assert forall|j: int| 0 <= j < i implies has_name(nv, #[trigger] fv[j].name) by {
                    lemma_has_name_insert(ov, k as int, x@, fv[j].name);
                }
                assert(nv[k as int].name == fv[i as int].name);
                assert forall|a: int, b: int| 0 <= a < b < nv.len() implies seq_lt(#[trigger] nv[a].name, #[trigger] nv[b].name) by {
                    if b == k {
                        assert(nv[a] == ov[a]);
                    } else if a == k {
                        assert(nv[b] == ov[b - 1]);
                    } else if a > k {
                        assert(nv[a] == ov[a - 1] && nv[b] == ov[b - 1]);
                    } else if b > k {
                        assert(nv[a] == ov[a] && nv[b] == ov[b - 1]);
                    } else {
                        assert(nv[a] == ov[a] && nv[b] == ov[b]);
                    }
                }
                assert forall|q: int| 0 <= q < out.len() implies 0 <= #[trigger] idx[q] < i + 1 && fv[idx[q]] == out@[q]@
                    && forall|l: int| 0 <= l < idx[q] ==> fv[l].name != out@[q].name@ by {
                    if q < k {
                        assert(out@[q]@ == ov[q]);
                    } else if q > k {
                        assert(out@[q]@ == ov[q - 1]);
                    }
                }
            }
        }
        i = i + 1;
    }
    proof {
        let ov = gates_view(out@);
        assert forall|k: int| 0 <= k < ov.len() implies first_with_name(fv, #[trigger] ov[k]) by {
            assert(fv[idx[k]] == ov[k]);
        }
    }
    out
}

proof fn lemma_first_with_name_unique(flat: Seq<GateView>, g1: GateView, g2: GateView)
    requires
        first_with_name(flat, g1),
        first_with_name(flat, g2),
        g1.name == g2.name,
    ensures
        g1 == g2,
{
    let j1 = choose|j: int| 0 <= j < flat.len() && #[trigger] flat[j] == g1 && forall|l: int| 0 <= l < j ==> flat[l].name != g1.name;
    let j2 = choose|j: int| 0 <= j < flat.len() && #[trigger] flat[j] == g2 && forall|l: int| 0 <= l < j ==> flat[l].name != g2.name;
    if j1 < j2 {
        assert(flat[j1].name == g2.name);
    } else if j2 < j1 {
        assert(flat[j2].name == g1.name);
    }
}

proof fn lemma_name_in_flat(flat: Seq<GateView>, r: Seq<GateView>, k: int)
    requires
        is_authorization_of(flat, r),
        0 <= k < r.len(),
    ensures
        exists|j: int| 0 <= j < flat.len() && #[trigger] flat[j].name == r[k].name,
{
    assert(first_with_name(flat, r[k]));
    let j = choose|j: int| 0 <= j < flat.len() && #[trigger] flat[j] == r[k] && forall|l: int| 0 <= l < j ==> flat[l].name != r[k].name;
    assert(flat[j].name == r[k].name);
}

/// A name of `r1` at index `k`, when `r1` and `r2` agree below `k`, is found
/// in `r2` at `k` or later.
proof fn lemma_found_at_or_after(flat: Seq<GateView>, r1: Seq<GateView>, r2: Seq<GateView>, k: int) -> (j: int)
    requires
        is_authorization_of(flat, r1),
        is_authorization_of(flat, r2),
        0 <= k < r1.len(),
        k <= r2.len(),
        forall|q: int| 0 <= q < k ==> r1[q] == r2[q],
    ensures
        k <= j < r2.len(),
        r2[j].name == r1[k].name,
{
    lemma_name_in_flat(flat, r1, k);
    let jf = choose|j: int| 0 <= j < flat.len() && #[trigger] flat[j].name == r1[k].name;
    assert(has_name(r2, flat[jf].name));
    let j = choose|w: int| 0 <= w < r2.len() && #[trigger] r2[w].name == flat[jf].name;
    if j < k {
        assert(r1[j] == r2[j]);
        lemma_lt_irreflexive(r1[k].name);
        assert(seq_lt(r1[j].name, r1[k].name));
    }
    j
}

proof fn lemma_agree_from(flat: Seq<GateView>, r1: Seq<GateView>, r2: Seq<GateView>, k: int)
    requires
        is_authorization_of(flat, r1),
        is_authorization_of(flat, r2),
        0 <= k <= r1.len(),
        k <= r2.len(),
        forall|q: int| 0 <= q < k ==> r1[q] == r2[q],
    ensures
        forall|q: int| 0 <= q < r1.len() && q < r2.len() ==> r1[q] == r2[q],
    decreases r1.len() - k,
{
    if k < r1.len() && k < r2.len() {
        let j2 = lemma_found_at_or_after(flat, r1, r2, k);
        let j1 = lemma_found_at_or_after(flat, r2, r1, k);
        if j2 > k {
            assert(seq_lt(r2[k].name, r2[j2].name));
        }
        if j1 > k {
            assert(seq_lt(r1[k].name, r1[j1].name));
        }
        if r1[k].name != r2[k].name {
            lemma_lt_trichotomy(r1[k].name, r2[k].name);
        }
        lemma_first_with_name_unique(flat, r1[k], r2[k]);
        lemma_agree_from(flat, r1, r2, k + 1);
    }
}

/// The authorization set drawn from a list of gates is unique: any two
/// results that meet `is_authorization_of` for the same gates are equal,
/// so the result is exactly those gates deduplicated by name and sorted by
/// name.
pub proof fn lemma_authorization_unique(flat: Seq<GateView>, r1: Seq<GateView>, r2: Seq<GateView>)
    requires
        is_authorization_of(flat, r1),
        is_authorization_of(flat, r2),
    ensures
        r1 == r2,
{
    lemma_agree_from(flat, r1, r2, 0);
    if r1.len() > r2.len() {
        let j = lemma_found_at_or_after(flat, r1, r2, r2.len() as int);
    }
    if r2.len() > r1.len() {
        let j = lemma_found_at_or_after(flat, r2, r1, r1.len() as int);
    }
    assert(r1 =~= r2);
}

} // verus!
