use vstd::prelude::*;
use crate::database::{
    acyclic, ancestors_exist, chain_depth, has_id, load_failure, loaded_caps, multiple_roots,
    names_of, patched, patches_view, record_ids_unique, record_parent, retained, kept,
    str_eq, Capability, DeviceDatabase, DeviceNode, DeviceRecord, LoadError, Patch,
};

verus! {

pub open spec fn filter_view(filter: Option<&Vec<String>>) -> Option<Seq<Seq<char>>> {
    match filter {
        Some(f) => Some(names_of(f@)),
        None => None,
    }
}

/// The index of the first record whose id is `id`.
fn find_record(recs: &Vec<DeviceRecord>, id: &str) -> (r: Option<usize>)
    ensures
        r matches Some(j) ==> j < recs@.len() && recs@[j as int].id@ == id@,
        r is None ==> !has_id(recs@, id@),
{
    let mut j: usize = 0;
    while j < recs.len()
        invariant
            j <= recs@.len(),
            forall|k: int| 0 <= k < j ==> recs@[k].id@ != id@,
        decreases recs@.len() - j,
    {
        if str_eq(recs[j].id.as_str(), id) {
            return Some(j);
        }
        j = j + 1;
    }
    None
}

fn ids_unique(recs: &Vec<DeviceRecord>) -> (r: bool)
    ensures
        r == record_ids_unique(recs@),
{
    let n = recs.len();
    let mut i: usize = 0;
    while i < n
        invariant
            n == recs@.len(),
            i <= n,
            forall|a: int, b: int|
                0 <= a < i && 0 <= b < n && a != b ==> #[trigger] recs@[a].id@
                    != #[trigger] recs@[b].id@,
        decreases n - i,
    {
        let mut j: usize = 0;
        while j < n
            invariant
                n == recs@.len(),
                i < n,
                j <= n,
                forall|a: int, b: int|
                    0 <= a < i && 0 <= b < n && a != b ==> #[trigger] recs@[a].id@
                        != #[trigger] recs@[b].id@,
                forall|b: int| 0 <= b < j && b != i ==> recs@[i as int].id@ != #[trigger] recs@[b].id@,
            decreases n - j,
        {
            if j != i && str_eq(recs[i].id.as_str(), recs[j].id.as_str()) {
                return false;
            }
            j = j + 1;
        }
        i = i + 1;
    }
    true
}

/// The first record at or after `from` that has no fall-back.
fn find_root(recs: &Vec<DeviceRecord>, from: usize) -> (r: Option<usize>)
    ensures
        r matches Some(j) ==> from <= j < recs@.len() && recs@[j as int].fall_back is None,
        r matches Some(j) ==> forall|k: int| from <= k < j ==> recs@[k].fall_back is Some,
        r is None ==> forall|k: int| from <= k < recs@.len() ==> recs@[k].fall_back is Some,
{
    let mut j: usize = from;
    while j < recs.len()
        invariant
            from <= j,
            forall|k: int| from <= k < j ==> recs@[k].fall_back is Some,
        decreases recs@.len() - j,
    {
        if recs[j].fall_back.is_none() {
            return Some(j);
        }
        j = j + 1;
    }
    None
}

/// More fuel never changes a depth that was found.
proof fn lemma_chain_depth_fuel(recs: Seq<DeviceRecord>, i: int, f: nat, g: nat)
    requires
        f <= g,
        chain_depth(recs, i, f) is Some,
    ensures
        chain_depth(recs, i, g) == chain_depth(recs, i, f),
    decreases f,
{
    if let Some(p) = record_parent(recs, i) {
        lemma_chain_depth_fuel(recs, p, (f - 1) as nat, (g - 1) as nat);
    }
}

/// A record that reaches a root by fall-backs shows that some record has none.
proof fn lemma_depth_reaches_root(recs: Seq<DeviceRecord>, i: int, f: nat)
    requires
        0 <= i < recs.len(),
        ancestors_exist(recs),
        chain_depth(recs, i, f) is Some,
    ensures
        exists|k: int| 0 <= k < recs.len() && recs[k].fall_back is None,
    decreases f,
{
    match record_parent(recs, i) {
        None => {
            if recs[i].fall_back is Some {
                assert(has_id(recs, recs[i].fall_back->0@));
            }
        },
        Some(p) => {
            let f0 = recs[i].fall_back->0@;
            assert(has_id(recs, f0));
            lemma_depth_reaches_root(recs, p, (f - 1) as nat);
        },
    }
}

pub open spec fn parents_match(recs: Seq<DeviceRecord>, parents: Seq<Option<usize>>, upto: int) -> bool {
    forall|k: int|
        0 <= k < upto ==> match #[trigger] parents[k] {
            Some(p) => record_parent(recs, k) == Some(p as int) && p < recs.len(),
            None => record_parent(recs, k) is None,
        }
}

pub open spec fn plus(o: Option<nat>, k: nat) -> Option<nat> {
    match o {
        Some(d) => Some(d + k),
        None => None,
    }
}

/// The depth of record `i`, following the parent indices at most `n` times.
fn record_depth(parents: &Vec<Option<usize>>, recs: Ghost<Seq<DeviceRecord>>, i: usize) -> (r: Option<usize>)
    requires
        parents@.len() == recs@.len(),
        parents_match(recs@, parents@, recs@.len() as int),
        i < recs@.len(),
    ensures
        match r {
            Some(d) => chain_depth(recs@, i as int, recs@.len()) == Some(d as nat) && d <= recs@.len(),
            None => chain_depth(recs@, i as int, recs@.len()) is None,
        },
{
    let n = parents.len();
    let mut cur: usize = i;
    let mut steps: usize = 0;
    loop
        invariant
            n == parents@.len(),
            n == recs@.len(),
            parents_match(recs@, parents@, n as int),
            cur < n,
            steps <= n,
            chain_depth(recs@, i as int, n as nat) == plus(
                chain_depth(recs@, cur as int, (n - steps) as nat),
                steps as nat,
            ),
        decreases n - steps,
    {
        match parents[cur] {
            None => {
                return Some(steps);
            },
            Some(p) => {
                if steps == n {
                    return None;
                }
                cur = p;
                steps = steps + 1;
            },
        }
    }
}

fn filter_keeps(filter: Option<&Vec<String>>, name: &str) -> (r: bool)
    ensures
        r == kept(filter_view(filter), name@),
{
    match filter {
        None => true,
        Some(f) => {
            assert(filter_view(filter) == Some(names_of(f@)));
            let mut k: usize = 0;
            while k < f.len()
                invariant
                    k <= f@.len(),
                    filter_view(filter) == Some(names_of(f@)),
                    forall|m: int| 0 <= m < k ==> f@[m]@ != name@,
                decreases f@.len() - k,
            {
                if str_eq(f[k].as_str(), name) {
                    assert(names_of(f@).len() == f@.len());
                    assert(names_of(f@)[k as int] == name@);
                    assert(names_of(f@).contains(name@));
                    return true;
                }
                k = k + 1;
            }
            proof {
                if names_of(f@).contains(name@) {
                    let m = choose|m: int| 0 <= m < names_of(f@).len() && names_of(f@)[m] == name@;
                    assert(f@[m]@ == name@);
                }
            }
            false
        },
    }
}

fn append_retained(out: &mut Vec<Capability>, caps: &Vec<Capability>, filter: Option<&Vec<String>>)
    ensures
        final(out)@ == old(out)@ + retained(caps@, filter_view(filter)),
{
    let ghost start = out@;
    let mut k: usize = 0;
    while k < caps.len()
        invariant
            k <= caps@.len(),
            out@ == start + retained(caps@.take(k as int), filter_view(filter)),
        decreases caps@.len() - k,
    {
        proof {
            assert(caps@.take(k + 1).drop_last() =~= caps@.take(k as int));
        }
        if filter_keeps(filter, caps[k].name.as_str()) {
            let c = Capability { name: caps[k].name.clone(), value: caps[k].value.clone() };
            out.push(c);
            proof {
                assert(out@ =~= start + retained(caps@.take(k + 1), filter_view(filter)));
            }
        }
        k = k + 1;
    }
    proof {
        assert(caps@.take(caps@.len() as int) =~= caps@);
    }
}

/// The capability entries of a device: its own, then those of each patch that names it.
fn loaded_capabilities(rec: &DeviceRecord, patches: &Vec<Patch>, filter: Option<&Vec<String>>) -> (r:
    Vec<Capability>)
    ensures
        r@ == loaded_caps(*rec, patches_view(patches@), filter_view(filter)),
{
    let mut out: Vec<Capability> = Vec::new();
    append_retained(&mut out, &rec.capabilities, filter);
    let ghost own = retained(rec.capabilities@, filter_view(filter));
    let ghost pv = patches_view(patches@);
    assert(out@ =~= own + patched(rec.id@, pv.take(0), filter_view(filter)));
    let mut k: usize = 0;
    while k < patches.len()
        invariant
            k <= patches@.len(),
            pv == patches_view(patches@),
            own == retained(rec.capabilities@, filter_view(filter)),
            out@ == own + patched(rec.id@, pv.take(k as int), filter_view(filter)),
        decreases patches@.len() - k,
    {
        proof {
            assert(pv.take(k + 1).drop_last() =~= pv.take(k as int));
            assert(pv[k as int] == (patches@[k as int].device_id@, patches@[k as int].capabilities@));
        }
        if str_eq(patches[k].device_id.as_str(), rec.id.as_str()) {
            append_retained(&mut out, &patches[k].capabilities, filter);
            proof {
                assert(out@ =~= own + patched(rec.id@, pv.take(k + 1), filter_view(filter)));
            }
        }
        k = k + 1;
    }
    proof {
        assert(pv.take(patches@.len() as int) =~= pv);
    }
    out
}

/// `acc` followed by the names of `caps` it does not hold yet, in order of first appearance.
pub open spec fn add_names(acc: Seq<Seq<char>>, caps: Seq<Capability>) -> Seq<Seq<char>>
    decreases caps.len(),
{
    if caps.len() == 0 {
        acc
    } else {
        let a = add_names(acc, caps.drop_last());
        if a.contains(caps.last().name@) {
            a
        } else {
            a.push(caps.last().name@)
        }
    }
}

/// The capability names the devices set, each once, in order of first appearance.
pub open spec fn first_names(nodes: Seq<DeviceNode>) -> Seq<Seq<char>>
    decreases nodes.len(),
{
    if nodes.len() == 0 {
        Seq::empty()
    } else {
        add_names(first_names(nodes.drop_last()), nodes.last().capabilities@)
    }
}

/// Whether some device sets the capability `name`.
pub open spec fn set_by_some(nodes: Seq<DeviceNode>, name: Seq<char>) -> bool {
    exists|i: int, j: int|
        0 <= i < nodes.len() && 0 <= j < nodes[i].capabilities@.len()
            && (#[trigger] nodes[i].capabilities@[j]).name@ == name
}

/// `names` lists, once each, every capability name that some device sets.
pub open spec fn names_cover(nodes: Seq<DeviceNode>, names: Seq<String>) -> bool {
    &&& names_of(names).no_duplicates()
    &&& forall|x: int| 0 <= x < names.len() ==> set_by_some(nodes, #[trigger] names[x]@)
    &&& forall|i: int, j: int|
        0 <= i < nodes.len() && 0 <= j < nodes[i].capabilities@.len() ==> names_of(names).contains(
            #[trigger] nodes[i].capabilities@[j].name@,
        )
}

/// Appends `name` unless `names` holds it already.
fn push_unique(names: &mut Vec<String>, name: &String)
    ensures
        names_of(old(names)@).contains(name@) ==> final(names)@ == old(names)@,
        !names_of(old(names)@).contains(name@) ==> final(names)@ == old(names)@.push(*name),
{
    let mut k: usize = 0;
    while k < names.len()
        invariant
            k <= names@.len(),
            forall|m: int| 0 <= m < k ==> names@[m]@ != name@,
        decreases names@.len() - k,
    {
        if names[k] == *name {
            assert(names_of(names@)[k as int] == name@);
            return;
        }
        k = k + 1;
    }
    proof {
        if names_of(names@).contains(name@) {
            let m = choose|m: int| 0 <= m < names_of(names@).len() && names_of(names@)[m] == name@;
            assert(names@[m]@ == name@);
        }
    }
    names.push(name.clone());
}

/// Every capability name set by some device, once each, in order of first appearance.
fn collect_capability_names(nodes: &Vec<DeviceNode>) -> (r: Vec<String>)
    ensures
        names_cover(nodes@, r@),
        names_of(r@) == first_names(nodes@),
{
    let mut names: Vec<String> = Vec::new();
    let ghost mut wa: Seq<int> = Seq::empty();
    let ghost mut wb: Seq<int> = Seq::empty();
    let mut i: usize = 0;
    while i < nodes.len()
        invariant
            i <= nodes@.len(),
            names_of(names@) == first_names(nodes@.take(i as int)),
            names_of(names@).no_duplicates(),
            wa.len() == names@.len(),
            wb.len() == names@.len(),
            forall|x: int|
                0 <= x < names@.len() ==> 0 <= #[trigger] wa[x] < nodes@.len() && 0 <= wb[x]
                    < nodes@[wa[x]].capabilities@.len() && nodes@[wa[x]].capabilities@[wb[x]].name@
                    == names@[x]@,
            forall|a: int, b: int|
                0 <= a < i && 0 <= b < nodes@[a].capabilities@.len() ==> names_of(names@).contains(
                    #[trigger] nodes@[a].capabilities@[b].name@,
                ),
        decreases nodes@.len() - i,
    {
        let caps = &nodes[i].capabilities;
        let mut j: usize = 0;
        assert(caps@.take(0) =~= Seq::<Capability>::empty());
        while j < caps.len()
            invariant
                i < nodes@.len(),
                caps == nodes@[i as int].capabilities,
                j <= caps@.len(),
                names_of(names@) == add_names(first_names(nodes@.take(i as int)), caps@.take(j as int)),
                names_of(names@).no_duplicates(),
                wa.len() == names@.len(),
                wb.len() == names@.len(),
                forall|x: int|
                    0 <= x < names@.len() ==> 0 <= #[trigger] wa[x] < nodes@.len() && 0 <= wb[x]
                        < nodes@[wa[x]].capabilities@.len()
                        && nodes@[wa[x]].capabilities@[wb[x]].name@ == names@[x]@,
                forall|a: int, b: int|
                    0 <= a < i && 0 <= b < nodes@[a].capabilities@.len() ==> names_of(
                        names@,
                    ).contains(#[trigger] nodes@[a].capabilities@[b].name@),
                forall|b: int|
                    0 <= b < j ==> names_of(names@).contains(
                        #[trigger] nodes@[i as int].capabilities@[b].name@,
                    ),
            decreases caps@.len() - j,
        {
            let ghost before = names@;
            push_unique(&mut names, &caps[j].name);
            proof {
                assert(caps@.take(j + 1).drop_last() =~= caps@.take(j as int));
                assert(names_of(before.push(caps@[j as int].name)) =~= names_of(before).push(
                    caps@[j as int].name@,
                ));
                if names@.len() > before.len() {
                    wa = wa.push(i as int);
                    wb = wb.push(j as int);
                }
                assert forall|x: int| 0 <= x < names@.len() implies 0 <= #[trigger] wa[x] < nodes@.len()
                    && 0 <= wb[x] < nodes@[wa[x]].capabilities@.len()
                    && nodes@[wa[x]].capabilities@[wb[x]].name@ == names@[x]@ by {
                    if x < before.len() {
                        assert(names@[x] == before[x]);
                    }
                }
                assert(names_of(names@) =~= names_of(before) || names_of(names@) =~= names_of(
                    before,
                ).push(caps@[j as int].name@));
                assert(names_of(names@).contains(caps@[j as int].name@)) by {
                    if !names_of(before).contains(caps@[j as int].name@) {
                        assert(names_of(names@)[before.len() as int] == caps@[j as int].name@);
                    }
                }
                assert forall|a: int, b: int|
                    0 <= a < i && 0 <= b < nodes@[a].capabilities@.len() implies names_of(
                        names@,
                    ).contains(#[trigger] nodes@[a].capabilities@[b].name@) by {
                    let x = choose|x: int| 0 <= x < names_of(before).len() && names_of(before)[x]
                        == nodes@[a].capabilities@[b].name@;
                    assert(names_of(names@)[x] == names_of(before)[x]);
                }
                assert forall|b: int| 0 <= b < j + 1 implies names_of(names@).contains(
                    #[trigger] nodes@[i as int].capabilities@[b].name@,
                ) by {
                    if b < j {
                        let x = choose|x: int| 0 <= x < names_of(before).len() && names_of(before)[x]
                            == nodes@[i as int].capabilities@[b].name@;
                        assert(names_of(names@)[x] == names_of(before)[x]);
                    }
                }
            }
            j = j + 1;
        }
        proof {
            assert(caps@.take(caps@.len() as int) =~= caps@);
            assert(nodes@.take(i + 1).drop_last() =~= nodes@.take(i as int));
        }
        i = i + 1;
    }
    proof {
        assert(nodes@.take(nodes@.len() as int) =~= nodes@);
        assert forall|x: int| 0 <= x < names@.len() implies set_by_some(nodes@, #[trigger] names@[x]@) by {
            let a = wa[x];
            let b = wb[x];
            assert(0 <= a < nodes@.len() && 0 <= b < nodes@[a].capabilities@.len()
                && nodes@[a].capabilities@[b].name@ == names@[x]@);
        }
    }
    names
}

impl DeviceDatabase {
    /// The database holds the records in order, with their patched and filtered capabilities.
    pub open spec fn loaded_from(
        &self,
        recs: Seq<DeviceRecord>,
        patches: Seq<(Seq<char>, Seq<Capability>)>,
        filter: Option<Seq<Seq<char>>>,
    ) -> bool {
        &&& self.nodes@.len() == recs.len()
        &&& forall|i: int|
            0 <= i < recs.len() ==> {
                let n = #[trigger] self.nodes@[i];
                &&& n.id@ == recs[i].id@
                &&& n.user_agent@ == recs[i].user_agent@
                &&& n.capabilities@ == loaded_caps(recs[i], patches, filter)
                &&& (n.parent is None <==> recs[i].fall_back is None)
                &&& n.parent matches Some(p) ==> self.nodes@[p as int].id@
                    == recs[i].fall_back->0@
            }
    }

    /// Builds a database from device records, then overlays the patches in order and keeps
    /// only the capabilities that the filter names.
    pub fn load(records: &Vec<DeviceRecord>, patches: &Vec<Patch>, filter: Option<&Vec<String>>) -> (r:
        Result<DeviceDatabase, LoadError>)
        ensures
            match r {
                Ok(db) => {
                    &&& load_failure(records@, patches_view(patches@)) is None
                    &&& db.wf()
                    &&& db.loaded_from(records@, patches_view(patches@), filter_view(filter))
                    &&& names_cover(db.nodes@, db.capability_names@)
                    &&& names_of(db.capability_names@) == first_names(db.nodes@)
                },
                Err(e) => load_failure(records@, patches_view(patches@)) == Some(e),
            },
    {
        let ghost recs = records@;
        let n = records.len();
        if n == 0 {
            return Err(LoadError::EmptyDatabase);
        }
        if !ids_unique(records) {
            return Err(LoadError::DuplicateDeviceId);
        }
        let mut parents: Vec<Option<usize>> = Vec::new();
        let mut i: usize = 0;
        while i < n
            invariant
                n == recs.len(),
                recs == records@,
                i <= n,
                parents@.len() == i,
                record_ids_unique(recs),
                parents_match(recs, parents@, i as int),
                forall|k: int|
                    0 <= k < i && #[trigger] recs[k].fall_back is Some ==> has_id(
                        recs,
                        recs[k].fall_back->0@,
                    ),
            decreases n - i,
        {
            match &records[i].fall_back {
                None => {
                    parents.push(None);
                },
                Some(f) => {
                    match find_record(records, f.as_str()) {
                        None => {
                            return Err(LoadError::MissingAncestor);
                        },
                        Some(j) => {
                            proof {
                                assert(has_id(recs, f@));
                                let w = choose|w: int| 0 <= w < recs.len() && recs[w].id@ == f@;
                                assert(w == j);
                            }
                            parents.push(Some(j));
                        },
                    }
                },
            }
            i = i + 1;
        }
        let root = match find_root(records, 0) {
            Some(r0) => {
                if r0 + 1 < n {
                    if let Some(r1) = find_root(records, r0 + 1) {
                        assert(recs[r0 as int].fall_back is None && recs[r1 as int].fall_back is None);
                        return Err(LoadError::MultipleRoots);
                    }
                }
                r0
            },
            None => {
                proof {
                    if chain_depth(recs, 0, n as nat) is Some {
                        lemma_depth_reaches_root(recs, 0, n as nat);
                    }
                }
                return Err(LoadError::CyclicHierarchy);
            },
        };
        assert(!multiple_roots(recs));
        let mut depths: Vec<usize> = Vec::new();
        let mut i: usize = 0;
        while i < n
            invariant
                n == recs.len(),
                recs == records@,
                parents@.len() == n,
                parents_match(recs, parents@, n as int),
                record_ids_unique(recs),
                ancestors_exist(recs),
                !multiple_roots(recs),
                i <= n,
                depths@.len() == i,
                forall|k: int| 0 <= k < i ==> chain_depth(recs, k, n as nat) == Some(#[trigger] depths@[k] as nat),
            decreases n - i,
        {
            match record_depth(&parents, Ghost(recs), i) {
                None => {
                    return Err(LoadError::CyclicHierarchy);
                },
                Some(d) => {
                    depths.push(d);
                },
            }
            i = i + 1;
        }
        assert forall|k: int| 0 <= k < recs.len() implies (#[trigger] chain_depth(
            recs,
            k,
            recs.len(),
        )) is Some by {
            assert(chain_depth(recs, k, n as nat) == Some(depths@[k] as nat));
        }
        let mut k: usize = 0;
        while k < patches.len()
            invariant
                recs == records@,
                recs.len() > 0,
                record_ids_unique(recs),
                ancestors_exist(recs),
                !multiple_roots(recs),
                acyclic(recs),
                k <= patches@.len(),
                forall|m: int| 0 <= m < k ==> has_id(recs, #[trigger] patches_view(patches@)[m].0),
            decreases patches@.len() - k,
        {
            match find_record(records, patches[k].device_id.as_str()) {
                None => {
                    assert(patches_view(patches@)[k as int].0 == patches@[k as int].device_id@);
                    return Err(LoadError::UnknownPatchTarget);
                },
                Some(j) => {
                    assert(patches_view(patches@)[k as int].0 == patches@[k as int].device_id@);
                    assert(recs[j as int].id@ == patches_view(patches@)[k as int].0);
                },
            }
            k = k + 1;
        }
        assert(load_failure(recs, patches_view(patches@)) is None);
        let mut nodes: Vec<DeviceNode> = Vec::new();
        let mut i: usize = 0;
        while i < n
            invariant
                n == recs.len(),
                recs == records@,
                parents@.len() == n,
                depths@.len() == n,
                i <= n,
                nodes@.len() == i,
                forall|k: int|
                    0 <= k < i ==> {
                        let nd = #[trigger] nodes@[k];
                        &&& nd.id@ == recs[k].id@
                        &&& nd.user_agent@ == recs[k].user_agent@
                        &&& nd.capabilities@ == loaded_caps(recs[k], patches_view(patches@), filter_view(filter))
                        &&& nd.parent == parents@[k]
                        &&& nd.depth == depths@[k]
                    },
            decreases n - i,
        {
            let node = DeviceNode {
                id: records[i].id.clone(),
                parent: parents[i],
                depth: depths[i],
                user_agent: records[i].user_agent.clone(),
                capabilities: loaded_capabilities(&records[i], patches, filter),
            };
            nodes.push(node);
            i = i + 1;
        }
        let capability_names = collect_capability_names(&nodes);
        let db = DeviceDatabase { nodes, root, capability_names };
        assert(db.nodes@ == nodes@);
        proof {
            let ns = db.nodes@;
            assert forall|i: int| 0 <= i < ns.len() implies (#[trigger] ns[i].parent is None <==> i
                == root) by {
                assert(ns[i].parent == parents@[i]);
                if recs[i].fall_back is Some {
                    assert(has_id(recs, recs[i].fall_back->0@));
                }
                if i != root && recs[i].fall_back is None {
                    if i < root {
                        assert(recs[i].fall_back is None && recs[root as int].fall_back is None);
                    } else {
                        assert(recs[root as int].fall_back is None && recs[i].fall_back is None);
                    }
                }
            }
            assert forall|i: int| 0 <= i < ns.len() && #[trigger] ns[i].parent is Some implies {
                let p = ns[i].parent->0 as int;
                0 <= p < ns.len() && ns[p].depth + 1 == ns[i].depth
            } by {
                let p = ns[i].parent->0 as int;
                assert(ns[i].parent == parents@[i]);
                assert(record_parent(recs, i) == Some(p));
                assert(chain_depth(recs, i, n as nat) == Some(depths@[i] as nat));
                assert(chain_depth(recs, p, n as nat) == Some(depths@[p] as nat));
                lemma_chain_depth_fuel(recs, p, (n - 1) as nat, n as nat);
            }
            assert(ns[root as int].parent == parents@[root as int]);
            assert(chain_depth(recs, root as int, n as nat) == Some(depths@[root as int] as nat));
            assert forall|i: int| 0 <= i < ns.len() && #[trigger] ns[i].parent is Some implies
                ns[ns[i].parent->0 as int].id@ == recs[i].fall_back->0@ by {
                assert(ns[i].parent == parents@[i]);
                assert(has_id(recs, recs[i].fall_back->0@));
            }
        }
        Ok(db)
    }
}

} // verus!
