use vstd::prelude::*;

verus! {

/// A named capability value, as stored in a device profile.
pub struct Capability {
    pub name: String,
    pub value: String,
}

/// One device definition handed over by a repository loader.
/// `fall_back` is the id of the parent device, or `None` for the root.
pub struct DeviceRecord {
    pub id: String,
    pub fall_back: Option<String>,
    pub user_agent: String,
    pub capabilities: Vec<Capability>,
}

/// Capability values that overlay those of the device `device_id`.
pub struct Patch {
    pub device_id: String,
    pub capabilities: Vec<Capability>,
}

/// A device of a loaded database: its parent is held as an index.
pub struct DeviceNode {
    pub id: String,
    pub parent: Option<usize>,
    pub depth: usize,
    pub user_agent: String,
    pub capabilities: Vec<Capability>,
}

/// The immutable, validated device hierarchy.
pub struct DeviceDatabase {
    pub nodes: Vec<DeviceNode>,
    pub root: usize,
    pub capability_names: Vec<String>,
}

/// Why a set of device records cannot form a database.
#[derive(PartialEq, Eq, Structural, Clone, Copy, Debug)]
pub enum LoadError {
    /// No device was given.
    EmptyDatabase,
    /// Two devices share an id.
    DuplicateDeviceId,
    /// A device falls back to an id that no device has.
    MissingAncestor,
    /// More than one device has no fall-back.
    MultipleRoots,
    /// Following fall-backs from some device never reaches a root.
    CyclicHierarchy,
    /// A patch names a device that does not exist.
    UnknownPatchTarget,
}

pub open spec fn record_ids_unique(recs: Seq<DeviceRecord>) -> bool {
    forall|i: int, j: int|
        0 <= i < recs.len() && 0 <= j < recs.len() && i != j ==> #[trigger] recs[i].id@
            != #[trigger] recs[j].id@
}

pub open spec fn has_id(recs: Seq<DeviceRecord>, id: Seq<char>) -> bool {
    exists|j: int| 0 <= j < recs.len() && recs[j].id@ == id
}

pub open spec fn ancestors_exist(recs: Seq<DeviceRecord>) -> bool {
    forall|i: int|
        0 <= i < recs.len() && #[trigger] recs[i].fall_back is Some ==> has_id(
            recs,
            recs[i].fall_back->0@,
        )
}

pub open spec fn multiple_roots(recs: Seq<DeviceRecord>) -> bool {
    exists|i: int, j: int|
        0 <= i < j < recs.len() && #[trigger] recs[i].fall_back is None
            && #[trigger] recs[j].fall_back is None
}

/// The index of the parent of record `i`.
pub open spec fn record_parent(recs: Seq<DeviceRecord>, i: int) -> Option<int> {
    match recs[i].fall_back {
        Some(f) => if has_id(recs, f@) {
            Some(choose|j: int| 0 <= j < recs.len() && recs[j].id@ == f@)
        } else {
            None
        },
        None => None,
    }
}

/// The number of fall-backs from record `i` to a root, when at most `fuel` are needed.
pub open spec fn chain_depth(recs: Seq<DeviceRecord>, i: int, fuel: nat) -> Option<nat>
    decreases fuel,
{
    match record_parent(recs, i) {
        None => Some(0),
        Some(p) => if fuel == 0 {
            None
        } else {
            match chain_depth(recs, p, (fuel - 1) as nat) {
                Some(d) => Some(d + 1),
                None => None,
            }
        },
    }
}

pub open spec fn acyclic(recs: Seq<DeviceRecord>) -> bool {
    forall|i: int| 0 <= i < recs.len() ==> (#[trigger] chain_depth(recs, i, recs.len())) is Some
}

/// A patch as loading reads it: the device id and the capability entries.
pub open spec fn patches_view(ps: Seq<Patch>) -> Seq<(Seq<char>, Seq<Capability>)> {
    ps.map_values(|p: Patch| (p.device_id@, p.capabilities@))
}

pub open spec fn patch_targets_exist(recs: Seq<DeviceRecord>, patches: Seq<(Seq<char>, Seq<Capability>)>) -> bool {
    forall|k: int| 0 <= k < patches.len() ==> has_id(recs, #[trigger] patches[k].0)
}

/// The first reason, in the order they are checked, why loading fails; `None` if it succeeds.
pub open spec fn load_failure(recs: Seq<DeviceRecord>, patches: Seq<(Seq<char>, Seq<Capability>)>) -> Option<LoadError> {
    if recs.len() == 0 {
        Some(LoadError::EmptyDatabase)
    } else if !record_ids_unique(recs) {
        Some(LoadError::DuplicateDeviceId)
    } else if !ancestors_exist(recs) {
        Some(LoadError::MissingAncestor)
    } else if multiple_roots(recs) {
        Some(LoadError::MultipleRoots)
    } else if !acyclic(recs) {
        Some(LoadError::CyclicHierarchy)
    } else if !patch_targets_exist(recs, patches) {
        Some(LoadError::UnknownPatchTarget)
    } else {
        None
    }
}

pub open spec fn names_of(filter: Seq<String>) -> Seq<Seq<char>> {
    filter.map_values(|f: String| f@)
}

/// Whether a capability filter keeps `name`: no filter keeps every name.
pub open spec fn kept(filter: Option<Seq<Seq<char>>>, name: Seq<char>) -> bool {
    match filter {
        None => true,
        Some(f) => f.contains(name),
    }
}

/// The entries of `s` whose names the filter keeps, in order.
pub open spec fn retained(s: Seq<Capability>, filter: Option<Seq<Seq<char>>>) -> Seq<Capability>
    decreases s.len(),
{
    if s.len() == 0 {
        Seq::empty()
    } else if kept(filter, s.last().name@) {
        retained(s.drop_last(), filter).push(s.last())
    } else {
        retained(s.drop_last(), filter)
    }
}

/// The kept entries of every patch of device `id`, in patch order.
pub open spec fn patched(id: Seq<char>, ps: Seq<(Seq<char>, Seq<Capability>)>, filter: Option<Seq<Seq<char>>>) -> Seq<
    Capability,
>
    decreases ps.len(),
{
    if ps.len() == 0 {
        Seq::empty()
    } else if ps.last().0 == id {
        patched(id, ps.drop_last(), filter) + retained(ps.last().1, filter)
    } else {
        patched(id, ps.drop_last(), filter)
    }
}

/// The capability entries a loaded device holds: its own, then those of its patches.
pub open spec fn loaded_caps(rec: DeviceRecord, ps: Seq<(Seq<char>, Seq<Capability>)>, filter: Option<Seq<Seq<char>>>) -> Seq<
    Capability,
> {
    retained(rec.capabilities@, filter) + patched(rec.id@, ps, filter)
}

/// The value map of a capability list: a later entry overrides an earlier one.
pub open spec fn caps_map(s: Seq<Capability>) -> Map<Seq<char>, Seq<char>>
    decreases s.len(),
{
    if s.len() == 0 {
        Map::empty()
    } else {
        caps_map(s.drop_last()).insert(s.last().name@, s.last().value@)
    }
}

/// The capability values a node sets itself.
pub open spec fn own_caps(n: DeviceNode) -> Map<Seq<char>, Seq<char>> {
    caps_map(n.capabilities@)
}

/// Resolution of a capability: the node's own value, else the nearest ancestor's.
pub open spec fn resolve(nodes: Seq<DeviceNode>, i: int, name: Seq<char>) -> Option<Seq<char>>
    decreases nodes[i].depth,
{
    if own_caps(nodes[i]).contains_key(name) {
        Some(own_caps(nodes[i])[name])
    } else {
        match nodes[i].parent {
            Some(p) => if 0 <= p < nodes.len() && nodes[p as int].depth < nodes[i].depth {
                resolve(nodes, p as int, name)
            } else {
                None
            },
            None => None,
        }
    }
}

/// The `k`-th ancestor of node `i` (`i` itself for `k == 0`).
pub open spec fn ancestor(nodes: Seq<DeviceNode>, i: int, k: nat) -> Option<int>
    decreases k,
{
    if k == 0 {
        Some(i)
    } else {
        match nodes[i].parent {
            Some(p) => ancestor(nodes, p as int, (k - 1) as nat),
            None => None,
        }
    }
}

impl DeviceDatabase {
    pub open spec fn wf(&self) -> bool {
        let nodes = self.nodes@;
        &&& 0 <= self.root < nodes.len()
        &&& forall|i: int|
            0 <= i < nodes.len() ==> (#[trigger] nodes[i].parent is None <==> i == self.root)
        &&& forall|i: int|
            0 <= i < nodes.len() && #[trigger] nodes[i].parent is Some ==> {
                let p = nodes[i].parent->0 as int;
                0 <= p < nodes.len() && nodes[p].depth + 1 == nodes[i].depth
            }
        &&& nodes[self.root as int].depth == 0
        &&& forall|i: int, j: int|
            0 <= i < nodes.len() && 0 <= j < nodes.len() && i != j ==> #[trigger] nodes[i].id@
                != #[trigger] nodes[j].id@
    }

    pub open spec fn ids(&self) -> Seq<Seq<char>> {
        self.nodes@.map_values(|n: DeviceNode| n.id@)
    }

    /// The index of the device whose id is `id`, if any.
    pub open spec fn index_of(&self, id: Seq<char>) -> Option<int> {
        if exists|i: int| 0 <= i < self.nodes@.len() && self.nodes@[i].id@ == id {
            Some(choose|i: int| 0 <= i < self.nodes@.len() && self.nodes@[i].id@ == id)
        } else {
            None
        }
    }

    pub open spec fn resolve_cap(&self, i: int, name: Seq<char>) -> Option<Seq<char>> {
        resolve(self.nodes@, i, name)
    }

    /// Looks up a device by id.
    pub fn get_by_id(&self, id: &str) -> (r: Option<usize>)
        requires
            self.wf(),
        ensures
            r == (match self.index_of(id@) {
                Some(i) => Some(i as usize),
                None => None::<usize>,
            }),
            r matches Some(i) ==> i < self.nodes@.len() && self.nodes@[i as int].id@ == id@,
    {
        let n = self.nodes.len();
        let mut i: usize = 0;
        while i < n
            invariant
                n == self.nodes@.len(),
                i <= n,
                self.wf(),
                forall|j: int| 0 <= j < i ==> self.nodes@[j].id@ != id@,
            decreases n - i,
        {
            if str_eq(self.nodes[i].id.as_str(), id) {
                proof {
                    assert(self.nodes@[i as int].id@ == id@);
                    let w = choose|w: int| 0 <= w < self.nodes@.len() && self.nodes@[w].id@ == id@;
                    assert(0 <= w < self.nodes@.len() && self.nodes@[w].id@ == id@);
                    assert(w == i);
                }
                return Some(i);
            }
            i = i + 1;
        }
        None
    }

    /// Resolves `name` for device `i`, walking from the device towards the root.
    pub fn resolve_capability(&self, i: usize, name: &str) -> (r: Option<&String>)
        requires
            self.wf(),
            i < self.nodes@.len(),
        ensures
            match r {
                Some(v) => self.resolve_cap(i as int, name@) == Some(v@),
                None => self.resolve_cap(i as int, name@) is None,
            },
    {
        let mut cur: usize = i;
        loop
            invariant
                self.wf(),
                cur < self.nodes@.len(),
                self.resolve_cap(i as int, name@) == self.resolve_cap(cur as int, name@),
            decreases self.nodes@[cur as int].depth,
        {
            match self.own_capability(cur, name) {
                Some(v) => {
                    return Some(v);
                },
                None => {},
            }
            match self.nodes[cur].parent {
                Some(p) => {
                    cur = p;
                },
                None => {
                    return None;
                },
            }
        }
    }

    /// The value that node `i` sets itself for `name`, searched from the latest entry.
    pub fn own_capability(&self, i: usize, name: &str) -> (r: Option<&String>)
        requires
            i < self.nodes@.len(),
        ensures
            r.is_some() == own_caps(self.nodes@[i as int]).contains_key(name@),
            r matches Some(v) ==> v@ == own_caps(self.nodes@[i as int])[name@],
    {
        let caps = &self.nodes[i].capabilities;
        let mut k: usize = caps.len();
        while k > 0
            invariant
                k <= caps@.len(),
                caps == self.nodes@[i as int].capabilities,
                forall|j: int| k <= j < caps@.len() ==> caps@[j].name@ != name@,
            decreases k,
        {
            if str_eq(caps[k - 1].name.as_str(), name) {
                proof {
                    lemma_caps_map_suffix(caps@, k as int, name@);
                    assert(caps@.take(k as int).drop_last() =~= caps@.take(k - 1));
                }
                return Some(&caps[k - 1].value);
            }
            k = k - 1;
        }
        proof {
            lemma_caps_map_suffix(caps@, 0, name@);
        }
        None
    }
}

/// Capability inheritance: when a device and its nearest `k - 1` ancestors leave `name`
/// unset and its `k`-th ancestor sets it, the device resolves `name` to that ancestor's value.
pub proof fn lemma_inherited_capability(db: &DeviceDatabase, i: int, k: nat, name: Seq<char>)
    requires
        db.wf(),
        0 <= i < db.nodes@.len(),
        ancestor(db.nodes@, i, k) is Some,
        own_caps(db.nodes@[ancestor(db.nodes@, i, k)->0]).contains_key(name),
        forall|m: nat|
            m < k ==> !own_caps(db.nodes@[#[trigger] ancestor(db.nodes@, i, m)->0]).contains_key(
                name,
            ),
    ensures
        db.resolve_cap(i, name) == Some(own_caps(db.nodes@[ancestor(db.nodes@, i, k)->0])[name]),
    decreases k,
{
    let nodes = db.nodes@;
    if k > 0 {
        assert(ancestor(nodes, i, 0) == Some(i));
        assert(!own_caps(nodes[i]).contains_key(name));
        let p = nodes[i].parent->0 as int;
        assert(nodes[i].parent is Some);
        assert forall|m: nat| m < k - 1 implies !own_caps(
            nodes[#[trigger] ancestor(nodes, p, m)->0],
        ).contains_key(name) by {
            assert(ancestor(nodes, i, m + 1) == ancestor(nodes, p, m));
        }
        lemma_inherited_capability(db, p, (k - 1) as nat, name);
    }
}

/// Entries after position `k` that set other names leave `name` as the first `k` entries have it.
pub proof fn lemma_caps_map_suffix(s: Seq<Capability>, k: int, name: Seq<char>)
    requires
        0 <= k <= s.len(),
        forall|j: int| k <= j < s.len() ==> s[j].name@ != name,
    ensures
        caps_map(s).contains_key(name) == caps_map(s.take(k)).contains_key(name),
        caps_map(s).contains_key(name) ==> caps_map(s)[name] == caps_map(s.take(k))[name],
    decreases s.len(),
{
    if s.len() > k {
        lemma_caps_map_suffix(s.drop_last(), k, name);
        assert(s.drop_last().take(k) =~= s.take(k));
    } else {
        assert(s.take(k) =~= s);
    }
}

/// Whether two strings hold the same characters.
pub fn str_eq(a: &str, b: &str) -> (r: bool)
    ensures
        r == (a@ == b@),
{
    let x = String::from_str(a);
    let y = String::from_str(b);
    x == y
}

} // verus!
