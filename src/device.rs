use vstd::prelude::*;
use vstd::string::StrSliceExecFns;
use std::sync::Arc;
use crate::{MatchType, WurflError};
use crate::database::{resolve, Capability, DeviceDatabase};

verus! {


pub open spec fn is_true(v: Option<Seq<char>>) -> bool {
    v == Some("true"@)
}

/// A virtual capability of device `i`, computed from its resolved static capabilities:
/// - `is_mobile`: whether `is_wireless_device` is `true`;
/// - `is_smartphone`: a wireless device, not a tablet, with `pointing_method` `touchscreen`;
/// - `complete_device_name`: `brand_name`, then `model_name` after a space when set.
/// Each is undefined where the static capability it starts from is.
pub open spec fn virtual_value(db: DeviceDatabase, i: int, name: Seq<char>) -> Option<Seq<char>> {
    let wireless = resolve(db.nodes@, i, "is_wireless_device"@);
    if name == "is_mobile"@ {
        match wireless {
            Some(w) => Some(if w == "true"@ { "true"@ } else { "false"@ }),
            None => None,
        }
    } else if name == "is_smartphone"@ {
        match wireless {
            Some(w) => Some(
                if w == "true"@ && !is_true(resolve(db.nodes@, i, "is_tablet"@)) && resolve(
                    db.nodes@,
                    i,
                    "pointing_method"@,
                ) == Some("touchscreen"@) {
                    "true"@
                } else {
                    "false"@
                },
            ),
            None => None,
        }
    } else if name == "complete_device_name"@ {
        match resolve(db.nodes@, i, "brand_name"@) {
            Some(b) => match resolve(db.nodes@, i, "model_name"@) {
                Some(m) => Some(b + " "@ + m),
                None => Some(b),
            },
            None => None,
        }
    } else {
        None
    }
}

/// Each requested name that the device defines, with its value, in the order requested.
pub open spec fn defined_values(
    names: Seq<Seq<char>>,
    value: spec_fn(Seq<char>) -> Option<Seq<char>>,
) -> Seq<(Seq<char>, Seq<char>)>
    decreases names.len(),
{
    if names.len() == 0 {
        Seq::empty()
    } else {
        let rest = defined_values(names.drop_last(), value);
        match value(names.last()) {
            Some(v) => rest.push((names.last(), v)),
            None => rest,
        }
    }
}

pub open spec fn pairs_view(v: Seq<Capability>) -> Seq<(Seq<char>, Seq<char>)> {
    v.map_values(|c: Capability| (c.name@, c.value@))
}

pub open spec fn strs_view(s: Seq<&str>) -> Seq<Seq<char>> {
    s.map_values(|x: &str| x@)
}

fn text(s: &str) -> (r: String)
    ensures
        r@ == s@,
{
    String::from_str(s)
}

/// Computes a virtual capability of device `i`.
pub fn virtual_capability(db: &DeviceDatabase, i: usize, name: &str) -> (r: Option<String>)
    requires
        db.wf(),
        i < db.nodes@.len(),
    ensures
        opt_str_view(r) == virtual_value(*db, i as int, name@),
{
    proof {
        reveal_strlit("is_mobile");
        reveal_strlit("is_smartphone");
        reveal_strlit("complete_device_name");
    }
    let wireless = db.resolve_capability(i, "is_wireless_device");
    if crate::database::str_eq(name, "is_mobile") {
        match wireless {
            Some(w) => Some(text(if crate::database::str_eq(w.as_str(), "true") { "true" } else { "false" })),
            None => None,
        }
    } else if crate::database::str_eq(name, "is_smartphone") {
        match wireless {
            Some(w) => {
                let tablet = match db.resolve_capability(i, "is_tablet") {
                    Some(t) => crate::database::str_eq(t.as_str(), "true"),
                    None => false,
                };
                let touch = match db.resolve_capability(i, "pointing_method") {
                    Some(p) => crate::database::str_eq(p.as_str(), "touchscreen"),
                    None => false,
                };
                let wl = crate::database::str_eq(w.as_str(), "true");
                Some(text(if wl && !tablet && touch { "true" } else { "false" }))
            },
            None => None,
        }
    } else if crate::database::str_eq(name, "complete_device_name") {
        match db.resolve_capability(i, "brand_name") {
            Some(b) => match db.resolve_capability(i, "model_name") {
                Some(m) => {
                    let mut s = b.clone();
                    s.append(" ");
                    s.append(m.as_str());
                    Some(s)
                },
                None => Some(b.clone()),
            },
            None => None,
        }
    } else {
        None
    }
}

/// A device found by a lookup: a read-only view of one profile of the database snapshot
/// that produced it, which it keeps alive.
pub struct Device {
    db: Arc<DeviceDatabase>,
    index: usize,
    match_type: MatchType,
    lookup_key: String,
}

impl Device {
    #[verifier::type_invariant]
    spec fn inv(&self) -> bool {
        &&& (*self.db).wf()
        &&& self.index < (*self.db).nodes@.len()
    }

    /// The database snapshot the device belongs to.
    pub closed spec fn snapshot(&self) -> DeviceDatabase {
        *self.db
    }

    /// The position of the device in its snapshot.
    pub closed spec fn index(&self) -> int {
        self.index as int
    }

    /// The position of a device is a machine index.
    pub proof fn lemma_index_bounds(&self)
        ensures
            0 <= self.index() <= usize::MAX,
    {
    }

    pub closed spec fn spec_match_type(&self) -> MatchType {
        self.match_type
    }

    /// The key the device was looked up with.
    pub closed spec fn key(&self) -> Seq<char> {
        self.lookup_key@
    }

    pub open spec fn id(&self) -> Seq<char> {
        self.snapshot().nodes@[self.index()].id@
    }

    pub(crate) fn new(db: Arc<DeviceDatabase>, index: usize, match_type: MatchType, lookup_key: String) -> (r: Device)
        requires
            (*db).wf(),
            index < (*db).nodes@.len(),
        ensures
            r.snapshot() == *db,
            r.index() == index,
            r.spec_match_type() == match_type,
            r.key() == lookup_key@,
    {
        Device { db, index, match_type, lookup_key }
    }

    /// The unique id of the device.
    pub fn get_device_id(&self) -> (r: &str)
        ensures
            r@ == self.id(),
    {
        proof { use_type_invariant(self); }
        self.db.nodes[self.index].id.as_str()
    }

    /// The id of the root of the hierarchy the device belongs to.
    #[allow(non_snake_case)]
    pub fn get_root_ID(&self) -> (r: &str)
        ensures
            r@ == self.snapshot().nodes@[self.snapshot().root as int].id@,
    {
        proof { use_type_invariant(self); }
        self.db.nodes[self.db.root].id.as_str()
    }

    /// Whether the device is the root of the hierarchy.
    pub fn is_root(&self) -> (r: bool)
        ensures
            r == (self.snapshot().nodes@[self.index()].parent is None),
            r == (self.index() == self.snapshot().root),
    {
        proof { use_type_invariant(self); }
        self.db.nodes[self.index].parent.is_none()
    }

    /// The User-Agent the lookup was made with.
    pub fn get_original_user_agent(&self) -> (r: &str)
        ensures
            r@ == self.key(),
    {
        self.lookup_key.as_str()
    }

    /// The key the matching engine worked on: the User-Agent, or the one picked from the
    /// request headers.
    pub fn get_normalized_user_agent(&self) -> (r: &str)
        ensures
            r@ == self.key(),
    {
        self.lookup_key.as_str()
    }

    /// The signature User-Agent of the device, which may differ from the one looked up.
    pub fn get_user_agent(&self) -> (r: &str)
        ensures
            r@ == self.snapshot().nodes@[self.index()].user_agent@,
    {
        proof { use_type_invariant(self); }
        self.db.nodes[self.index].user_agent.as_str()
    }

    /// The value of a capability: the device's own, else the nearest ancestor's.
    pub fn get_capability(&self, capability_name: &str) -> (r: Option<&str>)
        ensures
            match r {
                Some(v) => resolve(self.snapshot().nodes@, self.index(), capability_name@) == Some(v@),
                None => resolve(self.snapshot().nodes@, self.index(), capability_name@) is None,
            },
    {
        proof { use_type_invariant(self); }
        match self.db.resolve_capability(self.index, capability_name) {
            Some(v) => Some(v.as_str()),
            None => None,
        }
    }

    /// The value of a virtual capability, computed for this device.
    pub fn get_virtual_capability(&self, virtual_capability_name: &str) -> (r: Option<String>)
        ensures
            opt_str_view(r) == virtual_value(self.snapshot(), self.index(), virtual_capability_name@),
    {
        proof { use_type_invariant(self); }
        virtual_capability(&self.db, self.index, virtual_capability_name)
    }

    /// The values of the requested capabilities that the device defines, in the order
    /// requested. Every name can be asked for, so this always succeeds.
    pub fn get_capabilities(&self, cap_names: &[&str]) -> (r: Result<Vec<Capability>, WurflError>)
        ensures
            r matches Ok(v) && pairs_view(v@) == defined_values(
                strs_view(cap_names@),
                |n: Seq<char>| resolve(self.snapshot().nodes@, self.index(), n),
            ),
    {
        proof { use_type_invariant(self); }
        let ghost f = |n: Seq<char>| resolve(self.snapshot().nodes@, self.index(), n);
        let ghost names = strs_view(cap_names@);
        let mut out: Vec<Capability> = Vec::new();
        let mut k: usize = 0;
        while k < cap_names.len()
            invariant
                k <= cap_names@.len(),
                names == strs_view(cap_names@),
                f == (|n: Seq<char>| resolve(self.snapshot().nodes@, self.index(), n)),
                (*self.db).wf(),
                self.index < (*self.db).nodes@.len(),
                pairs_view(out@) == defined_values(names.take(k as int), f),
            decreases cap_names@.len() - k,
        {
            proof {
                assert(names.take(k + 1).drop_last() =~= names.take(k as int));
            }
            let name = cap_names[k];
            match self.db.resolve_capability(self.index, name) {
                Some(v) => {
                    out.push(Capability { name: text(name), value: v.clone() });
                    proof {
                        assert(pairs_view(out@) =~= defined_values(names.take(k + 1), f));
                    }
                },
                None => {},
            }
            k = k + 1;
        }
        proof {
            assert(names.take(cap_names@.len() as int) =~= names);
        }
        Ok(out)
    }

    /// The values of the requested virtual capabilities that the device defines, in the
    /// order requested. Every name can be asked for, so this always succeeds.
    pub fn get_virtual_capabilities(&self, vcap_names: &[&str]) -> (r: Result<Vec<Capability>, WurflError>)
        ensures
            r matches Ok(v) && pairs_view(v@) == defined_values(
                strs_view(vcap_names@),
                |n: Seq<char>| virtual_value(self.snapshot(), self.index(), n),
            ),
    {
        proof { use_type_invariant(self); }
        let ghost f = |n: Seq<char>| virtual_value(self.snapshot(), self.index(), n);
        let ghost names = strs_view(vcap_names@);
        let mut out: Vec<Capability> = Vec::new();
        let mut k: usize = 0;
        while k < vcap_names.len()
            invariant
                k <= vcap_names@.len(),
                names == strs_view(vcap_names@),
                f == (|n: Seq<char>| virtual_value(self.snapshot(), self.index(), n)),
                (*self.db).wf(),
                self.index < (*self.db).nodes@.len(),
                pairs_view(out@) == defined_values(names.take(k as int), f),
            decreases vcap_names@.len() - k,
        {
            proof {
                assert(names.take(k + 1).drop_last() =~= names.take(k as int));
            }
            let name = vcap_names[k];
            match virtual_capability(&self.db, self.index, name) {
                Some(v) => {
                    out.push(Capability { name: text(name), value: v });
                    proof {
                        assert(pairs_view(out@) =~= defined_values(names.take(k + 1), f));
                    }
                },
                None => {},
            }
            k = k + 1;
        }
        proof {
            assert(names.take(vcap_names@.len() as int) =~= names);
        }
        Ok(out)
    }

    /// How the device was found.
    pub fn get_match_type(&self) -> (r: MatchType)
        ensures
            r == self.spec_match_type(),
    {
        self.match_type
    }
}

pub open spec fn opt_str_view(o: Option<String>) -> Option<Seq<char>> {
    match o {
        Some(s) => Some(s@),
        None => None,
    }
}

} // verus!
