use vstd::prelude::*;
use vstd::string::StrSliceExecFns;
use std::sync::Arc;
use crate::{MatchType, WurflCacheProvider, WurflError, WurflErrorKind, WurflUpdaterFrequency};
use crate::cache::{
    cache_after, has_key, key_index, lemma_cache_after_members, lemma_repeat_lookup_hits, LookupCache,
};
use crate::database::{
    load_failure, names_of, patches_view, str_eq, Capability, DeviceDatabase, DeviceRecord,
    LoadError, Patch,
};
use crate::device::Device;
use crate::headers::{
    decode_utf8, lower_of, lowercase, names_view, normalized_key, prepare, prepared_view,
    raw_view, request_key,
};
use crate::loader::{filter_view, first_names, names_cover};
use crate::matcher::{match_result, match_user_agent};

verus! {

/// The number of entries of an LRU cache when no size is configured.
pub const DEFAULT_LRU_CAPACITY: usize = 30000;

/// The version of this engine.
pub const API_VERSION: &'static str = "1.0.0";

/// What a repository loader hands over: the devices, the names of the request headers that
/// matching reads (by priority), and a description of the data.
pub struct DatabaseSource {
    pub devices: Vec<DeviceRecord>,
    pub important_headers: Vec<String>,
    pub info: String,
    pub load_time: String,
}

pub open spec fn is_digit(c: char) -> bool {
    '0' <= c && c <= '9'
}

/// The number that a string of decimal digits writes.
pub open spec fn decimal_value(s: Seq<char>) -> nat
    decreases s.len(),
{
    if s.len() == 0 {
        0
    } else {
        decimal_value(s.drop_last()) * 10 + (s.last() as nat - '0' as nat) as nat
    }
}

/// The cache size a configuration string gives: a non-zero decimal number that fits.
pub open spec fn cache_size_of(s: Seq<char>) -> Option<nat> {
    if s.len() > 0 && (forall|i: int| 0 <= i < s.len() ==> is_digit(#[trigger] s[i]))
        && 0 < decimal_value(s) <= usize::MAX {
        Some(decimal_value(s))
    } else {
        None
    }
}

/// The capacity of the lookup cache of an engine; `None` for an invalid configuration.
pub open spec fn cache_capacity_of(provider: WurflCacheProvider, config: Option<Seq<char>>) -> Option<
    nat,
> {
    match provider {
        WurflCacheProvider::NoCache => Some(0),
        WurflCacheProvider::LRU => match config {
            None => Some(DEFAULT_LRU_CAPACITY as nat),
            Some(c) => cache_size_of(c),
        },
    }
}

proof fn lemma_decimal_grows(s: Seq<char>, i: int, j: int)
    requires
        0 <= i <= j <= s.len(),
        forall|k: int| 0 <= k < s.len() ==> is_digit(#[trigger] s[k]),
    ensures
        decimal_value(s.take(i)) <= decimal_value(s.take(j)),
    decreases j - i,
{
    if i < j {
        lemma_decimal_grows(s, i, j - 1);
        assert(s.take(j).drop_last() =~= s.take(j - 1));
    }
}

/// Reads a cache size written in decimal digits.
pub fn parse_cache_size(s: &str) -> (r: Option<usize>)
    ensures
        match r {
            Some(v) => cache_size_of(s@) == Some(v as nat),
            None => cache_size_of(s@) is None,
        },
{
    let n = s.unicode_len();
    if n == 0 {
        return None;
    }
    let mut acc: usize = 0;
    let mut i: usize = 0;
    while i < n
        invariant
            n == s@.len(),
            i <= n,
            forall|k: int| 0 <= k < i ==> is_digit(#[trigger] s@[k]),
            acc == decimal_value(s@.take(i as int)),
        decreases n - i,
    {
        let c = s.get_char(i);
        assert(s@.take(i + 1).drop_last() =~= s@.take(i as int));
        if c < '0' || c > '9' {
            return None;
        }
        let d = (c as u32 - '0' as u32) as usize;
        if acc > (usize::MAX - d) / 10 {
            proof {
                assert(decimal_value(s@.take(i + 1)) > usize::MAX);
                if forall|k: int| 0 <= k < s@.len() ==> is_digit(#[trigger] s@[k]) {
                    lemma_decimal_grows(s@, i + 1, n as int);
                    assert(s@.take(n as int) =~= s@);
                }
            }
            return None;
        }
        acc = acc * 10 + d;
        i = i + 1;
    }
    assert(s@.take(n as int) =~= s@);
    if acc == 0 {
        return None;
    }
    Some(acc)
}

/// The device-detection engine: a database snapshot, the important request headers, and
/// the lookup cache, plus the settings of the updater that replaces the snapshot.
pub struct Wurfl {
    db: Arc<DeviceDatabase>,
    cache: LookupCache,
    important_header_names: Vec<String>,
    important_lower: Vec<String>,
    info: String,
    load_time: String,
    patches: Vec<Patch>,
    cap_filter: Option<Vec<String>>,
    data_url: Option<String>,
    frequency: WurflUpdaterFrequency,
    connection_timeout: i32,
    transfer_timeout: i32,
    log_path: Option<String>,
    updater_running: bool,
    closed: bool,
}

/// The error for a failed load.
fn load_error(e: LoadError) -> (r: WurflError)
    ensures
        r.kind == WurflErrorKind::Load(e),
        r.msg@.len() > 0,
{
    let msg = match e {
        LoadError::EmptyDatabase => "the device data holds no device",
        LoadError::DuplicateDeviceId => "two devices share an id",
        LoadError::MissingAncestor => "a device falls back to an unknown id",
        LoadError::MultipleRoots => "more than one device has no fall-back",
        LoadError::CyclicHierarchy => "the fall-backs of a device never reach the root",
        LoadError::UnknownPatchTarget => "a patch names an unknown device",
    };
    proof {
        reveal_strlit("the device data holds no device");
        reveal_strlit("two devices share an id");
        reveal_strlit("a device falls back to an unknown id");
        reveal_strlit("more than one device has no fall-back");
        reveal_strlit("the fall-backs of a device never reach the root");
        reveal_strlit("a patch names an unknown device");
    }
    WurflError { kind: WurflErrorKind::Load(e), msg: String::from_str(msg) }
}

/// An error of the given kind with a non-empty message.
fn error(kind: WurflErrorKind, msg: &str) -> (r: WurflError)
    requires
        msg@.len() > 0,
    ensures
        r.kind == kind,
        r.msg@.len() > 0,
{
    WurflError { kind, msg: String::from_str(msg) }
}

/// Lower-cases the names of the important headers.
fn lower_names(names: &Vec<String>) -> (r: Vec<String>)
    ensures
        names_view(r@) == names_view(names@).map_values(|n: Seq<char>| lower_of(n)),
{
    let mut out: Vec<String> = Vec::new();
    let mut k: usize = 0;
    while k < names.len()
        invariant
            k <= names@.len(),
            out@.len() == k,
            names_view(out@) == names_view(names@.take(k as int)).map_values(
                |n: Seq<char>| lower_of(n),
            ),
        decreases names@.len() - k,
    {
        let ghost before = out@;
        out.push(lowercase(names[k].as_str()));
        proof {
            let lhs = names_view(out@);
            let rhs = names_view(names@.take(k + 1)).map_values(|n: Seq<char>| lower_of(n));
            assert(lhs.len() == rhs.len());
            assert forall|j: int| 0 <= j < lhs.len() implies lhs[j] == rhs[j] by {
                if j < k {
                    assert(out@[j] == before[j]);
                    assert(names@.take(k + 1)[j] == names@.take(k as int)[j]);
                    assert(names_view(before)[j] == lhs[j]);
                }
            }
            assert(lhs =~= rhs);
        }
        k = k + 1;
    }
    assert(names@.take(names@.len() as int) =~= names@);
    out
}

/// Lower-cases the header names and reads the values as text.
fn prepare_headers(headers: &Vec<(String, Vec<u8>)>) -> (r: Vec<(String, Option<String>)>)
    ensures
        prepared_view(r@) == raw_view(headers@).map_values(|p: (Seq<char>, Seq<u8>)| prepare(p)),
{
    let mut out: Vec<(String, Option<String>)> = Vec::new();
    let mut k: usize = 0;
    while k < headers.len()
        invariant
            k <= headers@.len(),
            out@.len() == k,
            prepared_view(out@) == raw_view(headers@.take(k as int)).map_values(
                |p: (Seq<char>, Seq<u8>)| prepare(p),
            ),
        decreases headers@.len() - k,
    {
        let h = &headers[k];
        let name = lowercase(h.0.as_str());
        let value = decode_utf8(h.1.as_slice());
        let ghost before = out@;
        out.push((name, value));
        proof {
            let lhs = prepared_view(out@);
            let rhs = raw_view(headers@.take(k + 1)).map_values(|p: (Seq<char>, Seq<u8>)| prepare(p));
            assert(lhs.len() == rhs.len());
            assert forall|j: int| 0 <= j < lhs.len() implies lhs[j] == rhs[j] by {
                if j < k {
                    assert(out@[j] == before[j]);
                    assert(headers@.take(k + 1)[j] == headers@.take(k as int)[j]);
                    assert(prepared_view(before)[j] == lhs[j]);
                }
            }
            assert(lhs =~= rhs);
        }
        k = k + 1;
    }
    assert(headers@.take(headers@.len() as int) =~= headers@);
    out
}

/// A repeated lookup is a cache hit: on an engine with a cache, a lookup of a key right
/// after a successful lookup of the same key reports a cache hit on the same device.
pub proof fn lemma_repeat_lookup_cached(
    w0: &Wurfl,
    w1: &Wurfl,
    w2: &Wurfl,
    key: Seq<char>,
    r1: Result<Device, WurflError>,
    r2: Result<Device, WurflError>,
)
    requires
        w0.wf(),
        w0.cache_capacity() > 0,
        w0.looked_up(w1, key, r1),
        w1.looked_up(w2, key, r2),
        r1 is Ok,
    ensures
        r2 matches Ok(d2) && d2.spec_match_type() == MatchType::WurflMatchTypeCached,
        r2 matches Ok(d2) && r1 matches Ok(d1) && d2.index() == d1.index() && d2.id() == d1.id(),
{
    let d1 = r1->Ok_0;
    d1.lemma_index_bounds();
    let s = w0.cache_entries();
    lemma_repeat_lookup_hits(s, w0.cache_capacity(), key, d1.index() as usize);
}

/// A copy of capability entries.
fn copy_caps(caps: &Vec<Capability>) -> (r: Vec<Capability>)
    ensures
        r@ == caps@,
{
    let mut out: Vec<Capability> = Vec::new();
    let mut k: usize = 0;
    while k < caps.len()
        invariant
            k <= caps@.len(),
            out@ == caps@.take(k as int),
        decreases caps@.len() - k,
    {
        out.push(Capability { name: caps[k].name.clone(), value: caps[k].value.clone() });
        assert(out@ =~= caps@.take(k + 1));
        k = k + 1;
    }
    assert(caps@.take(caps@.len() as int) =~= caps@);
    out
}

/// A copy of patches, as loading reads them.
fn copy_patches(ps: &Vec<Patch>) -> (r: Vec<Patch>)
    ensures
        patches_view(r@) == patches_view(ps@),
{
    let mut out: Vec<Patch> = Vec::new();
    let mut k: usize = 0;
    while k < ps.len()
        invariant
            k <= ps@.len(),
            out@.len() == k,
            forall|j: int|
                0 <= j < k ==> (#[trigger] out@[j]).device_id@ == ps@[j].device_id@
                    && out@[j].capabilities@ == ps@[j].capabilities@,
        decreases ps@.len() - k,
    {
        out.push(Patch { device_id: ps[k].device_id.clone(), capabilities: copy_caps(&ps[k].capabilities) });
        k = k + 1;
    }
    assert(patches_view(out@) =~= patches_view(ps@));
    out
}

/// The names of the virtual capabilities the engine computes.
pub open spec fn virtual_names() -> Seq<Seq<char>> {
    seq!["is_mobile"@, "is_smartphone"@, "complete_device_name"@]
}

fn copy_names(names: &Vec<String>) -> (r: Vec<String>)
    ensures
        names_view(r@) == names_view(names@),
{
    let mut out: Vec<String> = Vec::new();
    let mut k: usize = 0;
    while k < names.len()
        invariant
            k <= names@.len(),
            out@.len() == k,
            forall|j: int| 0 <= j < k ==> out@[j]@ == names@[j]@,
        decreases names@.len() - k,
    {
        out.push(names[k].clone());
        k = k + 1;
    }
    assert(names_view(out@) =~= names_view(names@));
    out
}

impl Wurfl {
    /// The database snapshot lookups currently run against.
    pub closed spec fn snapshot(&self) -> DeviceDatabase {
        *self.db
    }

    /// The lookup cache, from the least recently used entry to the most recently used.
    pub closed spec fn cache_entries(&self) -> Seq<(Seq<char>, usize)> {
        self.cache@
    }

    pub closed spec fn cache_capacity(&self) -> nat {
        self.cache.spec_capacity()
    }

    /// The important header names, by priority.
    pub closed spec fn important(&self) -> Seq<Seq<char>> {
        names_view(self.important_header_names@)
    }

    /// The important header names, lower-cased.
    pub closed spec fn important_lower(&self) -> Seq<Seq<char>> {
        names_view(self.important_lower@)
    }

    /// The patches every load of this engine applies, as loading reads them.
    pub closed spec fn spec_patches(&self) -> Seq<(Seq<char>, Seq<Capability>)> {
        patches_view(self.patches@)
    }

    /// The capability filter every load of this engine applies.
    pub closed spec fn spec_filter(&self) -> Option<Seq<Seq<char>>> {
        match self.cap_filter {
            Some(f) => Some(names_of(f@)),
            None => None,
        }
    }

    /// Everything a lookup depends on, and the settings every load uses, are as in `o`.
    pub closed spec fn same_engine(&self, o: &Wurfl) -> bool {
        &&& self.db == o.db
        &&& self.cache@ == o.cache@
        &&& self.cache.spec_capacity() == o.cache.spec_capacity()
        &&& self.important_header_names == o.important_header_names
        &&& self.important_lower == o.important_lower
        &&& self.info == o.info
        &&& self.load_time == o.load_time
        &&& self.patches == o.patches
        &&& self.cap_filter == o.cap_filter
        &&& self.closed == o.closed
    }

    pub closed spec fn is_closed(&self) -> bool {
        self.closed
    }

    pub closed spec fn spec_data_url(&self) -> Option<Seq<char>> {
        match self.data_url {
            Some(u) => Some(u@),
            None => None,
        }
    }

    pub closed spec fn spec_log_path(&self) -> Option<Seq<char>> {
        match self.log_path {
            Some(u) => Some(u@),
            None => None,
        }
    }

    pub closed spec fn spec_frequency(&self) -> WurflUpdaterFrequency {
        self.frequency
    }

    pub closed spec fn spec_timeouts(&self) -> (i32, i32) {
        (self.connection_timeout, self.transfer_timeout)
    }

    pub closed spec fn spec_load_time(&self) -> Seq<char> {
        self.load_time@
    }

    pub closed spec fn spec_info(&self) -> Seq<char> {
        self.info@
    }

    pub closed spec fn spec_updater_running(&self) -> bool {
        self.updater_running
    }

    pub closed spec fn wf(&self) -> bool {
        &&& (*self.db).wf()
        &&& self.cache.wf()
        &&& forall|j: int|
            0 <= j < self.cache@.len() ==> (#[trigger] self.cache@[j]).1 < (*self.db).nodes@.len()
        &&& names_view(self.important_lower@) == names_view(self.important_header_names@).map_values(
            |n: Seq<char>| lower_of(n),
        )
    }

    /// Everything but the cache is as in `o`.
    pub closed spec fn same_but_cache(&self, o: &Wurfl) -> bool {
        &&& self.db == o.db
        &&& self.cache.spec_capacity() == o.cache.spec_capacity()
        &&& self.important_header_names == o.important_header_names
        &&& self.important_lower == o.important_lower
        &&& self.info == o.info
        &&& self.load_time == o.load_time
        &&& self.patches == o.patches
        &&& self.cap_filter == o.cap_filter
        &&& self.data_url == o.data_url
        &&& self.frequency == o.frequency
        &&& self.connection_timeout == o.connection_timeout
        &&& self.transfer_timeout == o.transfer_timeout
        &&& self.log_path == o.log_path
        &&& self.updater_running == o.updater_running
        &&& self.closed == o.closed
    }

    /// The device index and match type a lookup of `key` yields: the cached device on a
    /// hit, else the matching engine's answer.
    pub open spec fn found_by(&self, key: Seq<char>, index: int, mt: MatchType) -> bool {
        if has_key(self.cache_entries(), key) {
            &&& index == self.cache_entries()[key_index(self.cache_entries(), key)].1
            &&& mt == MatchType::WurflMatchTypeCached
        } else {
            (index, mt) == match_result(self.snapshot(), key)
        }
    }

    /// The result of a lookup of `key` on the engine as it was (`self`), given the engine
    /// after it (`after`).
    pub open spec fn looked_up(&self, after: &Wurfl, key: Seq<char>, r: Result<Device, WurflError>) -> bool {
        &&& after.wf()
        &&& after.snapshot() == self.snapshot()
        &&& after.cache_capacity() == self.cache_capacity()
        &&& after.is_closed() == self.is_closed()
        &&& after.important_lower() == self.important_lower()
        &&& after.cache_entries().len() <= after.cache_capacity()
        &&& (self.is_closed() ==> (r matches Err(e) && e.kind == WurflErrorKind::Terminal)
            && after.cache_entries() == self.cache_entries())
        &&& (!self.is_closed() ==> (r matches Ok(d) && {
            &&& d.snapshot() == self.snapshot()
            &&& d.key() == key
            &&& self.found_by(key, d.index(), d.spec_match_type())
            &&& d.spec_match_type() != MatchType::WurflMatchTypeNone
            &&& after.cache_entries() == cache_after(
                self.cache_entries(),
                self.cache_capacity(),
                key,
                d.index() as usize,
            )
        }))
    }

    /// Creates the engine: checks the cache configuration, loads the device data with the
    /// patches and the capability filter, and prepares the important headers.
    /// An LRU cache without a configured size keeps `DEFAULT_LRU_CAPACITY` entries; a
    /// configured size must be a non-zero decimal number, else the engine is not created.
    pub fn new(
        source: &DatabaseSource,
        patches: Option<&Vec<Patch>>,
        cap_filter: Option<&Vec<String>>,
        cache_provider: WurflCacheProvider,
        cache_extra_config: Option<&str>,
    ) -> (r: Result<Wurfl, WurflError>)
        ensures
            ({
                let config = match cache_extra_config {
                    Some(c) => Some(c@),
                    None => None,
                };
                let ps = match patches {
                    Some(p) => patches_view(p@),
                    None => Seq::empty(),
                };
                let cap = cache_capacity_of(cache_provider, config);
                match r {
                    Ok(w) => {
                        &&& cap is Some
                        &&& load_failure(source.devices@, ps) is None
                        &&& w.wf()
                        &&& w.snapshot().loaded_from(source.devices@, ps, filter_view(cap_filter))
                        &&& names_cover(w.snapshot().nodes@, w.snapshot().capability_names@)
                        &&& names_of(w.snapshot().capability_names@) == first_names(w.snapshot().nodes@)
                        &&& w.spec_patches() == ps
                        &&& w.spec_filter() == filter_view(cap_filter)
                        &&& w.cache_entries() == Seq::<(Seq<char>, usize)>::empty()
                        &&& w.cache_capacity() == cap->0
                        &&& w.important() == names_view(source.important_headers@)
                        &&& w.spec_info() == source.info@
                        &&& w.spec_load_time() == source.load_time@
                        &&& !w.is_closed()
                        &&& w.spec_data_url() is None
                        &&& !w.spec_updater_running()
                    },
                    Err(e) => e.msg@.len() > 0 && if cap is None {
                        e.kind == WurflErrorKind::InvalidCacheConfig
                    } else {
                        &&& load_failure(source.devices@, ps) is Some
                        &&& e.kind == WurflErrorKind::Load(load_failure(source.devices@, ps)->0)
                    },
                }
            }),
    {
        let capacity: usize = match cache_provider {
            WurflCacheProvider::NoCache => 0,
            WurflCacheProvider::LRU => match cache_extra_config {
                None => DEFAULT_LRU_CAPACITY,
                Some(c) => match parse_cache_size(c) {
                    Some(v) => v,
                    None => {
                        proof {
                            reveal_strlit("the cache size must be a positive decimal number");
                        }
                        return Err(
                            error(
                                WurflErrorKind::InvalidCacheConfig,
                                "the cache size must be a positive decimal number",
                            ),
                        );
                    },
                },
            },
        };
        let no_patches: Vec<Patch> = Vec::new();
        let ps: &Vec<Patch> = match patches {
            Some(p) => p,
            None => &no_patches,
        };
        assert(patches_view(ps@) =~= (match patches {
            Some(p) => patches_view(p@),
            None => Seq::empty(),
        }));
        let db = match DeviceDatabase::load(&source.devices, ps, cap_filter) {
            Ok(db) => db,
            Err(e) => {
                return Err(load_error(e));
            },
        };
        let important_header_names = copy_names(&source.important_headers);
        let important_lower = lower_names(&source.important_headers);
        let kept_filter = match cap_filter {
            Some(f) => Some(copy_names(f)),
            None => None,
        };
        proof {
            if let Some(f) = cap_filter {
                let g = kept_filter->0;
                assert(names_of(g@) =~= names_of(f@)) by {
                    assert forall|i: int| 0 <= i < g@.len() implies g@[i]@ == f@[i]@ by {
                        assert(names_view(g@)[i] == names_view(f@)[i]);
                    }
                }
            }
        }
        let w = Wurfl {
            db: Arc::new(db),
            cache: LookupCache::new(capacity),
            important_header_names,
            important_lower,
            info: source.info.clone(),
            load_time: source.load_time.clone(),
            patches: copy_patches(ps),
            cap_filter: kept_filter,
            data_url: None,
            frequency: WurflUpdaterFrequency::WurflUpdaterFrequencyDaily,
            connection_timeout: -1,
            transfer_timeout: -1,
            log_path: None,
            updater_running: false,
            closed: false,
        };
        assert(names_view(w.important_lower@) =~= names_view(w.important_header_names@).map_values(
            |n: Seq<char>| lower_of(n),
        ));
        Ok(w)
    }

    /// The lookup of a matching key: a cache hit, else the matching engine, whose answer is
    /// then cached.
    fn lookup_key(&mut self, key: String) -> (r: Device)
        requires
            old(self).wf(),
            !old(self).is_closed(),
        ensures
            old(self).looked_up(final(self), key@, Ok(r)),
            final(self).same_but_cache(old(self)),
    {
        let ghost s = self.cache@;
        let ghost cap = self.cache.spec_capacity();
        match self.cache.get(key.as_str()) {
            Some(d) => {
                proof {
                    let i = key_index(s, key@);
                    assert(0 <= i < s.len() && s[i].0 == key@);
                    assert(s[i].1 < (*self.db).nodes@.len());
                    lemma_cache_after_members(s, cap, key@, d);
                    assert forall|j: int| 0 <= j < self.cache@.len() implies (
                    #[trigger] self.cache@[j]).1 < (*self.db).nodes@.len() by {
                        let e = cache_after(s, cap, key@, d)[j];
                        if e != (key@, d) {
                            let m = choose|m: int| 0 <= m < s.len() && s[m] == e;
                            assert(s[m].1 < (*self.db).nodes@.len());
                        }
                    }
                }
                Device::new(Arc::clone(&self.db), d, MatchType::WurflMatchTypeCached, key)
            },
            None => {
                let (i, mt) = match_user_agent(&self.db, key.as_str());
                self.cache.insert(key.as_str(), i);
                proof {
                    assert(cache_after(s, cap, key@, i) == self.cache@);
                    lemma_cache_after_members(s, cap, key@, i);
                    assert forall|j: int| 0 <= j < self.cache@.len() implies (
                    #[trigger] self.cache@[j]).1 < (*self.db).nodes@.len() by {
                        let e = cache_after(s, cap, key@, i)[j];
                        if e != (key@, i) {
                            let m = choose|m: int| 0 <= m < s.len() && s[m] == e;
                            assert(s[m].1 < (*self.db).nodes@.len());
                        }
                    }
                }
                Device::new(Arc::clone(&self.db), i, mt, key)
            },
        }
    }

    /// Finds the device for a User-Agent.
    pub fn lookup_useragent(&mut self, user_agent: &str) -> (r: Result<Device, WurflError>)
        requires
            old(self).wf(),
        ensures
            old(self).looked_up(final(self), user_agent@, r),
            final(self).same_but_cache(old(self)),
    {
        if self.closed {
            proof {
                reveal_strlit("the engine was shut down");
            }
            return Err(error(WurflErrorKind::Terminal, "the engine was shut down"));
        }
        Ok(self.lookup_key(String::from_str(user_agent)))
    }

    /// Finds the device for a request, given its headers as names and raw values. Only
    /// the important headers take part, whatever the case of their names; a value that is
    /// not UTF-8 is skipped.
    pub fn lookup_with_headers(&mut self, headers: &Vec<(String, Vec<u8>)>) -> (r: Result<
        Device,
        WurflError,
    >)
        requires
            old(self).wf(),
        ensures
            old(self).looked_up(final(self), request_key(old(self).important_lower(), raw_view(headers@)), r),
            final(self).same_but_cache(old(self)),
    {
        if self.closed {
            proof {
                reveal_strlit("the engine was shut down");
            }
            return Err(error(WurflErrorKind::Terminal, "the engine was shut down"));
        }
        let prepared = prepare_headers(headers);
        let key = normalized_key(&self.important_lower, &prepared);
        Ok(self.lookup_key(key))
    }

    /// The device with the given id, bypassing matching and the cache; it is reported as
    /// an exact match.
    pub fn lookup_device_id(&self, device_id: &str) -> (r: Result<Device, WurflError>)
        requires
            self.wf(),
        ensures
            self.is_closed() ==> (r matches Err(e) && e.kind == WurflErrorKind::Terminal),
            !self.is_closed() ==> (r is Ok <==> self.snapshot().index_of(device_id@) is Some),
            match r {
                Ok(d) => {
                    &&& d.id() == device_id@
                    &&& d.snapshot() == self.snapshot()
                    &&& d.index() == self.snapshot().index_of(device_id@)->0
                    &&& d.spec_match_type() == MatchType::WurflMatchTypeExact
                    &&& d.key() == Seq::<char>::empty()
                },
                Err(e) => self.is_closed() || e.kind == WurflErrorKind::NotFound,
            },
    {
        self.device_with_key(device_id, String::new())
    }

    /// The device with the given id, looked up along with the request headers, whose
    /// matching key the device reports as its User-Agent.
    pub fn lookup_device_id_with_headers(&self, device_id: &str, headers: &Vec<(String, Vec<u8>)>) -> (r:
        Result<Device, WurflError>)
        requires
            self.wf(),
        ensures
            self.is_closed() ==> (r matches Err(e) && e.kind == WurflErrorKind::Terminal),
            !self.is_closed() ==> (r is Ok <==> self.snapshot().index_of(device_id@) is Some),
            match r {
                Ok(d) => {
                    &&& d.id() == device_id@
                    &&& d.snapshot() == self.snapshot()
                    &&& d.index() == self.snapshot().index_of(device_id@)->0
                    &&& d.spec_match_type() == MatchType::WurflMatchTypeExact
                    &&& d.key() == request_key(self.important_lower(), raw_view(headers@))
                },
                Err(e) => self.is_closed() || e.kind == WurflErrorKind::NotFound,
            },
    {
        if self.closed {
            proof {
                reveal_strlit("the engine was shut down");
            }
            return Err(error(WurflErrorKind::Terminal, "the engine was shut down"));
        }
        let prepared = prepare_headers(headers);
        let key = normalized_key(&self.important_lower, &prepared);
        self.device_with_key(device_id, key)
    }

    /// The version of the engine.
    pub fn get_api_version(&self) -> (r: &str)
        ensures
            r@ == API_VERSION@,
    {
        API_VERSION
    }

    /// When the device data was loaded, as the loader wrote it.
    pub fn get_last_load_time(&self) -> (r: &str)
        ensures
            r@ == self.spec_load_time(),
    {
        self.load_time.as_str()
    }

    /// A description of the engine and its device data.
    pub fn get_info(&self) -> (r: &str)
        ensures
            r@ == self.spec_info(),
    {
        self.info.as_str()
    }

    /// Every capability name that some device sets, once each.
    pub fn get_all_caps(&self) -> (r: Vec<String>)
        requires
            self.wf(),
        ensures
            names_view(r@) == names_view(self.snapshot().capability_names@),
    {
        copy_names(&self.db.capability_names)
    }

    /// The names of the virtual capabilities.
    pub fn get_all_vcaps(&self) -> (r: Vec<String>)
        ensures
            names_view(r@) == virtual_names(),
    {
        let mut v: Vec<String> = Vec::new();
        v.push(String::from_str("is_mobile"));
        v.push(String::from_str("is_smartphone"));
        v.push(String::from_str("complete_device_name"));
        assert(names_view(v@) =~= virtual_names());
        v
    }

    /// The names listed by an enumeration of the engine.
    pub fn enumerate(&self, et: crate::WurflEnumType) -> (r: Vec<String>)
        requires
            self.wf(),
        ensures
            names_view(r@) == (match et {
                crate::WurflEnumType::WurflEnumStaticCapabilities => names_view(
                    self.snapshot().capability_names@,
                ),
                crate::WurflEnumType::WurflEnumVirtualCapabilities => virtual_names(),
                crate::WurflEnumType::WurflEnumWurflID => self.snapshot().ids(),
            }),
    {
        let code = crate::to_wurfl_enum_type(et);
        if code == 0 {
            self.get_all_caps()
        } else if code == 1 {
            self.get_all_vcaps()
        } else {
            self.get_all_device_ids()
        }
    }

    /// The ids of all devices, in the order they were loaded.
    pub fn get_all_device_ids(&self) -> (r: Vec<String>)
        requires
            self.wf(),
        ensures
            names_view(r@) == self.snapshot().ids(),
    {
        let nodes = &self.db.nodes;
        let mut out: Vec<String> = Vec::new();
        let mut k: usize = 0;
        while k < nodes.len()
            invariant
                k <= nodes@.len(),
                out@.len() == k,
                forall|j: int| 0 <= j < k ==> out@[j]@ == nodes@[j].id@,
            decreases nodes@.len() - k,
        {
            out.push(nodes[k].id.clone());
            k = k + 1;
        }
        assert(names_view(out@) =~= self.snapshot().ids());
        out
    }

    /// Whether some device sets the capability.
    pub fn has_capability(&self, cap_name: &str) -> (r: bool)
        requires
            self.wf(),
        ensures
            r == names_view(self.snapshot().capability_names@).contains(cap_name@),
    {
        let names = &self.db.capability_names;
        let mut k: usize = 0;
        while k < names.len()
            invariant
                k <= names@.len(),
                names == (*self.db).capability_names,
                forall|j: int| 0 <= j < k ==> names@[j]@ != cap_name@,
            decreases names@.len() - k,
        {
            if str_eq(names[k].as_str(), cap_name) {
                assert(names_view(names@).len() == names@.len());
                assert(names_view(names@)[k as int] == cap_name@);
                assert(names_view(names@).contains(cap_name@));
                return true;
            }
            k = k + 1;
        }
        proof {
            if names_view(names@).contains(cap_name@) {
                let j = choose|j: int| 0 <= j < names_view(names@).len() && names_view(names@)[j] == cap_name@;
                assert(names@[j]@ == cap_name@);
            }
        }
        false
    }

    /// Whether the engine computes the virtual capability.
    pub fn has_virtual_capability(&self, vcap_name: &str) -> (r: bool)
        ensures
            r == virtual_names().contains(vcap_name@),
    {
        let r = str_eq(vcap_name, "is_mobile") || str_eq(vcap_name, "is_smartphone") || str_eq(
            vcap_name,
            "complete_device_name",
        );
        proof {
            if r {
                if vcap_name@ == "is_mobile"@ {
                    assert(virtual_names()[0] == vcap_name@);
                } else if vcap_name@ == "is_smartphone"@ {
                    assert(virtual_names()[1] == vcap_name@);
                } else {
                    assert(virtual_names()[2] == vcap_name@);
                }
            }
        }
        r
    }

    /// The important header names, by priority.
    pub fn get_important_headers(&self) -> (r: &Vec<String>)
        ensures
            names_view(r@) == self.important(),
    {
        &self.important_header_names
    }

    /// Sets where the updater fetches new device data from; the URL must not be empty.
    pub fn set_updater_data_url(&mut self, data_url: &str) -> (r: Option<WurflError>)
        requires
            old(self).wf(),
        ensures
            final(self).wf(),
            final(self).same_engine(old(self)),
            final(self).spec_frequency() == old(self).spec_frequency(),
            final(self).spec_timeouts() == old(self).spec_timeouts(),
            final(self).spec_log_path() == old(self).spec_log_path(),
            final(self).spec_updater_running() == old(self).spec_updater_running(),
            match r {
                None => !old(self).is_closed() && data_url@.len() > 0 && final(self).spec_data_url()
                    == Some(data_url@),
                Some(e) => {
                    &&& final(self).spec_data_url() == old(self).spec_data_url()
                    &&& e.msg@.len() > 0
                    &&& if old(self).is_closed() {
                        e.kind == WurflErrorKind::Terminal
                    } else {
                        data_url@.len() == 0 && e.kind == WurflErrorKind::Updater
                    }
                },
            },
    {
        proof {
            reveal_strlit("the engine was shut down");
            reveal_strlit("the data URL is empty");
        }
        if self.closed {
            return Some(error(WurflErrorKind::Terminal, "the engine was shut down"));
        }
        if data_url.unicode_len() == 0 {
            return Some(error(WurflErrorKind::Updater, "the data URL is empty"));
        }
        self.data_url = Some(String::from_str(data_url));
        None
    }

    /// Sets how often the updater looks for new device data.
    pub fn set_updater_data_frequency(&mut self, freq: WurflUpdaterFrequency) -> (r: Option<WurflError>)
        requires
            old(self).wf(),
        ensures
            final(self).wf(),
            final(self).same_engine(old(self)),
            final(self).spec_data_url() == old(self).spec_data_url(),
            final(self).spec_timeouts() == old(self).spec_timeouts(),
            final(self).spec_log_path() == old(self).spec_log_path(),
            final(self).spec_updater_running() == old(self).spec_updater_running(),
            match r {
                None => !old(self).is_closed() && final(self).spec_frequency() == freq,
                Some(e) => old(self).is_closed() && e.kind == WurflErrorKind::Terminal && e.msg@.len()
                    > 0 && final(self).spec_frequency() == old(self).spec_frequency(),
            },
    {
        proof {
            reveal_strlit("the engine was shut down");
        }
        if self.closed {
            return Some(error(WurflErrorKind::Terminal, "the engine was shut down"));
        }
        self.frequency = freq;
        None
    }

    /// Sets the connection and transfer timeouts of the updater, in milliseconds: 0 for
    /// none, -1 for the defaults; a smaller value is refused.
    pub fn set_updater_data_url_timeout(&mut self, conn_timeout: i32, data_transfer_timeout: i32) -> (r:
        Option<WurflError>)
        requires
            old(self).wf(),
        ensures
            final(self).wf(),
            final(self).same_engine(old(self)),
            final(self).spec_data_url() == old(self).spec_data_url(),
            final(self).spec_frequency() == old(self).spec_frequency(),
            final(self).spec_log_path() == old(self).spec_log_path(),
            final(self).spec_updater_running() == old(self).spec_updater_running(),
            match r {
                None => !old(self).is_closed() && conn_timeout >= -1 && data_transfer_timeout >= -1
                    && final(self).spec_timeouts() == (conn_timeout, data_transfer_timeout),
                Some(e) => {
                    &&& final(self).spec_timeouts() == old(self).spec_timeouts()
                    &&& e.msg@.len() > 0
                    &&& if old(self).is_closed() {
                        e.kind == WurflErrorKind::Terminal
                    } else {
                        (conn_timeout < -1 || data_transfer_timeout < -1) && e.kind
                            == WurflErrorKind::Updater
                    }
                },
            },
    {
        proof {
            reveal_strlit("the engine was shut down");
            reveal_strlit("a timeout is below -1");
        }
        if self.closed {
            return Some(error(WurflErrorKind::Terminal, "the engine was shut down"));
        }
        if conn_timeout < -1 || data_transfer_timeout < -1 {
            return Some(error(WurflErrorKind::Updater, "a timeout is below -1"));
        }
        self.connection_timeout = conn_timeout;
        self.transfer_timeout = data_transfer_timeout;
        None
    }

    /// Sets the file the updater logs to; the path must not be empty.
    pub fn set_updater_log_path(&mut self, log_file: &str) -> (r: Option<WurflError>)
        requires
            old(self).wf(),
        ensures
            final(self).wf(),
            final(self).same_engine(old(self)),
            final(self).spec_data_url() == old(self).spec_data_url(),
            final(self).spec_frequency() == old(self).spec_frequency(),
            final(self).spec_timeouts() == old(self).spec_timeouts(),
            final(self).spec_updater_running() == old(self).spec_updater_running(),
            match r {
                None => !old(self).is_closed() && log_file@.len() > 0 && final(self).spec_log_path()
                    == Some(log_file@),
                Some(e) => {
                    &&& final(self).spec_log_path() == old(self).spec_log_path()
                    &&& e.msg@.len() > 0
                    &&& if old(self).is_closed() {
                        e.kind == WurflErrorKind::Terminal
                    } else {
                        log_file@.len() == 0 && e.kind == WurflErrorKind::Updater
                    }
                },
            },
    {
        proof {
            reveal_strlit("the engine was shut down");
            reveal_strlit("the log path is empty");
        }
        if self.closed {
            return Some(error(WurflErrorKind::Terminal, "the engine was shut down"));
        }
        if log_file.unicode_len() == 0 {
            return Some(error(WurflErrorKind::Updater, "the log path is empty"));
        }
        self.log_path = Some(String::from_str(log_file));
        None
    }

    /// One update: replaces the snapshot by one loaded from the device data that was
    /// fetched from the data URL, with the patches and the capability filter the engine
    /// was created with, and empties the cache. Devices already handed out keep the
    /// snapshot they came from. A failed load changes nothing.
    pub fn updater_runonce(&mut self, fetched: &DatabaseSource) -> (r: Option<WurflError>)
        requires
            old(self).wf(),
        ensures
            final(self).wf(),
            final(self).is_closed() == old(self).is_closed(),
            final(self).cache_capacity() == old(self).cache_capacity(),
            final(self).spec_patches() == old(self).spec_patches(),
            final(self).spec_filter() == old(self).spec_filter(),
            final(self).spec_data_url() == old(self).spec_data_url(),
            final(self).spec_updater_running() == old(self).spec_updater_running(),
            match r {
                None => {
                    &&& !old(self).is_closed()
                    &&& old(self).spec_data_url() is Some
                    &&& load_failure(fetched.devices@, old(self).spec_patches()) is None
                    &&& final(self).snapshot().loaded_from(
                        fetched.devices@,
                        old(self).spec_patches(),
                        old(self).spec_filter(),
                    )
                    &&& names_cover(
                        final(self).snapshot().nodes@,
                        final(self).snapshot().capability_names@,
                    )
                    &&& names_of(final(self).snapshot().capability_names@) == first_names(
                        final(self).snapshot().nodes@,
                    )
                    &&& final(self).cache_entries() == Seq::<(Seq<char>, usize)>::empty()
                    &&& final(self).important() == names_view(fetched.important_headers@)
                    &&& final(self).spec_info() == fetched.info@
                    &&& final(self).spec_load_time() == fetched.load_time@
                },
                Some(e) => {
                    &&& final(self).same_engine(old(self))
                    &&& e.msg@.len() > 0
                    &&& if old(self).is_closed() {
                        e.kind == WurflErrorKind::Terminal
                    } else if old(self).spec_data_url() is None {
                        e.kind == WurflErrorKind::Updater
                    } else {
                        &&& load_failure(fetched.devices@, old(self).spec_patches()) is Some
                        &&& e.kind == WurflErrorKind::Load(
                            load_failure(fetched.devices@, old(self).spec_patches())->0,
                        )
                    }
                },
            },
    {
        proof {
            reveal_strlit("the engine was shut down");
            reveal_strlit("no data URL is set");
        }
        if self.closed {
            return Some(error(WurflErrorKind::Terminal, "the engine was shut down"));
        }
        if self.data_url.is_none() {
            return Some(error(WurflErrorKind::Updater, "no data URL is set"));
        }
        let filter: Option<&Vec<String>> = match &self.cap_filter {
            Some(f) => Some(f),
            None => None,
        };
        assert(filter_view(filter) == self.spec_filter());
        let db = match DeviceDatabase::load(&fetched.devices, &self.patches, filter) {
            Ok(db) => db,
            Err(e) => {
                return Some(load_error(e));
            },
        };
        self.db = Arc::new(db);
        self.cache.clear();
        self.important_header_names = copy_names(&fetched.important_headers);
        self.important_lower = lower_names(&fetched.important_headers);
        self.info = fetched.info.clone();
        self.load_time = fetched.load_time.clone();
        assert(names_view(self.important_lower@) =~= names_view(self.important_header_names@).map_values(
            |n: Seq<char>| lower_of(n),
        ));
        None
    }

    /// Starts periodic updates; a data URL must be set.
    pub fn updater_start(&mut self) -> (r: Option<WurflError>)
        requires
            old(self).wf(),
        ensures
            final(self).wf(),
            final(self).same_engine(old(self)),
            final(self).spec_data_url() == old(self).spec_data_url(),
            final(self).spec_frequency() == old(self).spec_frequency(),
            final(self).spec_timeouts() == old(self).spec_timeouts(),
            final(self).spec_log_path() == old(self).spec_log_path(),
            match r {
                None => !old(self).is_closed() && old(self).spec_data_url() is Some
                    && final(self).spec_updater_running(),
                Some(e) => {
                    &&& final(self).spec_updater_running() == old(self).spec_updater_running()
                    &&& e.msg@.len() > 0
                    &&& if old(self).is_closed() {
                        e.kind == WurflErrorKind::Terminal
                    } else {
                        old(self).spec_data_url() is None && e.kind == WurflErrorKind::Updater
                    }
                },
            },
    {
        proof {
            reveal_strlit("the engine was shut down");
            reveal_strlit("no data URL is set");
        }
        if self.closed {
            return Some(error(WurflErrorKind::Terminal, "the engine was shut down"));
        }
        if self.data_url.is_none() {
            return Some(error(WurflErrorKind::Updater, "no data URL is set"));
        }
        self.updater_running = true;
        None
    }

    /// Stops periodic updates; stopping a stopped updater does nothing.
    pub fn updater_stop(&mut self) -> (r: Option<WurflError>)
        requires
            old(self).wf(),
        ensures
            final(self).wf(),
            final(self).same_engine(old(self)),
            final(self).spec_data_url() == old(self).spec_data_url(),
            final(self).spec_frequency() == old(self).spec_frequency(),
            final(self).spec_timeouts() == old(self).spec_timeouts(),
            final(self).spec_log_path() == old(self).spec_log_path(),
            match r {
                None => !old(self).is_closed() && !final(self).spec_updater_running(),
                Some(e) => old(self).is_closed() && e.kind == WurflErrorKind::Terminal && e.msg@.len()
                    > 0 && final(self).spec_updater_running() == old(self).spec_updater_running(),
            },
    {
        proof {
            reveal_strlit("the engine was shut down");
        }
        if self.closed {
            return Some(error(WurflErrorKind::Terminal, "the engine was shut down"));
        }
        self.updater_running = false;
        None
    }

    /// Whether periodic updates are on.
    pub fn is_updater_running(&self) -> (r: bool)
        ensures
            r == self.spec_updater_running(),
    {
        self.updater_running
    }

    /// The update period in hours.
    pub fn updater_period_hours(&self) -> (r: u32)
        ensures
            r == (match self.spec_frequency() {
                WurflUpdaterFrequency::WurflUpdaterFrequencyDaily => 24u32,
                WurflUpdaterFrequency::WurflUpdaterFrequencyWeekly => 168u32,
            }),
    {
        match self.frequency {
            WurflUpdaterFrequency::WurflUpdaterFrequencyDaily => 24,
            WurflUpdaterFrequency::WurflUpdaterFrequencyWeekly => 168,
        }
    }

    /// Shuts the engine down: the cache is emptied, the updater stops, and every later
    /// lookup or update fails. Shutting down twice does nothing more.
    pub fn shutdown(&mut self)
        requires
            old(self).wf(),
        ensures
            final(self).wf(),
            final(self).is_closed(),
            final(self).snapshot() == old(self).snapshot(),
            final(self).cache_entries() == Seq::<(Seq<char>, usize)>::empty(),
            !final(self).spec_updater_running(),
    {
        self.closed = true;
        self.updater_running = false;
        self.cache.clear();
    }

    /// Whether the engine was shut down.
    pub fn is_shut_down(&self) -> (r: bool)
        ensures
            r == self.is_closed(),
    {
        self.closed
    }

    fn device_with_key(&self, device_id: &str, key: String) -> (r: Result<Device, WurflError>)
        requires
            self.wf(),
        ensures
            self.is_closed() ==> (r matches Err(e) && e.kind == WurflErrorKind::Terminal),
            !self.is_closed() ==> (r is Ok <==> self.snapshot().index_of(device_id@) is Some),
            match r {
                Ok(d) => {
                    &&& d.id() == device_id@
                    &&& d.snapshot() == self.snapshot()
                    &&& d.index() == self.snapshot().index_of(device_id@)->0
                    &&& d.spec_match_type() == MatchType::WurflMatchTypeExact
                    &&& d.key() == key@
                },
                Err(e) => self.is_closed() || e.kind == WurflErrorKind::NotFound,
            },
    {
        if self.closed {
            proof {
                reveal_strlit("the engine was shut down");
            }
            return Err(error(WurflErrorKind::Terminal, "the engine was shut down"));
        }
        match self.db.get_by_id(device_id) {
            Some(i) => Ok(Device::new(Arc::clone(&self.db), i, MatchType::WurflMatchTypeExact, key)),
            None => {
                proof {
                    reveal_strlit("no device has this id");
                }
                Err(error(WurflErrorKind::NotFound, "no device has this id"))
            },
        }
    }
}

} // verus!
