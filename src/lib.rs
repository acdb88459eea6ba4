use vstd::prelude::*;
use crate::database::LoadError;

pub mod cache;
pub mod database;
pub mod device;
pub mod headers;
pub mod loader;
pub mod matcher;
pub mod wurfl;

pub use crate::database::{Capability, DeviceRecord, Patch};
pub use crate::device::Device;
pub use crate::wurfl::{DatabaseSource, Wurfl};

verus! {

/// How a device was found by a lookup, from the strongest confidence to the weakest;
/// `WurflMatchTypeCached` marks a cache hit and `WurflMatchTypeNone` a failure.
#[derive(PartialEq, Eq, Structural, Clone, Copy, Debug)]
pub enum MatchType {
    WurflMatchTypeExact,
    WurflMatchTypeConclusive,
    WurflMatchTypeRecovery,
    WurflMatchTypeCatchall,
    WurflMatchTypeNone,
    WurflMatchTypeCached,
}

/// The cache providers the engine supports.
#[derive(PartialEq, Eq, Structural, Clone, Copy, Debug)]
pub enum WurflCacheProvider {
    /// No cache is used.
    NoCache,
    /// A bounded least-recently-used cache.
    LRU,
}

/// How often the updater looks for a new device database.
#[derive(PartialEq, Eq, Structural, Clone, Copy, Debug)]
pub enum WurflUpdaterFrequency {
    WurflUpdaterFrequencyDaily,
    WurflUpdaterFrequencyWeekly,
}

/// What an enumeration of the engine lists.
#[derive(PartialEq, Eq, Structural, Clone, Copy, Debug)]
pub enum WurflEnumType {
    WurflEnumStaticCapabilities,
    WurflEnumVirtualCapabilities,
    WurflEnumWurflID,
}

/// The kind of a failure.
#[derive(PartialEq, Eq, Structural, Clone, Copy, Debug)]
pub enum WurflErrorKind {
    /// The device data cannot form a database.
    Load(LoadError),
    /// The cache size is not a positive decimal number that fits the machine.
    InvalidCacheConfig,
    /// No device has the requested id.
    NotFound,
    /// The engine was shut down.
    Terminal,
    /// The updater is not configured for what was asked.
    Updater,
}

/// A failure of the engine, with a readable message.
pub struct WurflError {
    pub kind: WurflErrorKind,
    pub msg: String,
}

impl WurflError {
    /// The message of the error.
    pub fn to_string(&self) -> (r: String)
        ensures
            r@ == self.msg@,
    {
        self.msg.clone()
    }
}

/// The number of cache entries a provider keeps: none without a cache.
pub fn to_cache_provider(cp: WurflCacheProvider, capacity: usize) -> (r: usize)
    ensures
        r == (match cp {
            WurflCacheProvider::NoCache => 0,
            WurflCacheProvider::LRU => capacity,
        }),
{
    match cp {
        WurflCacheProvider::NoCache => 0,
        WurflCacheProvider::LRU => capacity,
    }
}

/// The code of an enumeration kind in the engine's interface.
pub fn to_wurfl_enum_type(et: WurflEnumType) -> (r: u32)
    ensures
        r == (match et {
            WurflEnumType::WurflEnumStaticCapabilities => 0u32,
            WurflEnumType::WurflEnumVirtualCapabilities => 1u32,
            WurflEnumType::WurflEnumWurflID => 2u32,
        }),
{
    match et {
        WurflEnumType::WurflEnumStaticCapabilities => 0,
        WurflEnumType::WurflEnumVirtualCapabilities => 1,
        WurflEnumType::WurflEnumWurflID => 2,
    }
}

} // verus!
