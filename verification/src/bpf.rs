use crate::errors::MapError;
use std::collections::HashMap;
use std::collections::hash_map::RandomState;
use std::hash::Hash;
use vstd::prelude::*;
use vstd::std_specs::hash::builds_valid_hashers;
use vstd::std_specs::hash::obeys_key_model;

verus! {

/// Declares `aya::EbpfError`, the error type of the production loader, so
/// that the mock loader below can return it.  The type is opaque here:
/// nothing in this crate constructs or inspects a value of it.
#[verifier::external_type_specification]
#[verifier::external_body]
pub struct ExEbpfError(aya::EbpfError);

/// An owned handle to a named map taken out of a loaded [`Ebpf`] object.
pub struct BpfMap {
}

/// A mock of the loaded instrumentation object: it hands out map handles
/// without touching any kernel facility, so the engine can be exercised
/// end to end in ordinary user space.
pub struct Ebpf {
}

impl Ebpf {
    /// Load an instrumentation object from its byte image.  The mock
    /// accepts any image.
    pub fn load(_data: &[u8]) -> (r: Result<Ebpf, aya::EbpfError>)
        ensures
            r is Ok,
    {
        Ok(Ebpf {  })
    }

    /// Take ownership of the named map.  The mock knows every name.
    pub fn take_map(&mut self, _name: &str) -> (r: Option<BpfMap>)
        ensures
            r is Some,
    {
        Some(BpfMap {  })
    }
}

/// A mock of the instrumentation log forwarder.
pub struct EbpfLogger;

impl EbpfLogger {
    /// Initialise log forwarding for a loaded object.  The mock always
    /// succeeds and leaves the object untouched.
    pub fn init(_bpf: &mut Ebpf) -> (r: Result<EbpfLogger, crate::errors::Error>)
        ensures
            r is Ok,
    {
        Ok(EbpfLogger)
    }
}

/// A mock of a longest-prefix-match table: a plain map from full keys to
/// values, without prefix matching.
#[derive(Debug)]
pub struct LpmTrie<K: Eq + Hash, V> {
    inner: HashMap<K, V>,
}

impl<K: Eq + Hash, V> View for LpmTrie<K, V> {
    type V = Map<K, V>;

    closed spec fn view(&self) -> Map<K, V> {
        self.inner@
    }
}

impl<K: Eq + Hash, V> LpmTrie<K, V> {
    /// Create an empty table.
    pub fn new() -> (r: Self)
        ensures
            r@ == Map::<K, V>::empty(),
    {
        LpmTrie { inner: HashMap::new() }
    }

    /// The number of entries in the table.
    pub fn size(&self) -> (r: usize)
        ensures
            obeys_key_model::<K>() && builds_valid_hashers::<RandomState>() ==> r == self@.len(),
    {
        self.inner.len()
    }

    /// Insert a key/value pair into the table.
    ///
    /// The `flags` argument mirrors the write flags of the production
    /// table and is ignored here.
    pub fn insert(&mut self, key: K, value: V, _flags: u64) -> (r: Result<(), MapError>)
        ensures
            r is Ok,
            obeys_key_model::<K>() && builds_valid_hashers::<RandomState>() ==> final(self)@
                == old(self)@.insert(key, value),
    {
        self.inner.insert(key, value);
        Ok(())
    }
}

} // verus!
