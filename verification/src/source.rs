use crate::bpf::BpfMap;
use crate::errors::MapError;
use vstd::prelude::*;

verus! {

/// An in-memory per-CPU counter table: one row of per-CPU shard values for
/// each configured counter index.
///
/// This is the test implementation of the counter source capability; it
/// satisfies the same read contract as a production binding to the real
/// per-CPU table, so the two are interchangeable.
#[derive(Clone, Debug)]
pub struct PerCpuArray<V> {
    inner: Vec<Vec<V>>,
}

impl<V> View for PerCpuArray<V> {
    type V = Seq<Seq<V>>;

    closed spec fn view(&self) -> Seq<Seq<V>> {
        self.inner@.map_values(|row: Vec<V>| row@)
    }
}

impl<V: Copy> PerCpuArray<V> {
    /// Create a table of `len` counters, each with `cpu_count` shards
    /// holding `val`.
    pub fn new(len: usize, val: V, cpu_count: usize) -> (r: Self)
        ensures
            r@ == Seq::new(len as nat, |i: int| Seq::new(cpu_count as nat, |j: int| val)),
    {
        let mut inner: Vec<Vec<V>> = Vec::new();
        let mut i: usize = 0;
        while i < len
            invariant
                i <= len,
                inner@.len() == i,
                forall|k: int| 0 <= k < i ==> inner@[k]@ == Seq::new(cpu_count as nat, |j: int| val),
            decreases len - i,
        {
            let mut row: Vec<V> = Vec::new();
            let mut j: usize = 0;
            while j < cpu_count
                invariant
                    j <= cpu_count,
                    row@.len() == j,
                    forall|k: int| 0 <= k < j ==> row@[k] == val,
                decreases cpu_count - j,
            {
                row.push(val);
                j += 1;
            }
            proof {
                assert(row@ =~= Seq::new(cpu_count as nat, |j: int| val));
            }
            inner.push(row);
            i += 1;
        }
        let r = PerCpuArray { inner };
        proof {
            assert(r@ =~= Seq::new(len as nat, |i: int| Seq::new(cpu_count as nat, |j: int| val)));
        }
        r
    }

    /// Read the per-CPU shard values of the counter at `index`.
    ///
    /// Fails with [`MapError::OutOfBounds`] when `index` lies beyond the
    /// configured table size.  The `flags` argument mirrors the read flags
    /// of the production table and is ignored here.
    pub fn get(&self, index: &u32, _flags: u64) -> (r: Result<Vec<V>, MapError>)
        ensures
            match r {
                Ok(row) => (*index as int) < self@.len() && row@ == self@[*index as int],
                Err(e) => (*index as int) >= self@.len() && e == (MapError::OutOfBounds {
                    index: *index,
                    max_entries: self@.len() as u32,
                }),
            },
    {
        let i = *index as usize;
        if i < self.inner.len() {
            let row = &self.inner[i];
            let mut out: Vec<V> = Vec::new();
            let mut j: usize = 0;
            while j < row.len()
                invariant
                    j <= row@.len(),
                    out@.len() == j,
                    forall|k: int| 0 <= k < j ==> out@[k] == row@[k],
                    self@[*index as int] == row@,
            decreases row@.len() - j,
            {
                out.push(row[j]);
                j += 1;
            }
            proof {
                assert(out@ =~= row@);
            }
            Ok(out)
        } else {
            Err(MapError::OutOfBounds { index: *index, max_entries: self.inner.len() as u32 })
        }
    }

    /// Overwrite the per-CPU shard values of the counter at `index`.
    ///
    /// The `flags` argument mirrors the write flags of the production
    /// table and is ignored here.
    pub fn set(&mut self, index: u32, values: Vec<V>, _flags: u64) -> (r: Result<(), MapError>)
        requires
            (index as int) < old(self)@.len(),
        ensures
            r is Ok,
            final(self)@ == old(self)@.update(index as int, values@),
    {
        let ghost vv = values@;
        self.inner[index as usize] = values;
        proof {
            assert(self@ =~= old(self)@.update(index as int, vv));
        }
        Ok(())
    }
}

impl PerCpuArray<u64> {
    /// Build the counter table behind a [`BpfMap`] handle: one counter
    /// whose `cpu_count` shards all start at zero.
    pub fn from_map(_map: BpfMap, cpu_count: usize) -> (r: Result<Self, MapError>)
        ensures
            match r {
                Ok(t) => t@ == Seq::new(1, |i: int| Seq::new(cpu_count as nat, |j: int| 0u64)),
                Err(_) => false,
            },
    {
        Ok(PerCpuArray::new(1, 0u64, cpu_count))
    }
}

} // verus!
