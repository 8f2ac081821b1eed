use crate::bpf::Ebpf;
use crate::errors::{Error, MapError};
use crate::meter::Meter;
use crate::sink::{
    spec_dec, u32_to_string, CounterHandle, Key, KeyV, Label, LabelV, Recorder, Unit,
};
use crate::source::PerCpuArray;
use std::time::Duration;
use vstd::prelude::*;
use vstd::string::StringExecFns;

verus! {

/// Defines the dimension of a particular [`Metric`].
#[derive(Clone, Debug)]
pub enum Dimension {
    /// Dimension with additional labels: one series that receives the sum
    /// of the per-CPU deltas across all online CPUs.
    By(Vec<Label>),
    /// Dimension with cpu and additional labels: one series per online
    /// CPU, each receiving only that CPU's delta.
    ByCpu(Vec<Label>),
}

/// The label views of a dimension's fixed label set.
pub open spec fn dim_labels(d: Dimension) -> Seq<LabelV> {
    match d {
        Dimension::By(ls) => ls@.map_values(|l: Label| l@),
        Dimension::ByCpu(ls) => ls@.map_values(|l: Label| l@),
    }
}

/// The key of the single series of an aggregate dimension.
pub open spec fn agg_series_key(name: Seq<char>, d: Dimension) -> KeyV {
    KeyV { name, labels: dim_labels(d) }
}

/// The key of the series of a per-CPU dimension for one CPU id: the
/// dimension's labels with a `cpu` label holding the decimal id appended.
pub open spec fn cpu_series_key(name: Seq<char>, d: Dimension, cpu: u32) -> KeyV {
    KeyV { name, labels: dim_labels(d).push(LabelV { key: "cpu"@, value: spec_dec(cpu as nat) }) }
}

/// Defines a metric that the engine can report on.
#[derive(Debug)]
pub struct Metric<M: Meter> {
    /// The meter to take values from.
    meter: M,
    /// The unit with which to emit the metric.
    unit: Unit,
    /// The dimensions with which to emit the metric.
    dimensions: Vec<Dimension>,
}

impl<M: Meter> Metric<M> {
    /// The meter to take values from.
    pub closed spec fn spec_meter(&self) -> M {
        self.meter
    }

    /// The unit with which to emit the metric.
    pub closed spec fn spec_unit(&self) -> Unit {
        self.unit
    }

    /// The dimensions with which to emit the metric.
    pub closed spec fn spec_dimensions(&self) -> Seq<Dimension> {
        self.dimensions@
    }

    /// Create a new [`Metric`].
    pub fn new(meter: M, unit: Unit, dimensions: Vec<Dimension>) -> (r: Metric<M>)
        ensures
            r.spec_meter() == meter,
            r.spec_unit() == unit,
            r.spec_dimensions() == dimensions@,
    {
        Metric { meter, unit, dimensions }
    }
}

/// The per-tick delta for one CPU shard: the increase since the previous
/// snapshot.  A decrease indicates an external counter reset; the current
/// value then becomes the new baseline and the tick emits zero for it.
pub open spec fn delta_of(prev: u64, cur: u64) -> u64 {
    if prev <= cur {
        (cur - prev) as u64
    } else {
        0u64
    }
}

/// The delta contributed by CPU id `c`: zero when the snapshot row is too
/// short to hold a value for `c`.
pub open spec fn cpu_delta(prev: Seq<u64>, cur: Seq<u64>, c: int) -> u64 {
    if 0 <= c < cur.len() && c < prev.len() {
        delta_of(prev[c], cur[c])
    } else {
        0u64
    }
}

/// The sum of the deltas of the first `j` online CPUs of one tick.
pub open spec fn tick_aggregate_upto(prev: Seq<u64>, cur: Seq<u64>, online: Seq<u32>, j: int) -> int
    decreases j,
{
    if j <= 0 {
        0
    } else {
        tick_aggregate_upto(prev, cur, online, j - 1) + cpu_delta(prev, cur, online[j - 1] as int)
    }
}

/// The aggregate of one tick: the sum of the per-CPU deltas across all
/// online CPUs.
pub open spec fn tick_aggregate(prev: Seq<u64>, cur: Seq<u64>, online: Seq<u32>) -> int {
    tick_aggregate_upto(prev, cur, online, online.len() as int)
}

/// For every tick and every online CPU covered by the snapshot row, the
/// emitted per-CPU delta is exactly the difference between the current
/// and the previous snapshot value for that CPU, as long as the counter
/// did not decrease.  With the all-zero baseline seeded at task start,
/// this makes the first tick emit the raw counter values.
pub proof fn lemma_delta_is_difference(prev: Seq<u64>, cur: Seq<u64>, c: int)
    requires
        0 <= c < cur.len(),
        c < prev.len(),
        prev[c] <= cur[c],
    ensures
        cpu_delta(prev, cur, c) == cur[c] - prev[c],
{
}

/// The summed deltas of a tick read only the first `j` online ids.
proof fn lemma_upto_reads_prefix(prev: Seq<u64>, cur: Seq<u64>, o1: Seq<u32>, o2: Seq<u32>, j: int)
    requires
        j <= o1.len(),
        j <= o2.len(),
        forall|k: int| 0 <= k < j ==> o1[k] == o2[k],
    ensures
        tick_aggregate_upto(prev, cur, o1, j) == tick_aggregate_upto(prev, cur, o2, j),
    decreases j,
{
    if j > 0 {
        lemma_upto_reads_prefix(prev, cur, o1, o2, j - 1);
    }
}

/// Every tick, the aggregate equals the sum of the per-CPU deltas across
/// all online CPUs, taken in the captured order — including a tick whose
/// deltas are all zero, whose aggregate is zero.
pub proof fn lemma_aggregate_is_sum_of_deltas(prev: Seq<u64>, cur: Seq<u64>, online: Seq<u32>)
    ensures
        tick_aggregate(prev, cur, online) == online.map_values(
            |c: u32| cpu_delta(prev, cur, c as int) as int,
        ).fold_left(0, |acc: int, d: int| acc + d),
    decreases online.len(),
{
    let f = |c: u32| cpu_delta(prev, cur, c as int) as int;
    let g = |acc: int, d: int| acc + d;
    if online.len() == 0 {
        assert(online.map_values(f) =~= Seq::<int>::empty());
    } else {
        let dl = online.drop_last();
        lemma_aggregate_is_sum_of_deltas(prev, cur, dl);
        lemma_upto_reads_prefix(prev, cur, online, dl, online.len() - 1);
        assert(online.map_values(f).drop_last() =~= dl.map_values(f));
        assert(online.map_values(f).last() == f(online.last()));
        assert(online.map_values(f).fold_left(0, g) == g(
            online.map_values(f).drop_last().fold_left(0, g),
            online.map_values(f).last(),
        ));
    }
}

/// When the accumulated value plus the tick's summed deltas still fits
/// the counter range, the aggregate series receives exactly the sum,
/// with no clamping.
pub proof fn lemma_aggregate_exact(before: u64, prev: Seq<u64>, cur: Seq<u64>, online: Seq<u32>)
    requires
        before + tick_aggregate(prev, cur, online) <= u64::MAX,
    ensures
        before.saturating_add(clamp_u64(tick_aggregate(prev, cur, online))) == before
            + tick_aggregate(prev, cur, online),
{
    lemma_aggregate_nonneg(prev, cur, online, online.len() as int);
}

/// Two aggregate dimensions of one task drive independent handles: they
/// never address the same series, so incrementing either one leaves the
/// other's accumulated value unchanged.
pub proof fn lemma_aggregate_handles_independent(
    t: EmissionTask,
    sink: Recorder,
    d1: int,
    d2: int,
)
    requires
        t.wf(sink),
        0 <= d1 < t.num_dims(),
        0 <= d2 < t.num_dims(),
        d1 != d2,
        t.agg_target(d1) is Some,
        t.agg_target(d2) is Some,
    ensures
        t.agg_target(d1) != t.agg_target(d2),
{
}

/// Per-CPU handles of one task for two different (dimension, CPU) pairs
/// drive independent handles, and a per-CPU handle never shares a series
/// with an aggregate handle.
pub proof fn lemma_percpu_handles_independent(
    t: EmissionTask,
    sink: Recorder,
    d1: int,
    c1: int,
    d2: int,
    c2: int,
)
    requires
        t.wf(sink),
        0 <= d1 < t.num_dims(),
        0 <= c1 < t.cpu_row_len(d1),
        0 <= d2 < t.num_dims(),
        0 <= c2 < t.cpu_row_len(d2),
        d1 != d2 || c1 != c2,
        t.cpu_target(d1, c1) is Some,
        t.cpu_target(d2, c2) is Some,
    ensures
        t.cpu_target(d1, c1) != t.cpu_target(d2, c2),
        forall|da: int|
            0 <= da < t.num_dims() && (#[trigger] t.agg_target(da)) is Some ==> t.agg_target(da)
                != t.cpu_target(d1, c1),
{
}

/// The summed deltas of a tick are never negative.
pub proof fn lemma_aggregate_nonneg(prev: Seq<u64>, cur: Seq<u64>, online: Seq<u32>, j: int)
    ensures
        tick_aggregate_upto(prev, cur, online, j) >= 0,
    decreases j,
{
    if j > 0 {
        lemma_aggregate_nonneg(prev, cur, online, j - 1);
    }
}

/// `v` clamped to the range of `u64`.
pub open spec fn clamp_u64(v: int) -> u64 {
    if v > u64::MAX {
        u64::MAX
    } else if v < 0 {
        0u64
    } else {
        v as u64
    }
}

/// The state of one emission task: the previous snapshot, the online-CPU
/// order captured at start, and the registered series handles, one per
/// aggregate dimension and one per (per-CPU dimension, online CPU) pair.
///
/// The handle vectors are aligned with the metric's dimension list: an
/// aggregate dimension owns a registered handle in `agg_handles` and an
/// empty row in `cpu_handles`; a per-CPU dimension owns a no-op handle in
/// `agg_handles` and a row of one handle slot per CPU id, registered for
/// the CPUs online at start and no-op for the rest.
pub struct EmissionTask {
    meter_index: u32,
    name: String,
    cpu_count: usize,
    online: Vec<u32>,
    prev: Vec<u64>,
    agg_handles: Vec<CounterHandle>,
    cpu_handles: Vec<Vec<CounterHandle>>,
}

impl EmissionTask {
    /// The index of the meter read by this emission state.
    pub closed spec fn spec_meter_index(&self) -> u32 {
        self.meter_index
    }

    /// The name of the meter read by this emission state.
    pub closed spec fn spec_name(&self) -> Seq<char> {
        self.name@
    }

    /// The total CPU count captured at start.
    pub closed spec fn spec_cpu_count(&self) -> nat {
        self.cpu_count as nat
    }

    /// The ids of the CPUs online at start, in the captured order.
    pub closed spec fn spec_online(&self) -> Seq<u32> {
        self.online@
    }

    /// The previous snapshot, one value per CPU id.
    pub closed spec fn spec_prev(&self) -> Seq<u64> {
        self.prev@
    }

    /// The number of dimensions emitted under.
    pub closed spec fn num_dims(&self) -> nat {
        self.agg_handles@.len()
    }

    /// The series addressed by the aggregate handle of dimension `d`.
    pub closed spec fn agg_target(&self, d: int) -> Option<usize> {
        self.agg_handles@[d].spec_target()
    }

    /// The number of per-CPU handle rows.
    pub closed spec fn num_cpu_rows(&self) -> nat {
        self.cpu_handles@.len()
    }

    /// The length of the per-CPU handle row of dimension `d`.
    pub closed spec fn cpu_row_len(&self, d: int) -> nat {
        self.cpu_handles@[d]@.len()
    }

    /// The series addressed by the per-CPU handle of dimension `d` for
    /// CPU id `c`.
    pub closed spec fn cpu_target(&self, d: int, c: int) -> Option<usize> {
        self.cpu_handles@[d]@[c].spec_target()
    }

    /// Well-formedness of a task against the sink its handles address:
    /// the previous snapshot covers every CPU id, the online ids are
    /// distinct and in range, every registered handle addresses a series
    /// of the sink, and no two registered handles address the same
    /// series.
    pub open spec fn wf(self, sink: Recorder) -> bool {
        &&& sink.wf()
        &&& self.spec_cpu_count() <= u32::MAX as nat
        &&& self.spec_prev().len() == self.spec_cpu_count()
        &&& self.spec_online().no_duplicates()
        &&& forall|j: int|
            0 <= j < self.spec_online().len() ==> (#[trigger] self.spec_online()[j] as nat)
                < self.spec_cpu_count()
        &&& self.num_cpu_rows() == self.num_dims()
        &&& forall|d: int|
            0 <= d < self.num_dims() ==> #[trigger] self.cpu_row_len(d) == 0 || self.cpu_row_len(
                d,
            ) == self.spec_cpu_count()
        &&& forall|d: int|
            0 <= d < self.num_dims() ==> ((#[trigger] self.agg_target(d)) matches Some(t) ==> t
                < sink.series().len())
        &&& forall|d: int, c: int|
            0 <= d < self.num_dims() && 0 <= c < self.cpu_row_len(d) ==> ((
            #[trigger] self.cpu_target(d, c)) is Some <==> self.spec_online().contains(c as u32))
        &&& forall|d: int, c: int|
            0 <= d < self.num_dims() && 0 <= c < self.cpu_row_len(d) ==> ((
            #[trigger] self.cpu_target(d, c)) matches Some(t) ==> t < sink.series().len())
        &&& forall|d1: int, d2: int|
            0 <= d1 < self.num_dims() && 0 <= d2 < self.num_dims() && d1 != d2 && (
            #[trigger] self.agg_target(d1)) is Some && (#[trigger] self.agg_target(d2)) is Some
                ==> self.agg_target(d1) != self.agg_target(d2)
        &&& forall|d1: int, d2: int, c2: int|
            0 <= d1 < self.num_dims() && 0 <= d2 < self.num_dims() && 0 <= c2 < self.cpu_row_len(d2)
                && (#[trigger] self.agg_target(d1)) is Some && (#[trigger] self.cpu_target(
                d2,
                c2,
            )) is Some ==> self.agg_target(d1) != self.cpu_target(d2, c2)
        &&& forall|d1: int, c1: int, d2: int, c2: int|
            0 <= d1 < self.num_dims() && 0 <= c1 < self.cpu_row_len(d1) && 0 <= d2
                < self.num_dims() && 0 <= c2 < self.cpu_row_len(d2) && (d1 != d2 || c1 != c2) && (
            #[trigger] self.cpu_target(d1, c1)) is Some && (#[trigger] self.cpu_target(
                d2,
                c2,
            )) is Some ==> self.cpu_target(d1, c1) != self.cpu_target(d2, c2)
    }
}

impl EmissionTask {
    /// Register every series of `metric` with the sink and create the
    /// emission state for it.
    ///
    /// The sink sees one description for the meter, then one series per
    /// aggregate dimension, then one series per (per-CPU dimension,
    /// online CPU) pair, in that order, every accumulated value starting
    /// at zero.  The previous snapshot is seeded to the all-zero
    /// baseline, so the first tick emits the raw counter values.
    #[verifier::loop_isolation(false)]
    #[verifier::rlimit(100)]
    pub fn start<M: Meter>(
        metric: &Metric<M>,
        cpu_count: usize,
        online: Vec<u32>,
        sink: &mut Recorder,
    ) -> (t: EmissionTask)
        requires
            old(sink).wf(),
            cpu_count <= u32::MAX,
            online@.no_duplicates(),
            forall|j: int| 0 <= j < online@.len() ==> (online@[j] as int) < cpu_count,
        ensures
            t.wf(*final(sink)),
            t.spec_cpu_count() == cpu_count as nat,
            t.spec_online() == online@,
            t.spec_prev() == Seq::new(cpu_count as nat, |i: int| 0u64),
            t.num_dims() == metric.spec_dimensions().len(),
            forall|d: int|
                0 <= d < t.num_dims() ==> ((#[trigger] t.agg_target(d)) is Some
                    <==> metric.spec_dimensions()[d] is By),
            forall|d: int|
                0 <= d < t.num_dims() ==> #[trigger] t.cpu_row_len(d) == if metric.spec_dimensions()[d] is ByCpu {
                    cpu_count as nat
                } else {
                    0nat
                },
            exists|ds: Seq<char>|
                final(sink).descs() == old(sink).descs().push(
                    (t.spec_name(), metric.spec_unit(), ds),
                ),
            final(sink).series().len() == old(sink).series().len() + count_by(
                metric.spec_dimensions(),
            ) + count_by_cpu(metric.spec_dimensions()) * online@.len(),
            forall|s: int|
                0 <= s < old(sink).series().len()
                    ==> #[trigger] final(sink).series()[s] == old(sink).series()[s],
            forall|s: int|
                old(sink).series().len() <= s < final(sink).series().len()
                    ==> (#[trigger] final(sink).series()[s]).1 == 0,
            forall|d: int|
                0 <= d < t.num_dims() ==> ((#[trigger] t.agg_target(d)) matches Some(tg)
                    ==> old(sink).series().len() <= tg < final(sink).series().len() && final(sink).series()[tg as int].0
                    == agg_series_key(t.spec_name(), metric.spec_dimensions()[d])),
            forall|d: int, c: int|
                0 <= d < t.num_dims() && 0 <= c < t.cpu_row_len(d) ==> ((#[trigger] t.cpu_target(
                    d,
                    c,
                )) matches Some(tg) ==> old(sink).series().len() <= tg < final(sink).series().len()
                    && final(sink).series()[tg as int].0 == cpu_series_key(
                    t.spec_name(),
                    metric.spec_dimensions()[d],
                    c as u32,
                )),
    {
        let ghost dims = metric.spec_dimensions();
        let ghost base = old(sink).series();
        let ghost onl = online@;
        let m = metric.meter;
        let name = m.name();
        let desc = m.description();
        let index = m.index();
        let ghost nm = name@;
        let ghost ds = desc@;
        sink.describe_counter(name.clone(), metric.unit, desc);

        let ndims = metric.dimensions.len();
        proof {
            assert(dims.take(0) =~= Seq::<Dimension>::empty());
        }
        let mut agg_handles: Vec<CounterHandle> = Vec::new();
        let mut d: usize = 0;
        while d < ndims
            invariant
                d <= ndims,
                ndims == dims.len(),
                dims == metric.spec_dimensions(),
                nm == name@,
                sink.wf(),
                sink.descs() == old(sink).descs().push((nm, metric.spec_unit(), ds)),
                agg_handles@.len() == d,
                sink.series().len() == base.len() + count_by(dims.take(d as int)),
                forall|s: int| 0 <= s < base.len() ==> #[trigger] sink.series()[s] == base[s],
                forall|s: int|
                    base.len() <= s < sink.series().len() ==> (#[trigger] sink.series()[s]).1 == 0,
                forall|dd: int|
                    0 <= dd < d ==> ((#[trigger] agg_handles@[dd].spec_target()) is Some
                        <==> dims[dd] is By),
                forall|dd: int|
                    0 <= dd < d ==> ((#[trigger] agg_handles@[dd].spec_target()) matches Some(tg)
                        ==> base.len() <= tg < sink.series().len() && sink.series()[tg as int].0
                        == agg_series_key(nm, dims[dd])),
                forall|dd1: int, dd2: int|
                    0 <= dd1 < d && 0 <= dd2 < d && dd1 != dd2 && (
                    #[trigger] agg_handles@[dd1].spec_target()) is Some && (
                    #[trigger] agg_handles@[dd2].spec_target()) is Some
                        ==> agg_handles@[dd1].spec_target() != agg_handles@[dd2].spec_target(),
            decreases ndims - d,
        {
            let dim = &metric.dimensions[d];
            match dim {
                Dimension::By(labels) => {
                    let key = Key::from_parts(name.clone(), clone_labels(labels));
                    let ghost kv = key@;
                    proof {
                        assert(kv == agg_series_key(nm, dims[d as int]));
                    }
                    let ghost pre = sink.series();
                    let h = sink.register_counter(key);
                    agg_handles.push(h);
                    proof {
                        assert(agg_handles@[d as int] == h);
                        assert(sink.series()[pre.len() as int] == (kv, 0u64));
                    }
                },
                Dimension::ByCpu(_) => {
                    agg_handles.push(CounterHandle::noop());
                },
            }
            proof {
                assert(dims.take(d + 1).drop_last() =~= dims.take(d as int));
                assert(dims.take(d + 1).last() == dims[d as int]);
            }
            d += 1;
        }
        let ghost len1 = base.len() + count_by(dims);
        proof {
            assert(dims.take(ndims as int) =~= dims);
            assert(count_by_cpu(dims.take(0)) == 0);
            assert(count_by_cpu(dims.take(0)) * onl.len() == 0) by (nonlinear_arith);
            assert(sink.series().len() == len1);
        }

        let mut cpu_handles: Vec<Vec<CounterHandle>> = Vec::new();
        let mut d: usize = 0;
        while d < ndims
            invariant
                d <= ndims,
                ndims == dims.len(),
                dims == metric.spec_dimensions(),
                nm == name@,
                onl == online@,
                len1 == base.len() + count_by(dims),
                sink.wf(),
                sink.descs() == old(sink).descs().push((nm, metric.spec_unit(), ds)),
                agg_handles@.len() == ndims,
                cpu_handles@.len() == d,
                sink.series().len() == len1 + count_by_cpu(dims.take(d as int)) * onl.len(),
                forall|s: int| 0 <= s < base.len() ==> #[trigger] sink.series()[s] == base[s],
                forall|s: int|
                    base.len() <= s < sink.series().len() ==> (#[trigger] sink.series()[s]).1 == 0,
                forall|dd: int|
                    0 <= dd < ndims ==> ((#[trigger] agg_handles@[dd].spec_target()) is Some
                        <==> dims[dd] is By),
                forall|dd: int|
                    0 <= dd < ndims ==> ((#[trigger] agg_handles@[dd].spec_target()) matches Some(
                    tg) ==> base.len() <= tg < len1 && sink.series()[tg as int].0
                        == agg_series_key(nm, dims[dd])),
                forall|dd1: int, dd2: int|
                    0 <= dd1 < ndims && 0 <= dd2 < ndims && dd1 != dd2 && (
                    #[trigger] agg_handles@[dd1].spec_target()) is Some && (
                    #[trigger] agg_handles@[dd2].spec_target()) is Some
                        ==> agg_handles@[dd1].spec_target() != agg_handles@[dd2].spec_target(),
                forall|row: int|
                    0 <= row < d ==> (#[trigger] cpu_handles@[row]@.len()) == if dims[row] is ByCpu {
                        cpu_count as nat
                    } else {
                        0nat
                    },
                forall|row: int, c: int|
                    0 <= row < d && 0 <= c < cpu_handles@[row]@.len() ==> ((
                    #[trigger] cpu_handles@[row]@[c].spec_target()) is Some <==> onl.contains(
                        c as u32,
                    )),
                forall|row: int, c: int|
                    0 <= row < d && 0 <= c < cpu_handles@[row]@.len() ==> ((
                    #[trigger] cpu_handles@[row]@[c].spec_target()) matches Some(tg) ==> len1 <= tg
                        < sink.series().len() && sink.series()[tg as int].0 == cpu_series_key(
                        nm,
                        dims[row],
                        c as u32,
                    )),
                forall|r1: int, c1: int, r2: int, c2: int|
                    0 <= r1 < d && 0 <= c1 < cpu_handles@[r1]@.len() && 0 <= r2 < d && 0 <= c2
                        < cpu_handles@[r2]@.len() && (r1 != r2 || c1 != c2) && (
                    #[trigger] cpu_handles@[r1]@[c1].spec_target()) is Some && (
                    #[trigger] cpu_handles@[r2]@[c2].spec_target()) is Some
                        ==> cpu_handles@[r1]@[c1].spec_target()
                        != cpu_handles@[r2]@[c2].spec_target(),
            decreases ndims - d,
        {
            let ghost row_base = len1 + count_by_cpu(dims.take(d as int)) * onl.len();
            let dim = &metric.dimensions[d];
            match dim {
                Dimension::By(_) => {
                    cpu_handles.push(Vec::new());
                },
                Dimension::ByCpu(labels) => {
                    let mut handles: Vec<CounterHandle> = Vec::new();
                    let mut c: usize = 0;
                    while c < cpu_count
                        invariant
                            c <= cpu_count,
                            handles@.len() == c,
                            forall|k: int|
                                0 <= k < c ==> (#[trigger] handles@[k].spec_target()) is None,
                        decreases cpu_count - c,
                    {
                        handles.push(CounterHandle::noop());
                        c += 1;
                    }
                    let nonline = online.len();
                    proof {
                        assert(onl.take(0) =~= Seq::<u32>::empty());
                    }
                    let mut j: usize = 0;
                    while j < nonline
                        invariant
                            j <= nonline,
                            nonline == onl.len(),
                            onl == online@,
                            onl.no_duplicates(),
                            forall|jj: int| 0 <= jj < onl.len() ==> (onl[jj] as int) < cpu_count,
                            d < ndims,
                            ndims == dims.len(),
                            dims == metric.spec_dimensions(),
                            dims[d as int] is ByCpu,
                            nm == name@,
                            len1 == base.len() + count_by(dims),
                            row_base == len1 + count_by_cpu(dims.take(d as int)) * onl.len(),
                            sink.wf(),
                            sink.descs() == old(sink).descs().push((nm, metric.spec_unit(), ds)),
                            agg_handles@.len() == ndims,
                            cpu_handles@.len() == d,
                            handles@.len() == cpu_count as nat,
                            sink.series().len() == row_base + j,
                            forall|s: int|
                                0 <= s < base.len() ==> #[trigger] sink.series()[s] == base[s],
                            forall|s: int|
                                base.len() <= s < sink.series().len() ==> (
                                #[trigger] sink.series()[s]).1 == 0,
                            forall|dd: int|
                                0 <= dd < ndims ==> ((
                                #[trigger] agg_handles@[dd].spec_target()) is Some
                                    <==> dims[dd] is By),
                            forall|dd: int|
                                0 <= dd < ndims ==> ((
                                #[trigger] agg_handles@[dd].spec_target()) matches Some(tg)
                                    ==> base.len() <= tg < len1 && sink.series()[tg as int].0
                                    == agg_series_key(nm, dims[dd])),
                            forall|dd1: int, dd2: int|
                                0 <= dd1 < ndims && 0 <= dd2 < ndims && dd1 != dd2 && (
                                #[trigger] agg_handles@[dd1].spec_target()) is Some && (
                                #[trigger] agg_handles@[dd2].spec_target()) is Some
                                    ==> agg_handles@[dd1].spec_target()
                                    != agg_handles@[dd2].spec_target(),
                            forall|row: int|
                                0 <= row < d ==> (#[trigger] cpu_handles@[row]@.len())
                                    == if dims[row] is ByCpu {
                                    cpu_count as nat
                                } else {
                                    0nat
                                },
                            forall|row: int, c: int|
                                0 <= row < d && 0 <= c < cpu_handles@[row]@.len() ==> ((
                                #[trigger] cpu_handles@[row]@[c].spec_target()) is Some
                                    <==> onl.contains(c as u32)),
                            forall|row: int, c: int|
                                0 <= row < d && 0 <= c < cpu_handles@[row]@.len() ==> ((
                                #[trigger] cpu_handles@[row]@[c].spec_target()) matches Some(tg)
                                    ==> len1 <= tg < row_base && sink.series()[tg as int].0
                                    == cpu_series_key(nm, dims[row], c as u32)),
                            forall|r1: int, c1: int, r2: int, c2: int|
                                0 <= r1 < d && 0 <= c1 < cpu_handles@[r1]@.len() && 0 <= r2 < d
                                    && 0 <= c2 < cpu_handles@[r2]@.len() && (r1 != r2 || c1 != c2)
                                    && (#[trigger] cpu_handles@[r1]@[c1].spec_target()) is Some
                                    && (#[trigger] cpu_handles@[r2]@[c2].spec_target()) is Some
                                    ==> cpu_handles@[r1]@[c1].spec_target()
                                    != cpu_handles@[r2]@[c2].spec_target(),
                            forall|jj: int|
                                0 <= jj < j ==> (
                                #[trigger] handles@[onl[jj] as int].spec_target()) is Some,
                            forall|c: int|
                                0 <= c < cpu_count ==> ((
                                #[trigger] handles@[c].spec_target()) matches Some(tg) ==> row_base
                                    <= tg < sink.series().len() && sink.series()[tg as int].0
                                    == cpu_series_key(nm, dims[d as int], c as u32) && onl.contains(
                                    c as u32,
                                )),
                            forall|c: int|
                                0 <= c < cpu_count && !onl.take(j as int).contains(c as u32) ==> (
                                #[trigger] handles@[c].spec_target()) is None,
                            forall|c1: int, c2: int|
                                0 <= c1 < cpu_count && 0 <= c2 < cpu_count && c1 != c2 && (
                                #[trigger] handles@[c1].spec_target()) is Some && (
                                #[trigger] handles@[c2].spec_target()) is Some
                                    ==> handles@[c1].spec_target() != handles@[c2].spec_target(),
                        decreases nonline - j,
                    {
                        let cpu_id = online[j];
                        let mut ls = clone_labels(labels);
                        let cpu_label = Label::new("cpu", u32_to_string(cpu_id));
                        ls.push(cpu_label);
                        proof {
                            assert(ls@.map_values(|l: Label| l@) =~= dim_labels(
                                dims[d as int],
                            ).push(LabelV { key: "cpu"@, value: spec_dec(cpu_id as nat) }));
                        }
                        let key = Key::from_parts(name.clone(), ls);
                        let ghost kv = key@;
                        proof {
                            assert(kv == cpu_series_key(nm, dims[d as int], cpu_id));
                        }
                        let ghost pre = sink.series();
                        let h = sink.register_counter(key);
                        let ghost oldh = handles@;
                        handles[cpu_id as usize] = h;
                        proof {
                            assert(handles@ == oldh.update(cpu_id as int, h));
                            assert(handles@[cpu_id as int] == h);
                            assert(pre.len() == row_base + j);
                            assert(sink.series()[pre.len() as int] == (kv, 0u64));
                            assert(cpu_id as int as u32 == cpu_id);
                            assert forall|c: int|
                                0 <= c < cpu_count implies ((
                            #[trigger] handles@[c].spec_target()) matches Some(tg) ==> row_base
                                <= tg < sink.series().len() && sink.series()[tg as int].0
                                == cpu_series_key(nm, dims[d as int], c as u32) && onl.contains(
                                c as u32,
                            )) by {
                                if c == cpu_id as int {
                                    assert(handles@[c] == h);
                                    assert(onl.contains(cpu_id)) by {
                                        assert(onl[j as int] == cpu_id);
                                    }
                                } else {
                                    assert(handles@[c] == oldh[c]);
                                }
                            }
                            assert forall|c1: int, c2: int|
                                0 <= c1 < cpu_count && 0 <= c2 < cpu_count && c1 != c2 && (
                            #[trigger] handles@[c1].spec_target()) is Some && (
                            #[trigger] handles@[c2].spec_target()) is Some implies handles@[c1].spec_target()
                                != handles@[c2].spec_target() by {
                                if c1 == cpu_id as int {
                                    assert(handles@[c2] == oldh[c2]);
                                } else if c2 == cpu_id as int {
                                    assert(handles@[c1] == oldh[c1]);
                                } else {
                                    assert(handles@[c1] == oldh[c1]);
                                    assert(handles@[c2] == oldh[c2]);
                                }
                            }
                            assert(onl.take(j + 1).drop_last() =~= onl.take(j as int));
                            assert(onl.take(j + 1).last() == onl[j as int]);
                            assert(onl.contains(onl[j as int]));
                            assert forall|c: int|
                                0 <= c < cpu_count && !onl.take(j + 1).contains(c as u32) implies (
                            handles@[c].spec_target()) is None by {
                                if onl.take(j as int).contains(c as u32) {
                                    let kk = choose|kk: int|
                                        0 <= kk < j && onl.take(j as int)[kk] == c as u32;
                                    assert(onl.take(j + 1)[kk] == c as u32);
                                }
                            }
                        }
                        j += 1;
                    }
                    proof {
                        assert(onl.take(nonline as int) =~= onl);
                        assert forall|c: int|
                            0 <= c < cpu_count && onl.contains(c as u32) implies (
                        handles@[c].spec_target()) is Some by {
                            let jj = choose|jj: int| 0 <= jj < onl.len() && onl[jj] == c as u32;
                            assert(handles@[onl[jj] as int].spec_target() is Some);
                        }
                    }
                    cpu_handles.push(handles);
                    proof {
                        assert((count_by_cpu(dims.take(d as int)) + 1) * onl.len() == count_by_cpu(
                            dims.take(d as int),
                        ) * onl.len() + onl.len()) by (nonlinear_arith);
                    }
                },
            }
            proof {
                assert(dims.take(d + 1).drop_last() =~= dims.take(d as int));
                assert(dims.take(d + 1).last() == dims[d as int]);
            }
            d += 1;
        }
        proof {
            assert(dims.take(ndims as int) =~= dims);
        }

        let mut prev: Vec<u64> = Vec::new();
        let mut i: usize = 0;
        while i < cpu_count
            invariant
                i <= cpu_count,
                prev@.len() == i,
                forall|k: int| 0 <= k < i ==> prev@[k] == 0u64,
            decreases cpu_count - i,
        {
            prev.push(0);
            i += 1;
        }
        proof {
            assert(prev@ =~= Seq::new(cpu_count as nat, |i: int| 0u64));
        }

        let t = EmissionTask {
            meter_index: index,
            name,
            cpu_count,
            online,
            prev,
            agg_handles,
            cpu_handles,
        };
        proof {
            assert(sink.descs() == old(sink).descs().push((t.spec_name(), metric.spec_unit(), ds)));
            assert(t.wf(*sink));
        }
        t
    }

    /// Apply one tick given the snapshot row read for the meter:
    /// compute every online CPU's delta against the previous snapshot,
    /// drive the per-CPU handles with them, overwrite the previous
    /// snapshot, and drive the aggregate handles with the summed deltas.
    ///
    /// An online CPU whose id lies beyond the row contributes nothing and
    /// keeps its previous value.  The summed deltas saturate at the
    /// counter range.  Either every handle update of the tick happens, or
    /// none: this function always completes them all.
    #[verifier::loop_isolation(false)]
    #[verifier::rlimit(100)]
    pub fn apply_snapshot(&mut self, values: &Vec<u64>, sink: &mut Recorder)
        requires
            old(self).wf(*old(sink)),
        ensures
            final(self).wf(*final(sink)),
            tick_post(*old(self), *final(self), *old(sink), *final(sink), values@),
    {
        let ghost prev0 = self.prev@;
        let ghost onl = self.online@;
        let ghost vals = values@;
        let mut delta_sum: u64 = 0;
        let nonline = self.online.len();
        proof {
            assert(onl.take(0) =~= Seq::<u32>::empty());
        }
        let mut j: usize = 0;
        while j < nonline
            invariant
                j <= nonline,
                self.online@ == onl,
                self.meter_index == old(self).meter_index,
                self.name == old(self).name,
                self.cpu_count == old(self).cpu_count,
                self.agg_handles@ == old(self).agg_handles@,
                self.cpu_handles@ == old(self).cpu_handles@,
                self.prev@.len() == prev0.len(),
                forall|jj: int|
                    0 <= jj < j ==> #[trigger] self.prev@[onl[jj] as int] == if (onl[jj] as int)
                        < vals.len() {
                        vals[onl[jj] as int]
                    } else {
                        prev0[onl[jj] as int]
                    },
                forall|c: int|
                    0 <= c < prev0.len() && !onl.take(j as int).contains(c as u32)
                        ==> #[trigger] self.prev@[c] == prev0[c],
                delta_sum == clamp_u64(tick_aggregate_upto(prev0, vals, onl, j as int)),
                sink.wf(),
                sink.series().len() == old(sink).series().len(),
                sink.descs() == old(sink).descs(),
                forall|s: int|
                    0 <= s < sink.series().len() ==> (#[trigger] sink.series()[s]).0 == old(
                        sink,
                    ).series()[s].0,
                forall|d: int, jj: int|
                    0 <= d < old(self).num_dims() && old(self).cpu_row_len(d) != 0 && 0 <= jj < j
                        ==> ((#[trigger] old(self).cpu_target(d, onl[jj] as int)) matches Some(tg)
                        ==> sink.series()[tg as int].1 == old(
                        sink,
                    ).series()[tg as int].1.saturating_add(cpu_delta(prev0, vals, onl[jj] as int))),
                forall|s: int|
                    0 <= s < sink.series().len() && !old(self).cpu_touched_upto(s, j as int) ==> (
                    #[trigger] sink.series()[s]).1 == old(sink).series()[s].1,
            decreases nonline - j,
        {
            let cpu_u32 = self.online[j];
            let cpu = cpu_u32 as usize;
            proof {
                assert(!onl.take(j as int).contains(cpu_u32)) by {
                    if onl.take(j as int).contains(cpu_u32) {
                        let kk = choose|kk: int|
                            0 <= kk < j && onl.take(j as int)[kk] == cpu_u32;
                        assert(onl[kk] == onl[j as int]);
                        assert(false);
                    }
                };
                assert(onl.take(j + 1).drop_last() =~= onl.take(j as int));
                assert(onl.take(j + 1).last() == onl[j as int]);
            }
            if cpu < values.len() {
                let value = values[cpu];
                let prev_value = self.prev[cpu];
                let delta = if value >= prev_value {
                    value - prev_value
                } else {
                    0
                };
                proof {
                    assert(self.prev@[cpu as int] == prev0[cpu as int]);
                    assert(delta == cpu_delta(prev0, vals, onl[j as int] as int));
                    lemma_aggregate_nonneg(prev0, vals, onl, j as int);
                }
                delta_sum = delta_sum.saturating_add(delta);
                self.prev[cpu] = value;
                let ndims = self.cpu_handles.len();
                let mut d: usize = 0;
                while d < ndims
                    invariant
                        d <= ndims,
                        ndims == old(self).num_dims(),
                        sink.wf(),
                        sink.series().len() == old(sink).series().len(),
                        sink.descs() == old(sink).descs(),
                        forall|s: int|
                            0 <= s < sink.series().len() ==> (#[trigger] sink.series()[s]).0
                                == old(sink).series()[s].0,
                        forall|dd: int, jj: int|
                            0 <= dd < old(self).num_dims() && old(self).cpu_row_len(dd) != 0 && 0
                                <= jj < j ==> ((#[trigger] old(self).cpu_target(
                                dd,
                                onl[jj] as int,
                            )) matches Some(tg) ==> sink.series()[tg as int].1 == old(
                                sink,
                            ).series()[tg as int].1.saturating_add(
                                cpu_delta(prev0, vals, onl[jj] as int),
                            )),
                        forall|dd: int|
                            0 <= dd < d && old(self).cpu_row_len(dd) != 0 ==> ((
                            #[trigger] old(self).cpu_target(dd, cpu as int)) matches Some(tg)
                                ==> sink.series()[tg as int].1 == old(
                                sink,
                            ).series()[tg as int].1.saturating_add(delta)),
                        forall|s: int|
                            0 <= s < sink.series().len() && !old(self).cpu_touched_upto(
                                s,
                                j as int,
                            ) && !(exists|dd: int|
                                0 <= dd < d && old(self).cpu_row_len(dd) != 0 && target_is(
                                    #[trigger] old(self).cpu_target(dd, cpu as int),
                                    s,
                                )) ==> (#[trigger] sink.series()[s]).1 == old(
                                sink,
                            ).series()[s].1,
                    decreases ndims - d,
                {
                    if self.cpu_handles[d].len() > 0 {
                        let h = self.cpu_handles[d][cpu];
                        proof {
                            assert(h == old(self).cpu_handles@[d as int]@[cpu as int]);
                            assert(h.spec_target() == old(self).cpu_target(d as int, cpu as int));
                        }
                        sink.increment(&h, delta);
                    }
                    d += 1;
                }
                proof {
                    assert(tick_aggregate_upto(prev0, vals, onl, j + 1) == tick_aggregate_upto(
                        prev0,
                        vals,
                        onl,
                        j as int,
                    ) + cpu_delta(prev0, vals, onl[j as int] as int));
                    assert forall|s: int|
                        0 <= s < sink.series().len() && !old(self).cpu_touched_upto(
                            s,
                            j + 1,
                        ) implies (#[trigger] sink.series()[s]).1 == old(
                    sink).series()[s].1 by {
                        assert(!old(self).cpu_touched_upto(s, j as int)) by {
                            if old(self).cpu_touched_upto(s, j as int) {
                                let (dd, jj) = choose|dd: int, jj: int|
                                    0 <= dd < old(self).num_dims() && old(self).cpu_row_len(dd)
                                        != 0 && 0 <= jj < j && target_is(
                                        old(self).cpu_target(dd, onl[jj] as int),
                                        s,
                                    );
                                assert(target_is(
                                    old(self).cpu_target(dd, old(self).spec_online()[jj] as int),
                                    s,
                                ));
                                assert(old(self).cpu_touched_upto(s, j + 1));
                            }
                        };
                        assert(!(exists|dd: int|
                            0 <= dd < ndims && old(self).cpu_row_len(dd) != 0 && target_is(
                                old(self).cpu_target(dd, cpu as int),
                                s,
                            ))) by {
                            if exists|dd: int|
                                0 <= dd < ndims && old(self).cpu_row_len(dd) != 0 && target_is(
                                    old(self).cpu_target(dd, cpu as int),
                                    s,
                                ) {
                                let dd = choose|dd: int|
                                    0 <= dd < ndims && old(self).cpu_row_len(dd) != 0 && target_is(
                                        old(self).cpu_target(dd, cpu as int),
                                        s,
                                    );
                                assert(target_is(
                                    old(self).cpu_target(dd, old(self).spec_online()[j as int] as int),
                                    s,
                                ));
                                assert(old(self).cpu_touched_upto(s, j + 1));
                            }
                        };
                    }
                }
            } else {
                proof {
                    assert(cpu_delta(prev0, vals, onl[j as int] as int) == 0);
                    assert(tick_aggregate_upto(prev0, vals, onl, j + 1) == tick_aggregate_upto(
                        prev0,
                        vals,
                        onl,
                        j as int,
                    ));
                    assert forall|dd: int, jj: int|
                        0 <= dd < old(self).num_dims() && old(self).cpu_row_len(dd) != 0 && 0 <= jj
                            < j + 1 implies ((#[trigger] old(self).cpu_target(
                        dd,
                        onl[jj] as int,
                    )) matches Some(tg) ==> sink.series()[tg as int].1 == old(
                    sink).series()[tg as int].1.saturating_add(
                        cpu_delta(prev0, vals, onl[jj] as int),
                    )) by {
                        if jj == j {
                            if old(self).cpu_target(dd, onl[jj] as int) is Some {
                                let tg = old(self).cpu_target(dd, onl[jj] as int).unwrap();
                                assert(!old(self).cpu_touched_upto(tg as int, j as int)) by {
                                    if old(self).cpu_touched_upto(tg as int, j as int) {
                                        let (d2, j2) = choose|d2: int, j2: int|
                                            0 <= d2 < old(self).num_dims() && old(
                                                self,
                                            ).cpu_row_len(d2) != 0 && 0 <= j2 < j && target_is(
                                                old(self).cpu_target(d2, onl[j2] as int),
                                                tg as int,
                                            );
                                        assert(onl[j2] != onl[j as int]);
                                        assert(false);
                                    }
                                };
                                assert(sink.series()[tg as int].1 == old(
                                    sink,
                                ).series()[tg as int].1);
                            }
                        }
                    }
                    assert forall|s: int|
                        0 <= s < sink.series().len() && !old(self).cpu_touched_upto(
                            s,
                            j + 1,
                        ) implies (#[trigger] sink.series()[s]).1 == old(
                    sink).series()[s].1 by {
                        assert(!old(self).cpu_touched_upto(s, j as int)) by {
                            if old(self).cpu_touched_upto(s, j as int) {
                                let (dd, jj) = choose|dd: int, jj: int|
                                    0 <= dd < old(self).num_dims() && old(self).cpu_row_len(dd)
                                        != 0 && 0 <= jj < j && target_is(
                                        old(self).cpu_target(dd, onl[jj] as int),
                                        s,
                                    );
                                assert(target_is(
                                    old(self).cpu_target(dd, old(self).spec_online()[jj] as int),
                                    s,
                                ));
                                assert(old(self).cpu_touched_upto(s, j + 1));
                            }
                        };
                    }
                }
            }
            j += 1;
        }
        proof {
            assert(onl.take(nonline as int) =~= onl);
        }
        let nagg = self.agg_handles.len();
        let mut d: usize = 0;
        while d < nagg
            invariant
                d <= nagg,
                nagg == old(self).num_dims(),
                sink.wf(),
                sink.series().len() == old(sink).series().len(),
                sink.descs() == old(sink).descs(),
                forall|s: int|
                    0 <= s < sink.series().len() ==> (#[trigger] sink.series()[s]).0 == old(
                        sink,
                    ).series()[s].0,
                forall|dd: int, jj: int|
                    0 <= dd < old(self).num_dims() && old(self).cpu_row_len(dd) != 0 && 0 <= jj
                        < nonline ==> ((#[trigger] old(self).cpu_target(dd, onl[jj] as int)) matches
                        Some(tg) ==> sink.series()[tg as int].1 == old(
                        sink,
                    ).series()[tg as int].1.saturating_add(cpu_delta(prev0, vals, onl[jj] as int))),
                forall|dd: int|
                    0 <= dd < d ==> ((#[trigger] old(self).agg_target(dd)) matches Some(tg)
                        ==> sink.series()[tg as int].1 == old(
                        sink,
                    ).series()[tg as int].1.saturating_add(delta_sum)),
                forall|s: int|
                    0 <= s < sink.series().len() && !old(self).cpu_touched_upto(s, nonline as int)
                        && !old(self).agg_touched_upto(s, d as int) ==> (
                    #[trigger] sink.series()[s]).1 == old(sink).series()[s].1,
            decreases nagg - d,
        {
            let h = self.agg_handles[d];
            proof {
                assert(h.spec_target() == old(self).agg_target(d as int));
                if h.spec_target() is Some {
                    let tg = h.spec_target().unwrap();
                    assert(!old(self).cpu_touched_upto(tg as int, nonline as int)) by {
                        if old(self).cpu_touched_upto(tg as int, nonline as int) {
                            let (d2, j2) = choose|d2: int, j2: int|
                                0 <= d2 < old(self).num_dims() && old(self).cpu_row_len(d2) != 0
                                    && 0 <= j2 < nonline && target_is(
                                    old(self).cpu_target(d2, onl[j2] as int),
                                    tg as int,
                                );
                            assert(false);
                        }
                    };
                    assert(!old(self).agg_touched_upto(tg as int, d as int)) by {
                        if old(self).agg_touched_upto(tg as int, d as int) {
                            let d2 = choose|d2: int|
                                0 <= d2 < d && target_is(old(self).agg_target(d2), tg as int);
                            assert(false);
                        }
                    };
                }
            }
            sink.increment(&h, delta_sum);
            proof {
                assert forall|s: int|
                    0 <= s < sink.series().len() && !old(self).cpu_touched_upto(s, nonline as int)
                        && !old(self).agg_touched_upto(s, d + 1) implies (
                #[trigger] sink.series()[s]).1 == old(sink).series()[s].1 by {
                    assert(!old(self).agg_touched_upto(s, d as int)) by {
                        if old(self).agg_touched_upto(s, d as int) {
                            let d2 = choose|d2: int|
                                0 <= d2 < d && target_is(old(self).agg_target(d2), s);
                            assert(target_is(old(self).agg_target(d2), s));
                            assert(old(self).agg_touched_upto(s, d + 1));
                        }
                    };
                    assert(!target_is(old(self).agg_target(d as int), s)) by {
                        if target_is(old(self).agg_target(d as int), s) {
                            assert(old(self).agg_touched_upto(s, d + 1));
                        }
                    };
                }
            }
            d += 1;
        }
        proof {
            assert(tick_post(*old(self), *self, *old(sink), *sink, vals));
            assert(self.wf(*sink));
        }
    }

    /// Run one tick: read the meter's snapshot row from the
    /// counter table, then apply it.
    ///
    /// A read failure is fatal for the task and leaves the task and the
    /// sink untouched: no partial emission occurs.  The read fails
    /// exactly when the meter index lies beyond the configured table
    /// size.
    pub fn tick(&mut self, counters: &PerCpuArray<u64>, sink: &mut Recorder) -> (r: Result<
        (),
        Error,
    >)
        requires
            old(self).wf(*old(sink)),
        ensures
            final(self).wf(*final(sink)),
            r is Ok <==> (old(self).spec_meter_index() as int) < counters@.len(),
            r is Ok ==> tick_post(
                *old(self),
                *final(self),
                *old(sink),
                *final(sink),
                counters@[old(self).spec_meter_index() as int],
            ),
            r matches Err(e) ==> e == Error::MapError(MapError::OutOfBounds {
                index: old(self).spec_meter_index(),
                max_entries: counters@.len() as u32,
            }) && *final(self) == *old(self) && *final(sink) == *old(sink),
    {
        let idx = self.meter_index;
        match counters.get(&idx, 0) {
            Ok(values) => {
                self.apply_snapshot(&values, sink);
                Ok(())
            },
            Err(e) => Err(Error::MapError(e)),
        }
    }

    /// The index of the meter read by this emission state.
    pub fn meter_index(&self) -> (r: u32)
        ensures
            r == self.spec_meter_index(),
    {
        self.meter_index
    }
}

/// Emits custom metrics generated by an instrumentation program.
///
/// Holds the counter table together with the metric definitions to emit
/// from it and the tick period.  A driver that owns the periodic loop
/// takes the engine apart with [`EbpfMetrics::into_parts`], starts one
/// [`EmissionTask`] per metric, and ticks each task on the period.
pub struct EbpfMetrics<M: Meter> {
    counters: PerCpuArray<u64>,
    metrics: Vec<Metric<M>>,
    period: Duration,
}

impl<M: Meter> EbpfMetrics<M> {
    /// The counter table the engine reads.
    pub closed spec fn spec_counters(&self) -> Seq<Seq<u64>> {
        self.counters@
    }

    /// The metric definitions the engine emits.
    pub closed spec fn spec_metrics(&self) -> Seq<Metric<M>> {
        self.metrics@
    }

    /// The tick period.
    pub closed spec fn spec_period(&self) -> Duration {
        self.period
    }

    /// Create [`EbpfMetrics<M>`] from [`Ebpf`] for specific metrics.
    ///
    /// Takes ownership of the counter table named for `M`'s meter kind:
    /// one counter whose `cpu_count` shards all start at zero.
    pub fn new(bpf: &mut Ebpf, metrics: Vec<Metric<M>>, period: Duration, cpu_count: usize) -> (r:
        Result<EbpfMetrics<M>, Error>)
        ensures
            r matches Ok(em) ==> em.spec_counters() == Seq::new(
                1,
                |i: int| Seq::new(cpu_count as nat, |c: int| 0u64),
            ) && em.spec_metrics() == metrics@ && em.spec_period() == period,
            r is Ok,
    {
        let kind = <M as Meter>::kind();
        let map_name = kind.map_name();
        match bpf.take_map(map_name) {
            Some(map) => match PerCpuArray::from_map(map, cpu_count) {
                Ok(counters) => Ok(EbpfMetrics { counters, metrics, period }),
                Err(e) => Err(Error::MapError(e)),
            },
            None => Err(Error::MapError(MapError::InvalidName {
                name: String::from_str(map_name),
            })),
        }
    }

    /// Decompose the engine into its counter table, metric definitions
    /// and tick period, for a driver that owns the periodic loop.
    pub fn into_parts(self) -> (r: (PerCpuArray<u64>, Vec<Metric<M>>, Duration))
        ensures
            r.0@ == self.spec_counters(),
            r.1@ == self.spec_metrics(),
            r.2 == self.spec_period(),
    {
        (self.counters, self.metrics, self.period)
    }
}

/// Duplicate a label vector, preserving every label's view.
fn clone_labels(labels: &Vec<Label>) -> (r: Vec<Label>)
    ensures
        r@.map_values(|l: Label| l@) == labels@.map_values(|l: Label| l@),
{
    let mut out: Vec<Label> = Vec::new();
    let n = labels.len();
    let mut i: usize = 0;
    while i < n
        invariant
            i <= n,
            n == labels@.len(),
            out@.len() == i,
            forall|k: int| 0 <= k < i ==> out@[k]@ == labels@[k]@,
        decreases n - i,
    {
        let l = &labels[i];
        out.push(Label::new(l.key(), String::from_str(l.value())));
        proof {
            assert(out@[i as int]@ =~= labels@[i as int]@);
        }
        i += 1;
    }
    proof {
        assert(out@.map_values(|l: Label| l@) =~= labels@.map_values(|l: Label| l@));
    }
    out
}

/// Whether the handle `o` addresses series `s`.
pub open spec fn target_is(o: Option<usize>, s: int) -> bool {
    match o {
        Option::Some(t) => t == s,
        Option::None => false,
    }
}

impl EmissionTask {
    /// Whether one of the per-CPU handles of the first `j` online CPUs
    /// addresses series `s`.
    pub open spec fn cpu_touched_upto(self, s: int, j: int) -> bool {
        exists|d: int, jj: int|
            0 <= d < self.num_dims() && self.cpu_row_len(d) != 0 && 0 <= jj < j && target_is(
                #[trigger] self.cpu_target(d, self.spec_online()[jj] as int),
                s,
            )
    }

    /// Whether one of the first `d_lim` aggregate handles addresses
    /// series `s`.
    pub open spec fn agg_touched_upto(self, s: int, d_lim: int) -> bool {
        exists|d: int| 0 <= d < d_lim && target_is(#[trigger] self.agg_target(d), s)
    }

    /// Whether one of the registered handles here addresses series
    /// `s`.
    pub open spec fn owns_series(self, s: int) -> bool {
        self.agg_touched_upto(s, self.num_dims() as int) || self.cpu_touched_upto(
            s,
            self.spec_online().len() as int,
        )
    }
}

/// What one tick does to a task and its sink, given the snapshot row
/// `values` read for the meter.
///
/// The task keeps its identity and handles; every previous shard value of
/// an online CPU covered by the row is replaced by the row's value; the
/// series of a per-CPU handle for online CPU `c` grows by exactly that
/// CPU's delta; every aggregate series grows by exactly the summed deltas
/// of all online CPUs, clamped to the counter range; and no other series
/// of the sink changes.
pub open spec fn tick_post(
    pre: EmissionTask,
    post: EmissionTask,
    sink_pre: Recorder,
    sink_post: Recorder,
    values: Seq<u64>,
) -> bool {
    let prev = pre.spec_prev();
    let online = pre.spec_online();
    let agg = clamp_u64(tick_aggregate(prev, values, online));
    &&& post.spec_meter_index() == pre.spec_meter_index()
    &&& post.spec_name() == pre.spec_name()
    &&& post.spec_cpu_count() == pre.spec_cpu_count()
    &&& post.spec_online() == online
    &&& post.num_dims() == pre.num_dims()
    &&& forall|d: int|
        0 <= d < pre.num_dims() ==> #[trigger] post.agg_target(d) == pre.agg_target(d)
    &&& forall|d: int|
        0 <= d < pre.num_dims() ==> #[trigger] post.cpu_row_len(d) == pre.cpu_row_len(d)
    &&& forall|d: int, c: int|
        0 <= d < pre.num_dims() && 0 <= c < pre.cpu_row_len(d) ==> #[trigger] post.cpu_target(d, c)
            == pre.cpu_target(d, c)
    &&& post.spec_prev().len() == prev.len()
    &&& forall|j: int|
        0 <= j < online.len() ==> #[trigger] post.spec_prev()[online[j] as int] == if (online[j] as int)
            < values.len() {
            values[online[j] as int]
        } else {
            prev[online[j] as int]
        }
    &&& forall|c: int|
        0 <= c < prev.len() && !online.contains(c as u32) ==> #[trigger] post.spec_prev()[c]
            == prev[c]
    &&& sink_post.wf()
    &&& sink_post.descs() == sink_pre.descs()
    &&& sink_post.series().len() == sink_pre.series().len()
    &&& forall|s: int|
        0 <= s < sink_pre.series().len() ==> (#[trigger] sink_post.series()[s]).0
            == sink_pre.series()[s].0
    &&& forall|d: int, j: int|
        0 <= d < pre.num_dims() && pre.cpu_row_len(d) != 0 && 0 <= j < online.len() ==> ((
        #[trigger] pre.cpu_target(d, online[j] as int)) matches Some(tg)
            ==> sink_post.series()[tg as int].1 == sink_pre.series()[tg as int].1.saturating_add(
            cpu_delta(prev, values, online[j] as int),
        ))
    &&& forall|d: int|
        0 <= d < pre.num_dims() ==> ((#[trigger] pre.agg_target(d)) matches Some(tg)
            ==> sink_post.series()[tg as int].1 == sink_pre.series()[tg as int].1.saturating_add(
            agg,
        ))
    &&& forall|s: int|
        0 <= s < sink_pre.series().len() && !pre.owns_series(s) ==> (
        #[trigger] sink_post.series()[s]).1 == sink_pre.series()[s].1
}

/// The number of aggregate dimensions in `dims`.
pub open spec fn count_by(dims: Seq<Dimension>) -> nat
    decreases dims.len(),
{
    if dims.len() == 0 {
        0
    } else {
        count_by(dims.drop_last()) + if dims.last() is By {
            1nat
        } else {
            0nat
        }
    }
}

/// The number of per-CPU dimensions in `dims`.
pub open spec fn count_by_cpu(dims: Seq<Dimension>) -> nat
    decreases dims.len(),
{
    if dims.len() == 0 {
        0
    } else {
        count_by_cpu(dims.drop_last()) + if dims.last() is ByCpu {
            1nat
        } else {
            0nat
        }
    }
}

} // verus!
