use aya_metrics::bpf::Ebpf;
use aya_metrics::engine::{Dimension, EbpfMetrics, EmissionTask, Metric};
use aya_metrics::errors::{Error, MapError};
use aya_metrics::meter::Counter;
use aya_metrics::sink::{Key, Label, Recorder, Unit};
use aya_metrics::source::PerCpuArray;
use std::time::Duration;

const HOSTNAME: &str = "this.hostname.test";
const INTERFACE: &str = "tst0";

#[derive(Debug, Copy, Clone)]
enum MockCounter {
    Packets,
}

impl Counter for MockCounter {
    fn name(self) -> String {
        match self {
            MockCounter::Packets => "packets".to_string(),
        }
    }

    fn index(&self) -> u32 {
        match self {
            MockCounter::Packets => 0,
        }
    }
}

#[derive(Debug, Copy, Clone)]
enum OutOfRangeCounter {
    Missing,
}

impl Counter for OutOfRangeCounter {
    fn name(self) -> String {
        match self {
            OutOfRangeCounter::Missing => "missing".to_string(),
        }
    }

    fn index(&self) -> u32 {
        match self {
            OutOfRangeCounter::Missing => 5,
        }
    }
}

fn packets_metric() -> Metric<MockCounter> {
    Metric::new(
        MockCounter::Packets,
        Unit::Count,
        vec![
            Dimension::By(vec![]),
            Dimension::By(vec![Label::new("hostname", HOSTNAME.to_string())]),
            Dimension::ByCpu(vec![
                Label::new("hostname", HOSTNAME.to_string()),
                Label::new("interface", INTERFACE.to_string()),
            ]),
        ],
    )
}

fn agg_key(labels: Vec<Label>) -> Key {
    Key::from_parts("packets".to_string(), labels)
}

fn cpu_key(cpu: u32) -> Key {
    Key::from_parts(
        "packets".to_string(),
        vec![
            Label::new("hostname", HOSTNAME.to_string()),
            Label::new("interface", INTERFACE.to_string()),
            Label::new("cpu", cpu.to_string()),
        ],
    )
}

fn expect_counters(sink: &Recorder, plain: u64, by_host: u64, cpu0: u64, cpu1: u64) {
    assert_eq!(sink.get_counter(&agg_key(vec![])), Some(plain));
    assert_eq!(
        sink.get_counter(&agg_key(vec![Label::new("hostname", HOSTNAME.to_string())])),
        Some(by_host)
    );
    assert_eq!(sink.get_counter(&cpu_key(0)), Some(cpu0));
    assert_eq!(sink.get_counter(&cpu_key(1)), Some(cpu1));
}

// Baseline: meter index 0, 2 online CPUs. The first tick reads the
// all-zero table and increments every handle by zero.
#[test]
fn scenario_baseline_first_tick_emits_zero() {
    let mut sink = Recorder::new();
    let counters: PerCpuArray<u64> = PerCpuArray::new(1, 0, 2);
    let mut task = EmissionTask::start(&packets_metric(), 2, vec![0, 1], &mut sink);
    task.tick(&counters, &mut sink).expect("tick should succeed");
    expect_counters(&sink, 0, 0, 0, 0);
}

// A delta on a single CPU reaches only that CPU's series; the aggregate
// series receives the same amount.
#[test]
fn scenario_single_cpu_delta() {
    let mut sink = Recorder::new();
    let mut counters: PerCpuArray<u64> = PerCpuArray::new(1, 0, 2);
    let mut task = EmissionTask::start(&packets_metric(), 2, vec![0, 1], &mut sink);
    task.tick(&counters, &mut sink).expect("tick should succeed");

    counters.set(0, vec![42, 0], 0).expect("set should succeed");
    task.tick(&counters, &mut sink).expect("tick should succeed");
    expect_counters(&sink, 42, 42, 42, 0);
}

// Deltas on several CPUs are summed into the aggregate series while each
// per-CPU series receives only its own share.
#[test]
fn scenario_multi_cpu_delta() {
    let mut sink = Recorder::new();
    let mut counters: PerCpuArray<u64> = PerCpuArray::new(1, 0, 2);
    let mut task = EmissionTask::start(&packets_metric(), 2, vec![0, 1], &mut sink);
    task.tick(&counters, &mut sink).expect("tick should succeed");

    counters.set(0, vec![42, 0], 0).expect("set should succeed");
    task.tick(&counters, &mut sink).expect("tick should succeed");

    counters.set(0, vec![50, 8], 0).expect("set should succeed");
    task.tick(&counters, &mut sink).expect("tick should succeed");
    expect_counters(&sink, 58, 58, 50, 8);
}

// A meter index beyond the configured table size fails the first read
// with an out-of-range error before any handle is ever incremented.
#[test]
fn scenario_invalid_meter_index_is_fatal() {
    let mut sink = Recorder::new();
    let counters: PerCpuArray<u64> = PerCpuArray::new(1, 0, 2);
    let metric = Metric::new(
        OutOfRangeCounter::Missing,
        Unit::Count,
        vec![Dimension::By(vec![]), Dimension::ByCpu(vec![])],
    );
    let mut task = EmissionTask::start(&metric, 2, vec![0, 1], &mut sink);
    let err = task.tick(&counters, &mut sink).expect_err("tick should fail");
    assert_eq!(
        err,
        Error::MapError(MapError::OutOfBounds { index: 5, max_entries: 1 })
    );
    let key = Key::from_parts("missing".to_string(), vec![]);
    assert_eq!(sink.get_counter(&key), Some(0));
}

// With no online CPUs the aggregate series are still registered but only
// ever receive zero, and the task neither fails nor registers any
// per-CPU series.
#[test]
fn scenario_no_online_cpus() {
    let mut sink = Recorder::new();
    let mut counters: PerCpuArray<u64> = PerCpuArray::new(1, 0, 2);
    counters.set(0, vec![42, 7], 0).expect("set should succeed");
    let mut task = EmissionTask::start(&packets_metric(), 2, vec![], &mut sink);
    task.tick(&counters, &mut sink).expect("tick should succeed");
    task.tick(&counters, &mut sink).expect("tick should succeed");
    assert_eq!(sink.get_counter(&agg_key(vec![])), Some(0));
    assert_eq!(sink.get_counter(&cpu_key(0)), None);
}

// A counter that decreases is treated as an external reset: the tick
// emits zero for it and the current value becomes the new baseline.
#[test]
fn counter_reset_emits_zero_and_rebases() {
    let mut sink = Recorder::new();
    let mut counters: PerCpuArray<u64> = PerCpuArray::new(1, 0, 2);
    counters.set(0, vec![42, 10], 0).expect("set should succeed");
    let mut task = EmissionTask::start(&packets_metric(), 2, vec![0, 1], &mut sink);
    task.tick(&counters, &mut sink).expect("tick should succeed");
    expect_counters(&sink, 52, 52, 42, 10);

    counters.set(0, vec![3, 10], 0).expect("set should succeed");
    task.tick(&counters, &mut sink).expect("tick should succeed");
    expect_counters(&sink, 52, 52, 42, 10);

    counters.set(0, vec![5, 10], 0).expect("set should succeed");
    task.tick(&counters, &mut sink).expect("tick should succeed");
    expect_counters(&sink, 54, 54, 44, 10);
}

// An online CPU whose id lies beyond the snapshot row contributes
// nothing and keeps its baseline.
#[test]
fn short_snapshot_row_skips_missing_cpus() {
    let mut sink = Recorder::new();
    let mut counters: PerCpuArray<u64> = PerCpuArray::new(1, 0, 2);
    counters.set(0, vec![9], 0).expect("set should succeed");
    let mut task = EmissionTask::start(&packets_metric(), 2, vec![0, 1], &mut sink);
    task.tick(&counters, &mut sink).expect("tick should succeed");
    expect_counters(&sink, 9, 9, 9, 0);
}

// A per-CPU dimension labels each series with the decimal CPU id, also
// for ids with several digits.
#[test]
fn cpu_label_holds_decimal_id() {
    let mut sink = Recorder::new();
    let mut counters: PerCpuArray<u64> = PerCpuArray::new(1, 0, 13);
    let mut row = vec![0u64; 13];
    row[12] = 21;
    counters.set(0, row, 0).expect("set should succeed");
    let mut task = EmissionTask::start(&packets_metric(), 13, vec![12], &mut sink);
    task.tick(&counters, &mut sink).expect("tick should succeed");
    assert_eq!(sink.get_counter(&cpu_key(12)), Some(21));
    assert_eq!(sink.get_counter(&cpu_key(1)), None);
    assert_eq!(sink.get_counter(&cpu_key(2)), None);
}

#[test]
fn ebpf_metrics_new_builds_zeroed_table() {
    let mut bpf = Ebpf::load(&[]).expect("mock load should succeed");
    let metrics = EbpfMetrics::new(
        &mut bpf,
        vec![packets_metric()],
        Duration::from_secs(60),
        2,
    )
    .expect("construction should succeed");
    let (counters, metrics, period) = metrics.into_parts();
    assert_eq!(counters.get(&0, 0).expect("row should exist"), vec![0, 0]);
    assert_eq!(metrics.len(), 1);
    assert_eq!(period, Duration::from_secs(60));
}
