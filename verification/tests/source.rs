use aya_metrics::bpf::{Ebpf, EbpfLogger, LpmTrie};
use aya_metrics::errors::{Error, MapError};
use aya_metrics::source::PerCpuArray;

#[test]
fn per_cpu_array_new_and_get() {
    let table: PerCpuArray<u64> = PerCpuArray::new(2, 9, 3);
    assert_eq!(table.get(&0, 0).expect("row should exist"), vec![9, 9, 9]);
    assert_eq!(table.get(&1, 0).expect("row should exist"), vec![9, 9, 9]);
    assert_eq!(
        table.get(&2, 0).expect_err("read should fail"),
        MapError::OutOfBounds { index: 2, max_entries: 2 }
    );
}

#[test]
fn per_cpu_array_set_overwrites_row() {
    let mut table: PerCpuArray<u64> = PerCpuArray::new(1, 0, 2);
    table.set(0, vec![4, 5], 0).expect("set should succeed");
    assert_eq!(table.get(&0, 0).expect("row should exist"), vec![4, 5]);
}

#[test]
fn ebpf_mock_hands_out_zeroed_table() {
    let mut bpf = Ebpf::load(&[]).expect("mock load should succeed");
    let map = bpf.take_map("COUNTERS").expect("mock map should exist");
    let table = PerCpuArray::from_map(map, 2).expect("conversion should succeed");
    assert_eq!(table.get(&0, 0).expect("row should exist"), vec![0, 0]);
    assert_eq!(
        table.get(&1, 0).expect_err("read should fail"),
        MapError::OutOfBounds { index: 1, max_entries: 1 }
    );
}

#[test]
fn ebpf_logger_init_succeeds() {
    let mut bpf = Ebpf::load(&[]).expect("mock load should succeed");
    assert!(EbpfLogger::init(&mut bpf).is_ok());
}

#[test]
fn lpm_trie_counts_distinct_keys() {
    let mut trie: LpmTrie<u32, u32> = LpmTrie::new();
    assert_eq!(trie.size(), 0);
    trie.insert(1, 10, 0).expect("insert should succeed");
    trie.insert(2, 20, 0).expect("insert should succeed");
    assert_eq!(trie.size(), 2);
    trie.insert(1, 30, 0).expect("insert should succeed");
    assert_eq!(trie.size(), 2);
}

#[test]
fn error_messages_name_the_condition() {
    let read = Error::MapError(MapError::KeyNotFound);
    assert_eq!(read.message(), "error opening metric array");
    let possible = Error::InvalidPossibleCpu("bad format".to_string());
    assert_eq!(possible.message(), "invalid possible cpu format");
    let online = Error::InvalidOnlineCpu("bad format".to_string());
    assert_eq!(online.message(), "invalid online cpu format");
}
