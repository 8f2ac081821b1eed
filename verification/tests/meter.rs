use aya_metrics::meter::{Meter, MeterKind};

#[derive(Debug, Copy, Clone)]
enum MockCounter {
    First,
    Second,
}

impl aya_metrics::meter::Counter for MockCounter {
    fn name(self) -> String {
        match self {
            MockCounter::First => "first_counter".to_string(),
            MockCounter::Second => "second_counter".to_string(),
        }
    }

    fn index(&self) -> u32 {
        match self {
            MockCounter::First => 0,
            MockCounter::Second => 1,
        }
    }
}

#[test]
fn test_counter() {
    let first = MockCounter::First;
    let second = MockCounter::Second;

    // Test names
    assert_eq!(first.name(), "first_counter");
    assert_eq!(second.name(), "second_counter");

    // Test index values
    assert_eq!(first.index(), 0);
    assert_eq!(second.index(), 1);
}

#[test]
fn test_meter_trait() {
    let counter = MockCounter::First;

    // Test that kind returns Counter
    assert!(matches!(MockCounter::kind(), MeterKind::Counter));

    // Test that index matches through Meter trait
    assert_eq!(<MockCounter as Meter>::index(&counter), 0);

    // Test that name matches through Meter trait
    assert_eq!(<MockCounter as Meter>::name(counter), "first_counter");
}

#[test]
fn test_meter_kind() {
    assert_eq!(MeterKind::Counter.map_name(), "COUNTERS");
}

#[test]
fn test_default_description_is_empty() {
    assert_eq!(MockCounter::First.description(), "");
}
