use surrealkv_core::clock::{timestamp_from_millis, ClockError, Duration, FakeClock, IncFakeClock, SizedClock, SystemClock, Timestamp};

#[test]
fn get_clock_now() {
    let clock = SystemClock::new();
    let _ = clock.now();
}

#[test]
fn system_clock_reads_after_epoch() {
    let t = SystemClock::new().now().unwrap();
    assert!(t.value > 1_600_000_000_000);
}

#[test]
fn fake_clock_returns_constructor_then_set_value() {
    let mut c = FakeClock::new(Timestamp { value: 42 });
    assert_eq!(c.now(), Timestamp { value: 42 });
    assert_eq!(c.now(), Timestamp { value: 42 });
    c.set(Timestamp { value: 7 });
    assert_eq!(c.now(), Timestamp { value: 7 });
}

#[test]
fn inc_clock_advances_by_increment() {
    let mut c = IncFakeClock::new(Timestamp { value: 100 }, Duration { millis: 5 });
    assert_eq!(c.now(), Timestamp { value: 105 });
    assert_eq!(c.now(), Timestamp { value: 110 });
    assert_eq!(c.now(), Timestamp { value: 115 });
}

#[test]
fn sized_clock_dispatches() {
    let mut f = SizedClock::Fake(FakeClock::new(Timestamp { value: 9 }));
    assert_eq!(f.now(), Ok(Timestamp { value: 9 }));
    let mut i = SizedClock::Inc(IncFakeClock::new(Timestamp { value: 0 }, Duration { millis: 1 }));
    assert_eq!(i.now(), Ok(Timestamp { value: 1 }));
    assert_eq!(i.now(), Ok(Timestamp { value: 2 }));
    let mut s = SizedClock::System(SystemClock::new());
    assert!(s.now().is_ok());
}

#[test]
fn timestamp_from_millis_truncates() {
    assert_eq!(timestamp_from_millis(1234).value, 1234);
    assert_eq!(timestamp_from_millis((1u128 << 64) + 3).value, 3);
}

#[test]
fn system_reading_maps_to_timestamp_or_error() {
    assert_eq!(SystemClock::from_reading(Some(77)), Ok(Timestamp { value: 77 }));
    assert_eq!(SystemClock::from_reading(None), Err(ClockError::BeforeEpoch));
}
