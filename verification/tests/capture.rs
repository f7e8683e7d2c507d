use pqcdump::capture::{packet_time, Capture, PacketTime, MAX_SECS, MIN_SECS};

#[test]
fn header_gives_seconds_and_nanoseconds() {
    assert_eq!(
        packet_time(1_700_000_000, 250_000),
        Some(PacketTime { secs: 1_700_000_000, nanos: 250_000_000 })
    );
    assert_eq!(packet_time(-5, 0), Some(PacketTime { secs: -5, nanos: 0 }));
}

#[test]
fn calendar_has_a_first_and_a_last_second() {
    assert!(packet_time(MIN_SECS, 0).is_some());
    assert!(packet_time(MIN_SECS - 1, 0).is_none());
    assert!(packet_time(MAX_SECS, 999_999).is_some());
    assert!(packet_time(MAX_SECS + 1, 0).is_none());
    assert!(packet_time(i64::MAX, 0).is_none());
    assert!(packet_time(i64::MIN, 0).is_none());
}

#[test]
fn more_than_a_second_is_a_leap_second() {
    assert!(packet_time(59, 1_000_000).is_some());
    assert!(packet_time(59, 1_999_999).is_some());
    assert!(packet_time(59, 2_000_000).is_none());
    assert!(packet_time(58, 1_000_000).is_none());
    assert!(packet_time(-1, 1_000_000).is_some());
    assert!(packet_time(-2, 1_000_000).is_none());
}

#[test]
fn microseconds_out_of_range_give_no_time() {
    assert!(packet_time(0, -1).is_none());
    assert!(packet_time(0, 4_294_968).is_none());
    assert!(packet_time(0, i64::MAX).is_none());
}

#[test]
fn capture_spans_first_to_last_packet() {
    let mut capture = Capture::new();
    assert_eq!(capture.packet_count, 1);
    assert_eq!(capture.start_time, None);
    assert_eq!(capture.end_time, None);
    let times = [
        PacketTime { secs: 10, nanos: 0 },
        PacketTime { secs: 9, nanos: 5 },
        PacketTime { secs: 12, nanos: 1 },
    ];
    for time in times {
        capture.record(time);
    }
    assert_eq!(capture.packet_count, 4);
    assert_eq!(capture.start_time, Some(times[0]));
    assert_eq!(capture.end_time, Some(times[2]));
}
