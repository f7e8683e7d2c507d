//! How much was captured, and when.

use vstd::prelude::*;
use chrono::{TimeZone, Utc};

verus! {

/// A point in time: seconds since the start of 1970, and nanoseconds within the second.
#[derive(Clone, Copy, Debug, PartialEq, Eq, Structural)]
pub struct PacketTime {
    pub secs: i64,
    pub nanos: u32,
}

/// The first second that a calendar date can be given for: the start of the year -262143.
pub const MIN_SECS: i64 = -8_334_601_228_800;

/// The last such second: the end of the year 262142.
pub const MAX_SECS: i64 = 8_210_266_876_799;

/// Whether a calendar date can be given for a point in time. More than a whole second of
/// nanoseconds stands for a leap second, which only follows second 59 of a minute.
pub open spec fn on_calendar(secs: i64, nanos: u32) -> bool {
    &&& MIN_SECS <= secs <= MAX_SECS
    &&& nanos < 1_000_000_000 || (nanos < 2_000_000_000 && secs as int % 60 == 59)
}

/// Calls `chrono::TimeZone::timestamp_opt` for UTC, which makes a date and time exactly
/// where the seconds are in its range and the nanoseconds are within a second or a leap
/// second; the date has the seconds and nanoseconds that it was made from.
#[verifier::external_body]
fn utc_time(secs: i64, nanos: u32) -> (time: Option<(i64, u32)>)
    ensures
        time == (if on_calendar(secs, nanos) {
            Some((secs, nanos))
        } else {
            None
        }),
{
    Utc.timestamp_opt(secs, nanos).single().map(|t| (t.timestamp(), t.timestamp_subsec_nanos()))
}

/// The time that a packet header gives, if there is such a time.
pub open spec fn header_time(tv_sec: i64, tv_usec: i64) -> Option<PacketTime> {
    if 0 <= tv_usec && tv_usec * 1000 <= u32::MAX && on_calendar(tv_sec, (tv_usec * 1000) as u32) {
        Some(PacketTime { secs: tv_sec, nanos: (tv_usec * 1000) as u32 })
    } else {
        None
    }
}

/// Reads the time of a packet off its header: seconds, and microseconds within the second.
pub fn packet_time(tv_sec: i64, tv_usec: i64) -> (time: Option<PacketTime>)
    ensures
        time == header_time(tv_sec, tv_usec),
{
    if tv_usec < 0 || tv_usec > 4_294_967 {
        return None;
    }
    let nanos: u32 = (tv_usec * 1000) as u32;
    match utc_time(tv_sec, nanos) {
        Some((secs, nanos)) => Some(PacketTime { secs, nanos }),
        None => None,
    }
}

/// The count and the span of the packets read so far.
#[derive(Clone, Copy, Debug, PartialEq, Eq, Structural)]
pub struct Capture {
    /// The number that the next packet has, counted from one.
    pub packet_count: usize,
    /// The time of the first packet.
    pub start_time: Option<PacketTime>,
    /// The time of the last packet.
    pub end_time: Option<PacketTime>,
}

impl Capture {
    /// A capture before its first packet.
    pub open spec fn unread() -> Capture {
        Capture { packet_count: 1, start_time: None, end_time: None }
    }

    /// The capture once one more packet was read.
    pub open spec fn recorded(self, time: PacketTime) -> Capture {
        Capture {
            packet_count: (self.packet_count + 1) as usize,
            start_time: if self.start_time is None {
                Some(time)
            } else {
                self.start_time
            },
            end_time: Some(time),
        }
    }

    /// A capture before its first packet.
    pub fn new() -> (c: Self)
        ensures
            c == Capture::unread(),
    {
        Capture { packet_count: 1, start_time: None, end_time: None }
    }

    /// Takes in the time of the next packet.
    pub fn record(&mut self, time: PacketTime)
        requires
            old(self).packet_count < usize::MAX,
        ensures
            *final(self) == old(self).recorded(time),
    {
        self.packet_count = self.packet_count + 1;
        if self.start_time.is_none() {
            self.start_time = Some(time);
        }
        self.end_time = Some(time);
    }
}

/// The capture once packets with the given times were read.
pub open spec fn after_packets(times: Seq<PacketTime>) -> Capture
    decreases times.len(),
{
    if times.len() == 0 {
        Capture::unread()
    } else {
        after_packets(times.drop_last()).recorded(times.last())
    }
}

/// A capture starts with its first packet and ends with its last, and the count is one more
/// than the number of packets.
pub proof fn law_capture_span(times: Seq<PacketTime>)
    requires
        times.len() < usize::MAX,
    ensures
        after_packets(times).packet_count == times.len() + 1,
        times.len() == 0 ==> after_packets(times).start_time is None && after_packets(times).end_time is None,
        times.len() > 0 ==> after_packets(times).start_time == Some(times.first())
            && after_packets(times).end_time == Some(times.last()),
    decreases times.len(),
{
    if times.len() > 0 {
        law_capture_span(times.drop_last());
    }
}

/// A packet has exactly the seconds that its header gives, and a thousand nanoseconds for each
/// microsecond. There is such a time for every second of the calendar and every microsecond of
/// a second, or of a leap second, and for nothing else.
pub proof fn law_header_time_kept(tv_sec: i64, tv_usec: i64)
    ensures
        header_time(tv_sec, tv_usec) matches Some(time) ==> time.secs == tv_sec && time.nanos == tv_usec
            * 1000,
        header_time(tv_sec, tv_usec) is Some <==> -8_334_601_228_800 <= tv_sec <= 8_210_266_876_799
            && 0 <= tv_usec && (tv_usec < 1_000_000 || (tv_usec < 2_000_000 && tv_sec as int % 60 == 59)),
{
}

} // verus!
