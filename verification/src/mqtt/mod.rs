//! MQTT messages as they are kept: quality of service, arrival time and
//! payload.
use chrono::Timelike;
use vstd::prelude::*;

use crate::decimal::{digit_char, digit_str};

use crate::payload::Payload;

pub mod connect;
pub mod payload;

verus! {

/// The MQTT quality of service of a message.
#[derive(Clone, Copy, Debug, PartialEq, Eq)]
pub enum QoS {
    AtMostOnce,
    AtLeastOnce,
    ExactlyOnce,
}

/// A local date and time, as far as a message's arrival time is read: the
/// time of day and the milliseconds since the epoch of the local clock.
#[derive(Clone, Copy, Debug, PartialEq, Eq)]
pub struct LocalTime {
    /// 0 to 23.
    pub hour: u32,
    /// 0 to 59.
    pub minute: u32,
    /// 0 to 59.
    pub second: u32,
    /// Nanoseconds since the whole second; from 1,000,000,000 on the time is
    /// in a leap second.
    pub nanosecond: u32,
    /// Milliseconds since 1970-01-01 00:00:00 of the local clock.
    pub timestamp_millis: i64,
}

impl LocalTime {
    /// The ranges of a time of day.
    pub open spec fn well_formed(self) -> bool {
        &&& self.hour < 24
        &&& self.minute < 60
        &&& self.second < 60
        &&& self.nanosecond < 2_000_000_000
    }
}

/// When a message arrived: retained by the broker, or live at a local time.
#[derive(Clone, Copy, Debug, PartialEq, Eq)]
pub enum Time {
    Retained,
    Local(LocalTime),
}

/// Reads `chrono::Local::now()` as a naive local date and time and takes its
/// hour, minute, second, nanosecond and timestamp in milliseconds. Of the
/// values only the ranges of `chrono::Timelike` are stated: they depend on
/// the clock.
#[verifier::external_body]
fn now_local() -> (time: LocalTime)
    ensures
        time.well_formed(),
{
    let now = chrono::Local::now().naive_local();
    LocalTime {
        hour: now.hour(),
        minute: now.minute(),
        second: now.second(),
        nanosecond: now.nanosecond(),
        timestamp_millis: now.and_utc().timestamp_millis(),
    }
}

/// The last two decimal digits of `n`.
pub open spec fn two_digits(n: nat) -> Seq<char> {
    seq![digit_char(n / 10 % 10), digit_char(n % 10)]
}

/// The last three decimal digits of `n`.
pub open spec fn three_digits(n: nat) -> Seq<char> {
    seq![digit_char(n / 100 % 10), digit_char(n / 10 % 10), digit_char(n % 10)]
}

/// A number below ten after a space, a larger one in two digits.
pub open spec fn space_padded(n: nat) -> Seq<char> {
    if n < 10 {
        seq![' ', digit_char(n)]
    } else {
        two_digits(n)
    }
}

/// The time of day as `chrono` formats `%_H:%M:%S.%3f`: the hour padded
/// with a space to two places, minute and second in two digits (a leap
/// second shows as 60), a dot and three digits of milliseconds.
pub open spec fn clock_text(time: LocalTime) -> Seq<char> {
    space_padded(time.hour as nat) + seq![':'] + two_digits(time.minute as nat) + seq![':'] + two_digits(
        (time.second + time.nanosecond / 1_000_000_000) as nat,
    ) + seq!['.'] + three_digits((time.nanosecond / 1_000_000 % 1000) as nat)
}

fn push_two_digits(text: &mut String, n: u64)
    ensures
        final(text)@ == old(text)@ + two_digits(n as nat),
{
    text.append(digit_str((n / 10 % 10) as usize));
    text.append(digit_str((n % 10) as usize));
    proof {
        assert(final(text)@ =~= old(text)@ + two_digits(n as nat));
    }
}

impl Time {
    /// The time of a message arriving now: retained or at the current local
    /// time.
    pub fn new_now(retained: bool) -> (time: Time)
        ensures
            retained <==> time is Retained,
            time matches Time::Local(t) ==> t.well_formed(),
    {
        if retained {
            Time::Retained
        } else {
            Time::Local(now_local())
        }
    }

    /// The local time of a live message; `None` for a retained one.
    pub fn as_optional(&self) -> (time: Option<LocalTime>)
        ensures
            match *self {
                Time::Retained => time is None,
                Time::Local(t) => time == Some(t),
            },
    {
        match self {
            Time::Retained => None,
            Time::Local(time) => Some(*time),
        }
    }

    /// The time as shown: `RETAINED`, or the time of day with milliseconds.
    pub fn to_string(&self) -> (text: String)
        ensures
            text@ == spec_time_text(*self),
    {
        proof {
            reveal_strlit("RETAINED");
            reveal_strlit(" ");
            reveal_strlit(":");
            reveal_strlit(".");
        }
        match self {
            Time::Retained => String::from_str("RETAINED"),
            Time::Local(time) => {
                let mut text = String::new();
                if time.hour < 10 {
                    text.append(" ");
                    text.append(digit_str(time.hour as usize));
                } else {
                    push_two_digits(&mut text, time.hour as u64);
                }
                text.append(":");
                push_two_digits(&mut text, time.minute as u64);
                text.append(":");
                push_two_digits(&mut text, time.second as u64 + time.nanosecond as u64 / 1_000_000_000);
                text.append(".");
                let millis = (time.nanosecond / 1_000_000 % 1000) as usize;
                text.append(digit_str(millis / 100 % 10));
                text.append(digit_str(millis / 10 % 10));
                text.append(digit_str(millis % 10));
                proof {
                    assert(text@ =~= clock_text(*time));
                }
                text
            },
        }
    }
}

/// The text of a time: `RETAINED`, or the time of day of a live message.
pub open spec fn spec_time_text(time: Time) -> Seq<char> {
    match time {
        Time::Retained => "RETAINED"@,
        Time::Local(t) => clock_text(t),
    }
}

/// A message kept in the history of a topic.
#[derive(Debug, PartialEq)]
pub struct HistoryEntry {
    pub qos: QoS,
    pub time: Time,
    pub payload_size: usize,
    pub payload: Payload,
}

/// A message as it arrives from the broker.
#[derive(Clone, Debug, PartialEq, Eq)]
pub struct Publish {
    pub topic: String,
    pub qos: QoS,
    pub retain: bool,
    /// Whether the broker delivers the message again.
    pub dup: bool,
    pub payload: Vec<u8>,
}

/// What the MQTT event loop reports, as far as this program tells it apart.
#[derive(Clone, Debug, PartialEq, Eq)]
pub enum Notification {
    /// The broker acknowledged the connection.
    ConnAck,
    /// A message arrived.
    Publish(Publish),
    /// The broker acknowledged a message that was sent.
    PubAck,
    /// Another packet arrived.
    OtherIncoming,
    /// The client sends a disconnect: the connection is about to end.
    OutgoingDisconnect,
    /// The client sends a ping: nothing happened for a while.
    OutgoingPingReq,
    /// The client sends another packet.
    OtherOutgoing,
    /// The connection failed.
    ConnectionError,
}

} // verus!
