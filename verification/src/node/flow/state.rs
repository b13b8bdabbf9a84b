//! How much a user-space flow has carried.

use std::time::Instant;

use vstd::prelude::*;

verus! {

/// `std::time::Instant`, a point in time of the machine.
#[verifier::external_type_specification]
#[verifier::external_body]
pub struct ExInstant(std::time::Instant);

/// The shortest time after which throughput is reported, in nanoseconds.
pub const REPORT_INTERVAL_NANOS: u128 = 1_000_000_000;

/// Calls `std::time::Instant::now`. Nothing is claimed of the time.
#[verifier::external_body]
pub(crate) fn current_time() -> (now: Instant) {
    Instant::now()
}

/// The time from one point to another, in nanoseconds, as `std::time::Instant::duration_since`
/// gives it.
pub uninterp spec fn nanos_between(now: Instant, earlier: Instant) -> u128;

/// Calls `std::time::Instant::duration_since`, and gives the result in nanoseconds: it depends on
/// the two points in time alone. How it follows from them is left unsaid, since an `Instant` is
/// opaque.
#[verifier::external_body]
fn nanos_since(now: Instant, earlier: Instant) -> (nanos: u128)
    ensures
        nanos == nanos_between(now, earlier),
{
    now.duration_since(earlier).as_nanos()
}

/// What a flow has carried in all, and since the last report.
#[derive(Debug, Clone, Copy)]
pub struct ConnectionState {
    pub start_time: Instant,
    pub time_last_updated: Instant,
    pub bytes_last_updated: u64,
    pub bytes_total: u64,
}

/// Throughput that is due to be reported.
#[derive(Clone, Copy, Debug, PartialEq, Eq, Structural)]
pub struct Throughput {
    pub bytes: u64,
    pub nanos: u128,
}

impl ConnectionState {
    /// A flow that has carried nothing, from a point in time on.
    pub fn new(now: Instant) -> (state: Self)
        ensures
            state == (ConnectionState {
                start_time: now,
                time_last_updated: now,
                bytes_last_updated: 0,
                bytes_total: 0,
            }),
    {
        ConnectionState {
            start_time: now,
            time_last_updated: now,
            bytes_last_updated: 0,
            bytes_total: 0,
        }
    }

    /// The state after bytes were carried: the flow starts with its first bytes, and a report
    /// that is due starts a new count.
    pub open spec fn after(
        self,
        bytes_added: u64,
        started: Instant,
        now: Instant,
        elapsed_nanos: u128,
    ) -> ConnectionState {
        let reported = elapsed_nanos > REPORT_INTERVAL_NANOS;
        ConnectionState {
            start_time: if self.bytes_total == 0 {
                started
            } else {
                self.start_time
            },
            time_last_updated: if reported {
                now
            } else {
                self.time_last_updated
            },
            bytes_last_updated: if reported {
                0
            } else {
                (self.bytes_last_updated + bytes_added) as u64
            },
            bytes_total: (self.bytes_total + bytes_added) as u64,
        }
    }

    /// Takes note of bytes that were carried. `started` is when they began to flow, and
    /// `elapsed_nanos` is how much time went by up to `now` since the last report.
    pub fn record(&mut self, bytes_added: u64, started: Instant, now: Instant, elapsed_nanos: u128)
        -> (due: Option<Throughput>)
        requires
            old(self).bytes_total + bytes_added <= u64::MAX,
            old(self).bytes_last_updated + bytes_added <= u64::MAX,
        ensures
            *final(self) == old(self).after(bytes_added, started, now, elapsed_nanos),
            due == if elapsed_nanos > REPORT_INTERVAL_NANOS {
                Some(
                    Throughput {
                        bytes: (old(self).bytes_last_updated + bytes_added) as u64,
                        nanos: elapsed_nanos,
                    },
                )
            } else {
                None
            },
    {
        if self.bytes_total == 0 {
            self.start_time = started;
        }
        self.bytes_total = self.bytes_total + bytes_added;
        self.bytes_last_updated = self.bytes_last_updated + bytes_added;
        if elapsed_nanos > REPORT_INTERVAL_NANOS {
            let due = Throughput { bytes: self.bytes_last_updated, nanos: elapsed_nanos };
            self.bytes_last_updated = 0;
            self.time_last_updated = now;
            Some(due)
        } else {
            None
        }
    }

    /// Takes note of bytes that are carried now. Whether a report is due depends on the clock.
    pub fn update(&mut self, local_id: usize, remote_node_id: usize, bytes_added: u64)
        requires
            old(self).bytes_total + bytes_added <= u64::MAX,
            old(self).bytes_last_updated + bytes_added <= u64::MAX,
        ensures
            exists|started: Instant, now: Instant|
                *final(self) == #[trigger] old(self).after(
                    bytes_added,
                    started,
                    now,
                    nanos_between(now, old(self).time_last_updated),
                ),
            final(self).bytes_total == old(self).bytes_total + bytes_added,
            old(self).bytes_total != 0 ==> final(self).start_time == old(self).start_time,
    {
        let started = if self.bytes_total == 0 {
            current_time()
        } else {
            self.start_time
        };
        let now = current_time();
        let elapsed_nanos: u128 = nanos_since(now, self.time_last_updated);
        self.record(bytes_added, started, now, elapsed_nanos);
    }
}

/// Bytes are counted in full whenever a report falls due: what two transfers carry is what one
/// transfer of their sum carries.
pub proof fn law_totals_add_up(
    state: ConnectionState,
    first: u64,
    second: u64,
    times: (Instant, Instant, u128),
    later: (Instant, Instant, u128),
)
    requires
        state.bytes_total + first + second <= u64::MAX,
    ensures
        state.after(first, times.0, times.1, times.2).after(
            second,
            later.0,
            later.1,
            later.2,
        ).bytes_total == state.bytes_total + first + second,
{
}

/// A report falls due once more than a second went by since the last one: then the count starts anew
/// from that moment. Until then the bytes add up. A flow starts with its first bytes.
pub proof fn law_reports_are_a_second_apart(
    state: ConnectionState,
    bytes: u64,
    started: Instant,
    now: Instant,
    elapsed_nanos: u128,
)
    requires
        state.bytes_total + bytes <= u64::MAX,
        state.bytes_last_updated + bytes <= u64::MAX,
    ensures
        ({
            let later = state.after(bytes, started, now, elapsed_nanos);
            &&& elapsed_nanos > 1_000_000_000 ==> later.bytes_last_updated == 0
                && later.time_last_updated == now
            &&& elapsed_nanos <= 1_000_000_000 ==> later.bytes_last_updated
                == state.bytes_last_updated + bytes && later.time_last_updated
                == state.time_last_updated
            &&& state.bytes_total == 0 ==> later.start_time == started
            &&& state.bytes_total > 0 ==> later.start_time == state.start_time
            &&& later.bytes_total == state.bytes_total + bytes
        }),
{
}

} // verus!
