//! Network throughput from two readings of the machine's byte counters.

use vstd::prelude::*;

verus! {

/// Throughput since the last reading, and the totals of this one, in bytes.
#[derive(Clone, Copy, Debug, PartialEq, Eq)]
pub struct NetworkStats {
    pub upload_speed: u64,
    pub download_speed: u64,
    pub total_upload: u64,
    pub total_download: u64,
}

/// By how much a counter has grown from `last` to `now`; 0 where it has
/// fallen, as after a restart of the interface.
pub open spec fn growth(last: u64, now: u64) -> u64 {
    if now >= last {
        (now - last) as u64
    } else {
        0
    }
}

/// Remembers the last reading of the counters of received and transmitted
/// bytes.
pub struct NetworkMonitor {
    last_received: u64,
    last_transmitted: u64,
}

impl NetworkMonitor {
    /// The received bytes of the last reading.
    pub closed spec fn received(&self) -> u64 {
        self.last_received
    }

    /// The transmitted bytes of the last reading.
    pub closed spec fn transmitted(&self) -> u64 {
        self.last_transmitted
    }

    /// A monitor whose first reading is `total_received` and
    /// `total_transmitted`.
    pub fn new(total_received: u64, total_transmitted: u64) -> (m: Self)
        ensures
            m.received() == total_received,
            m.transmitted() == total_transmitted,
    {
        NetworkMonitor { last_received: total_received, last_transmitted: total_transmitted }
    }

    /// Takes a new reading: the speeds are the growth of the counters since
    /// the last reading, the totals are the new reading, which the monitor
    /// now remembers.
    pub fn get_stats(&mut self, total_received: u64, total_transmitted: u64) -> (stats:
        NetworkStats)
        ensures
            stats.download_speed == growth(old(self).received(), total_received),
            stats.upload_speed == growth(old(self).transmitted(), total_transmitted),
            stats.total_download == total_received,
            stats.total_upload == total_transmitted,
            final(self).received() == total_received,
            final(self).transmitted() == total_transmitted,
    {
        let download_speed: u64 = total_received.saturating_sub(self.last_received);
        let upload_speed: u64 = total_transmitted.saturating_sub(self.last_transmitted);
        self.last_received = total_received;
        self.last_transmitted = total_transmitted;
        NetworkStats {
            upload_speed,
            download_speed,
            total_upload: total_transmitted,
            total_download: total_received,
        }
    }
}

} // verus!
