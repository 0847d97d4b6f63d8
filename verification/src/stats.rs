//! Counters of the traffic through the proxy.
use vstd::arithmetic::div_mod::lemma_fundamental_div_mod_converse;
use vstd::prelude::*;

verus! {

/// The counters. Each of them wraps around at the end of its range.
#[derive(Debug, Clone, Copy, PartialEq, Eq, Structural)]
pub struct Stats {
    pub active_connections: usize,
    pub uploaded: usize,
    pub downloaded: usize,
    pub total_connections: usize,
}

/// The sum of two counts, wrapped around at the end of the range.
pub open spec fn wrapped_sum(count: usize, more: usize) -> usize {
    if count + more > usize::MAX {
        (count + more - usize::MAX - 1) as usize
    } else {
        (count + more) as usize
    }
}

/// The count before `count`; before zero comes the end of the range.
pub open spec fn wrapped_predecessor(count: usize) -> usize {
    if count == 0 {
        usize::MAX
    } else {
        (count - 1) as usize
    }
}

impl Stats {
    /// All counters at zero.
    pub open spec fn zero() -> Stats {
        Stats { active_connections: 0, uploaded: 0, downloaded: 0, total_connections: 0 }
    }

    /// The counters after a connection was opened.
    pub open spec fn opened(self) -> Stats {
        Stats {
            active_connections: wrapped_sum(self.active_connections, 1),
            total_connections: wrapped_sum(self.total_connections, 1),
            ..self
        }
    }

    /// The counters after a connection was closed.
    pub open spec fn closed_one(self) -> Stats {
        Stats { active_connections: wrapped_predecessor(self.active_connections), ..self }
    }

    /// The counters after bytes were uploaded.
    pub open spec fn uploading(self, bytes: usize) -> Stats {
        Stats { uploaded: wrapped_sum(self.uploaded, bytes), ..self }
    }

    /// The counters after bytes were downloaded.
    pub open spec fn downloading(self, bytes: usize) -> Stats {
        Stats { downloaded: wrapped_sum(self.downloaded, bytes), ..self }
    }

    /// Starts counting.
    pub fn new() -> (stats: Stats)
        ensures
            stats == Stats::zero(),
            stats.active_connections == 0 && stats.uploaded == 0 && stats.downloaded == 0
                && stats.total_connections == 0,
    {
        Stats { active_connections: 0, uploaded: 0, downloaded: 0, total_connections: 0 }
    }
}

/// Counts a connection that was opened.
pub fn incr_conn(stats: &mut Stats)
    ensures
        *final(stats) == old(stats).opened(),
        final(stats).active_connections == (old(stats).active_connections + 1) % (usize::MAX + 1),
        final(stats).total_connections == (old(stats).total_connections + 1) % (usize::MAX + 1),
        final(stats).uploaded == old(stats).uploaded,
        final(stats).downloaded == old(stats).downloaded,
{
    stats.active_connections = stats.active_connections.wrapping_add(1);
    stats.total_connections = stats.total_connections.wrapping_add(1);
}

/// Counts a connection that was closed.
pub fn decr_conn(stats: &mut Stats)
    ensures
        *final(stats) == old(stats).closed_one(),
        old(stats).active_connections == (final(stats).active_connections + 1) % (usize::MAX + 1),
        final(stats).total_connections == old(stats).total_connections,
        final(stats).uploaded == old(stats).uploaded,
        final(stats).downloaded == old(stats).downloaded,
{
    stats.active_connections = stats.active_connections.wrapping_sub(1);
    proof {
        law_counting_is_modular(stats.active_connections, 1);
    }
}

/// Counts bytes that were uploaded.
pub fn incr_uploaded(stats: &mut Stats, bytes: usize)
    ensures
        *final(stats) == old(stats).uploading(bytes),
        final(stats).uploaded == (old(stats).uploaded + bytes) % (usize::MAX + 1),
        final(stats).downloaded == old(stats).downloaded,
        final(stats).active_connections == old(stats).active_connections,
        final(stats).total_connections == old(stats).total_connections,
{
    stats.uploaded = stats.uploaded.wrapping_add(bytes);
}

/// Counts bytes that were downloaded.
pub fn incr_downloaded(stats: &mut Stats, bytes: usize)
    ensures
        *final(stats) == old(stats).downloading(bytes),
        final(stats).downloaded == (old(stats).downloaded + bytes) % (usize::MAX + 1),
        final(stats).uploaded == old(stats).uploaded,
        final(stats).active_connections == old(stats).active_connections,
        final(stats).total_connections == old(stats).total_connections,
{
    stats.downloaded = stats.downloaded.wrapping_add(bytes);
}

/// The counters as they are.
pub fn get_stats(stats: &Stats) -> (snapshot: Stats)
    ensures
        snapshot == *stats,
{
    Stats {
        active_connections: stats.active_connections,
        uploaded: stats.uploaded,
        downloaded: stats.downloaded,
        total_connections: stats.total_connections,
    }
}

/// A connection that was opened and closed is no longer active, and counts in the total.
pub proof fn law_open_and_close(stats: Stats)
    ensures
        stats.opened().closed_one() == (Stats {
            total_connections: wrapped_sum(stats.total_connections, 1),
            ..stats
        }),
{
}

/// Two uploads, or two downloads, count as one of the bytes of both.
pub proof fn law_transfers_add_up(stats: Stats, first: usize, second: usize)
    ensures
        stats.uploading(first).uploading(second) == stats.uploading(wrapped_sum(first, second)),
        stats.downloading(first).downloading(second) == stats.downloading(wrapped_sum(first, second)),
{
}

/// The counters are independent: in which order connections and transfers are counted makes no
/// difference.
pub proof fn law_counts_commute(stats: Stats, up: usize, down: usize)
    ensures
        stats.uploading(up).downloading(down) == stats.downloading(down).uploading(up),
        stats.uploading(up).uploading(down) == stats.uploading(down).uploading(up),
        stats.downloading(up).downloading(down) == stats.downloading(down).downloading(up),
        stats.opened().uploading(up) == stats.uploading(up).opened(),
        stats.opened().downloading(down) == stats.downloading(down).opened(),
        stats.closed_one().uploading(up) == stats.uploading(up).closed_one(),
        stats.closed_one().downloading(down) == stats.downloading(down).closed_one(),
        stats.opened().closed_one() == stats.closed_one().opened(),
{
}

/// The remainder of a number that is less than twice the divisor.
proof fn lemma_remainder(number: int, divisor: int)
    requires
        0 <= number < 2 * divisor,
    ensures
        number % divisor == (if number < divisor {
            number
        } else {
            number - divisor
        }),
{
    if number < divisor {
        lemma_fundamental_div_mod_converse(number, divisor, 0, number);
    } else {
        lemma_fundamental_div_mod_converse(number, divisor, 1, number - divisor);
    }
}

/// Counting is arithmetic modulo the size of the range.
pub proof fn law_counting_is_modular(count: usize, more: usize)
    ensures
        wrapped_sum(count, more) as int == (count + more) % (usize::MAX + 1),
        wrapped_sum(wrapped_predecessor(count), 1) == count,
        wrapped_predecessor(wrapped_sum(count, 1)) == count,
{
    lemma_remainder(count + more, usize::MAX + 1);
}

/// Each event counts where it belongs and nowhere else: a connection that opens among the active
/// ones and in the total, one that closes among the active ones, and bytes in their direction.
pub proof fn law_each_event_counts_once(stats: Stats, bytes: usize)
    ensures
        stats.opened().active_connections as int == (stats.active_connections + 1) % (usize::MAX + 1),
        stats.opened().total_connections as int == (stats.total_connections + 1) % (usize::MAX + 1),
        stats.opened().uploaded == stats.uploaded && stats.opened().downloaded == stats.downloaded,
        (stats.closed_one().active_connections + 1) % (usize::MAX + 1) == stats.active_connections as int,
        stats.closed_one().total_connections == stats.total_connections,
        stats.closed_one().uploaded == stats.uploaded && stats.closed_one().downloaded
            == stats.downloaded,
        stats.uploading(bytes).uploaded as int == (stats.uploaded + bytes) % (usize::MAX + 1),
        stats.uploading(bytes).downloaded == stats.downloaded,
        stats.uploading(bytes).active_connections == stats.active_connections,
        stats.uploading(bytes).total_connections == stats.total_connections,
        stats.downloading(bytes).downloaded as int == (stats.downloaded + bytes) % (usize::MAX + 1),
        stats.downloading(bytes).uploaded == stats.uploaded,
        stats.downloading(bytes).active_connections == stats.active_connections,
        stats.downloading(bytes).total_connections == stats.total_connections,
{
    law_counting_is_modular(stats.active_connections, 1);
    law_counting_is_modular(stats.total_connections, 1);
    law_counting_is_modular(stats.closed_one().active_connections, 1);
    law_counting_is_modular(stats.uploaded, bytes);
    law_counting_is_modular(stats.downloaded, bytes);
}

} // verus!
