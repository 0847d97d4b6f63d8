//! Counting the bytes that pass through a stream.
use crate::stats::wrapped_sum;
use vstd::prelude::*;

verus! {

/// The bytes read from and written to a stream. Each count wraps around at the end of its range.
#[derive(Debug, Clone, Copy, PartialEq, Eq, Structural)]
pub struct Meter {
    pub read: usize,
    pub written: usize,
}

/// How an attempt to write went.
#[derive(Debug, Clone, Copy, PartialEq, Eq, Structural)]
pub enum Written {
    /// It is not over yet.
    Pending,
    /// It failed.
    Failed,
    /// So many bytes were written.
    Bytes(usize),
}

impl Written {
    /// The number of bytes that were written.
    pub open spec fn count(self) -> usize {
        match self {
            Written::Bytes(count) => count,
            _ => 0,
        }
    }
}

impl Meter {
    /// Starts counting.
    pub fn new() -> (meter: Meter)
        ensures
            meter == (Meter { read: 0, written: 0 }),
    {
        Meter { read: 0, written: 0 }
    }

    /// The number of bytes written.
    pub fn get_written_bytes(&self) -> (count: usize)
        ensures
            count == self.written,
    {
        self.written
    }

    /// The number of bytes read.
    pub fn get_read_bytes(&self) -> (count: usize)
        ensures
            count == self.read,
    {
        self.read
    }

    /// Counts what an attempt to read put into a buffer, given how much of the buffer was filled
    /// before and after it. Returns that number of bytes.
    pub fn record_read(&mut self, filled_before: usize, filled_after: usize) -> (count: usize)
        requires
            filled_before <= filled_after,
        ensures
            count == filled_after - filled_before,
            *final(self) == (Meter { read: wrapped_sum(old(self).read, count), ..*old(self) }),
            final(self).read == (old(self).read + filled_after - filled_before) % (usize::MAX + 1),
            final(self).written == old(self).written,
    {
        let count = filled_after - filled_before;
        if count > 0 {
            self.read = self.read.wrapping_add(count);
        }
        count
    }

    /// Counts what an attempt to write took.
    pub fn record_write(&mut self, outcome: &Written)
        ensures
            *final(self) == (Meter {
                written: wrapped_sum(old(self).written, outcome.count()),
                ..*old(self)
            }),
            final(self).written == (match outcome {
                Written::Bytes(count) => (old(self).written + *count) % (usize::MAX + 1),
                _ => old(self).written as int,
            }),
            final(self).read == old(self).read,
    {
        match outcome {
            Written::Bytes(count) => {
                self.written = self.written.wrapping_add(*count);
            },
            _ => {},
        }
    }
}

/// An attempt counts for the bytes that were written in it; one that failed or is not over yet
/// counts for none.
pub proof fn law_only_written_bytes_count(count: usize)
    ensures
        Written::Bytes(count).count() == count,
        Written::Pending.count() == 0,
        Written::Failed.count() == 0,
{
}

} // verus!
