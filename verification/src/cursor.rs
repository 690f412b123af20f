//! Byte-offset tracking for the incremental reader: decides which byte range
//! of the log file still has to be read, and advances only after a
//! successful read.
use vstd::prelude::*;

verus! {

/// Position up to which the watched log file has already been consumed.
///
/// The offset is monotonically non-decreasing for the lifetime of one
/// watched file: a notification that reports a smaller or equal file size
/// (no growth, or a truncated file) yields no read plan and leaves the
/// offset unchanged.
pub struct LogCursor {
    offset: u64,
}

impl LogCursor {
    /// The byte offset already consumed.
    pub closed spec fn offset(self) -> u64 {
        self.offset
    }

    /// Start watching at `initial_size`, skipping everything the file held
    /// before the watch began.
    pub fn new(initial_size: u64) -> (c: LogCursor)
        ensures
            c.offset() == initial_size,
    {
        LogCursor { offset: initial_size }
    }

    /// Given the file size reported by a change notification, return the
    /// half-open byte range `[start, end)` that still has to be read, or
    /// `None` when the file did not grow past the stored offset.
    pub fn plan_read(&self, new_size: u64) -> (r: Option<(u64, u64)>)
        ensures
            r == if new_size > self.offset() {
                Some((self.offset(), new_size))
            } else {
                None::<(u64, u64)>
            },
    {
        if new_size > self.offset {
            Some((self.offset, new_size))
        } else {
            None
        }
    }

    /// Record that everything up to `new_size` has been read successfully.
    pub fn commit(&mut self, new_size: u64)
        requires
            new_size >= old(self).offset(),
        ensures
            final(self).offset() == new_size,
    {
        self.offset = new_size;
    }
}

} // verus!
