//! The per-notification pipeline: read range planning, diff, extraction and
//! registry update, composed into one verified step. The blocking wait for
//! change notifications and the file reads themselves stay outside; they
//! hand this module plain values.
use vstd::prelude::*;
use crate::cursor::LogCursor;
use crate::diff::line_diff;
use crate::event::apply_events_set;
use crate::extract::{diff_events, extract_events};
use crate::registry::PresenceRegistry;

verus! {

/// Diff the new content against the last-seen content, extract the events
/// of the added spans and apply them to the registry, exits before enters
/// within each span.
pub fn process_log_diff(registry: &mut PresenceRegistry, last_contents: &str, new_contents: &str)
    requires
        old(registry).wf(),
    ensures
        final(registry).wf(),
        final(registry).present() == apply_events_set(
            old(registry).present(),
            diff_events(line_diff(last_contents@, new_contents@)),
        ),
{
    let events = extract_events(last_contents, new_contents);
    registry.apply_all(&events);
}

/// The state the watch loop carries between change notifications: the byte
/// offset already consumed and the text already seen, the baseline of the
/// next diff.
pub struct WatchState {
    cursor: LogCursor,
    tail: String,
}

impl WatchState {
    /// The byte offset already consumed.
    pub closed spec fn offset(self) -> u64 {
        self.cursor.offset()
    }

    /// The text already seen: concatenated with the next chunk it forms the
    /// content the next diff runs against.
    pub closed spec fn tail(self) -> Seq<char> {
        self.tail@
    }

    /// Start watching a file of the given current size: earlier content is
    /// intentionally skipped, so the baseline starts empty.
    pub fn new(initial_size: u64) -> (s: WatchState)
        ensures
            s.offset() == initial_size,
            s.tail() == Seq::<char>::empty(),
    {
        WatchState { cursor: LogCursor::new(initial_size), tail: String::new() }
    }

    /// The byte range still to be read after a change notification reported
    /// `new_size`, or `None` when the file did not grow.
    pub fn plan_read(&self, new_size: u64) -> (r: Option<(u64, u64)>)
        ensures
            r == if new_size > self.offset() {
                Some((self.offset(), new_size))
            } else {
                None::<(u64, u64)>
            },
    {
        self.cursor.plan_read(new_size)
    }

    /// Absorb one successfully read chunk: the registry advances by exactly
    /// the events of the diff between the old tail and the old tail extended
    /// by the chunk, the tail grows by the chunk, and the offset moves to
    /// the reported size.
    pub fn absorb_chunk(
        &mut self,
        registry: &mut PresenceRegistry,
        new_size: u64,
        chunk: &str,
    )
        requires
            old(registry).wf(),
            new_size >= old(self).offset(),
        ensures
            final(registry).wf(),
            final(registry).present() == apply_events_set(
                old(registry).present(),
                diff_events(line_diff(old(self).tail(), old(self).tail() + chunk@)),
            ),
            final(self).tail() == old(self).tail() + chunk@,
            final(self).offset() == new_size,
    {
        let mut updated = self.tail.clone();
        updated.append(chunk);
        process_log_diff(registry, self.tail.as_str(), updated.as_str());
        self.tail = updated;
        self.cursor.commit(new_size);
    }
}

} // verus!
