//! The rolling activity log: an append-only bounded sequence of text
//! records written by workers and user actions and read by the display.
//! It keeps only the most recent entries, evicting the oldest first.

use vstd::prelude::*;

verus! {

/// How many entries the log keeps before evicting the oldest.
pub const LOG_CAPACITY: usize = 12;

/// A bounded, sequence-ordered record of recent activity.
pub struct ActivityLog {
    entries: Vec<String>,
}

impl ActivityLog {
    /// The retained entries, oldest first.
    pub closed spec fn view(&self) -> Seq<String> {
        self.entries@
    }

    /// Creates an empty log.
    pub fn new() -> (r: Self)
        ensures
            r@ == Seq::<String>::empty(),
    {
        ActivityLog { entries: Vec::new() }
    }

    /// Appends an entry; once the log is full the oldest entry is evicted
    /// to make room, so the length never grows past the capacity.
    pub fn append(&mut self, entry: String)
        ensures
            final(self)@ == if old(self)@.len() < LOG_CAPACITY {
                old(self)@.push(entry)
            } else {
                old(self)@.drop_first().push(entry)
            },
            old(self)@.len() <= LOG_CAPACITY ==> final(self)@.len() <= LOG_CAPACITY,
    {
        self.entries.push(entry);
        if self.entries.len() > LOG_CAPACITY {
            let _ = self.entries.remove(0);
            proof {
                assert(self.entries@ =~= old(self)@.drop_first().push(entry));
            }
        }
    }

    /// The number of retained entries.
    pub fn len(&self) -> (r: usize)
        ensures
            r == self@.len(),
    {
        self.entries.len()
    }

    /// The retained entries, oldest first, for rendering.
    pub fn entries(&self) -> (r: &Vec<String>)
        ensures
            r@ == self@,
    {
        &self.entries
    }
}

} // verus!
