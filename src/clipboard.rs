//! Decisions of the clipboard watchers: when the clipboard holds something
//! new, and what to write back.

use vstd::prelude::*;
use crate::sanitization::{sanitize, sanitized};

verus! {

/// What the clipboard holding `contents` is replaced with: its sanitized text,
/// unless sanitizing changes nothing.
pub open spec fn replacement(contents: Seq<char>) -> Option<Seq<char>> {
    if sanitized(contents) == contents {
        None
    } else {
        Some(sanitized(contents))
    }
}

/// The replacement for clipboard text, if sanitizing changes it.
pub fn replacement_for(contents: &str) -> (r: Option<String>)
    ensures
        match r {
            Some(s) => replacement(contents@) == Some(s@),
            None => replacement(contents@) is None,
        },
{
    let cleaned = sanitize(contents);
    let as_read = String::from_str(contents);
    if cleaned == as_read {
        None
    } else {
        Some(cleaned)
    }
}

/// The change count that follows `n`; it wraps at the largest value.
pub open spec fn next_count(n: isize) -> isize {
    if n == isize::MAX {
        isize::MIN
    } else {
        (n + 1) as isize
    }
}

/// The last pasteboard change count that the poller has seen, threaded through
/// the polling loop.
pub struct PasteboardWatch {
    pub last_change_count: isize,
}

impl PasteboardWatch {
    pub fn new() -> (r: PasteboardWatch)
        ensures
            r.last_change_count == -1,
    {
        PasteboardWatch { last_change_count: -1 }
    }

    /// Records the current change count; says whether it differs from the last.
    pub fn observe(&mut self, change_count: isize) -> (changed: bool)
        ensures
            changed == (change_count != old(self).last_change_count),
            final(self).last_change_count == change_count,
    {
        let changed = change_count != self.last_change_count;
        self.last_change_count = change_count;
        changed
    }

    /// Decides what to write back for the text read from the pasteboard. A
    /// write is itself a change, so the count it will cause is recorded too.
    pub fn after_read(&mut self, contents: &str) -> (r: Option<String>)
        ensures
            match r {
                Some(s) => replacement(contents@) == Some(s@) && final(self).last_change_count
                    == next_count(old(self).last_change_count),
                None => replacement(contents@) is None && final(self).last_change_count == old(
                    self,
                ).last_change_count,
            },
    {
        let r = replacement_for(contents);
        if r.is_some() {
            self.last_change_count = if self.last_change_count == isize::MAX {
                isize::MIN
            } else {
                self.last_change_count + 1
            };
        }
        r
    }
}

} // verus!
