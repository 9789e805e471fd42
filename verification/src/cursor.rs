//! Tail cursor: the verified read-position state machine of the tailer.
//!
//! The cursor owns the invariant "everything before `offset` has been turned
//! into complete lines exactly once". It decides, from the file's current
//! size alone, whether a trigger must read and which byte range; it detects
//! truncation (size below the cursor) and resets; and it advances only past
//! bytes that formed complete, terminated lines.

use crate::line::consumed_len;
use crate::line::extract_lines;
use crate::line::split_lines;
use vstd::prelude::*;

verus! {

/// What one trigger should do next: nothing, or read the byte range
/// `[start, end)` of the file.
#[derive(Clone, Copy, PartialEq, Eq, Structural, Debug)]
pub enum ReadPlan {
    Wait,
    Read { start: u64, end: u64 },
}

/// The read position of the tailer on one file: the byte offset up to which
/// the file's content has been consumed into complete lines.
#[derive(Clone, Copy, PartialEq, Eq, Structural, Debug)]
pub struct TailState {
    pub offset: u64,
}

impl TailState {
    /// A cursor placed at the end of what the file already holds, so that
    /// pre-existing history is not replayed. For a file that does not exist
    /// yet the size is zero, so tailing starts at the file's creation.
    pub fn new(initial_size: u64) -> (s: Self)
        ensures
            s.offset == initial_size,
    {
        TailState { offset: initial_size }
    }

    /// Decides what a trigger must do. `size` is the file's current byte
    /// count, or `None` while the file is absent. An absent file changes
    /// nothing and asks for no read. A size below the cursor means the file
    /// was truncated or replaced: the cursor resets to zero and the whole
    /// current content counts as new. Otherwise the cursor stands, and
    /// whatever lies between it and the end of the file is to be read. A
    /// returned read range always starts at the cursor, is never empty, and
    /// never points past the end of the file.
    pub fn plan_read(&mut self, size: Option<u64>) -> (p: ReadPlan)
        ensures
            match size {
                None => final(self).offset == old(self).offset && p == ReadPlan::Wait,
                Some(s) => {
                    &&& (s < old(self).offset ==> final(self).offset == 0)
                    &&& (s >= old(self).offset ==> final(self).offset == old(self).offset)
                    &&& p == (if final(self).offset < s {
                        ReadPlan::Read { start: final(self).offset, end: s }
                    } else {
                        ReadPlan::Wait
                    })
                },
            },
            p matches ReadPlan::Read { start, end } ==> size == Some(end) && start == final(self).offset
                && start < end,
    {
        match size {
            None => ReadPlan::Wait,
            Some(s) => {
                if s < self.offset {
                    self.offset = 0;
                }
                if self.offset < s {
                    ReadPlan::Read { start: self.offset, end: s }
                } else {
                    ReadPlan::Wait
                }
            },
        }
    }

    /// Consumes the bytes read from the planned range. The complete lines
    /// they hold are returned in order, and the cursor advances exactly past
    /// them; an unterminated trailing fragment stays unread, to be completed
    /// by a later write.
    pub fn consume(&mut self, bytes: &[u8]) -> (lines: Vec<Vec<u8>>)
        requires
            old(self).offset + bytes@.len() <= u64::MAX,
        ensures
            lines.deep_view() == split_lines(bytes@),
            final(self).offset == old(self).offset + consumed_len(bytes@),
            old(self).offset <= final(self).offset <= old(self).offset + bytes@.len(),
    {
        proof {
            crate::line::lemma_fragment_is_suffix(bytes@);
        }
        let (lines, consumed) = extract_lines(bytes);
        self.offset = self.offset + (consumed as u64);
        lines
    }
}

} // verus!
