//! The sample loop's decisions: when to stop, when to repeat the header
//! block, and how one tick changes the bookkeeping.
//!
//! The loop itself — sleeping and reading counters — lives with the caller;
//! this state machine only decides, so every decision is checked here.

use vstd::prelude::*;

verus! {

/// How many data rows are printed between header blocks.
pub const HEADER_REPEAT_INTERVAL: u64 = 20;

/// Incrementing that stops at the largest representable count instead of
/// wrapping.
pub open spec fn sat_inc(x: u64) -> u64 {
    if x == u64::MAX {
        u64::MAX
    } else {
        (x + 1) as u64
    }
}

/// The sample loop's bookkeeping: how many ticks have run, and how many
/// data rows were printed since the last header block.
pub struct LoopState {
    /// Ticks taken so far, successful or not.
    pub updates: u64,
    /// Data rows printed since the header block was last printed.
    pub rows_since_header: u64,
}

impl LoopState {
    /// A fresh loop: no ticks yet, headers just printed.
    pub fn new() -> (s: LoopState)
        ensures
            s.updates == 0,
            s.rows_since_header == 0,
    {
        LoopState { updates: 0, rows_since_header: 0 }
    }

    /// Whether the loop has taken all requested ticks; without a requested
    /// count it never finishes on its own.
    pub fn finished(&self, count: Option<u64>) -> (r: bool)
        ensures
            r == match count {
                Some(c) => self.updates >= c,
                None => false,
            },
    {
        match count {
            Some(c) => self.updates >= c,
            None => false,
        }
    }

    /// Whether the header block must be printed again before the next row.
    pub fn needs_header(&self) -> (r: bool)
        ensures
            r == (self.rows_since_header >= HEADER_REPEAT_INTERVAL),
    {
        self.rows_since_header >= HEADER_REPEAT_INTERVAL
    }

    /// Records a tick that printed a row: one more update, and the row
    /// count restarts after a reprinted header block.
    pub fn record_row(&mut self, reprinted_header: bool)
        ensures
            final(self).updates == sat_inc(old(self).updates),
            final(self).rows_since_header == (if reprinted_header {
                1u64
            } else {
                sat_inc(old(self).rows_since_header)
            }),
    {
        self.updates = if self.updates == u64::MAX {
            u64::MAX
        } else {
            self.updates + 1
        };
        if reprinted_header {
            self.rows_since_header = 1;
        } else {
            self.rows_since_header = if self.rows_since_header == u64::MAX {
                u64::MAX
            } else {
                self.rows_since_header + 1
            };
        }
    }

    /// Records a tick whose sample failed: the tick still counts, but no
    /// row was printed and the previous snapshot stays in use.
    pub fn record_error(&mut self)
        ensures
            final(self).updates == sat_inc(old(self).updates),
            final(self).rows_since_header == old(self).rows_since_header,
    {
        self.updates = if self.updates == u64::MAX {
            u64::MAX
        } else {
            self.updates + 1
        };
    }
}

} // verus!
