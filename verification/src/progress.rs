//! The state of a progress line shown while bytes are read or written: when
//! to redraw it, when the transfer is done, and when it ended early.
use vstd::prelude::*;

verus! {

/// Milliseconds between two redraws of the progress line.
pub const REPORT_INTERVAL_MS: u64 = 200;

/// What the progress line needs after some bytes went through.
#[derive(Debug, Clone, Copy, PartialEq, Eq, Structural)]
pub enum ProgressEvent {
    /// Nothing to show.
    Nothing,
    /// Draw the line again.
    Redraw,
    /// Replace the line with the done message.
    Done,
}

/// How far a transfer of `total` bytes has come.
#[derive(Debug)]
pub struct ProgressWrapper {
    pub desc: String,
    pub done_desc: String,
    pub current: usize,
    pub total: usize,
    pub done: bool,
}

impl ProgressWrapper {
    /// Nothing transferred yet.
    pub fn new(desc: String, done_desc: String, total: usize) -> (r: ProgressWrapper)
        ensures
            r.desc == desc,
            r.done_desc == done_desc,
            r.current == 0,
            r.total == total,
            !r.done,
    {
        ProgressWrapper { desc, done_desc, current: 0, total, done: false }
    }

    /// `size` more bytes went through, `since_report_ms` milliseconds after the
    /// line was last drawn. Once the total is reached the transfer is done
    /// and the count stops at the total; after that nothing changes.
    pub fn update_current(&mut self, size: usize, since_report_ms: u64) -> (r: ProgressEvent)
        requires
            old(self).done || old(self).current + size <= usize::MAX,
        ensures
            final(self).desc == old(self).desc,
            final(self).done_desc == old(self).done_desc,
            final(self).total == old(self).total,
            old(self).done ==> r == ProgressEvent::Nothing && final(self).current == old(self).current && final(self).done,
            !old(self).done && old(self).current + size >= old(self).total ==> r == ProgressEvent::Done
                && final(self).done && final(self).current == old(self).total,
            !old(self).done && old(self).current + size < old(self).total ==> !final(self).done
                && final(self).current == old(self).current + size
                && r == (if since_report_ms >= REPORT_INTERVAL_MS { ProgressEvent::Redraw } else { ProgressEvent::Nothing }),
    {
        if self.done {
            return ProgressEvent::Nothing;
        }
        self.current = self.current + size;
        if self.current >= self.total {
            self.done = true;
            self.current = self.total;
            return ProgressEvent::Done;
        }
        if since_report_ms >= REPORT_INTERVAL_MS {
            ProgressEvent::Redraw
        } else {
            ProgressEvent::Nothing
        }
    }

    /// Whether the transfer stopped before its end, when the line goes away.
    pub fn failed(&self) -> (r: bool)
        ensures
            r == (!self.done && self.current < self.total),
    {
        !self.done && self.current < self.total
    }
}

/// The progress of bytes being read.
#[derive(Debug)]
pub struct ProgressReader {
    pub wrapper: ProgressWrapper,
}

impl ProgressReader {
    /// A read of `total` bytes that has not started.
    pub fn new(desc: String, done_desc: String, total: usize) -> (r: ProgressReader)
        ensures
            r.wrapper.desc == desc,
            r.wrapper.done_desc == done_desc,
            r.wrapper.current == 0,
            r.wrapper.total == total,
            !r.wrapper.done,
    {
        ProgressReader { wrapper: ProgressWrapper::new(desc, done_desc, total) }
    }
}

/// The progress of bytes being written.
#[derive(Debug)]
pub struct ProgressWriter {
    pub wrapper: ProgressWrapper,
}

impl ProgressWriter {
    /// A write of `total` bytes that has not started.
    pub fn new(desc: String, done_desc: String, total: usize) -> (r: ProgressWriter)
        ensures
            r.wrapper.desc == desc,
            r.wrapper.done_desc == done_desc,
            r.wrapper.current == 0,
            r.wrapper.total == total,
            !r.wrapper.done,
    {
        ProgressWriter { wrapper: ProgressWrapper::new(desc, done_desc, total) }
    }
}

} // verus!
