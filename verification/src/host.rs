//! The frame bookkeeping of a UI host: which passes a frame must run, and
//! the commit number of the last complete display list.

use vstd::prelude::*;

use crate::tree::{Invalidation, LAYOUT_BIT, PAINT_BIT};

verus! {

/// Pending passes of one host surface and the number of its last complete
/// display list (zero before the first).
#[derive(Debug, Clone, Copy, PartialEq, Eq, Structural)]
pub struct HostPasses {
    pub layout_pending: bool,
    pub paint_pending: bool,
    pub commit: u64,
}

impl HostPasses {
    /// A new surface: both passes pending, nothing committed.
    pub fn new() -> (r: Self)
        ensures
            r == (HostPasses { layout_pending: true, paint_pending: true, commit: 0 }),
    {
        HostPasses { layout_pending: true, paint_pending: true, commit: 0 }
    }

    /// A new tree or a new surface size needs both passes again.
    pub fn invalidate_all(&mut self)
        ensures
            final(self).layout_pending && final(self).paint_pending,
            final(self).commit == old(self).commit,
    {
        self.layout_pending = true;
        self.paint_pending = true;
    }

    /// Whether this frame must lay out: a pending layout, or a tree that
    /// asks for one.
    pub fn needs_layout(&self, invalidation: Invalidation) -> (r: bool)
        ensures
            r == (self.layout_pending || invalidation.bits() & LAYOUT_BIT == LAYOUT_BIT),
    {
        self.layout_pending || invalidation.contains(Invalidation::layout())
    }

    pub fn laid_out(&mut self)
        ensures
            !final(self).layout_pending,
            final(self).paint_pending == old(self).paint_pending,
            final(self).commit == old(self).commit,
    {
        self.layout_pending = false;
    }

    /// Whether this frame must paint: a pending paint, no list yet, or a tree
    /// that asks for paint. Otherwise the previous complete list is reused.
    pub fn needs_paint(&self, invalidation: Invalidation) -> (r: bool)
        ensures
            r == (self.paint_pending || self.commit == 0 || invalidation.bits() & PAINT_BIT == PAINT_BIT),
    {
        self.paint_pending || self.commit == 0 || invalidation.contains(Invalidation::paint())
    }

    /// A complete list was recorded: the commit moves on, never to zero.
    pub fn painted(&mut self)
        ensures
            !final(self).paint_pending,
            final(self).layout_pending == old(self).layout_pending,
            final(self).commit == if old(self).commit == u64::MAX {
                1
            } else {
                (old(self).commit + 1) as u64
            },
            final(self).commit != 0,
    {
        self.commit = if self.commit == u64::MAX {
            1
        } else {
            self.commit + 1
        };
        self.paint_pending = false;
    }
}

} // verus!
