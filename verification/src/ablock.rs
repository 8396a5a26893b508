//! The rules snapshot cell: a double-buffered value handoff.
//!
//! Two storage slots hold values; a small state word names the active slot
//! and counts the single permitted reader.  A read returns a borrow of the
//! active slot; installing a new value writes the inactive slot and then
//! flips the active-slot bit, so a read never observes a partially written
//! value and a read sequenced after a set observes the set value.
//!
//! This module carries the verified state machine and the single-threaded
//! cell.  The cross-thread packaging (one reader handle on the packet thread,
//! one setter handle on the control thread, sharing the cell through a
//! reference count and atomics) cannot be expressed in verified code and
//! lives with the process around the library; it performs exactly the slot
//! writes and state-word transitions proved here.

use vstd::prelude::*;

verus! {

/// The cell's state word.  Bit 2 names the active slot (clear = slot A); bit
/// 0 counts the reader inside the active slot.
#[derive(Clone, Copy, PartialEq, Eq, Structural, Debug)]
pub struct AbState {
    pub word: u8,
}

impl AbState {
    /// Whether slot A is the active slot.
    pub open spec fn spec_side_a(&self) -> bool {
        self.word & 0x4 == 0
    }

    /// Whether the reader is inside the active slot.
    pub open spec fn spec_reading(&self) -> bool {
        self.word & 0x1 == 1
    }

    /// The word only ever holds the four legal combinations.
    pub open spec fn wf(&self) -> bool {
        self.word == 0 || self.word == 1 || self.word == 4 || self.word == 5
    }

    /// A fresh state word: no reader, active side as given (`true` = A).
    pub fn new(side: bool) -> (r: AbState)
        ensures
            r.wf(),
            r.spec_side_a() == side,
            !r.spec_reading(),
    {
        let r = AbState { word: if side { 0x0 } else { 0x4 } };
        proof {
            assert(0x0u8 & 0x4 == 0 && 0x4u8 & 0x4 != 0 && 0x0u8 & 0x1 != 1 && 0x4u8 & 0x1 != 1)
                by (bit_vector);
        }
        r
    }

    /// Marks the reader as inside the active slot and reports which slot that
    /// is.  The concurrent packaging performs this as one atomic increment
    /// and panics when a reader is already inside; here a second reader is
    /// excluded by contract.
    pub fn set_read(&mut self) -> (side_a: bool)
        requires
            old(self).wf(),
            !old(self).spec_reading(),
        ensures
            final(self).wf(),
            final(self).spec_reading(),
            final(self).spec_side_a() == old(self).spec_side_a(),
            side_a == old(self).spec_side_a(),
    {
        proof {
            let w = self.word;
            assert(((w == 0 || w == 1 || w == 4 || w == 5) && w & 0x1 != 1) ==> ((w == 0 || w == 4)
                && w + 1 == (w | 0x1) && ((w | 0x1) == 1 || (w | 0x1) == 5) && (w | 0x1) & 0x1 == 1
                && ((w | 0x1) & 0x4 == 0) == (w & 0x4 == 0))) by (bit_vector);
        }
        let side_a = self.word & 0x4 == 0;
        self.word = self.word | 0x1;
        side_a
    }

    /// Marks the reader as outside again.
    pub fn unset_read(&mut self)
        requires
            old(self).wf(),
            old(self).spec_reading(),
        ensures
            final(self).wf(),
            !final(self).spec_reading(),
            final(self).spec_side_a() == old(self).spec_side_a(),
    {
        proof {
            let w = self.word;
            assert(((w == 0 || w == 1 || w == 4 || w == 5) && w & 0x1 == 1) ==> ((w == 1 || w == 5)
                && w - 1 == (w & 0x4) && ((w & 0x4) == 0 || (w & 0x4) == 4) && (w & 0x4) & 0x1 != 1
                && ((w & 0x4) & 0x4 == 0) == (w & 0x4 == 0))) by (bit_vector);
        }
        self.word = self.word & 0x4;
    }

    /// Flips the active slot.  The concurrent packaging reaches this point
    /// only after the reader count has dropped to zero (it spins on a
    /// compare-exchange); here that is the precondition.
    pub fn swap_side(&mut self)
        requires
            old(self).wf(),
            !old(self).spec_reading(),
        ensures
            final(self).wf(),
            !final(self).spec_reading(),
            final(self).spec_side_a() == !old(self).spec_side_a(),
    {
        proof {
            let w = self.word;
            assert(((w == 0 || w == 1 || w == 4 || w == 5) && w & 0x1 != 1) ==> ((w == 0 || w == 4)
                && ((w ^ 0x4) == 0 || (w ^ 0x4) == 4) && (w ^ 0x4) & 0x1 != 1 && ((w ^ 0x4) & 0x4
                == 0) == !(w & 0x4 == 0))) by (bit_vector);
        }
        self.word = self.word ^ 0x4;
    }
}

/// The double-buffered cell: two slots and the state word.  Slot B starts
/// empty and is first filled by a set.
pub struct AbLock<T> {
    a: T,
    b: Option<T>,
    state: AbState,
}

impl<T> AbLock<T> {
    /// The inactive slot is only empty while slot A is active.
    pub closed spec fn wf(&self) -> bool {
        &&& self.state.wf()
        &&& !self.state.spec_reading()
        &&& (!self.state.spec_side_a() ==> self.b is Some)
    }

    /// The value a read observes: the content of the active slot.
    pub closed spec fn spec_current(&self) -> T {
        if self.state.spec_side_a() {
            self.a
        } else {
            self.b.unwrap()
        }
    }

    /// Which slot is active (`true` = slot A).
    pub closed spec fn spec_side_a(&self) -> bool {
        self.state.spec_side_a()
    }

    /// The content of the inactive slot, once both slots are filled.
    pub closed spec fn spec_inactive(&self) -> T {
        if self.state.spec_side_a() {
            self.b.unwrap()
        } else {
            self.a
        }
    }

    /// A fresh cell holding `v` in slot A.
    pub fn new(v: T) -> (r: AbLock<T>)
        ensures
            r.wf(),
            r.spec_current() == v,
    {
        AbLock { a: v, b: None, state: AbState::new(true) }
    }

    /// Borrows the current value.  The state word is driven through the same
    /// enter/leave transitions the concurrent reader performs around its
    /// guard.
    pub fn read(&mut self) -> (r: &T)
        requires
            old(self).wf(),
        ensures
            final(self).wf(),
            final(self).spec_current() == old(self).spec_current(),
            *r == old(self).spec_current(),
    {
        let side_a = self.state.set_read();
        self.state.unset_read();
        if side_a {
            &self.a
        } else {
            match self.b {
                Option::Some(ref v) => v,
                Option::None => unreached(),
            }
        }
    }

    /// Installs `v`: writes the inactive slot, then flips the active-slot
    /// bit.  A read sequenced after the set observes `v`; the slot that held
    /// the previously current value is never written, so a read racing the
    /// set still observes a fully formed value.
    pub fn set(&mut self, v: T)
        requires
            old(self).wf(),
        ensures
            final(self).wf(),
            final(self).spec_current() == v,
            final(self).spec_inactive() == old(self).spec_current(),
            final(self).spec_side_a() == !old(self).spec_side_a(),
    {
        if self.state.word & 0x4 == 0 {
            self.b = Some(v);
        } else {
            self.a = v;
        }
        self.state.swap_side();
    }
}

} // verus!
