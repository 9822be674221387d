//! Buffered keyboard input.
//!
//! All keyboard input is buffered in arrival order, and continuations
//! waiting on keyboard events dequeue from the front.  Reading the scan code
//! from the device and decoding it to a character is a collaborator's job;
//! the buffer consumes the decoded byte.

use vstd::prelude::*;

use std::collections::VecDeque;

verus! {

/// The FIFO of decoded keyboard bytes not yet consumed by a continuation.
pub struct KbdBuffer {
    buffer: VecDeque<u8>,
}

impl KbdBuffer {
    /// The buffered bytes, oldest first.
    pub closed spec fn view(&self) -> Seq<u8> {
        self.buffer@
    }

    /// Push one decoded byte, or nothing where the scan code decoded to
    /// nothing (a modifier, an unmapped code).
    ///
    /// This is the keyboard interrupt handler's tail: the interrupt hands it
    /// what the device's scan code decoded to.
    pub fn handler(&mut self, key: Option<u8>)
        ensures
            final(self)@ == match key {
                Option::Some(k) => old(self)@.push(k),
                Option::None => old(self)@,
            },
    {
        if let Option::Some(k) = key {
            self.buffer.push_back(k);
        }
    }

    /// Return the first buffered byte, oldest first.
    pub fn kbd_next(&mut self) -> (r: Option<u8>)
        ensures
            match r {
                Option::Some(k) => old(self)@.len() > 0 && k == old(self)@[0] && final(self)@
                    == old(self)@.skip(1),
                Option::None => old(self)@.len() == 0 && final(self)@ == old(self)@,
            },
    {
        let r = self.buffer.pop_front();
        proof {
            if old(self)@.len() > 0 {
                assert(self@ =~= old(self)@.skip(1));
            }
        }
        r
    }
}

/// An empty keyboard buffer.
pub fn init() -> (b: KbdBuffer)
    ensures
        b@ == Seq::<u8>::empty(),
{
    KbdBuffer { buffer: VecDeque::new() }
}

} // verus!
