//! An append-only container of instruction bytes.
use vstd::prelude::*;

verus! {

/// Bytes emitted in order, read back from the front.
#[derive(Debug)]
pub struct ByteStream {
    bytes: Vec<u8>,
}

impl View for ByteStream {
    type V = Seq<u8>;

    closed spec fn view(&self) -> Seq<u8> {
        self.bytes@
    }
}

impl ByteStream {
    /// An empty stream.
    pub fn new() -> (r: ByteStream)
        ensures
            r@ == Seq::<u8>::empty(),
    {
        ByteStream { bytes: Vec::new() }
    }

    /// Appends `byte`.
    pub fn emit(&mut self, byte: u8)
        ensures
            final(self)@ == old(self)@.push(byte),
    {
        self.bytes.push(byte);
    }

    /// Removes and returns the first byte; `None` when empty.
    pub fn next(&mut self) -> (r: Option<u8>)
        ensures
            old(self)@.len() == 0 ==> r is None && final(self)@ == old(self)@,
            old(self)@.len() > 0 ==> r == Some(old(self)@[0]) && final(self)@ == old(self)@.drop_first(),
    {
        if self.bytes.len() == 0 {
            return None;
        }
        let val = self.bytes.remove(0);
        Some(val)
    }
}

} // verus!
