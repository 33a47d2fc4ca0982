use vstd::prelude::*;

verus! {

/// A byte queue: writes append at the back, reads take from the front.
#[derive(Debug)]
pub struct Buffer {
    pub bytes: Vec<u8>,
}

impl Buffer {
    /// An empty buffer.
    pub fn new() -> (r: Buffer)
        ensures
            r.bytes@.len() == 0,
    {
        Buffer { bytes: Vec::new() }
    }

    /// Whether nothing is queued.
    pub fn is_empty(&self) -> (r: bool)
        ensures
            r == (self.bytes@.len() == 0),
    {
        self.bytes.len() == 0
    }

    /// Append bytes; all of them are taken.
    pub fn write(&mut self, buf: &[u8]) -> (r: usize)
        ensures
            r == buf@.len(),
            final(self).bytes@ == old(self).bytes@ + buf@,
    {
        let mut i: usize = 0;
        while i < buf.len()
            invariant
                i <= buf@.len(),
                self.bytes@ == old(self).bytes@ + buf@.subrange(0, i as int),
            decreases buf.len() - i,
        {
            self.bytes.push(buf[i]);
            proof {
                assert(old(self).bytes@ + buf@.subrange(0, i + 1) =~= (old(self).bytes@ + buf@.subrange(0, i as int)).push(buf@[i as int]));
            }
            i += 1;
        }
        assert(buf@.subrange(0, buf@.len() as int) =~= buf@);
        buf.len()
    }

    /// Take up to `max` bytes from the front.
    pub fn read(&mut self, max: usize) -> (r: Vec<u8>)
        ensures
            r@.len() == if max < old(self).bytes@.len() { max as int } else { old(self).bytes@.len() as int },
            old(self).bytes@ == r@ + final(self).bytes@,
    {
        let n = if max < self.bytes.len() { max } else { self.bytes.len() };
        let mut out: Vec<u8> = Vec::new();
        let mut rest: Vec<u8> = Vec::new();
        let mut i: usize = 0;
        while i < self.bytes.len()
            invariant
                n <= self.bytes@.len(),
                self.bytes@ == old(self).bytes@,
                i <= self.bytes@.len(),
                i <= n ==> out@ == self.bytes@.subrange(0, i as int) && rest@.len() == 0,
                i > n ==> out@ == self.bytes@.subrange(0, n as int) && rest@ == self.bytes@.subrange(n as int, i as int),
            decreases self.bytes.len() - i,
        {
            if i < n {
                out.push(self.bytes[i]);
                proof {
                    assert(self.bytes@.subrange(0, i + 1) =~= self.bytes@.subrange(0, i as int).push(self.bytes@[i as int]));
                }
            } else {
                rest.push(self.bytes[i]);
                proof {
                    if i == n {
                        assert(rest@ =~= self.bytes@.subrange(n as int, i + 1));
                    } else {
                        assert(self.bytes@.subrange(n as int, i + 1) =~= self.bytes@.subrange(n as int, i as int).push(self.bytes@[i as int]));
                    }
                }
            }
            i += 1;
        }
        proof {
            if i <= n {
                assert(out@ =~= self.bytes@.subrange(0, n as int));
                assert(rest@ =~= self.bytes@.subrange(n as int, i as int));
            }
            assert(self.bytes@ =~= self.bytes@.subrange(0, n as int) + self.bytes@.subrange(n as int, self.bytes@.len() as int));
        }
        self.bytes = rest;
        out
    }

    /// Nothing is held back: flushing does nothing.
    pub fn flush(&mut self)
        ensures
            final(self).bytes@ == old(self).bytes@,
    {
    }

    /// The queued bytes.
    pub fn as_ref(&self) -> (r: &[u8])
        ensures
            r@ == self.bytes@,
    {
        self.bytes.as_slice()
    }
}

} // verus!
