use vstd::prelude::*;

verus! {

/// A sequential position over the input bytes. Every decode step consumes
/// a fixed count of bytes from the front; a read past the end is the
/// stream-truncation failure.
pub struct ByteCursor {
    pub pos: usize,
}

impl ByteCursor {
    pub fn new() -> (r: ByteCursor)
        ensures
            r.pos == 0,
    {
        ByteCursor { pos: 0 }
    }

    /// Whether `n` more bytes are available in `data`.
    pub open spec fn can_take(&self, data: Seq<u8>, n: int) -> bool {
        self.pos + n <= data.len()
    }

    /// Consume `n` bytes and hand them out; fail without moving when the
    /// stream is shorter than that.
    pub fn take(&mut self, data: &Vec<u8>, n: usize) -> (r: Result<Vec<u8>, ()>)
        ensures
            r is Ok <==> old(self).can_take(data@, n as int),
            r matches Ok(v) ==> v@ == data@.subrange(
                old(self).pos as int,
                old(self).pos + n,
            ) && final(self).pos == old(self).pos + n,
            r is Err ==> *final(self) == *old(self),
    {
        if self.pos <= data.len() && n <= data.len() - self.pos {
            let p: usize = self.pos;
            let dlen: usize = data.len();
            let mut v: Vec<u8> = Vec::new();
            let mut i: usize = 0;
            while i < n
                invariant
                    dlen == data@.len(),
                    p + n <= dlen,
                    0 <= i <= n,
                    v@ == data@.subrange(p as int, p + i),
                decreases n - i,
            {
                v.push(data[p + i]);
                assert(v@ =~= data@.subrange(p as int, p + i + 1));
                i = i + 1;
            }
            self.pos = self.pos + n;
            Ok(v)
        } else {
            Err(())
        }
    }

    /// Advance over `n` bytes whose content the format discards; fail when
    /// the stream is shorter than that.
    pub fn skip(&mut self, data: &Vec<u8>, n: usize) -> (r: Result<(), ()>)
        ensures
            r is Ok <==> old(self).can_take(data@, n as int),
            r is Ok ==> final(self).pos == old(self).pos + n,
            r is Err ==> *final(self) == *old(self),
    {
        if self.pos <= data.len() && n <= data.len() - self.pos {
            self.pos = self.pos + n;
            Ok(())
        } else {
            Err(())
        }
    }
}

} // verus!
