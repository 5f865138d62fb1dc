use vstd::prelude::*;

verus! {

/// The one way a read from a `MiniStream` can fail.
#[derive(Debug, PartialEq, Eq, Structural)]
pub enum MiniStreamReadError {
    ReadPastEnd,
}

/// The value of the big-endian 32-bit word that starts at `p` in `b`.
pub open spec fn be_u32(b: Seq<u8>, p: int) -> u32 {
    (b[p] as int * 0x1000000 + b[p + 1] as int * 0x10000 + b[p + 2] as int * 0x100
        + b[p + 3] as int) as u32
}

/// The index of the first zero byte of `b` at or after `p`, if there is one.
pub open spec fn find_zero(b: Seq<u8>, p: int) -> Option<int>
    decreases b.len() - p,
{
    if p < 0 || p >= b.len() {
        None
    } else if b[p] == 0 {
        Some(p)
    } else {
        find_zero(b, p + 1)
    }
}

/// The smallest multiple of four that is at least `p`.
pub open spec fn align_up(p: int) -> int {
    if p % 4 == 0 {
        p
    } else {
        p + 4 - p % 4
    }
}

/// What `find_zero` returns lies at or after the start and holds a zero.
pub proof fn lemma_find_zero_found(b: Seq<u8>, p: int)
    ensures
        find_zero(b, p) matches Some(z) ==> p <= z < b.len() && b[z] == 0 && 0 <= p,
    decreases b.len() - p,
{
    if 0 <= p < b.len() && b[p] != 0 {
        lemma_find_zero_found(b, p + 1);
    }
}

/// A bounds-checked reader over a borrowed byte buffer.
#[derive(Debug)]
pub struct MiniStream<'a> {
    buf: &'a [u8],
    pos: usize,
}

impl<'a> MiniStream<'a> {
    /// The bytes being read.
    pub closed spec fn bytes(&self) -> Seq<u8> {
        self.buf@
    }

    /// The offset of the next byte to be read.
    pub closed spec fn position(&self) -> int {
        self.pos as int
    }

    /// The position never passes the end of the buffer.
    pub open spec fn wf(&self) -> bool {
        0 <= self.position() <= self.bytes().len() <= usize::MAX
    }

    pub fn new(buf: &'a [u8]) -> (r: MiniStream<'a>)
        ensures
            r.bytes() == buf@,
            r.position() == 0,
            r.wf(),
    {
        proof {
            assert(buf@.len() == buf.len());
        }
        MiniStream { buf: buf, pos: 0 }
    }

    pub fn pos(&self) -> (r: usize)
        ensures
            r == self.position(),
    {
        self.pos
    }

    /// Moves forward to the next multiple of four; fails, moving nothing, when
    /// that lies past the end of the buffer.
    pub fn align(&mut self) -> (r: Result<(), MiniStreamReadError>)
        requires
            old(self).wf(),
        ensures
            final(self).wf(),
            final(self).bytes() == old(self).bytes(),
            r is Ok <==> align_up(old(self).position()) <= old(self).bytes().len(),
            final(self).position() == (if r is Ok {
                align_up(old(self).position())
            } else {
                old(self).position()
            }),
    {
        let m: usize = self.pos % 4;
        if m != 0 {
            let step: usize = 4 - m;
            if step > self.buf.len() - self.pos {
                return Err(MiniStreamReadError::ReadPastEnd);
            }
            self.pos = self.pos + step;
        }
        Ok(())
    }

    /// Reads up to the first zero byte, returning the bytes before it and moving
    /// past it; fails, moving nothing, when no zero byte follows.
    pub fn read_string0(&mut self) -> (r: Result<&'a [u8], MiniStreamReadError>)
        requires
            old(self).wf(),
        ensures
            final(self).wf(),
            final(self).bytes() == old(self).bytes(),
            r is Ok <==> find_zero(old(self).bytes(), old(self).position()) is Some,
            r matches Ok(s) ==> {
                let z = find_zero(old(self).bytes(), old(self).position())->Some_0;
                &&& s@ == old(self).bytes().subrange(old(self).position(), z)
                &&& final(self).position() == z + 1
            },
            r is Err ==> final(self).position() == old(self).position(),
    {
        let start = self.pos;
        let mut i: usize = self.pos;
        while i < self.buf.len()
            invariant
                start <= i <= self.buf@.len(),
                start == self.pos,
                self.buf@ == old(self).buf@,
                self.pos == old(self).pos,
                self.wf(),
                find_zero(self.buf@, start as int) == find_zero(self.buf@, i as int),
            decreases self.buf@.len() - i,
        {
            if self.buf[i] == 0 {
                let s = vstd::slice::slice_subrange(self.buf, start, i);
                self.pos = i + 1;
                return Ok(s);
            }
            i = i + 1;
        }
        Err(MiniStreamReadError::ReadPastEnd)
    }

    /// Reads the next `len` bytes and moves past them; fails, moving nothing,
    /// when fewer remain.
    pub fn read_bytes(&mut self, len: usize) -> (r: Result<&'a [u8], MiniStreamReadError>)
        requires
            old(self).wf(),
        ensures
            final(self).wf(),
            final(self).bytes() == old(self).bytes(),
            r is Ok <==> old(self).position() + len <= old(self).bytes().len(),
            r matches Ok(s) ==> s@ == old(self).bytes().subrange(
                old(self).position(),
                old(self).position() + len,
            ),
            final(self).position() == (if r is Ok {
                old(self).position() + len
            } else {
                old(self).position()
            }),
    {
        match self.peek_bytes(len) {
            Ok(s) => {
                self.pos = self.pos + len;
                Ok(s)
            },
            Err(e) => Err(e),
        }
    }

    /// The next `len` bytes, without moving; fails when fewer remain.
    pub fn peek_bytes(&self, len: usize) -> (r: Result<&'a [u8], MiniStreamReadError>)
        requires
            self.wf(),
        ensures
            r is Ok <==> self.position() + len <= self.bytes().len(),
            r matches Ok(s) ==> s@ == self.bytes().subrange(
                self.position(),
                self.position() + len,
            ),
    {
        if len <= self.buf.len() - self.pos {
            Ok(vstd::slice::slice_subrange(self.buf, self.pos, self.pos + len))
        } else {
            Err(MiniStreamReadError::ReadPastEnd)
        }
    }

    /// The big-endian 32-bit word at the position, without moving; fails when
    /// fewer than four bytes remain.
    pub fn peek_u32_le(&self) -> (r: Result<u32, MiniStreamReadError>)
        requires
            self.wf(),
        ensures
            r is Ok <==> self.position() + 4 <= self.bytes().len(),
            r matches Ok(v) ==> v == be_u32(self.bytes(), self.position()),
    {
        if 4 <= self.buf.len() - self.pos {
            let b0 = self.buf[self.pos] as u32;
            let b1 = self.buf[self.pos + 1] as u32;
            let b2 = self.buf[self.pos + 2] as u32;
            let b3 = self.buf[self.pos + 3] as u32;
            Ok(b0 * 0x1000000 + b1 * 0x10000 + b2 * 0x100 + b3)
        } else {
            Err(MiniStreamReadError::ReadPastEnd)
        }
    }

    /// Reads the big-endian 32-bit word at the position and moves past it;
    /// fails, moving nothing, when fewer than four bytes remain.
    pub fn read_u32_le(&mut self) -> (r: Result<u32, MiniStreamReadError>)
        requires
            old(self).wf(),
        ensures
            final(self).wf(),
            final(self).bytes() == old(self).bytes(),
            r is Ok <==> old(self).position() + 4 <= old(self).bytes().len(),
            r matches Ok(v) ==> v == be_u32(old(self).bytes(), old(self).position()),
            final(self).position() == (if r is Ok {
                old(self).position() + 4
            } else {
                old(self).position()
            }),
    {
        match self.peek_u32_le() {
            Ok(v) => {
                self.pos = self.pos + 4;
                Ok(v)
            },
            Err(e) => Err(e),
        }
    }

    /// Moves to `position`, which must lie inside the buffer; fails, moving
    /// nothing, otherwise.
    pub fn seek(&mut self, position: usize) -> (r: Result<(), MiniStreamReadError>)
        requires
            old(self).wf(),
        ensures
            final(self).wf(),
            final(self).bytes() == old(self).bytes(),
            r is Ok <==> position < old(self).bytes().len(),
            final(self).position() == (if r is Ok {
                position as int
            } else {
                old(self).position()
            }),
    {
        if position >= self.buf.len() {
            Err(MiniStreamReadError::ReadPastEnd)
        } else {
            self.pos = position;
            Ok(())
        }
    }
}

/// What `std::str::from_utf8` makes of `b`: the text it encodes, or `None`
/// where it is not valid UTF-8.
pub uninterp spec fn utf8_decoded(b: Seq<u8>) -> Option<Seq<char>>;

/// Relies on `std::str::from_utf8`: the text that the bytes encode, when they
/// are valid UTF-8.
#[verifier::external_body]
fn utf8_text(v: &[u8]) -> (r: Option<&str>)
    ensures
        utf8_decoded(v@) == (match r {
            Some(s) => Some(s@),
            None => None::<Seq<char>>,
        }),
{
    std::str::from_utf8(v).ok()
}

/// The text that `v` encodes, or a fixed marker where `v` is not UTF-8.
pub fn from_utf8_safe(v: &[u8]) -> (r: &str)
    ensures
        r@ == (match utf8_decoded(v@) {
            Some(s) => s,
            None => "utf8!invalid"@,
        }),
{
    match utf8_text(v) {
        Some(s) => s,
        None => "utf8!invalid",
    }
}

} // verus!
