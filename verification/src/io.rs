//! In-memory sources and destinations of bytes, with a position, which the readers and
//! writers of records work on. Whoever reads from or writes to a device moves the bytes
//! between it and these.
use vstd::prelude::*;
use crate::names::IntoBytes;

verus! {

/// What went wrong while moving bytes.
#[derive(Debug, PartialEq, Eq, Clone, Copy, Structural)]
pub enum IoError {
    /// Fewer bytes were left than were asked for.
    UnexpectedEof,
    /// The destination had no room left.
    WriteZero,
    /// The bytes were not valid UTF-8.
    InvalidData,
}

/// Bytes to be read, and how far they have been read.
#[derive(Debug)]
pub struct ByteReader {
    data: Vec<u8>,
    position: usize,
}

impl ByteReader {
    /// All the bytes.
    pub closed spec fn contents(&self) -> Seq<u8> {
        self.data@
    }

    /// How many bytes have been read.
    pub closed spec fn pos(&self) -> nat {
        self.position as nat
    }

    /// The bytes not read yet: none once the position is at or past the end.
    pub open spec fn rest(&self) -> Seq<u8> {
        if self.pos() <= self.contents().len() {
            self.contents().skip(self.pos() as int)
        } else {
            Seq::empty()
        }
    }

    /// A reader at the start of `data`.
    pub fn new<T: IntoBytes>(data: T) -> (r: Self)
        ensures
            r.contents() == data.bytes_view(),
            r.pos() == 0,
    {
        ByteReader { data: data.into_bytes(), position: 0 }
    }

    /// Where the next byte is read from.
    pub fn position(&self) -> (p: usize)
        ensures
            p == self.pos(),
    {
        self.position
    }

    /// Moves to `position`, which may lie past the end: nothing is left to read there.
    pub fn set_position(&mut self, position: usize)
        ensures
            final(self).contents() == old(self).contents(),
            final(self).pos() == position,
    {
        self.position = position;
    }

    /// The bytes not read yet.
    pub fn remaining(&self) -> (r: &[u8])
        ensures
            r@ == self.rest(),
    {
        if self.position <= self.data.len() {
            vstd::slice::slice_subrange(self.data.as_slice(), self.position, self.data.len())
        } else {
            vstd::slice::slice_subrange(self.data.as_slice(), 0, 0)
        }
    }

    /// Reads up to `n` bytes onto the end of `buffer`, and says how many it read.
    pub fn read_up_to(&mut self, n: usize, buffer: &mut Vec<u8>) -> (count: usize)
        ensures
            count == if n <= old(self).rest().len() {
                n as nat
            } else {
                old(self).rest().len()
            },
            final(buffer)@ == old(buffer)@ + old(self).rest().take(count as int),
            final(self).contents() == old(self).contents(),
            final(self).pos() == old(self).pos() + count,
            final(self).rest() == old(self).rest().skip(count as int),
    {
        let available = if self.position <= self.data.len() {
            self.data.len() - self.position
        } else {
            0
        };
        let count = if n <= available {
            n
        } else {
            available
        };
        if count > 0 {
            crate::padding::extend_from_range(buffer, self.data.as_slice(), self.position, self.position + count);
            assert(self.data@.subrange(self.position as int, self.position + count) =~= self.data@.skip(
                self.position as int,
            ).take(count as int));
        } else {
            assert(old(self).rest().take(0) =~= Seq::<u8>::empty());
            assert(buffer@ =~= old(buffer)@ + old(self).rest().take(0));
        }
        self.position = self.position + count;
        assert(self.rest() =~= old(self).rest().skip(count as int));
        count
    }

    /// Reads exactly `n` bytes onto the end of `buffer`; when fewer are left, reads none of
    /// them, moves to the end and fails.
    pub fn read_exact(&mut self, n: usize, buffer: &mut Vec<u8>) -> (r: Result<(), IoError>)
        ensures
            n <= old(self).rest().len() ==> (r is Ok && final(buffer)@ == old(buffer)@ + old(self).rest().take(
                n as int,
            ) && final(self).pos() == old(self).pos() + n),
            n > old(self).rest().len() ==> (r == Err::<(), IoError>(IoError::UnexpectedEof) && final(buffer)@
                == old(buffer)@ && final(self).pos() == old(self).contents().len() && final(self).rest()
                == Seq::<u8>::empty()),
            final(self).contents() == old(self).contents(),
    {
        let available = if self.position <= self.data.len() {
            self.data.len() - self.position
        } else {
            0
        };
        if n <= available {
            self.read_up_to(n, buffer);
            Ok(())
        } else {
            self.position = self.data.len();
            assert(self.rest() =~= Seq::<u8>::empty());
            Err(IoError::UnexpectedEof)
        }
    }

    /// The bytes, whatever has been read of them.
    pub fn into_inner(self) -> (v: Vec<u8>)
        ensures
            v@ == self.contents(),
    {
        self.data
    }
}

/// Writing at `p` into `d` padded with zeros up to `p` is writing at `p` into `d`.
proof fn lemma_overwritten_filled(d: Seq<u8>, p: int, filled: Seq<u8>, b: Seq<u8>)
    requires
        0 <= p,
        b.len() > 0 ==> p <= filled.len(),
        b.len() > 0 ==> filled == if p > d.len() {
            d + zeros((p - d.len()) as nat)
        } else {
            d
        },
        b.len() == 0 ==> filled == d,
    ensures
        overwritten(filled, p, b) == overwritten(d, p, b),
{
    if b.len() > 0 && p > d.len() {
        assert(filled.len() == p);
        assert(filled.take(p) =~= filled);
    }
}

/// `n` zero bytes.
pub open spec fn zeros(n: nat) -> Seq<u8> {
    Seq::new(n, |i: int| 0u8)
}

/// What writing `b` at position `p` makes of `d`: the bytes there are overwritten, and
/// `d` grows where `b` goes past its end, with zeros between its end and `p` when `p` lies
/// past it. Writing nothing changes nothing.
pub open spec fn overwritten(d: Seq<u8>, p: int, b: Seq<u8>) -> Seq<u8> {
    if b.len() == 0 {
        d
    } else if p > d.len() {
        d + zeros((p - d.len()) as nat) + b
    } else if p + b.len() < d.len() {
        d.take(p) + b + d.skip(p + b.len())
    } else {
        d.take(p) + b
    }
}

/// A destination of bytes with a position, that either grows as it is written past its
/// end or has a fixed size.
#[derive(Debug)]
pub struct ByteWriter {
    data: Vec<u8>,
    position: usize,
    fixed: bool,
}

impl ByteWriter {
    /// All the bytes.
    pub closed spec fn contents(&self) -> Seq<u8> {
        self.data@
    }

    /// Where the next byte goes.
    pub closed spec fn pos(&self) -> nat {
        self.position as nat
    }

    /// Whether the destination cannot grow.
    pub closed spec fn is_fixed(&self) -> bool {
        self.fixed
    }

    /// How many bytes a write at the current position can take: what is left of a
    /// destination that cannot grow, none past its end, and up to the largest position for
    /// one that grows.
    pub open spec fn room(&self) -> nat {
        if self.is_fixed() {
            if self.pos() <= self.contents().len() {
                (self.contents().len() - self.pos()) as nat
            } else {
                0
            }
        } else {
            (usize::MAX - self.pos()) as nat
        }
    }

    /// An empty destination that grows.
    pub fn new() -> (w: Self)
        ensures
            w.contents() == Seq::<u8>::empty(),
            w.pos() == 0,
            !w.is_fixed(),
    {
        ByteWriter { data: Vec::new(), position: 0, fixed: false }
    }

    /// A destination of the size of `buffer`, written from its start.
    pub fn with_fixed_size(buffer: Vec<u8>) -> (w: Self)
        ensures
            w.contents() == buffer@,
            w.pos() == 0,
            w.is_fixed(),
    {
        ByteWriter { data: buffer, position: 0, fixed: true }
    }

    /// Where the next byte goes.
    pub fn position(&self) -> (p: usize)
        ensures
            p == self.pos(),
            self.contents().len() <= usize::MAX,
            self.room() <= usize::MAX,
    {
        let _ = self.data.len();
        self.position
    }

    /// Moves to `position`, which may lie past the end: a write there first fills the gap
    /// with zeros, where the destination can grow.
    pub fn set_position(&mut self, position: usize)
        ensures
            final(self).contents() == old(self).contents(),
            final(self).is_fixed() == old(self).is_fixed(),
            final(self).pos() == position,
    {
        self.position = position;
    }

    /// Writes as much of `buf` as there is room for, and says how much that was.
    pub fn write(&mut self, buf: &[u8]) -> (count: usize)
        ensures
            count == if buf@.len() <= old(self).room() {
                buf@.len()
            } else {
                old(self).room()
            },
            final(self).contents() == overwritten(
                old(self).contents(),
                old(self).pos() as int,
                buf@.take(count as int),
            ),
            final(self).pos() == old(self).pos() + count,
            final(self).is_fixed() == old(self).is_fixed(),
    {
        let mut writer = ByteWriter::new();
        std::mem::swap(self, &mut writer);
        let ByteWriter { data, position, fixed } = writer;
        let room = if fixed {
            if position <= data.len() {
                data.len() - position
            } else {
                0
            }
        } else {
            usize::MAX - position
        };
        let count = if buf.len() <= room {
            buf.len()
        } else {
            room
        };
        let ghost d = data@;
        let ghost p = position as int;
        let mut data = data;
        if count > 0 && data.len() < position {
            assert(data@ =~= d + zeros(0));
            while data.len() < position
                invariant
                    data@ == d + zeros((data@.len() - d.len()) as nat),
                    data@.len() <= position,
                    d.len() <= data@.len(),
                decreases position - data@.len(),
            {
                data.push(0u8);
                assert(data@ =~= d + zeros((data@.len() - d.len()) as nat));
            }
        }
        let ghost filled = data@;
        let mut i: usize = 0;
        assert(buf@.take(0) =~= Seq::<u8>::empty());
        while i < count
            invariant
                count <= buf@.len(),
                p == position,
                p + count <= usize::MAX,
                count > 0 ==> p <= filled.len(),
                count > 0 ==> filled == if p > d.len() {
                    d + zeros((p - d.len()) as nat)
                } else {
                    d
                },
                count == 0 ==> filled == d,
                i <= count,
                data@ == if i == 0 {
                    filled
                } else {
                    overwritten(filled, p, buf@.take(i as int))
                },
                i > 0 ==> data@.len() >= p + i,
            decreases count - i,
        {
            let at = position + i;
            if at < data.len() {
                data.set(at, buf[i]);
            } else {
                data.push(buf[i]);
            }
            i = i + 1;
            assert(data@ =~= overwritten(filled, p, buf@.take(i as int)));
        }
        proof {
            lemma_overwritten_filled(d, p, filled, buf@.take(count as int));
        }
        *self = ByteWriter { data, position: position + count, fixed };
        count
    }

    /// Writes all of `buf`; when there is not room for all of it, writes what fits and fails.
    pub fn write_all(&mut self, buf: &[u8]) -> (r: Result<(), IoError>)
        ensures
            buf@.len() <= old(self).room() ==> r is Ok,
            buf@.len() > old(self).room() ==> r == Err::<(), IoError>(IoError::WriteZero),
            final(self).contents() == overwritten(
                old(self).contents(),
                old(self).pos() as int,
                buf@.take(
                    if buf@.len() <= old(self).room() {
                        buf@.len() as int
                    } else {
                        old(self).room() as int
                    },
                ),
            ),
            final(self).pos() == old(self).pos() + if buf@.len() <= old(self).room() {
                buf@.len()
            } else {
                old(self).room()
            },
            final(self).is_fixed() == old(self).is_fixed(),
    {
        let count = self.write(buf);
        if count < buf.len() {
            Err(IoError::WriteZero)
        } else {
            Ok(())
        }
    }

    /// The bytes written so far, with whatever the destination held.
    pub fn get_ref(&self) -> (v: &Vec<u8>)
        ensures
            v@ == self.contents(),
    {
        &self.data
    }

    /// The bytes.
    pub fn into_inner(self) -> (v: Vec<u8>)
        ensures
            v@ == self.contents(),
    {
        self.data
    }
}

} // verus!
