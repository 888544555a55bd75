//! Lines of a fixed length, each followed by a separator: reading and writing the data of
//! the lines as one stream, with the separators taken out on reading and put in on writing.
use vstd::prelude::*;
use vstd::string::StringSliceAdditionalSpecFns;
use vstd::utf8::{decode_utf8, encode_utf8, valid_utf8};
use vstd::string::StringExecFns;
use crate::io::{ByteReader, ByteWriter, IoError, overwritten};
use crate::writer::{lemma_overwritten_append, lemma_room_after_write};

verus! {

broadcast use vstd::utf8::encode_utf8_decode_utf8, vstd::utf8::decode_utf8_encode_utf8;

/// The length of the lines, and the separator that follows each of them.
#[derive(Debug, Clone, PartialEq, Eq)]
pub struct LineSpec {
    pub length: usize,
    pub separator: String,
}

impl LineSpec {
    /// The bytes of the separator.
    pub open spec fn separator_bytes(&self) -> Seq<u8> {
        encode_utf8(self.separator@)
    }

    /// The length of a line with its separator.
    pub open spec fn full_len(&self) -> nat {
        self.length as nat + self.separator_bytes().len()
    }

    /// The length of a line with its separator.
    pub fn len(&self) -> (n: usize)
        requires
            self.full_len() <= usize::MAX,
        ensures
            n == self.full_len(),
    {
        self.length + self.separator.as_str().len()
    }
}

/// What line specs are looked up in: the spec itself, or a reference to it.
pub trait AsLineSpec {
    spec fn line_spec_view(&self) -> LineSpec;

    fn line_spec(&self) -> (r: &LineSpec)
        ensures
            *r == self.line_spec_view(),
    ;
}

impl AsLineSpec for LineSpec {
    open spec fn line_spec_view(&self) -> LineSpec {
        *self
    }

    fn line_spec(&self) -> (r: &LineSpec) {
        self
    }
}

impl<'a> AsLineSpec for &'a LineSpec {
    open spec fn line_spec_view(&self) -> LineSpec {
        **self
    }

    fn line_spec(&self) -> (r: &LineSpec) {
        *self
    }
}

/// What went wrong while reading or writing lines.
#[derive(Debug, PartialEq, Eq)]
pub enum Error {
    /// The separator read (second) was not the part of the separator that was due (first).
    StringDoesntMatchLineSeparator(Vec<u8>, Vec<u8>),
    /// The buffer (first) was longer than what was left of the line (second).
    BufferOverflowsEndOfLine(usize, usize),
    /// Reading or writing the bytes failed, or they were not text.
    Io(IoError),
}

/// The line that position `p` is in, with lines `l` bytes long (all in line 0 when `l` is 0).
pub open spec fn line_of(p: nat, l: nat) -> nat {
    if l == 0 {
        0
    } else {
        p / l
    }
}

/// The column of position `p`, with lines `l` bytes long (0 when `l` is 0).
pub open spec fn column_of(p: nat, l: nat) -> nat {
    if l == 0 {
        0
    } else {
        p % l
    }
}

/// A position in lines of a length: how far in, and which line and column that is.
#[derive(Debug, Clone, Copy, PartialEq, Eq)]
pub struct Position {
    line_length: usize,
    position: usize,
    line: usize,
    column: usize,
}

impl Position {
    /// How far in the position is.
    pub closed spec fn at(&self) -> nat {
        self.position as nat
    }

    /// The length of the lines, separator included.
    pub closed spec fn line_length_spec(&self) -> nat {
        self.line_length as nat
    }

    /// The line and the column agree with how far in the position is.
    pub closed spec fn wf(&self) -> bool {
        &&& self.line == line_of(self.position as nat, self.line_length as nat)
        &&& self.column == column_of(self.position as nat, self.line_length as nat)
    }

    pub fn new(position: usize, line_length: usize) -> (p: Self)
        ensures
            p.wf(),
            p.at() == position,
            p.line_length_spec() == line_length,
    {
        Position {
            line_length,
            position,
            line: if line_length == 0 {
                0
            } else {
                position / line_length
            },
            column: if line_length == 0 {
                0
            } else {
                position % line_length
            },
        }
    }

    /// The position `amount` further in.
    pub fn add(&self, amount: usize) -> (p: Self)
        requires
            self.at() + amount <= usize::MAX,
        ensures
            p.wf(),
            p.at() == self.at() + amount,
            p.line_length_spec() == self.line_length_spec(),
    {
        Self::new(self.position + amount, self.line_length)
    }

    pub fn get_position(&self) -> (r: usize)
        ensures
            r == self.at(),
    {
        self.position
    }

    pub fn get_line(&self) -> (r: usize)
        requires
            self.wf(),
        ensures
            r == line_of(self.at(), self.line_length_spec()),
    {
        self.line
    }

    pub fn get_column(&self) -> (r: usize)
        requires
            self.wf(),
        ensures
            r == column_of(self.at(), self.line_length_spec()),
    {
        self.column
    }

    /// Whether the position is past the last column of its line.
    pub fn is_at_end_of_line(&self) -> (r: bool)
        requires
            self.wf(),
        ensures
            r == (column_of(self.at(), self.line_length_spec()) >= self.line_length_spec()),
    {
        self.column >= self.line_length
    }
}

impl From<(usize, usize)> for Position {
    /// The position the first number in, in lines the second number long.
    fn from(tuple: (usize, usize)) -> (p: Self)
        ensures
            p.wf(),
            p.at() == tuple.0,
            p.line_length_spec() == tuple.1,
    {
        Position::new(tuple.0, tuple.1)
    }
}

impl vstd::std_specs::convert::FromSpecImpl<(usize, usize)> for Position {
    open spec fn obeys_from_spec() -> bool {
        true
    }

    closed spec fn from_spec(v: (usize, usize)) -> Self {
        Position {
            line_length: v.1,
            position: v.0,
            line: line_of(v.0 as nat, v.1 as nat) as usize,
            column: column_of(v.0 as nat, v.1 as nat) as usize,
        }
    }
}

impl From<Position> for (usize, usize) {
    /// How far in the position is, and the length of its lines.
    fn from(position: Position) -> (r: Self)
        ensures
            r.0 == position.at(),
            r.1 == position.line_length_spec(),
    {
        (position.position, position.line_length)
    }
}

impl vstd::std_specs::convert::FromSpecImpl<Position> for (usize, usize) {
    open spec fn obeys_from_spec() -> bool {
        true
    }

    closed spec fn from_spec(v: Position) -> Self {
        (v.position, v.line_length)
    }
}

/// The column of position `p` in lines of `length` data bytes followed by `sep`.
pub open spec fn col(p: nat, length: nat, sep: Seq<u8>) -> nat {
    column_of(p, length + sep.len())
}

/// How many bytes of the separator are left to pass at `p`: none in the data of a line.
pub open spec fn sep_left(p: nat, length: nat, sep: Seq<u8>) -> nat {
    if col(p, length, sep) >= length {
        (length + sep.len() - col(p, length, sep)) as nat
    } else {
        0
    }
}

/// The least of two numbers.
pub open spec fn min(a: nat, b: nat) -> nat {
    if a <= b {
        a
    } else {
        b
    }
}

/// Why reading lines failed.
pub enum ReadFailure {
    /// The bytes of a separator were not text.
    NotText,
    /// A separator (second) was not the part of the separator that was due (first).
    Mismatch(Seq<u8>, Seq<u8>),
}

/// Passing the separator at `p`, when `p` is in one, with `input` left to read: why that
/// failed, if it did, how many bytes it took from the input, and how far the position
/// moved (not at all when the bytes were not text).
pub open spec fn absorb(input: Seq<u8>, length: nat, sep: Seq<u8>, p: nat) -> (Option<ReadFailure>, nat, nat) {
    let k = sep_left(p, length, sep);
    let got = input.take(min(k, input.len()) as int);
    let due = sep.skip(sep.len() - k);
    if k == 0 {
        (None, 0, 0)
    } else if !valid_utf8(got) {
        (Some(ReadFailure::NotText), got.len(), 0)
    } else if got.len() != 0 && got != due {
        (Some(ReadFailure::Mismatch(due, got)), got.len(), got.len())
    } else {
        (None, got.len(), got.len())
    }
}

/// Reading data until `out` has `n` bytes, from `p` with `input` left: why it failed, if
/// it did, the data, how many bytes were taken from the input, and how far the position moved.
pub open spec fn read_loop(input: Seq<u8>, length: nat, sep: Seq<u8>, p: nat, n: nat, out: Seq<u8>) -> (
    Option<ReadFailure>,
    Seq<u8>,
    nat,
    nat,
)
    decreases n - out.len(),
{
    if out.len() >= n {
        (None, out, 0, 0)
    } else {
        let r: nat = if col(p, length, sep) < length {
            min((length - col(p, length, sep)) as nat, (n - out.len()) as nat)
        } else {
            0
        };
        let got = input.take(min(r, input.len()) as int);
        if got.len() == 0 {
            (None, out, 0, 0)
        } else {
            let a = absorb(input.skip(got.len() as int), length, sep, p + got.len());
            if a.0 is Some {
                (a.0, out + got, got.len() + a.1, got.len() + a.2)
            } else {
                let rest = read_loop(
                    input.skip((got.len() + a.1) as int),
                    length,
                    sep,
                    p + got.len() + a.1,
                    n,
                    out + got,
                );
                (rest.0, rest.1, got.len() + a.1 + rest.2, got.len() + a.2 + rest.3)
            }
        }
    }
}

/// Reading `n` bytes of data from `p` with `input` left: why it failed, if it did, the
/// data, how many bytes were taken from the input, and how far the position moved.
pub open spec fn read_lines(input: Seq<u8>, length: nat, sep: Seq<u8>, p: nat, n: nat) -> (
    Option<ReadFailure>,
    Seq<u8>,
    nat,
    nat,
) {
    let a = absorb(input, length, sep, p);
    if a.0 is Some {
        (a.0, Seq::empty(), a.1, a.2)
    } else {
        let rest = read_loop(input.skip(a.1 as int), length, sep, p + a.1, n, Seq::empty());
        (rest.0, rest.1, a.1 + rest.2, a.2 + rest.3)
    }
}

/// Whether `r` answers a read that failed as `f`, or, when it did not, read `n` bytes.
pub open spec fn answers_read(r: Result<usize, Error>, f: Option<ReadFailure>, n: nat) -> bool {
    match f {
        None => r matches Ok(k) && k == n,
        Some(ReadFailure::NotText) => r == Err::<usize, Error>(Error::Io(IoError::InvalidData)),
        Some(ReadFailure::Mismatch(due, got)) => r matches Err(Error::StringDoesntMatchLineSeparator(x, y)) && x@ == due
            && y@ == got,
    }
}

/// Whether `r` answers passing a separator that failed as `f`, or did not.
pub open spec fn answers_pass(r: Result<(), Error>, f: Option<ReadFailure>) -> bool {
    match f {
        None => r is Ok,
        Some(ReadFailure::NotText) => r == Err::<(), Error>(Error::Io(IoError::InvalidData)),
        Some(ReadFailure::Mismatch(due, got)) => r matches Err(Error::StringDoesntMatchLineSeparator(x, y)) && x@ == due
            && y@ == got,
    }
}

/// Reads from or writes to an inner source or destination lines of a line spec, keeping
/// track of where in the lines it is.
pub struct Handler<T, U: AsLineSpec> {
    inner: T,
    line_spec: U,
    position: Position,
}

impl<T, U: AsLineSpec> Handler<T, U> {
    pub closed spec fn inner_spec(&self) -> T {
        self.inner
    }

    pub closed spec fn line_spec_spec(&self) -> LineSpec {
        self.line_spec.line_spec_view()
    }

    pub closed spec fn position_spec(&self) -> Position {
        self.position
    }

    /// The position is one in lines of the line spec, whose length fits in a `usize`.
    pub open spec fn wf(&self) -> bool {
        &&& self.line_spec_spec().full_len() <= usize::MAX
        &&& self.position_spec().wf()
        &&& self.position_spec().line_length_spec() == self.line_spec_spec().full_len()
    }

    pub fn get_ref(&self) -> (r: &T)
        ensures
            *r == self.inner_spec(),
    {
        &self.inner
    }

    /// The inner source or destination, to change as the caller likes; the line spec and
    /// the position stay as they are.
    pub fn get_mut(&mut self) -> (r: &mut T)
        ensures
            *r == old(self).inner_spec(),
            final(self).inner_spec() == *final(r),
            final(self).line_spec_spec() == old(self).line_spec_spec(),
            final(self).position_spec() == old(self).position_spec(),
    {
        &mut self.inner
    }

    pub fn into_inner(self) -> (r: T)
        ensures
            r == self.inner_spec(),
    {
        self.inner
    }

    pub fn get_position(&self) -> (r: &Position)
        ensures
            *r == self.position_spec(),
    {
        &self.position
    }

    /// A handler that stays in the line it is in now.
    pub fn into_line_handler(self) -> (r: LineHandler<T, U>)
        requires
            self.wf(),
        ensures
            r.handler_spec() == self,
            r.line_spec() == line_of(self.position_spec().at(), self.position_spec().line_length_spec()),
    {
        let line = self.position.get_line();
        LineHandler { inner: self, line }
    }
}

/// A handler that reads and writes in one line only, and realigns to another on demand.
pub struct LineHandler<T, U: AsLineSpec> {
    inner: Handler<T, U>,
    line: usize,
}

impl<T, U: AsLineSpec> LineHandler<T, U> {
    pub closed spec fn handler_spec(&self) -> Handler<T, U> {
        self.inner
    }

    pub closed spec fn line_spec(&self) -> nat {
        self.line as nat
    }

    pub fn get_ref(&self) -> (r: &Handler<T, U>)
        ensures
            *r == self.handler_spec(),
    {
        &self.inner
    }

    /// The handler, to change as the caller likes; the line stays as it is.
    pub fn get_mut(&mut self) -> (r: &mut Handler<T, U>)
        ensures
            *r == old(self).handler_spec(),
            final(self).handler_spec() == *final(r),
            final(self).line_spec() == old(self).line_spec(),
    {
        &mut self.inner
    }

    pub fn into_inner(self) -> (r: Handler<T, U>)
        ensures
            r == self.handler_spec(),
    {
        self.inner
    }

    /// Moves to the line that the handler is in now.
    pub fn realign(&mut self)
        requires
            old(self).handler_spec().wf(),
        ensures
            final(self).handler_spec() == old(self).handler_spec(),
            final(self).line_spec() == line_of(
                old(self).handler_spec().position_spec().at(),
                old(self).handler_spec().position_spec().line_length_spec(),
            ),
    {
        self.line = self.inner.position.get_line();
    }
}

/// Whether a handler read from `before` to `after`, taking `taken` bytes from the inner
/// reader and moving its position `moved` bytes on.
pub open spec fn read_moved<U: AsLineSpec>(before: Handler<ByteReader, U>, after: Handler<ByteReader, U>, taken: nat, moved: nat) -> bool {
    &&& after.wf()
    &&& after.line_spec_spec() == before.line_spec_spec()
    &&& after.inner_spec().contents() == before.inner_spec().contents()
    &&& after.inner_spec().pos() == before.inner_spec().pos() + taken
    &&& after.position_spec().at() == before.position_spec().at() + moved
}

impl<U: AsLineSpec> Handler<ByteReader, U> {
    /// The data bytes of the line spec, and the bytes of its separator.
    pub open spec fn spec_parts(&self) -> (nat, Seq<u8>) {
        (self.line_spec_spec().length as nat, self.line_spec_spec().separator_bytes())
    }

    /// Reads up to `amount` bytes of data onto the end of `buf`, passing the separators, and
    /// says how many it read; it reads fewer only where the inner reader runs out.
    #[verifier::rlimit(60)]
    pub fn read(&mut self, amount: usize, buf: &mut Vec<u8>) -> (r: Result<usize, Error>)
        requires
            old(self).wf(),
            old(self).position_spec().at() + old(self).inner_spec().rest().len() <= usize::MAX,
        ensures
            ({
                let x = read_lines(
                    old(self).inner_spec().rest(),
                    old(self).spec_parts().0,
                    old(self).spec_parts().1,
                    old(self).position_spec().at(),
                    amount as nat,
                );
                &&& read_moved(*old(self), *final(self), x.2, x.3)
                &&& final(buf)@ == old(buf)@ + x.1
                &&& answers_read(r, x.0, x.1.len())
            }),
    {
        let ghost length = self.spec_parts().0;
        let ghost sep = self.spec_parts().1;
        let ghost start = *self;
        let ghost base = buf@;
        match self.absorb_separator() {
            Ok(()) => {},
            Err(e) => {
                return Err(e);
            },
        }
        let ghost mut out: Seq<u8> = Seq::empty();
        let ghost mut taken: nat = (self.inner.pos() - start.inner.pos()) as nat;
        let ghost mut moved: nat = (self.position.at() - start.position.at()) as nat;
        let mut total: usize = 0;
        while total < amount
            invariant
                start == *old(self),
                base == old(buf)@,
                self.wf(),
                self.spec_parts() == (length, sep),
                self.line_spec_spec() == start.line_spec_spec(),
                self.inner.contents() == start.inner.contents(),
                self.inner.pos() == start.inner.pos() + taken,
                self.position.at() == start.position.at() + moved,
                self.position.at() + self.inner.rest().len() <= usize::MAX,
                total == out.len(),
                buf@ == base + out,
                ({
                    let rl = read_loop(self.inner.rest(), length, sep, self.position.at(), amount as nat, out);
                    read_lines(start.inner.rest(), length, sep, start.position.at(), amount as nat) == (
                        rl.0,
                        rl.1,
                        taken + rl.2,
                        moved + rl.3,
                    )
                }),
            decreases amount - total,
        {
            let spec = self.line_spec.line_spec();
            let column = self.position.get_column();
            let wanted = if column < spec.length {
                let left = spec.length - column;
                if left <= amount - total {
                    left
                } else {
                    amount - total
                }
            } else {
                0
            };
            let ghost rest = self.inner.rest();
            let count = self.inner.read_up_to(wanted, buf);
            if count == 0 {
                proof {
                    assert(rest.take(0) =~= Seq::<u8>::empty());
                    assert(read_loop(rest, length, sep, self.position.at(), amount as nat, out) == (None::<ReadFailure>, out, 0nat, 0nat));
                    assert(buf@ =~= base + out);
                }
                return Ok(total);
            }
            proof {
                assert(self.inner.rest() =~= rest.skip(count as int));
                out = out + rest.take(count as int);
                assert(buf@ =~= base + out);
            }
            total = total + count;
            self.position = self.position.add(count);
            let ghost middle = *self;
            let passed = self.absorb_separator();
            proof {
                let a = absorb(middle.inner.rest(), length, sep, middle.position.at());
                assert(rest.skip(count as int).skip(a.1 as int) =~= rest.skip(count + a.1));
                taken = (taken + count + a.1) as nat;
                moved = (moved + count + a.2) as nat;
            }
            match passed {
                Ok(()) => {},
                Err(e) => {
                    return Err(e);
                },
            }
        }
        Ok(total)
    }

    /// Reads all the data that is left onto the end of `buf`.
    pub fn read_to_end(&mut self, buf: &mut Vec<u8>) -> (r: Result<usize, Error>)
        requires
            old(self).wf(),
            old(self).position_spec().at() + old(self).inner_spec().rest().len() <= usize::MAX,
        ensures
            ({
                let x = read_lines(
                    old(self).inner_spec().rest(),
                    old(self).spec_parts().0,
                    old(self).spec_parts().1,
                    old(self).position_spec().at(),
                    old(self).inner_spec().rest().len(),
                );
                &&& read_moved(*old(self), *final(self), x.2, x.3)
                &&& final(buf)@ == old(buf)@ + x.1
                &&& answers_read(r, x.0, x.1.len())
            }),
    {
        let n = self.inner.remaining().len();
        self.read(n, buf)
    }

    /// Reads all the data that is left onto the end of `buf`, which it must be text; on
    /// failure `buf` is left as it was.
    pub fn read_to_string(&mut self, buf: &mut String) -> (r: Result<usize, Error>)
        requires
            old(self).wf(),
            old(self).position_spec().at() + old(self).inner_spec().rest().len() <= usize::MAX,
        ensures
            ({
                let x = read_lines(
                    old(self).inner_spec().rest(),
                    old(self).spec_parts().0,
                    old(self).spec_parts().1,
                    old(self).position_spec().at(),
                    old(self).inner_spec().rest().len(),
                );
                &&& read_moved(*old(self), *final(self), x.2, x.3)
                &&& x.0 is Some ==> answers_read(r, x.0, x.1.len()) && final(buf)@ == old(buf)@
                &&& (x.0 is None && valid_utf8(x.1)) ==> r == Ok::<usize, Error>(x.1.len() as usize) && final(buf)@
                    == old(buf)@ + decode_utf8(x.1)
                &&& (x.0 is None && !valid_utf8(x.1)) ==> r == Err::<usize, Error>(Error::Io(IoError::InvalidData))
                    && final(buf)@ == old(buf)@
            }),
    {
        let mut bytes: Vec<u8> = Vec::new();
        let n = match self.read_to_end(&mut bytes) {
            Ok(n) => n,
            Err(e) => {
                return Err(e);
            },
        };
        assert(bytes@ =~= Seq::<u8>::empty() + bytes@);
        match crate::data_type::string_from_utf8(bytes) {
            Ok(text) => {
                buf.append(text.as_str());
                Ok(n)
            },
            Err(_) => Err(Error::Io(IoError::InvalidData)),
        }
    }

    /// Moves the inner reader to `position`, which may lie past its end, and the handler
    /// with it; says where that is.
    pub fn seek(&mut self, position: usize) -> (r: usize)
        requires
            old(self).wf(),
        ensures
            final(self).wf(),
            final(self).line_spec_spec() == old(self).line_spec_spec(),
            final(self).inner_spec().contents() == old(self).inner_spec().contents(),
            r == position,
            final(self).inner_spec().pos() == r,
            final(self).position_spec().at() == r,
    {
        self.inner.set_position(position);
        let at = self.inner.position();
        let line_length = self.line_spec.line_spec().len();
        self.position = Position::new(at, line_length);
        at
    }

    fn absorb_separator(&mut self) -> (r: Result<(), Error>)
        requires
            old(self).wf(),
            old(self).position_spec().at() + old(self).inner_spec().rest().len() <= usize::MAX,
        ensures
            ({
                let a = absorb(
                    old(self).inner_spec().rest(),
                    old(self).spec_parts().0,
                    old(self).spec_parts().1,
                    old(self).position_spec().at(),
                );
                &&& read_moved(*old(self), *final(self), a.1, a.2)
                &&& final(self).inner_spec().rest() == old(self).inner_spec().rest().skip(a.1 as int)
                &&& answers_pass(r, a.0)
            }),
    {
        let spec = self.line_spec.line_spec();
        let column = self.position.get_column();
        if column >= spec.length {
            let separator = spec.separator.as_str().as_bytes();
            let k = separator.len() - (column - spec.length);
            let mut got: Vec<u8> = Vec::new();
            let ghost rest = self.inner.rest();
            let count = self.inner.read_up_to(k, &mut got);
            assert(self.inner.rest() =~= rest.skip(count as int));
            if crate::data_type::str_from_utf8(got.as_slice()).is_none() {
                return Err(Error::Io(IoError::InvalidData));
            }
            self.position = self.position.add(count);
            let due = vstd::slice::slice_subrange(separator, separator.len() - k, separator.len());
            assert(due@ =~= separator@.skip(separator@.len() - k));
            if count != 0 && !crate::padding::bytes_equal(got.as_slice(), due) {
                return Err(Error::StringDoesntMatchLineSeparator(vstd::slice::slice_to_vec(due), got));
            }
        } else {
            assert(self.inner.rest().skip(0) =~= self.inner.rest());
        }
        Ok(())
    }
}

/// How much of `amount` bytes a line handler for line `line` may read or write from `p`:
/// none outside that line or past its data, else up to the end of the data of the line.
pub open spec fn line_allowance(p: nat, length: nat, sep: Seq<u8>, line: nat, amount: nat) -> Option<nat> {
    if amount > 0 && (col(p, length, sep) >= length || line_of(p, length + sep.len()) != line) {
        None
    } else if col(p, length, sep) >= length {
        Some(0)
    } else {
        Some(min((length - col(p, length, sep)) as nat, amount))
    }
}

impl<U: AsLineSpec> LineHandler<ByteReader, U> {
    /// Reads up to `amount` bytes of data of its line onto the end of `buf`.
    pub fn read(&mut self, amount: usize, buf: &mut Vec<u8>) -> (r: Result<usize, Error>)
        requires
            old(self).handler_spec().wf(),
            old(self).handler_spec().position_spec().at() + old(self).handler_spec().inner_spec().rest().len()
                <= usize::MAX,
        ensures
            final(self).line_spec() == old(self).line_spec(),
            ({
                let h = old(self).handler_spec();
                match line_allowance(
                    h.position_spec().at(),
                    h.spec_parts().0,
                    h.spec_parts().1,
                    old(self).line_spec(),
                    amount as nat,
                ) {
                    None => r == Ok::<usize, Error>(0) && *final(self) == *old(self) && final(buf)@ == old(buf)@,
                    Some(n) => {
                        let x = read_lines(h.inner_spec().rest(), h.spec_parts().0, h.spec_parts().1, h.position_spec().at(), n);
                        &&& read_moved(h, final(self).handler_spec(), x.2, x.3)
                        &&& final(buf)@ == old(buf)@ + x.1
                        &&& answers_read(r, x.0, x.1.len())
                    },
                }
            }),
    {
        let spec = self.inner.line_spec.line_spec();
        let column = self.inner.position.get_column();
        let line = self.inner.position.get_line();
        if amount > 0 && (column >= spec.length || line != self.line) {
            return Ok(0);
        }
        let n = if column >= spec.length {
            0
        } else if spec.length - column <= amount {
            spec.length - column
        } else {
            amount
        };
        self.inner.read(n, buf)
    }

    /// Reads exactly `amount` bytes of data of its line onto the end of `buf`, or fails.
    pub fn read_exact(&mut self, amount: usize, buf: &mut Vec<u8>) -> (r: Result<(), Error>)
        requires
            old(self).handler_spec().wf(),
            old(self).handler_spec().position_spec().at() + old(self).handler_spec().inner_spec().rest().len()
                <= usize::MAX,
        ensures
            final(self).line_spec() == old(self).line_spec(),
            ({
                let h = old(self).handler_spec();
                match line_allowance(
                    h.position_spec().at(),
                    h.spec_parts().0,
                    h.spec_parts().1,
                    old(self).line_spec(),
                    amount as nat,
                ) {
                    None => r == Err::<(), Error>(Error::Io(IoError::UnexpectedEof)) && *final(self) == *old(self)
                        && final(buf)@ == old(buf)@,
                    Some(n) => {
                        let x = read_lines(h.inner_spec().rest(), h.spec_parts().0, h.spec_parts().1, h.position_spec().at(), n);
                        &&& read_moved(h, final(self).handler_spec(), x.2, x.3)
                        &&& final(buf)@ == old(buf)@ + x.1
                        &&& match x.0 {
                            Some(f) => answers_pass(r, Some(f)),
                            None => if x.1.len() == amount {
                                r is Ok
                            } else {
                                r == Err::<(), Error>(Error::Io(IoError::UnexpectedEof))
                            },
                        }
                    },
                }
            }),
    {
        match self.read(amount, buf) {
            Ok(n) => if n == amount {
                Ok(())
            } else {
                Err(Error::Io(IoError::UnexpectedEof))
            },
            Err(e) => Err(e),
        }
    }
}

/// The bytes of the separator that are written at `p` with room for `room` bytes.
pub open spec fn sep_emit(length: nat, sep: Seq<u8>, p: nat, room: nat) -> Seq<u8> {
    let k = sep_left(p, length, sep);
    sep.skip(sep.len() - k).take(min(k, room) as int)
}

/// `data` laid out in lines from column `c` of a line: each line of `length` data bytes
/// followed by `sep`, and the last line, when the data ends inside it, without one.
pub open spec fn lines_of(data: Seq<u8>, length: nat, sep: Seq<u8>, c: nat) -> Seq<u8>
    decreases data.len(),
{
    if data.len() == 0 || c >= length {
        data
    } else if data.len() < length - c {
        data
    } else {
        data.take(length - c) + sep + lines_of(data.skip(length - c), length, sep, 0)
    }
}

/// Writing `data` from byte `total` on, at `p` with room for `room` bytes, after `emitted`:
/// all the bytes emitted, how many bytes of the data were written, and where it ends.
pub open spec fn write_loop(
    length: nat,
    sep: Seq<u8>,
    p: nat,
    data: Seq<u8>,
    total: nat,
    room: nat,
    emitted: Seq<u8>,
) -> (Seq<u8>, nat, nat)
    decreases data.len() - total,
{
    if total >= data.len() {
        (emitted, total, p)
    } else {
        let r: nat = if col(p, length, sep) < length {
            min((length - col(p, length, sep)) as nat, (data.len() - total) as nat)
        } else {
            0
        };
        let count = min(r, room);
        if count == 0 {
            (emitted, total, p)
        } else {
            let chunk = data.subrange(total as int, (total + count) as int);
            let s = sep_emit(length, sep, p + count, (room - count) as nat);
            write_loop(
                length,
                sep,
                p + count + s.len(),
                data,
                total + count,
                (room - count - s.len()) as nat,
                emitted + chunk + s,
            )
        }
    }
}

proof fn lemma_write_loop_total(
    length: nat,
    sep: Seq<u8>,
    p: nat,
    data: Seq<u8>,
    total: nat,
    room: nat,
    emitted: Seq<u8>,
)
    requires
        total <= data.len(),
    ensures
        write_loop(length, sep, p, data, total, room, emitted).1 <= data.len(),
    decreases data.len() - total,
{
    if total < data.len() {
        let r: nat = if col(p, length, sep) < length {
            min((length - col(p, length, sep)) as nat, (data.len() - total) as nat)
        } else {
            0
        };
        let count = min(r, room);
        if count != 0 {
            let chunk = data.subrange(total as int, (total + count) as int);
            let s = sep_emit(length, sep, p + count, (room - count) as nat);
            lemma_write_loop_total(
                length,
                sep,
                p + count + s.len(),
                data,
                total + count,
                (room - count - s.len()) as nat,
                emitted + chunk + s,
            );
        }
    }
}

/// Writing `data` at `p` with room for `room` bytes: all the bytes emitted, separators
/// included, how many bytes of the data were written, and where it ends.
pub open spec fn write_lines(length: nat, sep: Seq<u8>, p: nat, data: Seq<u8>, room: nat) -> (Seq<u8>, nat, nat) {
    let s = sep_emit(length, sep, p, room);
    write_loop(length, sep, p + s.len(), data, 0, (room - s.len()) as nat, s)
}

/// Whether a handler wrote `emitted` from `before` to `after`.
pub open spec fn wrote_lines<U: AsLineSpec>(before: Handler<ByteWriter, U>, after: Handler<ByteWriter, U>, emitted: Seq<u8>) -> bool {
    &&& after.wf()
    &&& after.line_spec_spec() == before.line_spec_spec()
    &&& after.inner_spec().contents() == overwritten(
        before.inner_spec().contents(),
        before.inner_spec().pos() as int,
        emitted,
    )
    &&& after.inner_spec().pos() == before.inner_spec().pos() + emitted.len()
    &&& after.inner_spec().is_fixed() == before.inner_spec().is_fixed()
    &&& after.position_spec().at() == before.position_spec().at() + emitted.len()
}

impl<U: AsLineSpec> Handler<ByteWriter, U> {
    /// The data bytes of the line spec, and the bytes of its separator.
    pub open spec fn spec_parts(&self) -> (nat, Seq<u8>) {
        (self.line_spec_spec().length as nat, self.line_spec_spec().separator_bytes())
    }

    fn write_separator(&mut self)
        requires
            old(self).wf(),
            old(self).position_spec().at() + old(self).inner_spec().room() <= usize::MAX,
        ensures
            wrote_lines(
                *old(self),
                *final(self),
                sep_emit(
                    old(self).spec_parts().0,
                    old(self).spec_parts().1,
                    old(self).position_spec().at(),
                    old(self).inner_spec().room(),
                ),
            ),
            final(self).inner_spec().room() == old(self).inner_spec().room() - sep_emit(
                old(self).spec_parts().0,
                old(self).spec_parts().1,
                old(self).position_spec().at(),
                old(self).inner_spec().room(),
            ).len(),
    {
        let _ = self.inner.position();
        let ghost before = self.inner;
        let spec = self.line_spec.line_spec();
        let column = self.position.get_column();
        if column >= spec.length {
            let separator = spec.separator.as_str().as_bytes();
            let k = separator.len() - (column - spec.length);
            let due = vstd::slice::slice_subrange(separator, separator.len() - k, separator.len());
            assert(due@ =~= separator@.skip(separator@.len() - k));
            let count = self.inner.write(due);
            let _ = self.inner.position();
            proof {
                assert(due@.take(count as int) == sep_emit(
                    spec.length as nat,
                    separator@,
                    self.position.at(),
                    before.room(),
                ));
                lemma_room_after_write(before, self.inner, due@.take(count as int));
            }
            self.position = self.position.add(count);
        } else {
            assert(overwritten(before.contents(), before.pos() as int, Seq::<u8>::empty()) =~= before.contents());
        }
    }

    /// Writes `buf` as data, putting the separators in at the end of each line, as far as
    /// the inner destination has room; says how many bytes of `buf` it wrote.
    #[verifier::rlimit(60)]
    pub fn write(&mut self, buf: &[u8]) -> (r: Result<usize, Error>)
        requires
            old(self).wf(),
            old(self).position_spec().at() + old(self).inner_spec().room() <= usize::MAX,
        ensures
            ({
                let x = write_lines(
                    old(self).spec_parts().0,
                    old(self).spec_parts().1,
                    old(self).position_spec().at(),
                    buf@,
                    old(self).inner_spec().room(),
                );
                &&& wrote_lines(*old(self), *final(self), x.0)
                &&& r == Ok::<usize, Error>(x.1 as usize)
            }),
    {
        let ghost length = self.spec_parts().0;
        let ghost sep = self.spec_parts().1;
        let ghost start = *self;
        let _ = self.inner.position();
        self.write_separator();
        let ghost mut emitted = sep_emit(length, sep, start.position.at(), start.inner.room());
        let mut total: usize = 0;
        while total < buf.len()
            invariant
                start == *old(self),
                self.wf(),
                self.spec_parts() == (length, sep),
                self.line_spec_spec() == start.line_spec_spec(),
                self.inner.is_fixed() == start.inner.is_fixed(),
                self.inner.contents() == overwritten(start.inner.contents(), start.inner.pos() as int, emitted),
                self.inner.pos() == start.inner.pos() + emitted.len(),
                emitted.len() <= start.inner.room(),
                self.inner.room() == start.inner.room() - emitted.len(),
                self.position.at() == start.position.at() + emitted.len(),
                start.position.at() + start.inner.room() <= usize::MAX,
                total <= buf@.len(),
                write_lines(length, sep, start.position.at(), buf@, start.inner.room()) == write_loop(
                    length,
                    sep,
                    self.position.at(),
                    buf@,
                    total as nat,
                    self.inner.room(),
                    emitted,
                ),
            decreases buf.len() - total,
        {
            let spec = self.line_spec.line_spec();
            let column = self.position.get_column();
            let wanted = if column < spec.length {
                let left = spec.length - column;
                if left <= buf.len() - total {
                    left
                } else {
                    buf.len() - total
                }
            } else {
                0
            };
            let ghost before = self.inner;
            let _ = self.inner.position();
            let chunk = vstd::slice::slice_subrange(buf, total, total + wanted);
            let count = self.inner.write(chunk);
            if count == 0 {
                proof {
                    assert(chunk@.take(0) =~= Seq::<u8>::empty());
                    assert(overwritten(before.contents(), before.pos() as int, Seq::<u8>::empty()) =~= before.contents());
                }
                return Ok(total);
            }
            let _ = self.inner.position();
            proof {
                lemma_overwritten_append(
                    start.inner.contents(),
                    start.inner.pos() as int,
                    emitted,
                    chunk@.take(count as int),
                );
                lemma_room_after_write(before, self.inner, chunk@.take(count as int));
                assert(chunk@.take(count as int) =~= buf@.subrange(total as int, total + count));
                emitted = emitted + chunk@.take(count as int);
            }
            total = total + count;
            self.position = self.position.add(count);
            let ghost middle = self.inner;
            self.write_separator();
            proof {
                lemma_overwritten_append(
                    start.inner.contents(),
                    start.inner.pos() as int,
                    emitted,
                    sep_emit(length, sep, start.position.at() + emitted.len(), middle.room()),
                );
                emitted = emitted + sep_emit(length, sep, start.position.at() + emitted.len(), middle.room());
            }
        }
        Ok(total)
    }

    /// Writes all of `buf` as data, or fails where the inner destination runs out of room.
    pub fn write_all(&mut self, buf: &[u8]) -> (r: Result<(), Error>)
        requires
            old(self).wf(),
            old(self).position_spec().at() + old(self).inner_spec().room() <= usize::MAX,
        ensures
            ({
                let x = write_lines(
                    old(self).spec_parts().0,
                    old(self).spec_parts().1,
                    old(self).position_spec().at(),
                    buf@,
                    old(self).inner_spec().room(),
                );
                &&& wrote_lines(*old(self), *final(self), x.0)
                &&& x.1 == buf@.len() ==> r is Ok
                &&& x.1 != buf@.len() ==> r == Err::<(), Error>(Error::Io(IoError::WriteZero))
            }),
    {
        let ghost s = sep_emit(self.spec_parts().0, self.spec_parts().1, self.position_spec().at(), self.inner_spec().room());
        proof {
            lemma_write_loop_total(
                self.spec_parts().0,
                self.spec_parts().1,
                self.position_spec().at() + s.len(),
                buf@,
                0,
                (self.inner_spec().room() - s.len()) as nat,
                s,
            );
        }
        match self.write(buf) {
            Ok(n) => if n < buf.len() {
                Err(Error::Io(IoError::WriteZero))
            } else {
                Ok(())
            },
            Err(e) => Err(e),
        }
    }

    /// Nothing is held back, so there is nothing to flush.
    pub fn flush(&mut self) -> (r: Result<(), Error>)
        ensures
            r is Ok,
            *final(self) == *old(self),
    {
        Ok(())
    }

    /// Moves the inner destination to `position`, which may lie past its end, and the
    /// handler with it; says where that is.
    pub fn seek(&mut self, position: usize) -> (r: usize)
        requires
            old(self).wf(),
        ensures
            final(self).wf(),
            final(self).line_spec_spec() == old(self).line_spec_spec(),
            final(self).inner_spec().contents() == old(self).inner_spec().contents(),
            final(self).inner_spec().is_fixed() == old(self).inner_spec().is_fixed(),
            r == position,
            final(self).inner_spec().pos() == r,
            final(self).position_spec().at() == r,
    {
        self.inner.set_position(position);
        let at = self.inner.position();
        let line_length = self.line_spec.line_spec().len();
        self.position = Position::new(at, line_length);
        at
    }
}

impl<U: AsLineSpec> LineHandler<ByteWriter, U> {
    /// Writes up to what is left of the data of its line of `buf`.
    pub fn write(&mut self, buf: &[u8]) -> (r: Result<usize, Error>)
        requires
            old(self).handler_spec().wf(),
            old(self).handler_spec().position_spec().at() + old(self).handler_spec().inner_spec().room() <= usize::MAX,
        ensures
            final(self).line_spec() == old(self).line_spec(),
            ({
                let h = old(self).handler_spec();
                match line_allowance(
                    h.position_spec().at(),
                    h.spec_parts().0,
                    h.spec_parts().1,
                    old(self).line_spec(),
                    buf@.len(),
                ) {
                    None => r == Ok::<usize, Error>(0) && *final(self) == *old(self),
                    Some(n) => {
                        let x = write_lines(
                            h.spec_parts().0,
                            h.spec_parts().1,
                            h.position_spec().at(),
                            buf@.take(n as int),
                            h.inner_spec().room(),
                        );
                        &&& wrote_lines(h, final(self).handler_spec(), x.0)
                        &&& r == Ok::<usize, Error>(x.1 as usize)
                    },
                }
            }),
    {
        let spec = self.inner.line_spec.line_spec();
        let column = self.inner.position.get_column();
        let line = self.inner.position.get_line();
        if buf.len() > 0 && (column >= spec.length || line != self.line) {
            return Ok(0);
        }
        let n = if column >= spec.length {
            0
        } else if spec.length - column <= buf.len() {
            spec.length - column
        } else {
            buf.len()
        };
        let part = vstd::slice::slice_subrange(buf, 0, n);
        assert(part@ =~= buf@.take(n as int));
        self.inner.write(part)
    }

    /// Writes all of `buf` in its line, or fails where the line or the room runs out.
    #[verifier::rlimit(30)]
    pub fn write_all(&mut self, buf: &[u8]) -> (r: Result<(), Error>)
        requires
            old(self).handler_spec().wf(),
            old(self).handler_spec().position_spec().at() + old(self).handler_spec().inner_spec().room() <= usize::MAX,
        ensures
            final(self).line_spec() == old(self).line_spec(),
            ({
                let h = old(self).handler_spec();
                match line_allowance(
                    h.position_spec().at(),
                    h.spec_parts().0,
                    h.spec_parts().1,
                    old(self).line_spec(),
                    buf@.len(),
                ) {
                    None => r == Err::<(), Error>(Error::Io(IoError::WriteZero)) && *final(self) == *old(self),
                    Some(n) => {
                        let x = write_lines(
                            h.spec_parts().0,
                            h.spec_parts().1,
                            h.position_spec().at(),
                            buf@.take(n as int),
                            h.inner_spec().room(),
                        );
                        &&& wrote_lines(h, final(self).handler_spec(), x.0)
                        &&& x.1 == buf@.len() ==> r is Ok
                        &&& x.1 != buf@.len() ==> r == Err::<(), Error>(Error::Io(IoError::WriteZero))
                    },
                }
            }),
    {
        let ghost h = self.inner;
        let ghost s = sep_emit(h.spec_parts().0, h.spec_parts().1, h.position_spec().at(), h.inner_spec().room());
        proof {
            match line_allowance(h.position_spec().at(), h.spec_parts().0, h.spec_parts().1, self.line as nat, buf@.len()) {
                Some(n) => {
                    lemma_write_loop_total(
                        h.spec_parts().0,
                        h.spec_parts().1,
                        h.position_spec().at() + s.len(),
                        buf@.take(n as int),
                        0,
                        (h.inner_spec().room() - s.len()) as nat,
                        s,
                    );
                },
                None => {},
            }
        }
        match self.write(buf) {
            Ok(n) => if n < buf.len() {
                Err(Error::Io(IoError::WriteZero))
            } else {
                Ok(())
            },
            Err(e) => Err(e),
        }
    }
}

/// Builds a handler out of an inner source or destination and a line spec, starting at the
/// start of the lines unless a position is given.
pub struct HandlerBuilder<T, U: AsLineSpec> {
    inner: Option<T>,
    line_spec: Option<U>,
    position: Option<Position>,
}

impl HandlerBuilder<(), LineSpec> {
    pub fn new() -> (b: Self)
        ensures
            b.inner_spec() is None,
            b.line_spec_spec() is None,
            b.position_spec() is None,
    {
        HandlerBuilder { inner: None, line_spec: None, position: None }
    }
}

impl<T, U: AsLineSpec> HandlerBuilder<T, U> {
    pub closed spec fn inner_spec(&self) -> Option<T> {
        self.inner
    }

    pub closed spec fn line_spec_spec(&self) -> Option<LineSpec> {
        match self.line_spec {
            Some(l) => Some(l.line_spec_view()),
            None => None,
        }
    }

    pub closed spec fn position_spec(&self) -> Option<Position> {
        self.position
    }

    pub fn with_inner<V>(self, inner: V) -> (b: HandlerBuilder<V, U>)
        ensures
            b.inner_spec() == Some(inner),
            b.line_spec_spec() == self.line_spec_spec(),
            b.position_spec() == self.position_spec(),
    {
        HandlerBuilder { inner: Some(inner), line_spec: self.line_spec, position: self.position }
    }

    pub fn with_line_spec<V: AsLineSpec>(self, line_spec: V) -> (b: HandlerBuilder<T, V>)
        ensures
            b.inner_spec() == self.inner_spec(),
            b.line_spec_spec() == Some(line_spec.line_spec_view()),
            b.position_spec() == self.position_spec(),
    {
        HandlerBuilder { inner: self.inner, line_spec: Some(line_spec), position: self.position }
    }

    pub fn with_position(self, position: Position) -> (b: Self)
        ensures
            b.inner_spec() == self.inner_spec(),
            b.line_spec_spec() == self.line_spec_spec(),
            b.position_spec() == Some(position),
    {
        HandlerBuilder { inner: self.inner, line_spec: self.line_spec, position: Some(position) }
    }

    /// The handler, once the inner part and a line spec whose lines fit in a `usize` are
    /// given, at the position given, or else at the start of the first line. Reading and
    /// writing need a position in lines of that spec: the handler is well formed when it
    /// starts at the start, or at such a position.
    pub fn build(self) -> (h: Handler<T, U>)
        requires
            self.inner_spec() is Some,
            self.line_spec_spec() matches Some(l) && l.full_len() <= usize::MAX,
        ensures
            Some(h.inner_spec()) == self.inner_spec(),
            Some(h.line_spec_spec()) == self.line_spec_spec(),
            self.position_spec() matches Some(p) ==> h.position_spec() == p,
            self.position_spec() is None ==> h.position_spec().at() == 0 && h.wf(),
            (self.position_spec() matches Some(p) && p.wf() && p.line_length_spec()
                == h.line_spec_spec().full_len()) ==> h.wf(),
    {
        let line_spec = self.line_spec.unwrap();
        let line_length = line_spec.line_spec().len();
        let position = match self.position {
            Some(p) => p,
            None => Position::new(0, line_length),
        };
        Handler { inner: self.inner.unwrap(), line_spec, position }
    }
}

impl Error {
    /// A short description of what went wrong.
    pub fn description(&self) -> (r: &'static str)
        ensures
            match self {
                Error::StringDoesntMatchLineSeparator(_, _) => r@ == "line separator was not the one expected"@,
                Error::BufferOverflowsEndOfLine(_, _) => r@ == "the buffer given is larger than what remains until the end of the line"@,
                Error::Io(_) => r@ == "an IO error occurred while moving the bytes of a line"@,
            },
    {
        match self {
            Error::StringDoesntMatchLineSeparator(_, _) => "line separator was not the one expected",
            Error::BufferOverflowsEndOfLine(_, _) => "the buffer given is larger than what remains until the end of the line",
            Error::Io(_) => "an IO error occurred while moving the bytes of a line",
        }
    }
}

} // verus!
