//! A file of lines of a fixed width, held in memory: lines are added blank and taken off
//! the end, and text is set into and read out of ranges of columns.
use vstd::prelude::*;
use vstd::string::{StringExecFns, StringSliceAdditionalSpecFns};
use vstd::utf8::{decode_utf8, encode_utf8, valid_utf8};
use core::ops::Range;

verus! {

broadcast use vstd::utf8::encode_utf8_decode_utf8, vstd::utf8::decode_utf8_encode_utf8;

/// Why a range of columns cannot be used.
#[derive(Debug, PartialEq, Eq, Clone, Copy, Structural)]
pub enum InvalidRangeError {
    /// The range starts after it ends.
    StartAfterEnd,
    /// The range ends past the end of the line.
    EndOffEndOfLine,
    /// The range cuts through a character of the line.
    SplitsCharacter,
}

/// What went wrong with a file.
#[derive(Debug, PartialEq, Eq)]
pub enum Error {
    DataLongerThanRange,
    InvalidRange(InvalidRangeError),
    InvalidIndex(usize),
}

impl From<InvalidRangeError> for Error {
    fn from(e: InvalidRangeError) -> (r: Self)
        ensures
            r == Error::InvalidRange(e),
    {
        Error::InvalidRange(e)
    }
}

impl vstd::std_specs::convert::FromSpecImpl<InvalidRangeError> for Error {
    open spec fn obeys_from_spec() -> bool {
        true
    }

    open spec fn from_spec(v: InvalidRangeError) -> Self {
        Error::InvalidRange(v)
    }
}

impl Error {
    pub fn is_invalid_index(&self) -> (r: bool)
        ensures
            r == (self is InvalidIndex),
    {
        match self {
            Error::InvalidIndex(_) => true,
            _ => false,
        }
    }

    pub fn is_invalid_range(&self) -> (r: bool)
        ensures
            r == (self is InvalidRange),
    {
        match self {
            Error::InvalidRange(_) => true,
            _ => false,
        }
    }
}

/// The range of columns of a line `width` wide: where it starts and ends, or why it
/// cannot be used.
pub open spec fn range_check(start: nat, end: nat, width: nat) -> Result<(nat, nat), InvalidRangeError> {
    if end > width {
        Err(InvalidRangeError::EndOffEndOfLine)
    } else if start > end {
        Err(InvalidRangeError::StartAfterEnd)
    } else {
        Ok((start, end))
    }
}

/// Where `range` starts and ends, when it lies within a line `width` wide.
pub fn validate_range(range: Range<usize>, width: usize) -> (r: Result<(usize, usize), InvalidRangeError>)
    ensures
        match range_check(range.start as nat, range.end as nat, width as nat) {
            Ok((s, e)) => r == Ok::<(usize, usize), InvalidRangeError>((s as usize, e as usize)),
            Err(e) => r == Err::<(usize, usize), InvalidRangeError>(e),
        },
{
    if range.end > width {
        Err(InvalidRangeError::EndOffEndOfLine)
    } else if range.start > range.end {
        Err(InvalidRangeError::StartAfterEnd)
    } else {
        Ok((range.start, range.end))
    }
}

/// `n` spaces.
pub open spec fn blank(n: nat) -> Seq<u8> {
    Seq::new(n, |i: int| 32u8)
}

/// A line `b` with the bytes `s` set into it from `start` on.
pub open spec fn set_into(b: Seq<u8>, start: nat, s: Seq<u8>) -> Seq<u8> {
    b.take(start as int) + s + b.skip((start + s.len()) as int)
}

/// Lines of a fixed width, and the separator that joins them into text.
#[derive(Debug)]
pub struct File {
    width: usize,
    lines: Vec<String>,
    line_separator: String,
}

impl Clone for File {
    fn clone(&self) -> (r: Self)
        ensures
            r.width_spec() == self.width_spec(),
            r.lines_spec() == self.lines_spec(),
            r.separator_spec() == self.separator_spec(),
    {
        let mut lines: Vec<String> = Vec::new();
        let mut i: usize = 0;
        while i < self.lines.len()
            invariant
                i <= self.lines@.len(),
                lines@.len() == i,
                forall|j: int| 0 <= j < i ==> (#[trigger] lines@[j])@ == self.lines@[j]@,
            decreases self.lines@.len() - i,
        {
            lines.push(self.lines[i].clone());
            i = i + 1;
        }
        let r = File { width: self.width, lines, line_separator: self.line_separator.clone() };
        assert(r.lines_spec() =~= self.lines_spec());
        r
    }
}

impl File {
    pub closed spec fn width_spec(&self) -> nat {
        self.width as nat
    }

    /// The bytes of each line.
    pub closed spec fn lines_spec(&self) -> Seq<Seq<u8>> {
        self.lines@.map_values(|s: String| encode_utf8(s@))
    }

    pub closed spec fn separator_spec(&self) -> Seq<char> {
        self.line_separator@
    }

    /// Every line is as many bytes long as the width.
    pub open spec fn wf(&self) -> bool {
        forall|i: int| 0 <= i < self.lines_spec().len() ==> (#[trigger] self.lines_spec()[i]).len() == self.width_spec()
    }

    /// An empty file of lines `width` wide, joined by `\r\n`.
    pub fn new(width: usize) -> (f: Self)
        ensures
            f.wf(),
            f.width_spec() == width,
            f.lines_spec() == Seq::<Seq<u8>>::empty(),
            f.separator_spec() == seq!['\r', '\n'],
    {
        proof {
            reveal_strlit("\r\n");
        }
        Self::new_with_line_separator(width, "\r\n".to_string())
    }

    /// An empty file of lines `width` wide, joined by `line_separator`.
    pub fn new_with_line_separator(width: usize, line_separator: String) -> (f: Self)
        ensures
            f.wf(),
            f.width_spec() == width,
            f.lines_spec() == Seq::<Seq<u8>>::empty(),
            f.separator_spec() == line_separator@,
    {
        let f = File { width, lines: Vec::new(), line_separator };
        assert(f.lines_spec() =~= Seq::<Seq<u8>>::empty());
        f
    }

    pub fn width(&self) -> (r: usize)
        ensures
            r == self.width_spec(),
    {
        self.width
    }

    /// The number of lines.
    pub fn len(&self) -> (r: usize)
        ensures
            r == self.lines_spec().len(),
    {
        self.lines.len()
    }

    /// The text in `range` of line `index`.
    pub fn get(&self, index: usize, range: Range<usize>) -> (r: Result<String, Error>)
        requires
            self.wf(),
        ensures
            index >= self.lines_spec().len() ==> r == Err::<String, Error>(Error::InvalidIndex(index)),
            index < self.lines_spec().len() ==> match range_check(
                range.start as nat,
                range.end as nat,
                self.width_spec(),
            ) {
                Err(e) => r == Err::<String, Error>(Error::InvalidRange(e)),
                Ok((s, e)) => {
                    let part = self.lines_spec()[index as int].subrange(s as int, e as int);
                    &&& valid_utf8(part) ==> (r matches Ok(t) && t@ == decode_utf8(part))
                    &&& !valid_utf8(part) ==> r == Err::<String, Error>(
                        Error::InvalidRange(InvalidRangeError::SplitsCharacter),
                    )
                },
            },
    {
        if index >= self.lines.len() {
            return Err(Error::InvalidIndex(index));
        }
        let (start, end) = match validate_range(range, self.width) {
            Ok(r) => r,
            Err(e) => {
                return Err(Error::InvalidRange(e));
            },
        };
        let line = self.lines[index].as_str().as_bytes();
        assert(line@ == self.lines_spec()[index as int]);
        let part = vstd::slice::slice_subrange(line, start, end);
        match crate::data_type::str_from_utf8(part) {
            Some(text) => Ok(text.to_owned()),
            None => Err(Error::InvalidRange(InvalidRangeError::SplitsCharacter)),
        }
    }

    /// Sets `string` into line `index` from column `column` on.
    pub fn set(&mut self, index: usize, column: usize, string: &String) -> (r: Result<(), Error>)
        requires
            old(self).wf(),
        ensures
            final(self).wf(),
            final(self).width_spec() == old(self).width_spec(),
            final(self).separator_spec() == old(self).separator_spec(),
            index >= old(self).lines_spec().len() ==> r == Err::<(), Error>(Error::InvalidIndex(index))
                && final(self).lines_spec() == old(self).lines_spec(),
            index < old(self).lines_spec().len() ==> ({
                let s = encode_utf8(string@);
                let b = old(self).lines_spec()[index as int];
                if column + s.len() > old(self).width_spec() {
                    r == Err::<(), Error>(Error::InvalidRange(InvalidRangeError::EndOffEndOfLine))
                        && final(self).lines_spec() == old(self).lines_spec()
                } else if !valid_utf8(set_into(b, column as nat, s)) {
                    r == Err::<(), Error>(Error::InvalidRange(InvalidRangeError::SplitsCharacter))
                        && final(self).lines_spec() == old(self).lines_spec()
                } else {
                    r is Ok && final(self).lines_spec() == old(self).lines_spec().update(
                        index as int,
                        set_into(b, column as nat, s),
                    )
                }
            }),
    {
        if index >= self.lines.len() {
            return Err(Error::InvalidIndex(index));
        }
        let data = string.as_str().as_bytes();
        if column > self.width || data.len() > self.width - column {
            return Err(Error::InvalidRange(InvalidRangeError::EndOffEndOfLine));
        }
        let end = column + data.len();
        let line = self.lines[index].as_str().as_bytes();
        assert(line@ == self.lines_spec()[index as int]);
        let mut bytes: Vec<u8> = Vec::new();
        crate::padding::extend_from_range(&mut bytes, line, 0, column);
        crate::padding::extend_from_range(&mut bytes, data, 0, data.len());
        crate::padding::extend_from_range(&mut bytes, line, end, line.len());
        assert(bytes@ =~= set_into(line@, column as nat, data@));
        match crate::data_type::string_from_utf8(bytes) {
            Ok(text) => {
                let ghost before = self.lines_spec();
                self.lines.set(index, text);
                assert(self.lines_spec() =~= before.update(index as int, set_into(line@, column as nat, data@)));
                Ok(())
            },
            Err(_) => Err(Error::InvalidRange(InvalidRangeError::SplitsCharacter)),
        }
    }

    /// Blanks out `range` of line `index`.
    pub fn clear(&mut self, index: usize, range: Range<usize>) -> (r: Result<(), Error>)
        requires
            old(self).wf(),
        ensures
            final(self).wf(),
            final(self).width_spec() == old(self).width_spec(),
            final(self).separator_spec() == old(self).separator_spec(),
            match range_check(range.start as nat, range.end as nat, old(self).width_spec()) {
                Err(e) => r == Err::<(), Error>(Error::InvalidRange(e)) && final(self).lines_spec()
                    == old(self).lines_spec(),
                Ok((s, e)) => if index >= old(self).lines_spec().len() {
                    r == Err::<(), Error>(Error::InvalidIndex(index)) && final(self).lines_spec()
                        == old(self).lines_spec()
                } else {
                    let b = old(self).lines_spec()[index as int];
                    if !valid_utf8(set_into(b, s, blank((e - s) as nat))) {
                        r == Err::<(), Error>(Error::InvalidRange(InvalidRangeError::SplitsCharacter))
                            && final(self).lines_spec() == old(self).lines_spec()
                    } else {
                        r is Ok && final(self).lines_spec() == old(self).lines_spec().update(
                            index as int,
                            set_into(b, s, blank((e - s) as nat)),
                        )
                    }
                },
            },
    {
        let (start, end) = match validate_range(range, self.width) {
            Ok(r) => r,
            Err(e) => {
                return Err(Error::InvalidRange(e));
            },
        };
        let spaces = blank_string(end - start);
        self.set(index, start, &spaces)
    }

    /// Adds a blank line at the end, and says where it is.
    pub fn add_line(&mut self) -> (r: Result<usize, Error>)
        requires
            old(self).wf(),
        ensures
            final(self).wf(),
            final(self).width_spec() == old(self).width_spec(),
            final(self).separator_spec() == old(self).separator_spec(),
            final(self).lines_spec() == old(self).lines_spec().push(blank(old(self).width_spec())),
            r == Ok::<usize, Error>(old(self).lines_spec().len() as usize),
    {
        let line = blank_string(self.width);
        let ghost before = self.lines_spec();
        self.lines.push(line);
        assert(self.lines_spec() =~= before.push(blank(self.width as nat)));
        Ok(self.lines.len() - 1)
    }

    /// Takes the last line off, if there is one, and says how many are left.
    pub fn remove_line(&mut self) -> (r: Result<usize, Error>)
        requires
            old(self).wf(),
        ensures
            final(self).wf(),
            final(self).width_spec() == old(self).width_spec(),
            final(self).separator_spec() == old(self).separator_spec(),
            final(self).lines_spec() == if old(self).lines_spec().len() == 0 {
                old(self).lines_spec()
            } else {
                old(self).lines_spec().drop_last()
            },
            r == Ok::<usize, Error>(final(self).lines_spec().len() as usize),
    {
        let ghost before = self.lines_spec();
        let _ = self.lines.pop();
        assert(self.lines_spec() =~= if before.len() == 0 {
            before
        } else {
            before.drop_last()
        });
        Ok(self.lines.len())
    }

    /// The lines joined by the separator.
    pub fn to_string(&self) -> (r: String)
        ensures
            encode_utf8(r@) == joined(self.lines_spec(), encode_utf8(self.separator_spec())),
    {
        let mut text = String::new();
        let mut i: usize = 0;
        let ghost views = self.lines_spec();
        let ghost sep = encode_utf8(self.line_separator@);
        assert(encode_utf8(text@) =~= joined(views.take(0), sep));
        while i < self.lines.len()
            invariant
                i <= self.lines@.len(),
                views == self.lines_spec(),
                sep == encode_utf8(self.line_separator@),
                encode_utf8(text@) == joined(views.take(i as int), sep),
            decreases self.lines@.len() - i,
        {
            let ghost before = text@;
            if i != 0 {
                text.append(self.line_separator.as_str());
                proof {
                    crate::data_type::lemma_encode_concat(before, self.line_separator@);
                }
            }
            let ghost middle = text@;
            text.append(self.lines[i].as_str());
            proof {
                crate::data_type::lemma_encode_concat(middle, self.lines@[i as int]@);
                assert(views.take(i + 1).drop_last() =~= views.take(i as int));
                assert(views.take(i + 1).last() == views[i as int]);
                if i == 0 {
                    assert(views.take(1)[0] == views[0]);
                    assert(encode_utf8(before) =~= Seq::<u8>::empty());
                }
            }
            i = i + 1;
        }
        assert(views.take(self.lines@.len() as int) =~= views);
        text
    }
}

/// Lines joined by a separator.
pub open spec fn joined<A>(lines: Seq<Seq<A>>, separator: Seq<A>) -> Seq<A>
    decreases lines.len(),
{
    if lines.len() == 0 {
        Seq::empty()
    } else if lines.len() == 1 {
        lines[0]
    } else {
        joined(lines.drop_last(), separator) + separator + lines.last()
    }
}

/// A string of `n` spaces.
fn blank_string(n: usize) -> (r: String)
    ensures
        encode_utf8(r@) == blank(n as nat),
{
    let mut bytes: Vec<u8> = Vec::new();
    let mut i: usize = 0;
    while i < n
        invariant
            i <= n,
            bytes@ == blank(i as nat),
        decreases n - i,
    {
        bytes.push(32u8);
        i = i + 1;
        assert(bytes@ =~= blank(i as nat));
    }
    proof {
        lemma_blank_valid(n as nat);
    }
    match crate::data_type::string_from_utf8(bytes) {
        Ok(text) => text,
        Err(_) => String::new(),
    }
}

proof fn lemma_blank_valid(n: nat)
    ensures
        valid_utf8(blank(n)),
    decreases n,
{
    let chars = Seq::new(n, |i: int| ' ');
    lemma_blank_encoding(n);
    vstd::utf8::encode_utf8_valid_utf8(chars);
}

proof fn lemma_blank_encoding(n: nat)
    ensures
        encode_utf8(Seq::new(n, |i: int| ' ')) == blank(n),
    decreases n,
{
    if n > 0 {
        let chars = Seq::new(n, |i: int| ' ');
        lemma_blank_encoding((n - 1) as nat);
        assert(chars.drop_first() =~= Seq::new((n - 1) as nat, |i: int| ' '));
        assert(32u32 & 0x7F == 32u32) by (bit_vector);
        assert((' ' as u32) == 32u32);
        assert(vstd::utf8::encode_scalar(' ' as u32) =~= seq![32u8]);
        assert(encode_utf8(chars) =~= blank(n));
    } else {
        assert(encode_utf8(Seq::<char>::empty()) =~= blank(0));
    }
}

/// What is set into a line is found there afterwards, and is what reading that range
/// gives back: the bytes of the text from its column on, which decode to the text; the
/// rest of the line and the other lines stay as they were.
pub proof fn law_get_after_set(lines: Seq<Seq<u8>>, index: int, column: nat, text: Seq<char>, width: nat)
    requires
        0 <= index < lines.len(),
        lines[index].len() == width,
        column + encode_utf8(text).len() <= width,
    ensures
        ({
            let s = encode_utf8(text);
            let after = lines.update(index, set_into(lines[index], column, s));
            &&& after[index].len() == width
            &&& range_check(column, column + s.len(), width) == Ok::<(nat, nat), InvalidRangeError>(
                (column, column + s.len()),
            )
            &&& after[index].subrange(column as int, (column + s.len()) as int) == s
            &&& decode_utf8(after[index].subrange(column as int, (column + s.len()) as int)) == text
            &&& after[index].take(column as int) == lines[index].take(column as int)
            &&& after[index].skip((column + s.len()) as int) == lines[index].skip((column + s.len()) as int)
            &&& forall|j: int| 0 <= j < lines.len() && j != index ==> after[j] == lines[j]
        }),
{
    let s = encode_utf8(text);
    let b = lines[index];
    let r = set_into(b, column, s);
    assert(r.subrange(column as int, (column + s.len()) as int) =~= s);
    assert(r.take(column as int) =~= b.take(column as int));
    assert(r.skip((column + s.len()) as int) =~= b.skip((column + s.len()) as int));
}

/// A cleared range of a line holds spaces afterwards.
pub proof fn law_cleared_is_blank(line: Seq<u8>, start: nat, end: nat)
    requires
        start <= end <= line.len(),
    ensures
        set_into(line, start, blank((end - start) as nat)).subrange(start as int, end as int) == blank(
            (end - start) as nat,
        ),
        set_into(line, start, blank((end - start) as nat)).len() == line.len(),
{
    let r = set_into(line, start, blank((end - start) as nat));
    assert(r.subrange(start as int, end as int) =~= blank((end - start) as nat));
}

} // verus!
