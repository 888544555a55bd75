//! Padders of text: what pads a string to its field's width, and takes the padding off again.
use vstd::prelude::*;
use vstd::string::{StrSliceExecFns, StringSliceAdditionalSpecFns};
use vstd::utf8::encode_utf8;
use pad::{Alignment, PadStr};
use crate::error::BoxedError;
use crate::spec::PaddingDirection;
pub use crate::padder::Error;

verus! {

/// Why padding text failed.
#[derive(Debug, PartialEq, Eq, Clone, Copy, Structural)]
pub enum PaddingError {
    /// The padding was longer than one byte; it held that many.
    PaddingLongerThanOne(usize),
}

/// Pads a string to the width of its field. The result for a string is `pad_result`: the
/// padded string, or the error that the padder fails with.
pub trait Padder {
    open spec fn pad_result(
        &self,
        data: Seq<char>,
        length: usize,
        padding: Seq<char>,
        direction: PaddingDirection,
    ) -> Result<Seq<char>, BoxedError> {
        vstd::pervasive::arbitrary()
    }

    fn pad(&self, data: String, length: usize, padding: &String, direction: PaddingDirection) -> (r: Result<
        String,
        Error,
    >)
        ensures
            match self.pad_result(data@, length, padding@, direction) {
                Ok(s) => r matches Ok(v) && v@ == s,
                Err(b) => r matches Err(e) && e.repr_spec() == b,
            },
    ;
}

impl<'a, T: Padder> Padder for &'a T {
    open spec fn pad_result(
        &self,
        data: Seq<char>,
        length: usize,
        padding: Seq<char>,
        direction: PaddingDirection,
    ) -> Result<Seq<char>, BoxedError> {
        (**self).pad_result(data, length, padding, direction)
    }

    fn pad(&self, data: String, length: usize, padding: &String, direction: PaddingDirection) -> (r: Result<
        String,
        Error,
    >) {
        (**self).pad(data, length, padding, direction)
    }
}

/// Takes the padding off a string. The result for a string is `unpad_result`.
pub trait UnPadder {
    open spec fn unpad_result(&self, data: Seq<char>, padding: Seq<char>, direction: PaddingDirection) -> Result<
        Seq<char>,
        BoxedError,
    > {
        vstd::pervasive::arbitrary()
    }

    fn unpad(&self, data: String, padding: &String, direction: PaddingDirection) -> (r: Result<String, Error>)
        ensures
            match self.unpad_result(data@, padding@, direction) {
                Ok(s) => r matches Ok(v) && v@ == s,
                Err(b) => r matches Err(e) && e.repr_spec() == b,
            },
    ;
}

impl<'a, T: UnPadder> UnPadder for &'a T {
    open spec fn unpad_result(&self, data: Seq<char>, padding: Seq<char>, direction: PaddingDirection) -> Result<
        Seq<char>,
        BoxedError,
    > {
        (**self).unpad_result(data, padding, direction)
    }

    fn unpad(&self, data: String, padding: &String, direction: PaddingDirection) -> (r: Result<String, Error>) {
        (**self).unpad(data, padding, direction)
    }
}

/// How many bytes a string takes in UTF-8, as `str::len` counts them.
pub open spec fn byte_len(s: Seq<char>) -> usize {
    encode_utf8(s).len() as usize
}

/// The character that a padding of at most one byte pads with: its own, or a space when
/// it is empty.
pub open spec fn pad_char_of(padding: Seq<char>) -> char {
    if padding.len() == 0 {
        ' '
    } else {
        padding[0]
    }
}

/// `n` copies of `c`.
pub open spec fn copies(c: char, n: nat) -> Seq<char> {
    Seq::new(n, |i: int| c)
}

/// Whether every character of `s` is printable ASCII, one column wide.
pub open spec fn printable_ascii(s: Seq<char>) -> bool {
    forall|i: int| 0 <= i < s.len() ==> 32 <= (#[trigger] s[i]) as u32 <= 126
}

/// `data` with `n` copies of `c` on the side that `direction` names.
pub open spec fn with_copies(data: Seq<char>, c: char, n: nat, direction: PaddingDirection) -> Seq<char> {
    match direction {
        PaddingDirection::Left => copies(c, n) + data,
        PaddingDirection::Right => data + copies(c, n),
    }
}

/// Whether `r` is `data` with at most `width` copies of `c` on the side that `direction` names.
pub open spec fn is_padded_form(r: Seq<char>, data: Seq<char>, c: char, width: usize, direction: PaddingDirection) -> bool {
    exists|n: nat| n <= width && r == with_copies(data, c, n, direction)
}

/// `data` padded with copies of `c` up to `width` characters, or as it is when it has as
/// many already.
pub open spec fn padded_to_count(data: Seq<char>, width: usize, c: char, direction: PaddingDirection) -> Seq<char> {
    let n: nat = if data.len() < width {
        (width - data.len()) as nat
    } else {
        0
    };
    with_copies(data, c, n, direction)
}

/// What the `pad` crate makes of `data` padded to `width` columns with `pad_char` on the
/// side that `direction` names, never cutting it short.
pub uninterp spec fn padded_text(data: Seq<char>, width: usize, pad_char: char, direction: PaddingDirection) -> Seq<
    char,
>;

/// Calls `PadStr::pad` of the `pad` crate on `data`, with the alignment that puts the pad
/// characters on the side that `direction` names, and without truncation. The crate counts
/// the width of `data` in display columns, as the `unicode-width` crate measures them; it
/// adds `width` less that many copies of `pad_char`, or none when `data` is as wide already.
/// The contract states the result by name, that it is `data` with some number of copies of
/// `pad_char` on that side, and the exact number where every character of `data` is
/// printable ASCII, which is one column wide. The width of other characters is left unsaid.
#[verifier::external_body]
fn pad_str(data: &str, width: usize, pad_char: char, direction: PaddingDirection) -> (r: String)
    ensures
        r@ == padded_text(data@, width, pad_char, direction),
        is_padded_form(r@, data@, pad_char, width, direction),
        printable_ascii(data@) ==> r@ == padded_to_count(data@, width, pad_char, direction),
{
    let alignment = match direction {
        PaddingDirection::Left => Alignment::Right,
        PaddingDirection::Right => Alignment::Left,
    };
    data.pad(width, pad_char, alignment, false)
}

/// `s` without the copies of `c` at its start.
pub open spec fn trim_start(s: Seq<char>, c: char) -> Seq<char>
    decreases s.len(),
{
    if s.len() > 0 && s[0] == c {
        trim_start(s.drop_first(), c)
    } else {
        s
    }
}

/// `s` without the copies of `c` at its end.
pub open spec fn trim_end(s: Seq<char>, c: char) -> Seq<char>
    decreases s.len(),
{
    if s.len() > 0 && s.last() == c {
        trim_end(s.drop_last(), c)
    } else {
        s
    }
}

/// `data` without the copies of `c` on the side that `direction` names.
pub open spec fn trimmed(data: Seq<char>, c: char, direction: PaddingDirection) -> Seq<char> {
    match direction {
        PaddingDirection::Left => trim_start(data, c),
        PaddingDirection::Right => trim_end(data, c),
    }
}

fn trim_start_char(data: &str, c: char) -> (r: String)
    ensures
        r@ == trim_start(data@, c),
{
    let n = data.unicode_len();
    let mut i: usize = 0;
    assert(data@.skip(0) =~= data@);
    while i < n && data.get_char(i) == c
        invariant
            n == data@.len(),
            i <= n,
            trim_start(data@, c) == trim_start(data@.skip(i as int), c),
        decreases n - i,
    {
        proof {
            let s = data@.skip(i as int);
            assert(s[0] == c);
            assert(s.drop_first() =~= data@.skip(i + 1));
        }
        i = i + 1;
    }
    proof {
        let s = data@.skip(i as int);
        assert(s =~= data@.subrange(i as int, n as int));
    }
    data.substring_char(i, n).to_owned()
}

fn trim_end_char(data: &str, c: char) -> (r: String)
    ensures
        r@ == trim_end(data@, c),
{
    let n = data.unicode_len();
    let mut i: usize = n;
    assert(data@.take(n as int) =~= data@);
    while i > 0 && data.get_char(i - 1) == c
        invariant
            n == data@.len(),
            i <= n,
            trim_end(data@, c) == trim_end(data@.take(i as int), c),
        decreases i,
    {
        proof {
            let s = data@.take(i as int);
            assert(s.last() == c);
            assert(s.drop_last() =~= data@.take(i - 1));
        }
        i = i - 1;
    }
    proof {
        let s = data@.take(i as int);
        assert(s =~= data@.subrange(0, i as int));
    }
    data.substring_char(0, i).to_owned()
}

/// Pads with the one character of the padding, or with spaces when the padding is empty,
/// through the `pad` crate; takes every copy of that character off the padded side again.
/// Paddings longer than one byte are refused.
pub struct DefaultPadder;

/// The error of a padding longer than one byte.
pub open spec fn too_long(padding: Seq<char>) -> BoxedError {
    BoxedError::TextPadding(PaddingError::PaddingLongerThanOne(byte_len(padding)))
}

impl DefaultPadder {
    fn get_char(padding: &String) -> (r: Result<char, PaddingError>)
        ensures
            byte_len(padding@) > 1 ==> r == Err::<char, PaddingError>(
                PaddingError::PaddingLongerThanOne(byte_len(padding@)),
            ),
            byte_len(padding@) <= 1 ==> r == Ok::<char, PaddingError>(pad_char_of(padding@)),
    {
        let text = padding.as_str();
        let length = text.len();
        if length > 1 {
            Err(PaddingError::PaddingLongerThanOne(length))
        } else if text.is_empty() {
            Ok(' ')
        } else {
            Ok(text.get_char(0))
        }
    }
}

impl Padder for DefaultPadder {
    open spec fn pad_result(
        &self,
        data: Seq<char>,
        length: usize,
        padding: Seq<char>,
        direction: PaddingDirection,
    ) -> Result<Seq<char>, BoxedError> {
        if byte_len(padding) > 1 {
            Err(too_long(padding))
        } else if printable_ascii(data) {
            Ok(padded_to_count(data, length, pad_char_of(padding), direction))
        } else {
            Ok(padded_text(data, length, pad_char_of(padding), direction))
        }
    }

    fn pad(&self, data: String, length: usize, padding: &String, direction: PaddingDirection) -> (r: Result<
        String,
        Error,
    >) {
        match Self::get_char(padding) {
            Ok(c) => Ok(pad_str(data.as_str(), length, c, direction)),
            Err(e) => Err(Error::new(e)),
        }
    }
}

impl UnPadder for DefaultPadder {
    open spec fn unpad_result(&self, data: Seq<char>, padding: Seq<char>, direction: PaddingDirection) -> Result<
        Seq<char>,
        BoxedError,
    > {
        if byte_len(padding) > 1 {
            Err(too_long(padding))
        } else {
            Ok(trimmed(data, pad_char_of(padding), direction))
        }
    }

    fn unpad(&self, data: String, padding: &String, direction: PaddingDirection) -> (r: Result<String, Error>) {
        match Self::get_char(padding) {
            Ok(c) => match direction {
                PaddingDirection::Left => Ok(trim_start_char(data.as_str(), c)),
                PaddingDirection::Right => Ok(trim_end_char(data.as_str(), c)),
            },
            Err(e) => Err(Error::new(e)),
        }
    }
}

/// Leaves strings as they are.
pub struct IdentityPadder;

impl Padder for IdentityPadder {
    open spec fn pad_result(
        &self,
        data: Seq<char>,
        length: usize,
        padding: Seq<char>,
        direction: PaddingDirection,
    ) -> Result<Seq<char>, BoxedError> {
        Ok(data)
    }

    fn pad(&self, data: String, length: usize, padding: &String, direction: PaddingDirection) -> (r: Result<
        String,
        Error,
    >) {
        Ok(data)
    }
}

impl UnPadder for IdentityPadder {
    open spec fn unpad_result(&self, data: Seq<char>, padding: Seq<char>, direction: PaddingDirection) -> Result<
        Seq<char>,
        BoxedError,
    > {
        Ok(data)
    }

    fn unpad(&self, data: String, padding: &String, direction: PaddingDirection) -> (r: Result<String, Error>) {
        Ok(data)
    }
}

proof fn lemma_trim_start_copies(data: Seq<char>, c: char, n: nat)
    requires
        data.len() == 0 || data[0] != c,
    ensures
        trim_start(copies(c, n) + data, c) == data,
    decreases n,
{
    if n == 0 {
        assert(copies(c, 0) + data =~= data);
    } else {
        let s = copies(c, n) + data;
        assert(s[0] == c);
        assert(s.drop_first() =~= copies(c, (n - 1) as nat) + data);
        lemma_trim_start_copies(data, c, (n - 1) as nat);
    }
}

proof fn lemma_trim_end_copies(data: Seq<char>, c: char, n: nat)
    requires
        data.len() == 0 || data.last() != c,
    ensures
        trim_end(data + copies(c, n), c) == data,
    decreases n,
{
    if n == 0 {
        assert(data + copies(c, 0) =~= data);
    } else {
        let s = data + copies(c, n);
        assert(s.last() == c);
        assert(s.drop_last() =~= data + copies(c, (n - 1) as nat));
        lemma_trim_end_copies(data, c, (n - 1) as nat);
    }
}

/// Taking the padding off a value padded with copies of a character gives the value back,
/// when the value does not itself begin (padding on the left) or end (padding on the right)
/// with that character.
pub proof fn law_text_unpad_undoes_pad(data: Seq<char>, width: usize, c: char, direction: PaddingDirection)
    requires
        match direction {
            PaddingDirection::Left => data.len() == 0 || data[0] != c,
            PaddingDirection::Right => data.len() == 0 || data.last() != c,
        },
    ensures
        trimmed(padded_to_count(data, width, c, direction), c, direction) == data,
{
    let n: nat = if data.len() < width {
        (width - data.len()) as nat
    } else {
        0
    };
    match direction {
        PaddingDirection::Left => lemma_trim_start_copies(data, c, n),
        PaddingDirection::Right => lemma_trim_end_copies(data, c, n),
    }
}

proof fn lemma_trim_start_shape(data: Seq<char>, c: char)
    ensures
        trim_start(data, c).len() <= data.len(),
        data == copies(c, (data.len() - trim_start(data, c).len()) as nat) + trim_start(data, c),
        trim_start(data, c).len() == 0 || trim_start(data, c)[0] != c,
    decreases data.len(),
{
    if data.len() > 0 && data[0] == c {
        lemma_trim_start_shape(data.drop_first(), c);
        let t = trim_start(data, c);
        let n = (data.len() - t.len()) as nat;
        let d = data.drop_first();
        assert(d == copies(c, (n - 1) as nat) + t);
        assert forall|i: int| 0 <= i < data.len() implies data[i] == (copies(c, n) + t)[i] by {
            if i > 0 {
                assert(data[i] == d[i - 1]);
            }
        }
        assert(data =~= copies(c, n) + t);
    } else {
        assert(data =~= copies(c, 0) + data);
    }
}

proof fn lemma_trim_end_shape(data: Seq<char>, c: char)
    ensures
        trim_end(data, c).len() <= data.len(),
        data == trim_end(data, c) + copies(c, (data.len() - trim_end(data, c).len()) as nat),
        trim_end(data, c).len() == 0 || trim_end(data, c).last() != c,
    decreases data.len(),
{
    if data.len() > 0 && data.last() == c {
        lemma_trim_end_shape(data.drop_last(), c);
        let t = trim_end(data, c);
        let n = (data.len() - t.len()) as nat;
        let d = data.drop_last();
        assert(d == t + copies(c, (n - 1) as nat));
        assert forall|i: int| 0 <= i < data.len() implies data[i] == (t + copies(c, n))[i] by {
            if i < data.len() - 1 {
                assert(data[i] == d[i]);
            }
        }
        assert(data =~= t + copies(c, n));
    } else {
        assert(data =~= data + copies(c, 0));
    }
}

/// What the default text unpadder leaves is the value with the copies of the pad character
/// taken off the padded side, and only there: the input is some copies of that character
/// followed (on the left) or preceded (on the right) by the result, which does not itself
/// start (or end) with it.
pub proof fn law_text_default_unpad_shape(data: Seq<char>, padding: Seq<char>, direction: PaddingDirection)
    requires
        byte_len(padding) <= 1,
    ensures
        DefaultPadder.unpad_result(data, padding, direction) matches Ok(r) && r.len() <= data.len() && {
            let c = pad_char_of(padding);
            let n = (data.len() - r.len()) as nat;
            match direction {
                PaddingDirection::Left => data == copies(c, n) + r && (r.len() == 0 || r[0] != c),
                PaddingDirection::Right => data == r + copies(c, n) && (r.len() == 0 || r.last() != c),
            }
        },
{
    lemma_trim_start_shape(data, pad_char_of(padding));
    lemma_trim_end_shape(data, pad_char_of(padding));
}

/// The default text unpadder takes copies of the pad character off one side only: a value
/// after (on the left) or before (on the right) any number of copies comes back whole,
/// copies of the pad character at its other end included, when it does not itself start
/// (or end) with that character on the padded side.
pub proof fn law_text_default_unpad_one_side(v: Seq<char>, padding: Seq<char>, k: nat)
    requires
        byte_len(padding) <= 1,
    ensures
        v.len() == 0 || v[0] != pad_char_of(padding) ==> DefaultPadder.unpad_result(
            copies(pad_char_of(padding), k) + v,
            padding,
            PaddingDirection::Left,
        ) == Ok::<Seq<char>, BoxedError>(v),
        v.len() == 0 || v.last() != pad_char_of(padding) ==> DefaultPadder.unpad_result(
            v + copies(pad_char_of(padding), k),
            padding,
            PaddingDirection::Right,
        ) == Ok::<Seq<char>, BoxedError>(v),
{
    let c = pad_char_of(padding);
    if v.len() == 0 || v[0] != c {
        lemma_trim_start_copies(v, c, k);
    }
    if v.len() == 0 || v.last() != c {
        lemma_trim_end_copies(v, c, k);
    }
}

/// Padding a value with copies of a character gives as many characters as the width asks
/// for, or the value as it is when it has more.
pub proof fn law_text_padded_width(data: Seq<char>, width: usize, c: char, direction: PaddingDirection)
    ensures
        padded_to_count(data, width, c, direction).len() == if data.len() < width {
            width as nat
        } else {
            data.len()
        },
{
}

impl PaddingError {
    /// A short description of what went wrong.
    pub fn description(&self) -> (r: &'static str)
        ensures
            match self {
                PaddingError::PaddingLongerThanOne(_) => r@ == "The padding string must be only one char long to use this padder"@,
            },
    {
        match self {
            PaddingError::PaddingLongerThanOne(_) => "The padding string must be only one char long to use this padder",
        }
    }
}

} // verus!
