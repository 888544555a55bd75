//! The kinds of data that records hold: raw bytes, or text whose lengths are counted in
//! characters.
use vstd::prelude::*;
use vstd::string::{StrSliceExecFns, StringSliceAdditionalSpecFns};
use vstd::utf8::{decode_utf8, encode_utf8, valid_utf8};
use core::ops::Range;
use crate::error::BoxedError;
use crate::record::{Data, DataRanges};

verus! {

broadcast use vstd::utf8::encode_utf8_decode_utf8, vstd::utf8::decode_utf8_encode_utf8;

/// Whether a field needs more bytes read, and how many at least.
#[derive(Debug, PartialEq, Eq, Clone, Copy, Structural)]
pub enum ShouldReadMore {
    More(usize),
    NoMore,
}

/// The length of some bytes in the unit of a kind of data, and how many bytes at their
/// end are not part of a whole unit.
#[derive(Debug, PartialEq, Eq, Clone, Copy, Structural)]
pub struct Length {
    pub length: usize,
    pub remainder: usize,
}

/// A kind of data: how lengths are counted in it and what holds a record of it.
pub trait DataSupporter {
    type DataHolder;

    /// The length of `data` in this kind's unit, and the bytes left over.
    spec fn length_of(&self, data: Seq<u8>) -> (nat, nat);

    /// The bytes that the units `start..end` of `data` take, if `data` has them.
    spec fn byte_range_of(&self, data: Seq<u8>, start: nat, end: nat) -> Option<(nat, nat)>;

    /// Whether `get_byte_range` takes the range `start..end`.
    spec fn byte_range_accepts(&self, start: nat, end: nat) -> bool;

    /// The least and the most bytes that `length` units can take.
    spec fn size_hint_of(&self, length: nat) -> (nat, Option<nat>);

    /// Whether `get_size_hint` takes `length`.
    spec fn size_hint_accepts(&self, length: nat) -> bool;

    fn get_length(&self, data: &[u8]) -> (r: Length)
        ensures
            r.length == self.length_of(data@).0,
            r.remainder == self.length_of(data@).1,
    ;

    fn get_byte_range(&self, data: &[u8], range: Range<usize>) -> (r: Option<Range<usize>>)
        requires
            self.byte_range_accepts(range.start as nat, range.end as nat),
        ensures
            match self.byte_range_of(data@, range.start as nat, range.end as nat) {
                Some((s, e)) => r matches Some(x) && x.start == s && x.end == e && s <= e,
                None => r is None,
            },
    ;

    fn get_size_hint(&self, length: usize) -> (r: (usize, Option<usize>))
        requires
            self.size_hint_accepts(length as nat),
        ensures
            r.0 == self.size_hint_of(length as nat).0,
            match self.size_hint_of(length as nat).1 {
                Some(m) => r.1 == Some(m as usize),
                None => r.1 is None,
            },
    ;
}

/// A kind of data that fields can be read in.
pub trait FieldReadSupporter: DataSupporter {
    /// Whether `data` falls short of `wanted_length` units, and by how many.
    fn should_read_more(&self, wanted_length: usize, data: &[u8]) -> (r: ShouldReadMore)
        ensures
            match r {
                ShouldReadMore::More(n) => wanted_length > self.length_of(data@).0 && n == wanted_length
                    - self.length_of(data@).0,
                ShouldReadMore::NoMore => wanted_length <= self.length_of(data@).0,
            },
    {
        let length = self.get_length(data).length;
        if wanted_length > length {
            ShouldReadMore::More(wanted_length - length)
        } else {
            ShouldReadMore::NoMore
        }
    }
}

/// A kind of data that whole records can be read in.
pub trait RecordReadSupporter: FieldReadSupporter {
    /// Whether the bytes of a record can be held as this kind of data.
    spec fn upcast_ok(&self, data: Seq<u8>) -> bool;

    /// Whether `holder` holds the bytes `data`.
    spec fn holds(&self, holder: Self::DataHolder, data: Seq<u8>) -> bool;

    fn upcast_data(&self, data: Vec<u8>) -> (r: Result<Self::DataHolder, BoxedError>)
        ensures
            self.upcast_ok(data@) ==> (r matches Ok(h) && self.holds(h, data@)),
            !self.upcast_ok(data@) ==> r is Err,
    ;

    /// The range that the bytes added after `old_length` take.
    fn get_range(&self, old_length: usize, data: &[u8]) -> (r: Range<usize>)
        ensures
            r.start == old_length,
            r.end == data@.len(),
    {
        old_length..data.len()
    }
}

/// A kind of data that records can be written from.
pub trait WriteSupporter: DataSupporter {
    /// The bytes that a holder holds.
    spec fn bytes_of(&self, holder: Self::DataHolder) -> Seq<u8>;

    /// Whether `get_data` takes the range `start..end` of `holder`.
    spec fn get_data_accepts(&self, holder: Self::DataHolder, start: nat, end: nat) -> bool;

    fn get_data<'a>(&self, range: Range<usize>, data: &'a Self::DataHolder) -> (r: Option<&'a [u8]>)
        requires
            self.get_data_accepts(*data, range.start as nat, range.end as nat),
        ensures
            r matches Some(s) && s@ == self.bytes_of(*data).subrange(range.start as int, range.end as int),
    ;

    /// The bytes of the field named `name` in `data`, if `data` has such a field.
    fn get_data_by_name<'a, T: DataRanges>(&self, name: &str, data: &'a Data<T, Self::DataHolder>) -> (r:
        Option<&'a [u8]>)
        requires
            forall|s: nat, e: nat|
                data.ranges.range_of(name@) == Some((s, e)) ==> self.get_data_accepts(data.data, s, e),
        ensures
            match data.ranges.range_of(name@) {
                Some((s, e)) => r matches Some(x) && x@ == self.bytes_of(data.data).subrange(s as int, e as int),
                None => r is None,
            },
    {
        match data.ranges.get(name) {
            Some(range) => self.get_data(range, &data.data),
            None => None,
        }
    }
}

/// Raw bytes: lengths are counted in bytes.
#[derive(Debug, Clone, Copy)]
pub struct BinarySupporter;

impl DataSupporter for BinarySupporter {
    type DataHolder = Vec<u8>;

    open spec fn length_of(&self, data: Seq<u8>) -> (nat, nat) {
        (data.len(), 0)
    }

    open spec fn byte_range_of(&self, data: Seq<u8>, start: nat, end: nat) -> Option<(nat, nat)> {
        Some((start, end))
    }

    open spec fn byte_range_accepts(&self, start: nat, end: nat) -> bool {
        start <= end
    }

    open spec fn size_hint_of(&self, length: nat) -> (nat, Option<nat>) {
        (length, Some(length))
    }

    open spec fn size_hint_accepts(&self, length: nat) -> bool {
        true
    }

    fn get_length(&self, data: &[u8]) -> (r: Length) {
        Length { length: data.len(), remainder: 0 }
    }

    fn get_byte_range(&self, data: &[u8], range: Range<usize>) -> (r: Option<Range<usize>>) {
        Some(range)
    }

    fn get_size_hint(&self, length: usize) -> (r: (usize, Option<usize>)) {
        (length, Some(length))
    }
}

impl FieldReadSupporter for BinarySupporter {
}

impl RecordReadSupporter for BinarySupporter {
    open spec fn upcast_ok(&self, data: Seq<u8>) -> bool {
        true
    }

    open spec fn holds(&self, holder: Vec<u8>, data: Seq<u8>) -> bool {
        holder@ == data
    }

    fn upcast_data(&self, data: Vec<u8>) -> (r: Result<Vec<u8>, BoxedError>) {
        Ok(data)
    }
}

impl WriteSupporter for BinarySupporter {
    open spec fn bytes_of(&self, holder: Vec<u8>) -> Seq<u8> {
        holder@
    }

    open spec fn get_data_accepts(&self, holder: Vec<u8>, start: nat, end: nat) -> bool {
        start <= end <= holder@.len()
    }

    fn get_data<'a>(&self, range: Range<usize>, data: &'a Vec<u8>) -> (r: Option<&'a [u8]>) {
        Some(vstd::slice::slice_subrange(data.as_slice(), range.start, range.end))
    }
}

/// The text that `data` holds, when it is valid UTF-8.
#[verifier::external_body]
pub(crate) fn str_from_utf8(data: &[u8]) -> (r: Option<&str>)
    ensures
        r is Some <==> valid_utf8(data@),
        r matches Some(s) ==> s.spec_bytes() == data@,
{
    match core::str::from_utf8(data) {
        Ok(s) => Some(s),
        Err(_) => None,
    }
}

/// The message of the error that std's `String::from_utf8` gives for `data`, when it is
/// not valid UTF-8.
pub uninterp spec fn utf8_error_text(data: Seq<u8>) -> Seq<char>;

/// Calls `String::from_utf8` on `data`: the text that `data` holds, when it is valid UTF-8;
/// else the message of std's error, which the contract names as a function of the bytes
/// and does not spell out.
#[verifier::external_body]
pub(crate) fn string_from_utf8(data: Vec<u8>) -> (r: Result<String, String>)
    ensures
        r is Ok <==> valid_utf8(data@),
        r matches Ok(s) ==> encode_utf8(s@) == data@,
        r matches Err(m) ==> m@ == utf8_error_text(data@),
{
    match String::from_utf8(data) {
        Ok(s) => Ok(s),
        Err(e) => Err(e.to_string()),
    }
}

/// The length of the longest prefix of `data` among its first `k` bytes that is valid UTF-8.
pub open spec fn valid_prefix_len(data: Seq<u8>, k: nat) -> nat
    decreases k,
{
    if k == 0 || valid_utf8(data.take(k as int)) {
        k
    } else {
        valid_prefix_len(data, (k - 1) as nat)
    }
}

/// The characters of the longest prefix of `data` that is valid UTF-8.
pub open spec fn text_of(data: Seq<u8>) -> Seq<char> {
    decode_utf8(data.take(valid_prefix_len(data, data.len()) as int))
}

proof fn lemma_valid_prefix_len_bound(data: Seq<u8>, k: nat)
    ensures
        valid_prefix_len(data, k) <= k,
        valid_prefix_len(data, k) == 0 || valid_utf8(data.take(valid_prefix_len(data, k) as int)),
    decreases k,
{
    if k > 0 && !valid_utf8(data.take(k as int)) {
        lemma_valid_prefix_len_bound(data, (k - 1) as nat);
    }
}

/// Text: lengths are counted in characters, of the longest part of the bytes that is
/// valid UTF-8.
#[derive(Debug, Clone, Copy)]
pub struct StringSupporter;

impl StringSupporter {
    /// The longest prefix of `data` that is valid UTF-8, as text.
    fn get_string<'a>(&self, data: &'a [u8]) -> (s: &'a str)
        ensures
            s.spec_bytes() == data@.take(valid_prefix_len(data@, data@.len()) as int),
            s@ == text_of(data@),
    {
        let mut k: usize = data.len();
        proof {
            assert(valid_utf8(Seq::<u8>::empty()) == valid_utf8(data@.take(0))) by {
                assert(data@.take(0) =~= Seq::<u8>::empty());
            }
        }
        loop
            invariant
                k <= data@.len(),
                valid_prefix_len(data@, data@.len()) == valid_prefix_len(data@, k as nat),
            decreases k,
        {
            let prefix = vstd::slice::slice_subrange(data, 0, k);
            assert(prefix@ =~= data@.take(k as int));
            match str_from_utf8(prefix) {
                Some(s) => {
                    proof {
                        assert(decode_utf8(encode_utf8(s@)) == s@);
                    }
                    return s;
                },
                None => {
                    if k == 0 {
                        proof {
                            assert(encode_utf8(Seq::<char>::empty()) =~= Seq::<u8>::empty());
                            assert(false);
                        }
                        return "";
                    }
                },
            }
            k = k - 1;
        }
    }
}

impl DataSupporter for StringSupporter {
    type DataHolder = String;

    open spec fn length_of(&self, data: Seq<u8>) -> (nat, nat) {
        (text_of(data).len(), (data.len() - valid_prefix_len(data, data.len())) as nat)
    }

    open spec fn byte_range_of(&self, data: Seq<u8>, start: nat, end: nat) -> Option<(nat, nat)> {
        let text = text_of(data);
        if start < text.len() && end <= text.len() {
            Some(
                (
                    encode_utf8(text.take(start as int)).len(),
                    encode_utf8(text.take(end - 1)).len() + 1,
                ),
            )
        } else {
            None
        }
    }

    open spec fn byte_range_accepts(&self, start: nat, end: nat) -> bool {
        start < end
    }

    open spec fn size_hint_of(&self, length: nat) -> (nat, Option<nat>) {
        (length, Some(length * 4))
    }

    open spec fn size_hint_accepts(&self, length: nat) -> bool {
        length * 4 <= usize::MAX
    }

    fn get_length(&self, data: &[u8]) -> (r: Length) {
        proof {
            lemma_valid_prefix_len_bound(data@, data@.len());
        }
        let string = self.get_string(data);
        let length = string.unicode_len();
        let bytes = string.len();
        Length { length, remainder: data.len() - bytes }
    }

    fn get_byte_range(&self, data: &[u8], range: Range<usize>) -> (r: Option<Range<usize>>) {
        let n = data.len();
        let string = self.get_string(data);
        let count = string.unicode_len();
        if range.start < count && range.end <= count {
            let start = string.substring_char(0, range.start).len();
            let last = string.substring_char(0, range.end - 1).len();
            proof {
                lemma_valid_prefix_len_bound(data@, data@.len());
                lemma_encode_prefix_shorter(string@, range.end - 1);
                lemma_encode_prefix_shorter(string@, range.start as int);
                lemma_encode_prefix_monotonic(string@, range.start as int, range.end - 1);
                assert(string@.subrange(0, range.end - 1) == string@.take(range.end - 1));
                assert(string@.subrange(0, range.start as int) == string@.take(range.start as int));
                assert(string.spec_bytes().len() <= n);
            }
            Some(start..last + 1)
        } else {
            None
        }
    }

    fn get_size_hint(&self, length: usize) -> (r: (usize, Option<usize>)) {
        (length, Some(length * 4))
    }
}

pub(crate) proof fn lemma_encode_concat(a: Seq<char>, b: Seq<char>)
    ensures
        encode_utf8(a + b) == encode_utf8(a) + encode_utf8(b),
    decreases a.len(),
{
    if a.len() == 0 {
        assert(a + b =~= b);
        assert(encode_utf8(a) + encode_utf8(b) =~= encode_utf8(b));
    } else {
        lemma_encode_concat(a.drop_first(), b);
        assert((a + b).drop_first() =~= a.drop_first() + b);
        assert((a + b)[0] == a[0]);
        let x = vstd::utf8::encode_scalar(a[0] as u32);
        assert(encode_utf8(a + b) == x + encode_utf8(a.drop_first() + b));
        assert(x + (encode_utf8(a.drop_first()) + encode_utf8(b)) =~= (x + encode_utf8(a.drop_first()))
            + encode_utf8(b));
    }
}

proof fn lemma_encode_prefix_monotonic(text: Seq<char>, i: int, j: int)
    requires
        0 <= i <= j <= text.len(),
    ensures
        encode_utf8(text.take(i)).len() <= encode_utf8(text.take(j)).len(),
{
    lemma_encode_concat(text.take(i), text.take(j).skip(i));
    assert(text.take(i) + text.take(j).skip(i) =~= text.take(j));
}

/// A prefix of some text that stops before a character encodes in fewer bytes than the text.
proof fn lemma_encode_prefix_shorter(text: Seq<char>, i: int)
    requires
        0 <= i < text.len(),
    ensures
        encode_utf8(text.take(i)).len() + 1 <= encode_utf8(text).len(),
{
    lemma_encode_concat(text.take(i), text.skip(i));
    assert(text.take(i) + text.skip(i) =~= text);
    assert(encode_utf8(text.skip(i)).len() >= 1);
}

impl FieldReadSupporter for StringSupporter {
}

impl RecordReadSupporter for StringSupporter {
    open spec fn upcast_ok(&self, data: Seq<u8>) -> bool {
        valid_utf8(data)
    }

    open spec fn holds(&self, holder: String, data: Seq<u8>) -> bool {
        encode_utf8(holder@) == data
    }

    /// Bytes that are not valid UTF-8 give std's message for them.
    fn upcast_data(&self, data: Vec<u8>) -> (r: Result<String, BoxedError>)
        ensures
            r matches Err(e) ==> (e matches BoxedError::Message(m) && m@ == utf8_error_text(data@)),
    {
        match string_from_utf8(data) {
            Ok(s) => Ok(s),
            Err(m) => Err(BoxedError::Message(m)),
        }
    }
}

impl WriteSupporter for StringSupporter {
    open spec fn bytes_of(&self, holder: String) -> Seq<u8> {
        encode_utf8(holder@)
    }

    open spec fn get_data_accepts(&self, holder: String, start: nat, end: nat) -> bool {
        start <= end <= encode_utf8(holder@).len() && vstd::utf8::is_char_boundary(encode_utf8(holder@), start as int)
            && vstd::utf8::is_char_boundary(encode_utf8(holder@), end as int)
    }

    fn get_data<'a>(&self, range: Range<usize>, data: &'a String) -> (r: Option<&'a [u8]>) {
        let s = data.as_str();
        let (head, _) = s.split_at(range.end);
        proof {
            assert(head.spec_bytes() =~= s.spec_bytes().subrange(0, range.end as int));
            assert(vstd::utf8::is_char_boundary(head.spec_bytes(), range.start as int)) by {
                vstd::utf8::encode_utf8_valid_utf8(s@);
                lemma_char_boundary_prefix(s.spec_bytes(), range.end as int, range.start as int);
            }
        }
        let (_, part) = head.split_at(range.start);
        assert(part.spec_bytes() =~= s.spec_bytes().subrange(range.start as int, range.end as int));
        Some(part.as_bytes())
    }
}

proof fn lemma_char_boundary_prefix(bytes: Seq<u8>, end: int, index: int)
    requires
        valid_utf8(bytes),
        0 <= index <= end <= bytes.len(),
        vstd::utf8::is_char_boundary(bytes, index),
        vstd::utf8::is_char_boundary(bytes, end),
    ensures
        vstd::utf8::is_char_boundary(bytes.subrange(0, end), index),
{
    let prefix = bytes.subrange(0, end);
    vstd::utf8::valid_utf8_split(bytes, end);
    if index == end {
        vstd::utf8::is_char_boundary_start_end_of_seq(prefix);
    } else {
        vstd::utf8::is_char_boundary_iff_not_is_continuation_byte(bytes, index);
        vstd::utf8::is_char_boundary_iff_not_is_continuation_byte(prefix, index);
        assert(prefix[index] == bytes[index]);
    }
}

} // verus!
