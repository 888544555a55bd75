//! Recognizers: what tells, from the start of a line or from the values of a record, which
//! record spec applies.
use vstd::prelude::*;
use vstd::string::{StrSliceExecFns, StringExecFns, StringSliceAdditionalSpecFns};
use vstd::utf8::{encode_utf8, valid_utf8};
use crate::error::{BoxedError, IntoBoxedError};
use crate::io::{ByteReader, IoError};
use crate::names::{IntoName, NameMap, lookup, position_of};
use crate::text::spec::RecordSpec;

verus! {

/// Why no record spec was recognized.
#[derive(Debug, PartialEq, Eq)]
pub enum Error {
    /// No record spec applies.
    CouldNotRecognize,
    /// Something else went wrong.
    Other { repr: BoxedError },
}

impl Error {
    pub fn new<E: IntoBoxedError>(error: E) -> (e: Self)
        ensures
            e matches Error::Other { repr } && error.boxes_to(repr),
    {
        Error::Other { repr: error.into_boxed() }
    }
}

impl Clone for Error {
    /// A copy that keeps which of the two it was, and no more.
    fn clone(&self) -> (e: Self)
        ensures
            self is CouldNotRecognize ==> e is CouldNotRecognize,
            self is Other ==> (e matches Error::Other { repr } && repr matches BoxedError::Message(m) && m@.len() == 0),
    {
        match self {
            Error::CouldNotRecognize => Error::CouldNotRecognize,
            Error::Other { .. } => {
                proof {
                    reveal_strlit("");
                }
                Error::new("")
            },
        }
    }
}

impl From<IoError> for Error {
    fn from(e: IoError) -> (r: Self)
        ensures
            r == (Error::Other { repr: BoxedError::Io(e) }),
    {
        Error::new(e)
    }
}

impl vstd::std_specs::convert::FromSpecImpl<IoError> for Error {
    open spec fn obeys_from_spec() -> bool {
        true
    }

    open spec fn from_spec(v: IoError) -> Self {
        Error::Other { repr: BoxedError::Io(v) }
    }
}

/// The start of a line, read so far, and the reader it comes from.
pub struct LineBuffer {
    reader: ByteReader,
    line: String,
}

impl LineBuffer {
    /// The reader that the line is read from.
    pub closed spec fn reader_spec(&self) -> ByteReader {
        self.reader
    }

    /// The line read so far.
    pub closed spec fn line_spec(&self) -> Seq<char> {
        self.line@
    }

    /// The bytes of the line read so far.
    pub open spec fn line_bytes(&self) -> Seq<u8> {
        encode_utf8(self.line_spec())
    }

    #[verifier::type_invariant]
    closed spec fn line_fits(self) -> bool {
        encode_utf8(self.line@).len() <= usize::MAX
    }

    /// A buffer that goes on reading the line `line` from `reader`.
    pub fn new(reader: ByteReader, line: String) -> (b: Self)
        requires
            encode_utf8(line@).len() <= usize::MAX,
        ensures
            b.reader_spec() == reader,
            b.line_spec() == line@,
    {
        LineBuffer { reader, line }
    }

    /// Reads on until the line holds `size` bytes, or the reader runs out. The bytes read
    /// must be text; when they are not, they are gone and the line stays as it was.
    pub fn fill_to(&mut self, size: usize) -> (r: Result<(), IoError>)
        ensures
            final(self).reader_spec().contents() == old(self).reader_spec().contents(),
            old(self).line_bytes().len() >= size ==> r is Ok && *final(self) == *old(self),
            old(self).line_bytes().len() < size ==> ({
                let got = fill_chunk(old(self).line_bytes().len(), size as nat, old(self).reader_spec().rest());
                &&& final(self).reader_spec().pos() == old(self).reader_spec().pos() + got.len()
                &&& final(self).reader_spec().rest() == old(self).reader_spec().rest().skip(got.len() as int)
                &&& valid_utf8(got) ==> r is Ok && final(self).line_bytes() == old(self).line_bytes() + got
                &&& !valid_utf8(got) ==> r == Err::<(), IoError>(IoError::InvalidData) && final(self).line_spec()
                    == old(self).line_spec()
            }),
    {
        proof {
            use_type_invariant(&*self);
        }
        let have = self.line.as_str().len();
        if have >= size {
            return Ok(());
        }
        let mut chunk: Vec<u8> = Vec::new();
        let mut reader = ByteReader::new(Vec::<u8>::new());
        std::mem::swap(&mut reader, &mut self.reader);
        let ghost rest = reader.rest();
        let _count = reader.read_up_to(size - have, &mut chunk);
        assert(reader.rest() =~= rest.skip(chunk@.len() as int));
        std::mem::swap(&mut reader, &mut self.reader);
        assert(chunk@ =~= fill_chunk(have as nat, size as nat, rest));
        match crate::data_type::string_from_utf8(chunk) {
            Ok(text) => {
                let mut line = String::new();
                std::mem::swap(&mut line, &mut self.line);
                let ghost before = line@;
                line.append(text.as_str());
                proof {
                    crate::data_type::lemma_encode_concat(before, text@);
                }
                self.line = line;
                Ok(())
            },
            Err(_) => Err(IoError::InvalidData),
        }
    }

    /// The reader and the line.
    pub fn into_inner(self) -> (r: (ByteReader, String))
        ensures
            r.0 == self.reader_spec(),
            r.1@ == self.line_spec(),
    {
        (self.reader, self.line)
    }

    /// The line read so far.
    pub fn get_line(&self) -> (r: &String)
        ensures
            r@ == self.line_spec(),
    {
        &self.line
    }
}

/// The bytes that filling a line of `have` bytes to `size` takes from `rest`.
pub open spec fn fill_chunk(have: nat, size: nat, rest: Seq<u8>) -> Seq<u8> {
    let want = (size - have) as nat;
    if want <= rest.len() {
        rest.take(want as int)
    } else {
        rest
    }
}

/// Every record spec's fields add up to no more than a `usize` holds.
pub open spec fn specs_fit(record_specs: Seq<(Seq<char>, RecordSpec)>) -> bool {
    forall|i: int| 0 <= i < record_specs.len() ==> (#[trigger] record_specs[i]).1.fits()
}

/// Tells from the start of a line which record spec applies. It may read on into the line
/// buffer, and never changes what the reader reads from.
pub trait LineRecordSpecRecognizer {
    /// Whether `r` is an answer this recognizer stands by, with the line buffer going from
    /// `before` to `after`; of a recognizer that does not say, nothing is known.
    open spec fn recognizes_line(
        &self,
        before: LineBuffer,
        after: LineBuffer,
        record_specs: Seq<(Seq<char>, RecordSpec)>,
        r: Result<String, Error>,
    ) -> bool {
        true
    }

    fn recognize_for_line(&self, buffer: &mut LineBuffer, record_specs: &NameMap<RecordSpec>) -> (r: Result<
        String,
        Error,
    >)
        requires
            specs_fit(record_specs@),
        ensures
            final(buffer).reader_spec().contents() == old(buffer).reader_spec().contents(),
            self.recognizes_line(*old(buffer), *final(buffer), record_specs@, r),
    ;
}

impl<'a, T: LineRecordSpecRecognizer> LineRecordSpecRecognizer for &'a T {
    open spec fn recognizes_line(
        &self,
        before: LineBuffer,
        after: LineBuffer,
        record_specs: Seq<(Seq<char>, RecordSpec)>,
        r: Result<String, Error>,
    ) -> bool {
        (**self).recognizes_line(before, after, record_specs, r)
    }

    /// What the recognizer referred to answers.
    fn recognize_for_line(&self, buffer: &mut LineBuffer, record_specs: &NameMap<RecordSpec>) -> (r: Result<
        String,
        Error,
    >) {
        (**self).recognize_for_line(buffer, record_specs)
    }
}

/// Tells from the values of a record which record spec applies.
pub trait DataRecordSpecRecognizer {
    /// Whether `r` is an answer this recognizer stands by for the values `data`; of a
    /// recognizer that does not say, nothing is known.
    open spec fn recognizes_data(
        &self,
        data: Seq<(Seq<char>, String)>,
        record_specs: Seq<(Seq<char>, RecordSpec)>,
        r: Result<String, Error>,
    ) -> bool {
        true
    }

    fn recognize_for_data(&self, data: &NameMap<String>, record_specs: &NameMap<RecordSpec>) -> (r: Result<
        String,
        Error,
    >)
        ensures
            self.recognizes_data(data@, record_specs@, r),
    ;
}

impl<'a, T: DataRecordSpecRecognizer> DataRecordSpecRecognizer for &'a T {
    open spec fn recognizes_data(
        &self,
        data: Seq<(Seq<char>, String)>,
        record_specs: Seq<(Seq<char>, RecordSpec)>,
        r: Result<String, Error>,
    ) -> bool {
        (**self).recognizes_data(data, record_specs, r)
    }

    /// What the recognizer referred to answers.
    fn recognize_for_data(&self, data: &NameMap<String>, record_specs: &NameMap<RecordSpec>) -> (r: Result<
        String,
        Error,
    >) {
        (**self).recognize_for_data(data, record_specs)
    }
}

/// Recognizes the record spec whose id field holds its default value: the field named
/// `$id` unless another name is given. Record specs are tried in the order of their names.
pub struct IdFieldRecognizer {
    id_field: String,
}

/// How looking for the record whose id field holds its default comes out.
pub enum Recognition {
    Found(Seq<char>),
    NotFound,
    NotText,
}

/// The id field of `record`, as its position and its default, when it has one with a default.
pub open spec fn id_with_default(record: RecordSpec, id: Seq<char>) -> Option<(int, Seq<u8>)> {
    match position_of(record.field_specs@, id) {
        Some(p) => match record.field_specs@[p].1.default {
            Some(d) => Some((p, d@)),
            None => None,
        },
        None => None,
    }
}

/// Looking through records `i..` of `records` for one whose id field `id` holds its default
/// at the start of `data`, when the line holds the first `have` bytes of `data`.
pub open spec fn line_scan(id: Seq<char>, records: Seq<(Seq<char>, RecordSpec)>, i: nat, data: Seq<u8>, have: nat) -> Recognition
    decreases records.len() - i,
{
    if i >= records.len() {
        Recognition::NotFound
    } else {
        let record = records[i as int].1;
        match id_with_default(record, id) {
            None => line_scan(id, records, i + 1, data, have),
            Some((p, d)) => {
                let start = record.offset_of(p);
                let end = (start + record.field_specs@[p].1.length) as nat;
                let got = if have < end {
                    fill_chunk(have, end, data.skip(have as int))
                } else {
                    Seq::empty()
                };
                if !valid_utf8(got) {
                    Recognition::NotText
                } else if have + got.len() < end {
                    line_scan(id, records, i + 1, data, have + got.len())
                } else if data.subrange(start as int, end as int) == d {
                    Recognition::Found(records[i as int].0)
                } else {
                    line_scan(id, records, i + 1, data, have + got.len())
                }
            },
        }
    }
}

/// Whether `r` is the answer for the recognition `o`.
pub open spec fn answers(r: Result<String, Error>, o: Recognition) -> bool {
    match o {
        Recognition::Found(name) => r matches Ok(n) && n@ == name,
        Recognition::NotFound => r matches Err(Error::CouldNotRecognize),
        Recognition::NotText => r == Err::<String, Error>(Error::Other { repr: BoxedError::Io(IoError::InvalidData) }),
    }
}

/// Looking through records `i..` of `records` for one whose id field `id` has a default
/// that is the value `value` of the id field in the data.
pub open spec fn data_scan(id: Seq<char>, records: Seq<(Seq<char>, RecordSpec)>, i: nat, value: Option<Seq<char>>) -> Recognition
    decreases records.len() - i,
{
    if i >= records.len() {
        Recognition::NotFound
    } else {
        match (id_with_default(records[i as int].1, id), value) {
            (Some((p, d)), Some(v)) => if encode_utf8(v) == d {
                Recognition::Found(records[i as int].0)
            } else {
                data_scan(id, records, i + 1, value)
            },
            _ => data_scan(id, records, i + 1, value),
        }
    }
}

/// Whether the bytes of `line` in the range of the id field `id` of `record` (from where the
/// field starts, as long as the field) are the field's default.
pub open spec fn id_range_holds_default(record: RecordSpec, id: Seq<char>, line: Seq<u8>) -> bool {
    match id_with_default(record, id) {
        Some((p, d)) => {
            let start = record.offset_of(p);
            let end = start + record.field_specs@[p].1.length;
            end <= line.len() && line.subrange(start as int, end as int) == d
        },
        None => false,
    }
}

proof fn lemma_line_scan_from(id: Seq<char>, records: Seq<(Seq<char>, RecordSpec)>, i: nat, line: Seq<u8>)
    ensures
        match line_scan(id, records, i, line, line.len()) {
            Recognition::Found(n) => exists|k: int|
                i <= k < records.len() && records[k].0 == n && #[trigger] id_range_holds_default(records[k].1, id, line)
                    && forall|j: int| i <= j < k ==> !id_range_holds_default(#[trigger] records[j].1, id, line),
            Recognition::NotFound => forall|k: int|
                i <= k < records.len() ==> !id_range_holds_default(#[trigger] records[k].1, id, line),
            Recognition::NotText => false,
        },
    decreases records.len() - i,
{
    if i < records.len() {
        lemma_line_scan_from(id, records, i + 1, line);
        let record = records[i as int].1;
        if let Some((p, d)) = id_with_default(record, id) {
            let start = record.offset_of(p);
            let end = (start + record.field_specs@[p].1.length) as nat;
            if line.len() < end {
                assert(line.skip(line.len() as int) =~= Seq::<u8>::empty());
                assert(fill_chunk(line.len(), end, line.skip(line.len() as int)) =~= Seq::<u8>::empty());
                assert(valid_utf8(Seq::<u8>::empty()));
            } else {
                assert(valid_utf8(Seq::<u8>::empty()));
            }
        }
        if !id_range_holds_default(records[i as int].1, id, line) {
            match line_scan(id, records, i + 1, line, line.len()) {
                Recognition::Found(n) => {
                    let k = choose|k: int|
                        i + 1 <= k < records.len() && records[k].0 == n && #[trigger] id_range_holds_default(
                            records[k].1,
                            id,
                            line,
                        ) && forall|j: int| i + 1 <= j < k ==> !id_range_holds_default(#[trigger] records[j].1, id, line);
                    assert(id_range_holds_default(records[k].1, id, line));
                },
                _ => {},
            }
        } else {
            assert(id_range_holds_default(records[i as int].1, id, line));
        }
    }
}

/// Recognizing a line whose bytes are all there finds the first record spec, in the order
/// of the names, whose id field's range in the line (from where the field starts, as long
/// as the field) holds the field's default, and finds none when no record spec's does.
pub proof fn law_line_recognition_reads_id_field_range(id: Seq<char>, records: Seq<(Seq<char>, RecordSpec)>, line: Seq<u8>)
    ensures
        match line_scan(id, records, 0, line, line.len()) {
            Recognition::Found(n) => exists|k: int|
                0 <= k < records.len() && records[k].0 == n && #[trigger] id_range_holds_default(records[k].1, id, line)
                    && forall|j: int| 0 <= j < k ==> !id_range_holds_default(#[trigger] records[j].1, id, line),
            Recognition::NotFound => forall|k: int|
                0 <= k < records.len() ==> !id_range_holds_default(#[trigger] records[k].1, id, line),
            Recognition::NotText => false,
        },
{
    lemma_line_scan_from(id, records, 0, line);
}

/// Whether the id field `id` of `record` has a default that is the id value `value`.
pub open spec fn id_matches(record: RecordSpec, id: Seq<char>, value: Option<Seq<char>>) -> bool {
    match (id_with_default(record, id), value) {
        (Some((p, d)), Some(v)) => encode_utf8(v) == d,
        _ => false,
    }
}

proof fn lemma_data_scan_from(id: Seq<char>, records: Seq<(Seq<char>, RecordSpec)>, i: nat, value: Option<Seq<char>>)
    ensures
        match data_scan(id, records, i, value) {
            Recognition::Found(n) => exists|k: int|
                i <= k < records.len() && records[k].0 == n && #[trigger] id_matches(records[k].1, id, value)
                    && forall|j: int| i <= j < k ==> !id_matches(#[trigger] records[j].1, id, value),
            Recognition::NotFound => forall|k: int| i <= k < records.len() ==> !id_matches(#[trigger] records[k].1, id, value),
            Recognition::NotText => false,
        },
    decreases records.len() - i,
{
    if i < records.len() {
        lemma_data_scan_from(id, records, i + 1, value);
        if id_matches(records[i as int].1, id, value) {
            assert(id_matches(records[i as int].1, id, value));
        } else {
            match data_scan(id, records, i + 1, value) {
                Recognition::Found(n) => {
                    let k = choose|k: int|
                        i + 1 <= k < records.len() && records[k].0 == n && #[trigger] id_matches(records[k].1, id, value)
                            && forall|j: int| i + 1 <= j < k ==> !id_matches(#[trigger] records[j].1, id, value);
                    assert(id_matches(records[k].1, id, value));
                },
                _ => {},
            }
        }
    }
}

/// Recognizing from the values of a record finds the first record spec, in the order of
/// the names, whose id field has a default that is the value of the id field, and finds
/// none when no record spec has such a default.
pub proof fn law_data_recognition_finds_first_match(id: Seq<char>, records: Seq<(Seq<char>, RecordSpec)>, value: Option<Seq<char>>)
    ensures
        match data_scan(id, records, 0, value) {
            Recognition::Found(n) => exists|k: int|
                0 <= k < records.len() && records[k].0 == n && #[trigger] id_matches(records[k].1, id, value)
                    && forall|j: int| 0 <= j < k ==> !id_matches(#[trigger] records[j].1, id, value),
            Recognition::NotFound => forall|k: int| 0 <= k < records.len() ==> !id_matches(#[trigger] records[k].1, id, value),
            Recognition::NotText => false,
        },
{
    lemma_data_scan_from(id, records, 0, value);
}

impl IdFieldRecognizer {
    /// The name of the id field.
    pub closed spec fn id_spec(&self) -> Seq<char> {
        self.id_field@
    }

    /// A recognizer of the id field `$id`.
    pub fn new() -> (r: Self)
        ensures
            r.id_spec() == "$id"@,
    {
        Self::new_with_field("$id")
    }

    /// A recognizer of the id field `id_field`.
    pub fn new_with_field<T: IntoName>(id_field: T) -> (r: Self)
        ensures
            r.id_spec() == id_field.name_view(),
    {
        IdFieldRecognizer { id_field: id_field.into_name() }
    }
}

impl LineRecordSpecRecognizer for IdFieldRecognizer {
    open spec fn recognizes_line(
        &self,
        before: LineBuffer,
        after: LineBuffer,
        record_specs: Seq<(Seq<char>, RecordSpec)>,
        r: Result<String, Error>,
    ) -> bool {
        answers(
            r,
            line_scan(
                self.id_spec(),
                record_specs,
                0,
                before.line_bytes() + before.reader_spec().rest(),
                before.line_bytes().len(),
            ),
        )
    }

    fn recognize_for_line(&self, buffer: &mut LineBuffer, record_specs: &NameMap<RecordSpec>) -> (r: Result<
        String,
        Error,
    >)
        ensures
            answers(
                r,
                line_scan(
                    self.id_spec(),
                    record_specs@,
                    0,
                    old(buffer).line_bytes() + old(buffer).reader_spec().rest(),
                    old(buffer).line_bytes().len(),
                ),
            ),
    {
        let ghost data = buffer.line_bytes() + buffer.reader_spec().rest();
        let ghost specs = record_specs@;
        let ghost id = self.id_spec();
        let n = record_specs.len();
        let mut i: usize = 0;
        proof {
            use_type_invariant(&*buffer);
            assert(buffer.line_bytes() =~= data.take(buffer.line_bytes().len() as int));
            assert(buffer.reader_spec().rest() =~= data.skip(buffer.line_bytes().len() as int));
        }
        while i < n
            invariant
                specs == record_specs@,
                specs_fit(specs),
                n == specs.len(),
                i <= n,
                id == self.id_field@,
                buffer.reader_spec().contents() == old(buffer).reader_spec().contents(),
                data == old(buffer).line_bytes() + old(buffer).reader_spec().rest(),
                buffer.line_bytes().len() <= data.len(),
                buffer.line_bytes() == data.take(buffer.line_bytes().len() as int),
                buffer.reader_spec().rest() == data.skip(buffer.line_bytes().len() as int),
                line_scan(id, specs, 0, data, old(buffer).line_bytes().len()) == line_scan(
                    id,
                    specs,
                    i as nat,
                    data,
                    buffer.line_bytes().len(),
                ),
            decreases n - i,
        {
            let (name, record_spec) = record_specs.entry(i);
            assert(specs[i as int].1 == *record_spec);
            assert(record_spec.fits());
            let ghost have = buffer.line_bytes().len();
            match record_spec.field_specs.get(self.id_field.as_str()) {
                Some(field_spec) => match &field_spec.default {
                    Some(default) => {
                        let range = record_spec.field_range(self.id_field.as_str()).unwrap();
                        let ghost p = position_of(record_spec.field_specs@, id).unwrap();
                        proof {
                            crate::text::spec::lemma_total_length_prefix(record_spec.field_specs@, p);
                            crate::text::spec::lemma_total_length_prefix(record_spec.field_specs@, p + 1);
                        }
                        let end = range.start + field_spec.length;
                        let ghost rest = buffer.reader_spec().rest();
                        proof {
                            assert(rest == data.skip(have as int));
                            assert(valid_utf8(Seq::<u8>::empty())) by {
                                assert(encode_utf8(Seq::<char>::empty()) =~= Seq::<u8>::empty());
                                vstd::utf8::encode_utf8_valid_utf8(Seq::<char>::empty());
                            }
                        }
                        match buffer.fill_to(end) {
                            Ok(()) => {},
                            Err(e) => {
                                let r = Err(Error::new(e));
                                assert(line_scan(id, specs, i as nat, data, have) == Recognition::NotText);
                                return r;
                            },
                        }
                        let ghost got = if have < end {
                            fill_chunk(have, end as nat, data.skip(have as int))
                        } else {
                            Seq::<u8>::empty()
                        };
                        proof {
                            use_type_invariant(&*buffer);
                            if have < end {
                                assert(buffer.line_bytes() =~= data.take((have + got.len()) as int));
                                assert(buffer.reader_spec().rest() =~= rest.skip(got.len() as int));
                                assert(rest.skip(got.len() as int) =~= data.skip((have + got.len()) as int));
                            }
                            assert(buffer.line_bytes().len() == have + got.len());
                        }
                        let line = buffer.get_line().as_str().as_bytes();
                        if line.len() < end {
                            i = i + 1;
                            continue;
                        }
                        let found = crate::padding::bytes_equal(
                            vstd::slice::slice_subrange(line, range.start, end),
                            default.as_slice(),
                        );
                        if found {
                            assert(data.subrange(range.start as int, end as int) =~= line@.subrange(
                                range.start as int,
                                end as int,
                            ));
                            return Ok(name.clone());
                        }
                        assert(data.subrange(range.start as int, end as int) =~= line@.subrange(
                            range.start as int,
                            end as int,
                        ));
                    },
                    None => {},
                },
                None => {},
            }
            i = i + 1;
        }
        Err(Error::CouldNotRecognize)
    }
}

impl DataRecordSpecRecognizer for IdFieldRecognizer {
    open spec fn recognizes_data(
        &self,
        data: Seq<(Seq<char>, String)>,
        record_specs: Seq<(Seq<char>, RecordSpec)>,
        r: Result<String, Error>,
    ) -> bool {
        answers(
            r,
            data_scan(
                self.id_spec(),
                record_specs,
                0,
                match lookup(data, self.id_spec()) {
                    Some(v) => Some(v@),
                    None => None,
                },
            ),
        )
    }

    fn recognize_for_data(&self, data: &NameMap<String>, record_specs: &NameMap<RecordSpec>) -> (r: Result<
        String,
        Error,
    >)
        ensures
            answers(
                r,
                data_scan(
                    self.id_spec(),
                    record_specs@,
                    0,
                    match lookup(data@, self.id_spec()) {
                        Some(v) => Some(v@),
                        None => None,
                    },
                ),
            ),
    {
        let ghost value = match lookup(data@, self.id_spec()) {
            Some(v) => Some(v@),
            None => None::<Seq<char>>,
        };
        let ghost specs = record_specs@;
        let n = record_specs.len();
        let mut i: usize = 0;
        while i < n
            invariant
                specs == record_specs@,
                n == specs.len(),
                i <= n,
                value == match lookup(data@, self.id_field@) {
                    Some(v) => Some(v@),
                    None => None::<Seq<char>>,
                },
                data_scan(self.id_field@, specs, 0, value) == data_scan(self.id_field@, specs, i as nat, value),
            decreases n - i,
        {
            let (name, record_spec) = record_specs.entry(i);
            assert(specs[i as int].1 == *record_spec);
            match record_spec.field_specs.get(self.id_field.as_str()) {
                Some(field_spec) => match &field_spec.default {
                    Some(default) => match data.get(self.id_field.as_str()) {
                        Some(string) => {
                            if crate::padding::bytes_equal(string.as_str().as_bytes(), default.as_slice()) {
                                return Ok(name.clone());
                            }
                        },
                        None => {},
                    },
                    None => {},
                },
                None => {},
            }
            i = i + 1;
        }
        Err(Error::CouldNotRecognize)
    }
}

/// Recognizes no record spec.
pub struct NoneRecognizer;

impl LineRecordSpecRecognizer for NoneRecognizer {
    open spec fn recognizes_line(
        &self,
        before: LineBuffer,
        after: LineBuffer,
        record_specs: Seq<(Seq<char>, RecordSpec)>,
        r: Result<String, Error>,
    ) -> bool {
        (r matches Err(Error::CouldNotRecognize)) && after == before
    }

    fn recognize_for_line(&self, buffer: &mut LineBuffer, record_specs: &NameMap<RecordSpec>) -> (r: Result<
        String,
        Error,
    >)
        ensures
            r matches Err(Error::CouldNotRecognize),
            *final(buffer) == *old(buffer),
    {
        Err(Error::CouldNotRecognize)
    }
}

impl DataRecordSpecRecognizer for NoneRecognizer {
    open spec fn recognizes_data(
        &self,
        data: Seq<(Seq<char>, String)>,
        record_specs: Seq<(Seq<char>, RecordSpec)>,
        r: Result<String, Error>,
    ) -> bool {
        r matches Err(Error::CouldNotRecognize)
    }

    fn recognize_for_data(&self, data: &NameMap<String>, record_specs: &NameMap<RecordSpec>) -> (r: Result<
        String,
        Error,
    >)
        ensures
            r matches Err(Error::CouldNotRecognize),
    {
        Err(Error::CouldNotRecognize)
    }
}

} // verus!
