//! Reading text records: each field is the text of its bytes with the padding taken off.
use vstd::prelude::*;
use vstd::string::StringSliceAdditionalSpecFns;
use vstd::utf8::{decode_utf8, encode_utf8, valid_utf8};
use crate::error::BoxedError;
use crate::io::{ByteReader, IoError};
use crate::names::{NameMap, lookup, sorted_by_name, name_lt};
use crate::text::{Error, IntoRecordName, PositionalError, is_at_field, is_at_record};
use crate::text::padders::{IdentityPadder, UnPadder};
use crate::text::recognizers::{self, LineBuffer, LineRecordSpecRecognizer, NoneRecognizer, specs_fit};
use crate::text::record::{Record, RecordData};
use crate::text::spec::{FieldSpec, RecordSpec, RecordSpecs, total_length, lemma_total_length_prefix};

verus! {

broadcast use vstd::utf8::encode_utf8_decode_utf8, vstd::utf8::decode_utf8_encode_utf8;

/// The text that `bytes` hold, when they are valid UTF-8.
pub open spec fn text_of(bytes: Seq<u8>) -> Option<Seq<char>> {
    if valid_utf8(bytes) {
        Some(decode_utf8(bytes))
    } else {
        None
    }
}

/// Whether `r` is what reading a field of `field_spec` with `un_padder` from `input` gives.
pub open spec fn reads_field<P: UnPadder>(p: &P, field_spec: FieldSpec, input: Seq<u8>, r: Result<String, Error>) -> bool {
    if field_spec.length > input.len() {
        r matches Err(Error::IoError(IoError::UnexpectedEof))
    } else {
        match text_of(input.take(field_spec.length as int)) {
            None => r matches Err(Error::IoError(IoError::InvalidData)),
            Some(text) => match text_of(field_spec.padding@) {
                None => r matches Err(Error::IoError(IoError::InvalidData)),
                Some(padding) => match p.unpad_result(text, padding, field_spec.padding_direction) {
                    Ok(v) => r matches Ok(s) && s@ == v,
                    Err(b) => r matches Err(Error::PadderFailure(e)) && e.repr_spec() == b,
                },
            },
        }
    }
}

/// How taking the values of the fields of a record out of its bytes came out.
pub enum FieldsOutcome {
    /// The names and values of the fields that are no fillers, in order.
    Read(Seq<(Seq<char>, Seq<char>)>),
    /// The bytes of field `i`, or its padding, were not text.
    NotText(nat),
    /// The unpadder failed on field `i`.
    Failed(nat, BoxedError),
}

/// Taking the values of fields `i..` out of the bytes `line` of a record, when the fields
/// before them gave `values`.
pub open spec fn fields_outcome<P: UnPadder>(
    p: &P,
    fields: Seq<(Seq<char>, FieldSpec)>,
    line: Seq<u8>,
    i: nat,
    values: Seq<(Seq<char>, Seq<char>)>,
) -> FieldsOutcome
    decreases fields.len() - i,
{
    if i >= fields.len() {
        FieldsOutcome::Read(values)
    } else {
        let field = fields[i as int].1;
        if field.filler {
            fields_outcome(p, fields, line, i + 1, values)
        } else {
            let start = total_length(fields.take(i as int));
            let bytes = line.subrange(start as int, start + field.length);
            match (text_of(bytes), text_of(field.padding@)) {
                (Some(text), Some(padding)) => match p.unpad_result(text, padding, field.padding_direction) {
                    Ok(v) => fields_outcome(p, fields, line, i + 1, values.push((fields[i as int].0, v))),
                    Err(b) => FieldsOutcome::Failed(i, b),
                },
                _ => FieldsOutcome::NotText(i),
            }
        }
    }
}

/// Whether `data` holds the values `values`: by name, or in order.
pub open spec fn holds_values<Y: RecordData>(data: Y, values: Seq<(Seq<char>, Seq<char>)>) -> bool {
    &&& Y::by_name() ==> forall|k: Seq<char>| #[trigger] data.value_of(k) == lookup(values, k)
    &&& !Y::by_name() ==> data.values() == values.map_values(|e: (Seq<char>, Seq<char>)| e.1)
}

/// The bytes of a line ending that reading one of `ending` takes from `input`.
pub open spec fn ending_read(ending: Seq<u8>, input: Seq<u8>) -> Seq<u8> {
    if ending.len() <= input.len() {
        input.take(ending.len() as int)
    } else {
        input
    }
}

/// Whether `r` is what reading the line ending `ending` from `input` gives.
pub open spec fn absorbs_ending(ending: Seq<u8>, input: Seq<u8>, r: Result<(), Error>) -> bool {
    let got = ending_read(ending, input);
    if got.len() != 0 && !valid_utf8(got) {
        r matches Err(Error::IoError(IoError::InvalidData))
    } else if got.len() != 0 && got != ending {
        r matches Err(Error::StringDoesNotMatchLineEnding(x, a)) && x@ == ending && a@ == got
    } else {
        r is Ok
    }
}

/// Whether `r` is what reading a record named `name` from `input` gives, with the record
/// specs `specs` and the unpadder `p`.
pub open spec fn reads_record<P: UnPadder, Y: RecordData>(
    p: &P,
    specs: Seq<(Seq<char>, RecordSpec)>,
    name: Seq<char>,
    input: Seq<u8>,
    r: Result<Record<Y>, PositionalError>,
) -> bool {
    match lookup(specs, name) {
        None => r matches Err(e) && e.position is None && (e.error matches Error::RecordSpecNotFound(n) && n@ == name),
        Some(record) => {
            let len = record.spec_len();
            let fields = record.field_specs@;
            if len > input.len() {
                r matches Err(e) && is_at_record(e, name) && e.error matches Error::IoError(IoError::UnexpectedEof)
            } else if !valid_utf8(input.take(len as int)) {
                r matches Err(e) && is_at_record(e, name) && e.error matches Error::IoError(IoError::InvalidData)
            } else {
                match fields_outcome(p, fields, input.take(len as int), 0, Seq::empty()) {
                    FieldsOutcome::NotText(i) => r matches Err(e) && is_at_field(e, name, fields[i as int].0)
                        && e.error matches Error::IoError(IoError::InvalidData),
                    FieldsOutcome::Failed(i, b) => r matches Err(e) && is_at_field(e, name, fields[i as int].0)
                        && (e.error matches Error::PadderFailure(x) && x.repr_spec() == b),
                    FieldsOutcome::Read(values) => {
                        let got = ending_read(record.line_ending@, input.skip(len as int));
                        if got.len() != 0 && !valid_utf8(got) {
                            r matches Err(e) && is_at_record(e, name) && e.error matches Error::IoError(
                                IoError::InvalidData,
                            )
                        } else if got.len() != 0 && got != record.line_ending@ {
                            r matches Err(e) && is_at_record(e, name) && (e.error matches Error::StringDoesNotMatchLineEnding(
                                x,
                                a,
                            ) && x@ == record.line_ending@ && a@ == got)
                        } else {
                            r matches Ok(rec) && rec.name@ == name && holds_values(rec.data, values)
                        }
                    },
                }
            }
        },
    }
}

/// What a recognizer gave, with the name as text.
pub open spec fn recognition_view(r: Result<String, recognizers::Error>) -> Result<Seq<char>, recognizers::Error> {
    match r {
        Ok(n) => Ok(n@),
        Err(e) => Err(e),
    }
}

/// Whether `r` is what reading a record from `input` gives when the recognizer gave
/// `rec`: the record of the name it recognized, or the lack of a name when it recognized
/// none, or its failure.
pub open spec fn recognized_read<P: UnPadder, Y: RecordData>(
    p: &P,
    specs: Seq<(Seq<char>, RecordSpec)>,
    input: Seq<u8>,
    rec: Result<Seq<char>, recognizers::Error>,
    r: Result<Record<Y>, PositionalError>,
) -> bool {
    match rec {
        Ok(n) => reads_record(p, specs, n, input, r),
        Err(recognizers::Error::CouldNotRecognize) => r matches Err(e) && e.position is None
            && e.error is RecordSpecNameRequired,
        Err(x) => r matches Err(e) && e.position is None && e.error == Error::RecognizerFailure(x),
    }
}

/// How many bytes reading a record named `name` takes from `input`, when it is read.
pub open spec fn record_consumed(specs: Seq<(Seq<char>, RecordSpec)>, name: Seq<char>, input: Seq<u8>) -> nat {
    match lookup(specs, name) {
        Some(record) => record.spec_len() + ending_read(
            record.line_ending@,
            input.skip(record.spec_len() as int),
        ).len(),
        None => 0,
    }
}

/// Reads text records and fields out of bytes, with the record specs `specs`.
pub struct Reader<T: UnPadder, U: LineRecordSpecRecognizer, V: RecordSpecs> {
    un_padder: T,
    recognizer: U,
    specs: V,
}

impl<T: UnPadder, U: LineRecordSpecRecognizer, V: RecordSpecs> Reader<T, U, V> {
    pub closed spec fn un_padder_spec(&self) -> T {
        self.un_padder
    }

    pub closed spec fn recognizer_spec(&self) -> U {
        self.recognizer
    }

    pub closed spec fn specs_spec(&self) -> NameMap<RecordSpec> {
        self.specs.specs_view()
    }

    /// Reads the field named `name` of the record named `record_name`.
    pub fn read_field(&self, reader: &mut ByteReader, record_name: String, name: String) -> (r: Result<String, Error>)
        ensures
            final(reader).contents() == old(reader).contents(),
            match lookup(self.specs_spec()@, record_name@) {
                None => (r matches Err(Error::RecordSpecNotFound(n)) && n@ == record_name@) && *final(reader)
                    == *old(reader),
                Some(record) => match lookup(record.field_specs@, name@) {
                    None => (r matches Err(Error::FieldSpecNotFound(a, b)) && a@ == record_name@ && b@ == name@)
                        && *final(reader) == *old(reader),
                    Some(field) => reads_field(&self.un_padder_spec(), field, old(reader).rest(), r) && (field.length
                        <= old(reader).rest().len() ==> final(reader).pos() == old(reader).pos() + field.length),
                },
            },
    {
        let specs = self.specs.record_specs();
        let record_spec = match specs.get(record_name.as_str()) {
            Some(s) => s,
            None => {
                return Err(Error::RecordSpecNotFound(record_name));
            },
        };
        let field_spec = match record_spec.field_specs.get(name.as_str()) {
            Some(f) => f,
            None => {
                return Err(Error::FieldSpecNotFound(record_name, name));
            },
        };
        let mut bytes: Vec<u8> = Vec::new();
        match reader.read_exact(field_spec.length, &mut bytes) {
            Ok(()) => {},
            Err(e) => {
                return Err(Error::IoError(e));
            },
        }
        assert(bytes@ =~= old(reader).rest().take(field_spec.length as int));
        self.unpad_field(bytes.as_slice(), field_spec)
    }

    /// The value of a field whose bytes are `bytes`.
    fn unpad_field(&self, bytes: &[u8], field_spec: &FieldSpec) -> (r: Result<String, Error>)
        ensures
            match text_of(bytes@) {
                None => r matches Err(Error::IoError(IoError::InvalidData)),
                Some(text) => match text_of(field_spec.padding@) {
                    None => r matches Err(Error::IoError(IoError::InvalidData)),
                    Some(padding) => match self.un_padder_spec().unpad_result(
                        text,
                        padding,
                        field_spec.padding_direction,
                    ) {
                        Ok(v) => r matches Ok(s) && s@ == v,
                        Err(b) => r matches Err(Error::PadderFailure(e)) && e.repr_spec() == b,
                    },
                },
            },
    {
        let text = match crate::data_type::str_from_utf8(bytes) {
            Some(t) => t,
            None => {
                return Err(Error::IoError(IoError::InvalidData));
            },
        };
        let padding = match crate::data_type::str_from_utf8(field_spec.padding.as_slice()) {
            Some(t) => t,
            None => {
                return Err(Error::IoError(IoError::InvalidData));
            },
        };
        proof {
            assert(decode_utf8(text.spec_bytes()) == text@);
            assert(decode_utf8(padding.spec_bytes()) == padding@);
        }
        match self.un_padder.unpad(text.to_owned(), &padding.to_owned(), field_spec.padding_direction) {
            Ok(v) => Ok(v),
            Err(e) => Err(Error::PadderFailure(e)),
        }
    }

    /// Reads a line ending of `line_ending`: whatever of it is left must be text and match it.
    pub fn absorb_line_ending(&self, reader: &mut ByteReader, line_ending: &[u8]) -> (r: Result<(), Error>)
        ensures
            final(reader).contents() == old(reader).contents(),
            final(reader).pos() == old(reader).pos() + ending_read(line_ending@, old(reader).rest()).len(),
            absorbs_ending(line_ending@, old(reader).rest(), r),
    {
        let mut ending: Vec<u8> = Vec::new();
        let count = reader.read_up_to(line_ending.len(), &mut ending);
        assert(ending@ =~= ending_read(line_ending@, old(reader).rest()));
        if count != 0 {
            if crate::data_type::str_from_utf8(ending.as_slice()).is_none() {
                return Err(Error::IoError(IoError::InvalidData));
            }
            if !crate::padding::bytes_equal(ending.as_slice(), line_ending) {
                return Err(Error::StringDoesNotMatchLineEnding(vstd::slice::slice_to_vec(line_ending), ending));
            }
        }
        Ok(())
    }
}

/// Looking a name up in sorted entries with one more entry, of a name after all the others.
proof fn lemma_lookup_push<V>(s: Seq<(Seq<char>, V)>, n: Seq<char>, v: V, k: Seq<char>)
    requires
        sorted_by_name(s.push((n, v))),
    ensures
        lookup(s.push((n, v)), k) == if k == n {
            Some(v)
        } else {
            lookup(s, k)
        },
{
    let t = s.push((n, v));
    assert(t[s.len() as int].0 == n);
    crate::names::lemma_sorted_position_unique(t, s.len() as int, n);
    if k != n {
        match crate::names::position_of(s, k) {
            Some(j) => {
                assert(t[j] == s[j]);
                crate::names::lemma_sorted_position_unique(t, j, k);
            },
            None => {
                assert forall|j: int| 0 <= j < t.len() implies t[j].0 != k by {
                    if j < s.len() {
                        assert(t[j] == s[j]);
                    }
                }
            },
        }
    }
}

impl<T: UnPadder, U: LineRecordSpecRecognizer, V: RecordSpecs> Reader<T, U, V> {
    /// Reads a record named `name`.
    fn read_named_record<Y: RecordData>(&self, reader: &mut ByteReader, name: String) -> (r: Result<
        Record<Y>,
        PositionalError,
    >)
        requires
            specs_fit(self.specs_spec()@),
        ensures
            final(reader).contents() == old(reader).contents(),
            reads_record(&self.un_padder_spec(), self.specs_spec()@, name@, old(reader).rest(), r),
            r is Ok ==> final(reader).pos() == old(reader).pos() + record_consumed(
                self.specs_spec()@,
                name@,
                old(reader).rest(),
            ),
    {
        let ghost input = reader.rest();
        let specs = self.specs.record_specs();
        let record_spec = match specs.get(name.as_str()) {
            Some(s) => s,
            None => {
                return Err(PositionalError::from_error(Error::RecordSpecNotFound(name)));
            },
        };
        proof {
            let i = crate::names::position_of(specs@, name@).unwrap();
            assert(specs@[i].1 == *record_spec);
            assert(record_spec.fits());
        }
        let len = record_spec.len();
        let mut line: Vec<u8> = Vec::new();
        match reader.read_exact(len, &mut line) {
            Ok(()) => {},
            Err(e) => {
                return Err(PositionalError::at_record(Error::IoError(e), name));
            },
        }
        assert(line@ =~= input.take(len as int));
        assert(reader.rest() =~= input.skip(len as int));
        if crate::data_type::str_from_utf8(line.as_slice()).is_none() {
            return Err(PositionalError::at_record(Error::IoError(IoError::InvalidData), name));
        }
        assert(lookup(self.specs_spec()@, name@) == Some(*record_spec));
        let ghost fields = record_spec.field_specs@;
        let ghost p = self.un_padder;
        let n = record_spec.field_specs.len();
        let mut data = Y::new();
        let mut offset: usize = 0;
        let mut i: usize = 0;
        let ghost mut values: Seq<(Seq<char>, Seq<char>)> = Seq::empty();
        let ghost mut from: Seq<int> = Seq::empty();
        proof {
            assert(fields.take(0) =~= Seq::<(Seq<char>, FieldSpec)>::empty());
            assert(holds_values(data, values)) by {
                assert(values.map_values(|e: (Seq<char>, Seq<char>)| e.1) =~= Seq::<Seq<char>>::empty());
            }
        }
        while i < n
            invariant
                fields == record_spec.field_specs@,
                reader.contents() == old(reader).contents(),
                input == old(reader).rest(),
                len <= input.len(),
                line@ == input.take(len as int),
                valid_utf8(line@),
                lookup(self.specs_spec()@, name@) == Some(*record_spec),
                n == fields.len(),
                sorted_by_name(fields),
                record_spec.fits(),
                len == record_spec.spec_len(),
                line@.len() == len,
                p == self.un_padder,
                i <= n,
                offset == total_length(fields.take(i as int)),
                fields_outcome(&p, fields, line@, 0, Seq::empty()) == fields_outcome(&p, fields, line@, i as nat, values),
                holds_values(data, values),
                from.len() == values.len(),
                forall|j: int| 0 <= j < values.len() ==> 0 <= #[trigger] from[j] < i && values[j].0 == fields[from[j]].0,
                forall|a: int, b: int| 0 <= a < b < values.len() ==> #[trigger] from[a] < #[trigger] from[b],
            decreases n - i,
        {
            let (field_name, field_spec) = record_spec.field_specs.entry(i);
            assert(fields[i as int].1 == *field_spec);
            proof {
                lemma_total_length_prefix(fields, i as int);
                lemma_total_length_prefix(fields, i + 1);
            }
            if !field_spec.filler {
                let bytes = vstd::slice::slice_subrange(line.as_slice(), offset, offset + field_spec.length);
                match self.unpad_field(bytes, field_spec) {
                    Ok(v) => {
                        let ghost next = values.push((field_name@, v@));
                        proof {
                            assert forall|a: int, b: int| 0 <= a < b < next.len() implies name_lt(
                                #[trigger] next[a].0,
                                #[trigger] next[b].0,
                            ) by {
                                if b < values.len() {
                                    assert(from[a] < from[b]);
                                } else {
                                    assert(from[a] < i);
                                }
                            }
                            if Y::by_name() {
                                assert forall|k: Seq<char>| true implies lookup(next, k) == if k == field_name@ {
                                    Some(v@)
                                } else {
                                    lookup(values, k)
                                } by {
                                    lemma_lookup_push(values, field_name@, v@, k);
                                }
                            }
                        }
                        let ghost before = data;
                        data.insert(field_name.clone(), v);
                        proof {
                            if Y::by_name() {
                                assert forall|k: Seq<char>| #[trigger] data.value_of(k) == lookup(next, k) by {
                                    lemma_lookup_push(values, field_name@, v@, k);
                                }
                            } else {
                                assert(next.map_values(|e: (Seq<char>, Seq<char>)| e.1) =~= values.map_values(
                                    |e: (Seq<char>, Seq<char>)| e.1,
                                ).push(v@));
                            }
                            values = next;
                            from = from.push(i as int);
                        }
                    },
                    Err(e) => {
                        return Err(PositionalError::at_field(e, name, field_name.clone()));
                    },
                }
            }
            offset = offset + field_spec.length;
            i = i + 1;
        }
        proof {
            assert(fields.take(n as int) =~= fields);
        }
        match self.absorb_line_ending(reader, record_spec.line_ending.as_slice()) {
            Ok(()) => {},
            Err(e) => {
                return Err(PositionalError::at_record(e, name));
            },
        }
        Ok(Record { data, name })
    }

    /// Reads a record: the one named `record_name`, or, when no name is given, the one that
    /// the recognizer recognizes from the start of the line.
    pub fn read_record<X: IntoRecordName, Y: RecordData>(&self, reader: &mut ByteReader, record_name: X) -> (r: Result<
        Record<Y>,
        PositionalError,
    >)
        requires
            specs_fit(self.specs_spec()@),
        ensures
            final(reader).contents() == old(reader).contents(),
            match record_name.record_name_view() {
                Some(n) => reads_record(&self.un_padder_spec(), self.specs_spec()@, n, old(reader).rest(), r) && (
                r is Ok ==> final(reader).pos() == old(reader).pos() + record_consumed(
                    self.specs_spec()@,
                    n,
                    old(reader).rest(),
                )),
                None => (r matches Ok(rec) ==> reads_record(
                    &self.un_padder_spec(),
                    self.specs_spec()@,
                    rec.name@,
                    old(reader).rest(),
                    r,
                ) && final(reader).pos() == old(reader).pos() + record_consumed(
                    self.specs_spec()@,
                    rec.name@,
                    old(reader).rest(),
                )) && exists|before: LineBuffer, after: LineBuffer, rec: Result<String, recognizers::Error>|
                    #[trigger] self.recognizer_spec().recognizes_line(before, after, self.specs_spec()@, rec)
                        && before.reader_spec() == *old(reader) && before.line_spec() == Seq::<char>::empty()
                        && recognized_read(
                        &self.un_padder_spec(),
                        self.specs_spec()@,
                        old(reader).rest(),
                        recognition_view(rec),
                        r,
                    ),
            },
    {
        let name = match record_name.into_record_name() {
            Some(n) => n,
            None => {
                let start = reader.position();
                let mut source = ByteReader::new(Vec::<u8>::new());
                std::mem::swap(&mut source, reader);
                proof {
                    assert(encode_utf8(Seq::<char>::empty()) =~= Seq::<u8>::empty());
                }
                let mut buffer = LineBuffer::new(source, String::new());
                let ghost before_buffer = buffer;
                let specs = self.specs.record_specs();
                let recognized = self.recognizer.recognize_for_line(&mut buffer, specs);
                let ghost after_buffer = buffer;
                let ghost recg = recognized;
                assert(self.recognizer_spec().recognizes_line(before_buffer, after_buffer, self.specs_spec()@, recg));
                let (source, _line) = buffer.into_inner();
                let mut source = source;
                std::mem::swap(&mut source, reader);
                let ghost rec = recognition_view(recognized);
                match recognized {
                    Ok(n) => {
                        reader.set_position(start);
                        assert(reader.rest() == old(reader).rest());
                        let ghost nv = n@;
                        let r = self.read_named_record(reader, n);
                        assert(reads_record(&self.un_padder_spec(), self.specs_spec()@, nv, old(reader).rest(), r));
                        assert(recognized_read(&self.un_padder_spec(), self.specs_spec()@, old(reader).rest(), rec, r));
                        return r;
                    },
                    Err(recognizers::Error::CouldNotRecognize) => {
                        let r = Err(PositionalError::from_error(Error::RecordSpecNameRequired));
                        assert(recognized_read(&self.un_padder_spec(), self.specs_spec()@, old(reader).rest(), rec, r));
                        return r;
                    },
                    Err(e) => {
                        let r = Err(PositionalError::from_error(Error::RecognizerFailure(e)));
                        assert(recognized_read(&self.un_padder_spec(), self.specs_spec()@, old(reader).rest(), rec, r));
                        return r;
                    },
                }
            },
        };
        let ghost n = name@;
        let r = self.read_named_record(reader, name);
        assert(reads_record(&self.un_padder_spec(), self.specs_spec()@, n, old(reader).rest(), r));
        r
    }
}

/// Builds a reader: an unpadder that leaves values as they are and no recognizer, unless
/// others are given; the record specs must be given.
pub struct ReaderBuilder<T: UnPadder, U: LineRecordSpecRecognizer, V: RecordSpecs> {
    un_padder: T,
    recognizer: U,
    specs: Option<V>,
}

impl<V: RecordSpecs> ReaderBuilder<IdentityPadder, NoneRecognizer, V> {
    pub fn new() -> (b: Self)
        ensures
            b.un_padder_spec() == IdentityPadder,
            b.recognizer_spec() == NoneRecognizer,
            b.specs_spec() is None,
    {
        ReaderBuilder { un_padder: IdentityPadder, recognizer: NoneRecognizer, specs: None }
    }
}

impl<T: UnPadder, U: LineRecordSpecRecognizer, V: RecordSpecs> ReaderBuilder<T, U, V> {
    pub closed spec fn un_padder_spec(&self) -> T {
        self.un_padder
    }

    pub closed spec fn recognizer_spec(&self) -> U {
        self.recognizer
    }

    pub closed spec fn specs_spec(&self) -> Option<V> {
        self.specs
    }

    pub fn with_un_padder<W: UnPadder>(self, un_padder: W) -> (b: ReaderBuilder<W, U, V>)
        ensures
            b.un_padder_spec() == un_padder,
            b.recognizer_spec() == self.recognizer_spec(),
            b.specs_spec() == self.specs_spec(),
    {
        ReaderBuilder { un_padder, recognizer: self.recognizer, specs: self.specs }
    }

    pub fn with_recognizer<W: LineRecordSpecRecognizer>(self, recognizer: W) -> (b: ReaderBuilder<T, W, V>)
        ensures
            b.un_padder_spec() == self.un_padder_spec(),
            b.recognizer_spec() == recognizer,
            b.specs_spec() == self.specs_spec(),
    {
        ReaderBuilder { un_padder: self.un_padder, recognizer, specs: self.specs }
    }

    pub fn with_specs(self, specs: V) -> (b: Self)
        ensures
            b.un_padder_spec() == self.un_padder_spec(),
            b.recognizer_spec() == self.recognizer_spec(),
            b.specs_spec() == Some(specs),
    {
        ReaderBuilder { un_padder: self.un_padder, recognizer: self.recognizer, specs: Some(specs) }
    }

    /// The reader, once the record specs are given.
    pub fn build(self) -> (r: Reader<T, U, V>)
        requires
            self.specs_spec() is Some,
        ensures
            r.un_padder_spec() == self.un_padder_spec(),
            r.recognizer_spec() == self.recognizer_spec(),
            Some(r.specs_spec()) == match self.specs_spec() {
                Some(v) => Some(v.specs_view()),
                None => None,
            },
    {
        Reader { un_padder: self.un_padder, recognizer: self.recognizer, specs: self.specs.unwrap() }
    }
}

} // verus!
