//! Writing text records: each field is its value padded to the field's length.
use vstd::prelude::*;
use vstd::string::StringSliceAdditionalSpecFns;
use vstd::utf8::{decode_utf8, encode_utf8, valid_utf8};
use crate::error::BoxedError;
use crate::io::{ByteWriter, IoError, overwritten};
use crate::writer::{lemma_overwritten_append, lemma_room_after_write};
use crate::names::{IntoName, NameMap, lookup};
use crate::text::IntoRecordName;
use crate::text::padders::{IdentityPadder, Padder, byte_len};
use crate::text::reader::text_of;
use crate::text::recognizers::{DataRecordSpecRecognizer, NoneRecognizer};
use crate::text::spec::{FieldSpec, RecordSpec, RecordSpecs};

verus! {

broadcast use vstd::utf8::encode_utf8_decode_utf8, vstd::utf8::decode_utf8_encode_utf8;

/// What went wrong while writing text records.
#[derive(Debug)]
pub enum Error {
    /// No record name was given, and none could be recognized.
    RecordSpecNameRequired,
    /// No record spec has this name.
    RecordSpecNotFound(String),
    /// The record spec of the first name has no field of the second.
    FieldSpecNotFound(String, String),
    /// The padder failed.
    PaddingFailed(crate::text::padders::Error),
    /// The padded value should have been the first number of bytes long, and was the second.
    PaddedValueNotLongEnough(usize, usize),
    /// Writing the bytes failed, or a padding or default was not text.
    IoError(IoError),
    /// Fewer bytes (second) were written than were due (first).
    NotEnoughWritten(usize, usize),
    /// The field of the record spec (first) named second has no value and no default.
    FieldValueRequired(String, String),
}

/// Why writing a field failed.
pub enum WriteFailure {
    ValueRequired,
    NotText,
    PaddingFailed(BoxedError),
    WrongLength(usize, usize),
    NoRoom,
}

/// The bytes of the value `value` in a field of `field_spec`, padded by `p`.
pub open spec fn padded_bytes<P: Padder>(p: &P, field_spec: FieldSpec, value: Seq<char>) -> Result<Seq<u8>, WriteFailure> {
    match text_of(field_spec.padding@) {
        None => Err(WriteFailure::NotText),
        Some(padding) => match p.pad_result(value, field_spec.length, padding, field_spec.padding_direction) {
            Err(b) => Err(WriteFailure::PaddingFailed(b)),
            Ok(s) => if byte_len(s) != field_spec.length {
                Err(WriteFailure::WrongLength(field_spec.length, byte_len(s)))
            } else {
                Ok(encode_utf8(s))
            },
        },
    }
}

/// How writing a field came out: the bytes it wrote, or why it failed, with all the bytes
/// it had been asked to write up to then.
pub enum WriteOutcome {
    Written(Seq<u8>),
    Failed(nat, WriteFailure, Seq<u8>),
}

/// Writing the value `value` in field `i` of a record, with `written` before it, into a
/// destination with room for `room` bytes.
pub open spec fn field_write<P: Padder>(
    p: &P,
    field_spec: FieldSpec,
    value: Seq<char>,
    i: nat,
    written: Seq<u8>,
    room: nat,
) -> WriteOutcome {
    match padded_bytes(p, field_spec, value) {
        Err(f) => WriteOutcome::Failed(i, f, written),
        Ok(b) => if written.len() + b.len() > room {
            WriteOutcome::Failed(i, WriteFailure::NoRoom, written + b)
        } else {
            WriteOutcome::Written(written + b)
        },
    }
}

/// Writing fields `i..` of a record with the values `data`, after `written`, into a
/// destination with room for `room` bytes.
pub open spec fn record_write<P: Padder>(
    p: &P,
    fields: Seq<(Seq<char>, FieldSpec)>,
    data: Seq<(Seq<char>, String)>,
    room: nat,
    i: nat,
    written: Seq<u8>,
) -> WriteOutcome
    decreases fields.len() - i,
{
    if i >= fields.len() {
        WriteOutcome::Written(written)
    } else {
        let field = fields[i as int].1;
        let value = match lookup(data, fields[i as int].0) {
            Some(v) => Ok(v@),
            None => match field.default {
                None => Err(WriteFailure::ValueRequired),
                Some(d) => match text_of(d@) {
                    None => Err(WriteFailure::NotText),
                    Some(t) => Ok(t),
                },
            },
        };
        match value {
            Err(f) => WriteOutcome::Failed(i, f, written),
            Ok(v) => match field_write(p, field, v, i, written, room) {
                WriteOutcome::Written(w) => record_write(p, fields, data, room, i + 1, w),
                failed => failed,
            },
        }
    }
}

/// Whether `e` is the error for `f` in the field named `field` of the record named `record`.
pub open spec fn is_failure(e: Error, f: WriteFailure, record: Seq<char>, field: Seq<char>) -> bool {
    match f {
        WriteFailure::ValueRequired => e matches Error::FieldValueRequired(a, b) && a@ == record && b@ == field,
        WriteFailure::NotText => e matches Error::IoError(IoError::InvalidData),
        WriteFailure::PaddingFailed(b) => e matches Error::PaddingFailed(x) && x.repr_spec() == b,
        WriteFailure::WrongLength(x, y) => e == Error::PaddedValueNotLongEnough(x, y),
        WriteFailure::NoRoom => e matches Error::IoError(IoError::WriteZero),
    }
}

/// Whether writing `attempted` went as far as there was room for, from `before` to `after`.
pub open spec fn wrote(before: ByteWriter, after: ByteWriter, attempted: Seq<u8>) -> bool {
    let n = if attempted.len() <= before.room() {
        attempted.len()
    } else {
        before.room()
    };
    &&& after.contents() == overwritten(before.contents(), before.pos() as int, attempted.take(n as int))
    &&& after.pos() == before.pos() + n
    &&& after.is_fixed() == before.is_fixed()
}

/// Whether `r`, and the destination going from `before` to `after`, are what writing the
/// record named `name` with the values `data` gives.
pub open spec fn writes_record<P: Padder>(
    p: &P,
    specs: Seq<(Seq<char>, RecordSpec)>,
    name: Seq<char>,
    data: Seq<(Seq<char>, String)>,
    before: ByteWriter,
    after: ByteWriter,
    r: Result<(), Error>,
) -> bool {
    match lookup(specs, name) {
        None => (r matches Err(Error::RecordSpecNotFound(n)) && n@ == name) && after == before,
        Some(record) => match record_write(p, record.field_specs@, data, before.room(), 0, Seq::empty()) {
            WriteOutcome::Written(w) => r is Ok && wrote(before, after, w),
            WriteOutcome::Failed(i, f, w) => (r matches Err(e) && is_failure(e, f, name, record.field_specs@[i as int].0))
                && wrote(before, after, w),
        },
    }
}

/// Writes text records and fields, with the record specs `specs`.
pub struct Writer<T: Padder, U: DataRecordSpecRecognizer, V: RecordSpecs> {
    padder: T,
    recognizer: U,
    specs: V,
}

impl<T: Padder, U: DataRecordSpecRecognizer, V: RecordSpecs> Writer<T, U, V> {
    pub closed spec fn padder_spec(&self) -> T {
        self.padder
    }

    pub closed spec fn recognizer_spec(&self) -> U {
        self.recognizer
    }

    pub closed spec fn specs_spec(&self) -> NameMap<RecordSpec> {
        self.specs.specs_view()
    }

    /// Writes `value` padded to a field of `field_spec`.
    fn write_padded(&self, writer: &mut ByteWriter, field_spec: &FieldSpec, value: String) -> (r: Result<(), Error>)
        ensures
            match field_write(&self.padder_spec(), *field_spec, value@, 0, Seq::empty(), old(writer).room()) {
                WriteOutcome::Written(w) => r is Ok && wrote(*old(writer), *final(writer), w),
                WriteOutcome::Failed(_, f, w) => (r matches Err(e) && is_failure(e, f, Seq::empty(), Seq::empty()))
                    && wrote(*old(writer), *final(writer), w),
            },
    {
        let _ = writer.position();
        proof {
            assert(Seq::<u8>::empty().take(0) =~= Seq::<u8>::empty());
            assert(overwritten(writer.contents(), writer.pos() as int, Seq::empty()) =~= writer.contents());
        }
        let padding = match crate::data_type::str_from_utf8(field_spec.padding.as_slice()) {
            Some(t) => t,
            None => {
                return Err(Error::IoError(IoError::InvalidData));
            },
        };
        proof {
            assert(decode_utf8(padding.spec_bytes()) == padding@);
        }
        let padded = match self.padder.pad(value, field_spec.length, &padding.to_owned(), field_spec.padding_direction) {
            Ok(v) => v,
            Err(e) => {
                return Err(Error::PaddingFailed(e));
            },
        };
        let bytes = padded.as_str().as_bytes();
        if bytes.len() != field_spec.length {
            return Err(Error::PaddedValueNotLongEnough(field_spec.length, bytes.len()));
        }
        assert(Seq::<u8>::empty() + bytes@ =~= bytes@);
        match writer.write_all(bytes) {
            Ok(()) => Ok(()),
            Err(e) => Err(Error::IoError(e)),
        }
    }
}

impl<T: Padder, U: DataRecordSpecRecognizer, V: RecordSpecs> Writer<T, U, V> {
    /// Writes `value` as the field named `name` of the record named `record_name`.
    pub fn write_field<X: IntoName, Y: IntoName, Z: IntoName>(
        &self,
        writer: &mut ByteWriter,
        record_name: X,
        name: Y,
        value: Z,
    ) -> (r: Result<(), Error>)
        ensures
            match lookup(self.specs_spec()@, record_name.name_view()) {
                None => (r matches Err(Error::RecordSpecNotFound(n)) && n@ == record_name.name_view()) && *final(writer)
                    == *old(writer),
                Some(record) => match lookup(record.field_specs@, name.name_view()) {
                    None => (r matches Err(Error::FieldSpecNotFound(a, b)) && a@ == record_name.name_view() && b@
                        == name.name_view()) && *final(writer) == *old(writer),
                    Some(field) => match field_write(
                        &self.padder_spec(),
                        field,
                        value.name_view(),
                        0,
                        Seq::empty(),
                        old(writer).room(),
                    ) {
                        WriteOutcome::Written(w) => r is Ok && wrote(*old(writer), *final(writer), w),
                        WriteOutcome::Failed(_, f, w) => (r matches Err(e) && is_failure(
                            e,
                            f,
                            record_name.name_view(),
                            name.name_view(),
                        )) && wrote(*old(writer), *final(writer), w),
                    },
                },
            },
    {
        let record_name = record_name.into_name();
        let name = name.into_name();
        let specs = self.specs.record_specs();
        let record_spec = match specs.get(record_name.as_str()) {
            Some(s) => s,
            None => {
                return Err(Error::RecordSpecNotFound(record_name));
            },
        };
        let field_spec = match record_spec.field_specs.get(name.as_str()) {
            Some(f) => f,
            None => {
                return Err(Error::FieldSpecNotFound(record_name, name));
            },
        };
        self.write_padded(writer, field_spec, value.into_name())
    }

    /// Writes a record with the values `data`: the one named `record_name`, or, when no name
    /// is given, the one that the recognizer recognizes from the values. A field without a
    /// value takes its default.
    #[verifier::rlimit(40)]
    pub fn write_record<X: IntoRecordName>(&self, writer: &mut ByteWriter, record_name: X, data: NameMap<String>) -> (r: Result<
        (),
        Error,
    >)
        ensures
            match record_name.record_name_view() {
                Some(n) => writes_record(
                    &self.padder_spec(),
                    self.specs_spec()@,
                    n,
                    data@,
                    *old(writer),
                    *final(writer),
                    r,
                ),
                None => exists|rec: Result<String, crate::text::recognizers::Error>|
                    #[trigger] self.recognizer_spec().recognizes_data(data@, self.specs_spec()@, rec) && match rec {
                        Ok(n) => writes_record(
                            &self.padder_spec(),
                            self.specs_spec()@,
                            n@,
                            data@,
                            *old(writer),
                            *final(writer),
                            r,
                        ),
                        Err(_) => (r matches Err(Error::RecordSpecNameRequired)) && *final(writer) == *old(writer),
                    },
            },
    {
        let specs = self.specs.record_specs();
        let ghost mut recg: Result<String, crate::text::recognizers::Error> = Err(
            crate::text::recognizers::Error::CouldNotRecognize,
        );
        let name = match record_name.into_record_name() {
            Some(n) => n,
            None => {
                let recognized = self.recognizer.recognize_for_data(&data, specs);
                proof {
                    recg = recognized;
                }
                match recognized {
                    Ok(n) => n,
                    Err(_) => {
                        assert(self.recognizer_spec().recognizes_data(data@, self.specs_spec()@, recg));
                        return Err(Error::RecordSpecNameRequired);
                    },
                }
            },
        };
        assert(record_name.record_name_view() is None ==> self.recognizer_spec().recognizes_data(
            data@,
            self.specs_spec()@,
            recg,
        ) && (recg matches Ok(m) && m@ == name@));
        let ghost name_view = name@;
        let record_spec = match specs.get(name.as_str()) {
            Some(s) => s,
            None => {
                let r = Err(Error::RecordSpecNotFound(name));
                assert(writes_record(&self.padder_spec(), specs@, name_view, data@, *old(writer), *writer, r));
                return r;
            },
        };
        let n = record_spec.field_specs.len();
        let ghost fields = record_spec.field_specs@;
        let ghost p = self.padder;
        let ghost start = *writer;
        let ghost mut written: Seq<u8> = Seq::empty();
        let mut i: usize = 0;
        let _ = writer.position();
        proof {
            assert(overwritten(start.contents(), start.pos() as int, Seq::<u8>::empty()) =~= start.contents());
        }
        while i < n
            invariant
                n == fields.len(),
                fields == record_spec.field_specs@,
                p == self.padder,
                lookup(self.specs_spec()@, name_view) == Some(*record_spec),
                name@ == name_view,
                match record_name.record_name_view() {
                    Some(x) => x == name_view,
                    None => self.recognizer_spec().recognizes_data(data@, self.specs_spec()@, recg) && (recg matches Ok(
                        m,
                    ) && m@ == name_view),
                },
                i <= n,
                start == *old(writer),
                start.room() <= usize::MAX,
                record_write(&p, fields, data@, start.room(), 0, Seq::empty()) == record_write(
                    &p,
                    fields,
                    data@,
                    start.room(),
                    i as nat,
                    written,
                ),
                written.len() <= start.room(),
                writer.is_fixed() == start.is_fixed(),
                writer.contents() == overwritten(start.contents(), start.pos() as int, written),
                writer.pos() == start.pos() + written.len(),
                writer.room() == start.room() - written.len(),
            decreases n - i,
        {
            let (field_name, field_spec) = record_spec.field_specs.entry(i);
            assert(fields[i as int].1 == *field_spec);
            let ghost before = *writer;
            let value: String = match data.get(field_name.as_str()) {
                Some(v) => v.clone(),
                None => match &field_spec.default {
                    None => {
                        assert(written.take(written.len() as int) =~= written);
                        let r = Err(Error::FieldValueRequired(name, field_name.clone()));
                        assert(writes_record(&self.padder_spec(), self.specs_spec()@, name_view, data@, *old(writer), *writer, r));
                        return r;
                    },
                    Some(d) => match crate::data_type::str_from_utf8(d.as_slice()) {
                        None => {
                            assert(written.take(written.len() as int) =~= written);
                            let r = Err(Error::IoError(IoError::InvalidData));
                            assert(writes_record(&self.padder_spec(), self.specs_spec()@, name_view, data@, *old(writer), *writer, r));
                            return r;
                        },
                        Some(t) => {
                            assert(decode_utf8(t.spec_bytes()) == t@);
                            t.to_owned()
                        },
                    },
                },
            };
            let result = self.write_padded(writer, field_spec, value);
            let ghost attempted = match field_write(&p, *field_spec, value@, 0, Seq::empty(), before.room()) {
                WriteOutcome::Written(w) => w,
                WriteOutcome::Failed(_, _, w) => w,
            };
            let _ = writer.position();
            proof {
                let k = if attempted.len() <= before.room() {
                    attempted.len()
                } else {
                    before.room()
                };
                lemma_overwritten_append(start.contents(), start.pos() as int, written, attempted.take(k as int));
                assert(Seq::<u8>::empty() + attempted.take(k as int) =~= attempted.take(k as int));
                let all = written + attempted;
                let m = if all.len() <= start.room() {
                    all.len()
                } else {
                    start.room()
                };
                assert(written + attempted.take(k as int) =~= all.take(m as int));
            }
            match result {
                Ok(()) => {},
                Err(e) => {
                    let r = Err(e);
                    assert(writes_record(&self.padder_spec(), self.specs_spec()@, name_view, data@, *old(writer), *writer, r));
                    return r;
                },
            }
            proof {
                assert(attempted.take(attempted.len() as int) =~= attempted);
                lemma_room_after_write(before, *writer, attempted);
                written = written + attempted;
            }
            i = i + 1;
        }
        assert(written.take(written.len() as int) =~= written);
        let r = Ok(());
        assert(writes_record(&self.padder_spec(), self.specs_spec()@, name_view, data@, *old(writer), *writer, r));
        r
    }
}

/// Builds a writer: a padder that leaves values as they are and no recognizer, unless
/// others are given; the record specs must be given.
pub struct WriterBuilder<T: Padder, U: DataRecordSpecRecognizer, V: RecordSpecs> {
    padder: T,
    recognizer: U,
    specs: Option<V>,
}

impl<V: RecordSpecs> WriterBuilder<IdentityPadder, NoneRecognizer, V> {
    pub fn new() -> (b: Self)
        ensures
            b.padder_spec() == IdentityPadder,
            b.recognizer_spec() == NoneRecognizer,
            b.specs_spec() is None,
    {
        WriterBuilder { padder: IdentityPadder, recognizer: NoneRecognizer, specs: None }
    }
}

impl<T: Padder, U: DataRecordSpecRecognizer, V: RecordSpecs> WriterBuilder<T, U, V> {
    pub closed spec fn padder_spec(&self) -> T {
        self.padder
    }

    pub closed spec fn recognizer_spec(&self) -> U {
        self.recognizer
    }

    pub closed spec fn specs_spec(&self) -> Option<V> {
        self.specs
    }

    pub fn with_padder<W: Padder>(self, padder: W) -> (b: WriterBuilder<W, U, V>)
        ensures
            b.padder_spec() == padder,
            b.recognizer_spec() == self.recognizer_spec(),
            b.specs_spec() == self.specs_spec(),
    {
        WriterBuilder { padder, recognizer: self.recognizer, specs: self.specs }
    }

    pub fn with_recognizer<W: DataRecordSpecRecognizer>(self, recognizer: W) -> (b: WriterBuilder<T, W, V>)
        ensures
            b.padder_spec() == self.padder_spec(),
            b.recognizer_spec() == recognizer,
            b.specs_spec() == self.specs_spec(),
    {
        WriterBuilder { padder: self.padder, recognizer, specs: self.specs }
    }

    pub fn with_specs(self, specs: V) -> (b: Self)
        ensures
            b.padder_spec() == self.padder_spec(),
            b.recognizer_spec() == self.recognizer_spec(),
            b.specs_spec() == Some(specs),
    {
        WriterBuilder { padder: self.padder, recognizer: self.recognizer, specs: Some(specs) }
    }

    /// The writer, once the record specs are given.
    pub fn build(self) -> (w: Writer<T, U, V>)
        requires
            self.specs_spec() is Some,
        ensures
            w.padder_spec() == self.padder_spec(),
            w.recognizer_spec() == self.recognizer_spec(),
            Some(w.specs_spec()) == match self.specs_spec() {
                Some(v) => Some(v.specs_view()),
                None => None,
            },
    {
        Writer { padder: self.padder, recognizer: self.recognizer, specs: self.specs.unwrap() }
    }
}

} // verus!
