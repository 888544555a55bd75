//! Writing fields and records as bytes.
//!
//! A field's value is the data's bytes for it, or else its default; the field formatter
//! makes the bytes to write out of it, which must be exactly as long as the field. A
//! record writes its fields one after another, in the order of their names, then its
//! line ending.
pub mod spec;

use vstd::prelude::*;
use crate::data_type::WriteSupporter;
use crate::error::{BoxedError, Error, FieldError, PositionalError};
use crate::formatter::{self, FieldFormatter};
use crate::io::{ByteWriter, IoError, overwritten};
use crate::names::{NameMap, lookup};
use crate::record::{Data, DataRanges};
use crate::reader::concat_values;
use crate::spec::{clone_bytes, opt_bytes, FieldSpec, RecordSpec};
use self::spec::Stream as SpecSource;

verus! {

/// How much of `b` a write to `w` takes.
pub open spec fn written_len(w: ByteWriter, b: Seq<u8>) -> nat {
    if b.len() <= w.room() {
        b.len()
    } else {
        w.room()
    }
}

/// How writing a field came out before anything was written.
pub enum FieldOutcome {
    /// The bytes to write.
    Formatted(Seq<u8>),
    /// The formatter failed.
    FormatFailed(formatter::Error),
    /// The formatter gave a value of the wrong length.
    WrongLength(Seq<u8>),
}

/// What formatting `data` for `field_spec` gives.
pub open spec fn field_outcome<F: FieldFormatter<U>, U: WriteSupporter>(
    f: &F,
    u: &U,
    data: Seq<u8>,
    field_spec: FieldSpec,
) -> FieldOutcome {
    match f.format_result(data, field_spec) {
        Err(e) => FieldOutcome::FormatFailed(e),
        Ok(s) => if u.length_of(s) == (field_spec.length as nat, 0nat) {
            FieldOutcome::Formatted(s)
        } else {
            FieldOutcome::WrongLength(s)
        },
    }
}

/// Writes single fields.
pub struct FieldWriter<T: FieldFormatter<U>, U: WriteSupporter> {
    formatter: T,
    write_type: U,
}

impl<T: FieldFormatter<U>, U: WriteSupporter> FieldWriter<T, U> {
    pub closed spec fn formatter_spec(&self) -> &T {
        &self.formatter
    }

    pub closed spec fn type_spec(&self) -> &U {
        &self.write_type
    }

    pub fn new(formatter: T, write_type: U) -> (r: Self)
        ensures
            *r.formatter_spec() == formatter,
            *r.type_spec() == write_type,
    {
        FieldWriter { formatter, write_type }
    }

    pub fn write_type(&self) -> (r: &U)
        ensures
            *r == *self.type_spec(),
    {
        &self.write_type
    }

    /// Writes the field of `spec` whose value is `data`, formatting it in `buffer`, and
    /// says how many bytes it wrote.
    pub fn write(&self, writer: &mut ByteWriter, spec: &FieldSpec, data: &[u8], buffer: &mut Vec<u8>) -> (r: Result<
        usize,
        Error,
    >)
        ensures
            final(writer).is_fixed() == old(writer).is_fixed(),
            match field_outcome(self.formatter_spec(), self.type_spec(), data@, *spec) {
                FieldOutcome::FormatFailed(e) => (r matches Err(Error::FormatterFailure(b)) && b == e.repr_spec())
                    && *final(writer) == *old(writer),
                FieldOutcome::WrongLength(s) => (r matches Err(Error::FormattedValueWrongLength(l, v)) && l
                    == spec.length && v@ == s) && *final(writer) == *old(writer),
                FieldOutcome::Formatted(s) => {
                    &&& final(writer).contents() == overwritten(
                        old(writer).contents(),
                        old(writer).pos() as int,
                        s.take(written_len(*old(writer), s) as int),
                    )
                    &&& final(writer).pos() == old(writer).pos() + written_len(*old(writer), s)
                    &&& s.len() <= old(writer).room() ==> r == Ok::<usize, Error>(s.len() as usize)
                    &&& s.len() > old(writer).room() ==> r matches Err(Error::IoError(IoError::WriteZero))
                },
            },
    {
        buffer.clear();
        match self.formatter.format(data, spec, buffer, &self.write_type) {
            Ok(()) => {},
            Err(e) => {
                return Err(Error::FormatterFailure(e.into_boxed()));
            },
        }
        proof {
            assert(buffer@ =~= Seq::<u8>::empty() + buffer@);
        }
        let length = self.write_type.get_length(buffer.as_slice());
        if length.length != spec.length || length.remainder > 0 {
            return Err(Error::FormattedValueWrongLength(spec.length, clone_bytes(buffer)));
        }
        match writer.write_all(buffer.as_slice()) {
            Ok(()) => Ok(buffer.len()),
            Err(e) => Err(Error::IoError(e)),
        }
    }
}

/// The value of a field: what the data holds for it, or else its default.
pub open spec fn field_value<U: WriteSupporter, W: DataRanges>(
    u: &U,
    name: Seq<char>,
    field_spec: FieldSpec,
    data: &Data<W, U::DataHolder>,
) -> Option<Seq<u8>> {
    match data.ranges.range_of(name) {
        Some((s, e)) => Some(u.bytes_of(data.data).subrange(s as int, e as int)),
        None => opt_bytes(field_spec.default),
    }
}

/// How writing the fields of a record came out.
pub enum FieldsWriteOutcome {
    /// The bytes of every field, all of which fit.
    Formatted(Seq<Seq<u8>>),
    /// Field `index` had no value and no default.
    Missing { index: nat, before: Seq<Seq<u8>> },
    /// Formatting field `index` failed.
    Failed { index: nat, outcome: FieldOutcome, before: Seq<Seq<u8>> },
    /// The bytes of field `index`, `piece`, did not fit.
    Overflow { index: nat, piece: Seq<u8>, before: Seq<Seq<u8>> },
}

/// Writing fields `i..` into `room` bytes, when the ones before them gave `pieces`.
pub open spec fn fields_write_outcome<F: FieldFormatter<U>, U: WriteSupporter, W: DataRanges>(
    f: &F,
    u: &U,
    fields: Seq<(Seq<char>, FieldSpec)>,
    data: &Data<W, U::DataHolder>,
    room: nat,
    i: nat,
    pieces: Seq<Seq<u8>>,
) -> FieldsWriteOutcome
    decreases fields.len() - i,
{
    if i >= fields.len() {
        FieldsWriteOutcome::Formatted(pieces)
    } else {
        match field_value(u, fields[i as int].0, fields[i as int].1, data) {
            None => FieldsWriteOutcome::Missing { index: i, before: pieces },
            Some(v) => match field_outcome(f, u, v, fields[i as int].1) {
                FieldOutcome::Formatted(s) => if concat_values(pieces).len() + s.len() > room {
                    FieldsWriteOutcome::Overflow { index: i, piece: s, before: pieces }
                } else {
                    fields_write_outcome(f, u, fields, data, room, i + 1, pieces.push(s))
                },
                other => FieldsWriteOutcome::Failed { index: i, outcome: other, before: pieces },
            },
        }
    }
}

/// Whether `piece` is what the field `field` was written as: its value in `data`, or else
/// its default, formatted.
pub open spec fn written_as<F: FieldFormatter<U>, U: WriteSupporter, W: DataRanges>(
    f: &F,
    u: &U,
    field: (Seq<char>, FieldSpec),
    data: &Data<W, U::DataHolder>,
    piece: Seq<u8>,
) -> bool {
    field_value(u, field.0, field.1, data) matches Some(v) && field_outcome(f, u, v, field.1) == FieldOutcome::Formatted(
        piece,
    )
}

proof fn lemma_fields_written_from<F: FieldFormatter<U>, U: WriteSupporter, W: DataRanges>(
    f: &F,
    u: &U,
    fields: Seq<(Seq<char>, FieldSpec)>,
    data: &Data<W, U::DataHolder>,
    room: nat,
    i: nat,
    pieces: Seq<Seq<u8>>,
    out: Seq<Seq<u8>>,
)
    requires
        i <= fields.len(),
        fields_write_outcome(f, u, fields, data, room, i, pieces) == FieldsWriteOutcome::Formatted(out),
    ensures
        out.len() == pieces.len() + (fields.len() - i),
        forall|j: int| 0 <= j < pieces.len() ==> out[j] == pieces[j],
        forall|k: int|
            pieces.len() <= k < out.len() ==> written_as(f, u, fields[i + k - pieces.len()], data, #[trigger] out[k]),
    decreases fields.len() - i,
{
    if i < fields.len() {
        let v = field_value(u, fields[i as int].0, fields[i as int].1, data)->0;
        let s = field_outcome(f, u, v, fields[i as int].1)->Formatted_0;
        let ni = (i + 1) as nat;
        let ps = pieces.push(s);
        lemma_fields_written_from(f, u, fields, data, room, ni, ps, out);
        assert forall|k: int| pieces.len() <= k < out.len() implies written_as(
            f,
            u,
            fields[i + k - pieces.len()],
            data,
            #[trigger] out[k],
        ) by {
            if k == pieces.len() {
                assert(out[k] == ps[k]);
            } else {
                assert(ni + k - ps.len() == i + k - pieces.len());
            }
        }
        assert forall|j: int| 0 <= j < pieces.len() implies out[j] == pieces[j] by {
            assert(out[j] == ps[j]);
        }
    } else {
        assert(out =~= pieces);
    }
}

proof fn lemma_fields_missing_from<F: FieldFormatter<U>, U: WriteSupporter, W: DataRanges>(
    f: &F,
    u: &U,
    fields: Seq<(Seq<char>, FieldSpec)>,
    data: &Data<W, U::DataHolder>,
    room: nat,
    i: nat,
    pieces: Seq<Seq<u8>>,
)
    requires
        i <= fields.len(),
    ensures
        fields_write_outcome(f, u, fields, data, room, i, pieces) matches FieldsWriteOutcome::Missing { index, .. }
            ==> i <= index < fields.len() && field_value(u, fields[index as int].0, fields[index as int].1, data)
            is None,
    decreases fields.len() - i,
{
    if i < fields.len() {
        match field_value(u, fields[i as int].0, fields[i as int].1, data) {
            None => {},
            Some(v) => match field_outcome(f, u, v, fields[i as int].1) {
                FieldOutcome::Formatted(s) => {
                    lemma_fields_missing_from(f, u, fields, data, room, (i + 1) as nat, pieces.push(s));
                },
                _ => {},
            },
        }
    }
}

/// Whether `piece` is what the value that `data` holds for the field `field` formats to,
/// or, where `data` has no value for it, what its default formats to.
pub open spec fn piece_from_data<F: FieldFormatter<U>, U: WriteSupporter, W: DataRanges>(
    f: &F,
    u: &U,
    field: (Seq<char>, FieldSpec),
    data: &Data<W, U::DataHolder>,
    piece: Seq<u8>,
) -> bool {
    match data.ranges.range_of(field.0) {
        Some((s, e)) => field_outcome(f, u, u.bytes_of(data.data).subrange(s as int, e as int), field.1)
            == FieldOutcome::Formatted(piece),
        None => field.1.default matches Some(d) && field_outcome(f, u, d@, field.1) == FieldOutcome::Formatted(piece),
    }
}

/// Whether `out` holds, for each field, the piece that `piece_from_data` says.
pub open spec fn pieces_from_data<F: FieldFormatter<U>, U: WriteSupporter, W: DataRanges>(
    f: &F,
    u: &U,
    fields: Seq<(Seq<char>, FieldSpec)>,
    data: &Data<W, U::DataHolder>,
    out: Seq<Seq<u8>>,
) -> bool {
    &&& out.len() == fields.len()
    &&& forall|j: int| 0 <= j < fields.len() ==> piece_from_data(f, u, fields[j], data, #[trigger] out[j])
}

proof fn lemma_written_piece_from_data<F: FieldFormatter<U>, U: WriteSupporter, W: DataRanges>(
    f: &F,
    u: &U,
    field: (Seq<char>, FieldSpec),
    data: &Data<W, U::DataHolder>,
    piece: Seq<u8>,
)
    requires
        written_as(f, u, field, data, piece),
    ensures
        piece_from_data(f, u, field, data, piece),
{
}

/// Writing a record takes for each field the value that the data holds for it whenever the
/// data has that field, its default only when the data does not: when every field is
/// formatted, the bytes of each field are what its value, or else its default, formats to;
/// and the writing misses a field only when the data has no value and the field no default.
pub proof fn law_written_values_come_from_data<F: FieldFormatter<U>, U: WriteSupporter, W: DataRanges>(
    f: &F,
    u: &U,
    fields: Seq<(Seq<char>, FieldSpec)>,
    data: &Data<W, U::DataHolder>,
    room: nat,
)
    ensures
        fields_write_outcome(f, u, fields, data, room, 0, Seq::empty()) is Formatted ==> pieces_from_data(
            f,
            u,
            fields,
            data,
            fields_write_outcome(f, u, fields, data, room, 0, Seq::empty())->Formatted_0,
        ),
        fields_write_outcome(f, u, fields, data, room, 0, Seq::empty()) is Missing ==> ({
            let index = fields_write_outcome(f, u, fields, data, room, 0, Seq::empty())->Missing_index;
            index < fields.len() && data.ranges.range_of(fields[index as int].0) is None
                && fields[index as int].1.default is None
        }),
{
    lemma_fields_missing_from(f, u, fields, data, room, 0, Seq::empty());
    if let FieldsWriteOutcome::Formatted(out) = fields_write_outcome(f, u, fields, data, room, 0, Seq::empty()) {
        lemma_fields_written_from(f, u, fields, data, room, 0, Seq::empty(), out);
        assert forall|j: int| 0 <= j < fields.len() implies piece_from_data(f, u, fields[j], data, #[trigger] out[j]) by {
            assert(0 + j - Seq::<Seq<u8>>::empty().len() == j);
            lemma_written_piece_from_data(f, u, fields[j], data, out[j]);
        }
        assert(pieces_from_data(f, u, fields, data, out));
    }
}

/// Writes whole records.
pub struct RecordWriter<T: FieldFormatter<U>, U: WriteSupporter> {
    field_writer: FieldWriter<T, U>,
}

proof fn lemma_concat_step(values: Seq<Seq<u8>>, i: int)
    requires
        0 <= i < values.len(),
    ensures
        concat_values(values.take(i + 1)) == concat_values(values.take(i)) + values[i],
{
    assert(values.take(i + 1).drop_last() =~= values.take(i));
}

/// Writing bytes that fit takes their length off the room.
pub(crate) proof fn lemma_room_after_write(before: ByteWriter, after: ByteWriter, b: Seq<u8>)
    requires
        b.len() <= before.room(),
        after.contents() == overwritten(before.contents(), before.pos() as int, b),
        after.pos() == before.pos() + b.len(),
        after.is_fixed() == before.is_fixed(),
        after.pos() <= usize::MAX,
    ensures
        after.room() == before.room() - b.len(),
{
    let d = before.contents();
    let p = before.pos() as int;
    if b.len() == 0 {
        assert(after.contents() == d);
    } else if before.is_fixed() {
        assert(p + b.len() <= d.len());
        if p + b.len() < d.len() {
            assert(after.contents().len() == d.len());
        } else {
            assert(after.contents().len() == p + b.len());
        }
        assert(after.room() == (after.contents().len() - after.pos()) as nat);
        assert(before.room() == (d.len() - p) as nat);
        assert(after.contents().len() - after.pos() == d.len() - p - b.len());
    } else {
        assert(after.room() == (usize::MAX - after.pos()) as nat);
        assert(before.room() == (usize::MAX - p) as nat);
        assert(usize::MAX - after.pos() == usize::MAX - p - b.len());
    }
}

pub(crate) proof fn lemma_overwritten_append(d: Seq<u8>, p: int, a: Seq<u8>, b: Seq<u8>)
    requires
        0 <= p,
    ensures
        overwritten(overwritten(d, p, a), p + a.len(), b) == overwritten(d, p, a + b),
{
    let x = overwritten(d, p, a);
    if a.len() == 0 {
        assert(a + b =~= b);
    } else if b.len() == 0 {
        assert(a + b =~= a);
    } else {
        assert(x.len() >= p + a.len());
        assert(overwritten(x, p + a.len(), b) =~= overwritten(d, p, a + b));
    }
}

/// What writing a record of `spec` out of `data` with `rw` comes to, from `before` to
/// `after`.
pub open spec fn record_write<T: FieldFormatter<U>, U: WriteSupporter, W: DataRanges>(
    rw: &RecordWriter<T, U>,
    spec: RecordSpec,
    data: &Data<W, U::DataHolder>,
    start: ByteWriter,
    finish: ByteWriter,
    r: Result<usize, FieldError>,
) -> bool {
    &&& finish.is_fixed() == start.is_fixed()
    &&& match fields_write_outcome(
        rw.field_writer_spec().formatter_spec(),
        rw.field_writer_spec().type_spec(),
        spec.field_specs@,
        data,
        start.room(),
        0,
        Seq::empty(),
    ) {
        FieldsWriteOutcome::Missing { index, before } => {
            &&& (r matches Err(e) && e.error is FieldValueRequired && field_is(
                e,
                spec.field_specs@[index as int].0,
            ))
            &&& finish.contents() == overwritten(
                start.contents(),
                start.pos() as int,
                concat_values(before),
            )
        },
        FieldsWriteOutcome::Failed { index, outcome, before } => {
            &&& (r matches Err(e) && field_is(e, spec.field_specs@[index as int].0) && failure_is(
                e.error,
                outcome,
                spec.field_specs@[index as int].1.length,
            ))
            &&& finish.contents() == overwritten(
                start.contents(),
                start.pos() as int,
                concat_values(before),
            )
        },
        FieldsWriteOutcome::Overflow { index, piece, before } => {
            &&& (r matches Err(e) && field_is(e, spec.field_specs@[index as int].0) && e.error
                == Error::IoError(IoError::WriteZero))
            &&& finish.contents() == overwritten(
                start.contents(),
                start.pos() as int,
                (concat_values(before) + piece).take(start.room() as int),
            )
        },
        FieldsWriteOutcome::Formatted(pieces) => {
            let bytes = concat_values(pieces) + spec.line_ending@;
            let n = written_len(start, bytes);
            &&& finish.contents() == overwritten(
                start.contents(),
                start.pos() as int,
                bytes.take(n as int),
            )
            &&& bytes.len() <= start.room() ==> r == Ok::<usize, FieldError>(bytes.len() as usize)
            &&& bytes.len() > start.room() ==> (r matches Err(e) && e.field is None && e.error
                == Error::IoError(IoError::WriteZero))
        },
    }
}

impl<T: FieldFormatter<U>, U: WriteSupporter> RecordWriter<T, U> {
    pub closed spec fn field_writer_spec(&self) -> &FieldWriter<T, U> {
        &self.field_writer
    }

    pub fn new(field_writer: FieldWriter<T, U>) -> (r: Self)
        ensures
            *r.field_writer_spec() == field_writer,
    {
        RecordWriter { field_writer }
    }

    pub fn write_type(&self) -> (r: &U)
        ensures
            *r == *self.field_writer_spec().type_spec(),
    {
        self.field_writer.write_type()
    }

    /// Writes a line ending to `writer`; when there is no room for all of it, writes what
    /// fits and fails.
    pub fn write_line_ending(&self, writer: &mut ByteWriter, line_ending: &[u8]) -> (r: Result<(), Error>)
        ensures
            line_ending@.len() <= old(writer).room() ==> r is Ok,
            line_ending@.len() > old(writer).room() ==> r == Err::<(), Error>(Error::IoError(IoError::WriteZero)),
            final(writer).contents() == overwritten(
                old(writer).contents(),
                old(writer).pos() as int,
                line_ending@.take(
                    if line_ending@.len() <= old(writer).room() {
                        line_ending@.len() as int
                    } else {
                        old(writer).room() as int
                    },
                ),
            ),
            final(writer).pos() == old(writer).pos() + if line_ending@.len() <= old(writer).room() {
                line_ending@.len()
            } else {
                old(writer).room()
            },
            final(writer).is_fixed() == old(writer).is_fixed(),
    {
        match writer.write_all(line_ending) {
            Ok(()) => Ok(()),
            Err(e) => Err(Error::IoError(e)),
        }
    }

    /// Writes a record of `spec` out of `data`: its fields, then its line ending; says
    /// how many bytes it wrote.
    #[verifier::rlimit(40)]
    pub fn write<W: DataRanges>(
        &self,
        writer: &mut ByteWriter,
        spec: &RecordSpec,
        data: &Data<W, U::DataHolder>,
        buffer: &mut Vec<u8>,
    ) -> (r: Result<usize, FieldError>)
        requires
            forall|k: Seq<char>, s: nat, e: nat|
                data.ranges.range_of(k) == Some((s, e)) ==> self.field_writer_spec().type_spec().get_data_accepts(
                    data.data,
                    s,
                    e,
                ),
        ensures
            record_write(self, *spec, data, *old(writer), *final(writer), r),
    {
        let n = spec.field_specs.len();
        let ghost fields = spec.field_specs@;
        let ghost f = &self.field_writer.formatter;
        let ghost u = &self.field_writer.write_type;
        let ghost start = *writer;
        let ghost mut pieces: Seq<Seq<u8>> = Seq::empty();
        let mut amount: usize = 0;
        let mut i: usize = 0;
        let _ = writer.position();
        proof {
            assert(*u == *self.field_writer_spec().type_spec());
            assert(start.room() <= usize::MAX);
            assert(concat_values(pieces) =~= Seq::<u8>::empty());
            assert(overwritten(start.contents(), start.pos() as int, Seq::<u8>::empty()) =~= start.contents());
        }
        while i < n
            invariant
                n == fields.len(),
                fields == spec.field_specs@,
                f == &self.field_writer.formatter,
                u == &self.field_writer.write_type,
                i <= n,
                pieces.len() == i,
                start == *old(writer),
                start.room() <= usize::MAX,
                forall|k: Seq<char>, s: nat, e: nat|
                    data.ranges.range_of(k) == Some((s, e)) ==> u.get_data_accepts(data.data, s, e),
                fields_write_outcome(f, u, fields, data, start.room(), 0, Seq::empty()) == fields_write_outcome(
                    f,
                    u,
                    fields,
                    data,
                    start.room(),
                    i as nat,
                    pieces,
                ),
                concat_values(pieces).len() <= start.room(),
                amount == concat_values(pieces).len(),
                writer.is_fixed() == start.is_fixed(),
                writer.contents() == overwritten(start.contents(), start.pos() as int, concat_values(pieces)),
                writer.pos() == start.pos() + concat_values(pieces).len(),
                writer.room() == start.room() - concat_values(pieces).len(),
            decreases n - i,
        {
            let (name, field_spec) = spec.field_specs.entry(i);
            let field_data: &[u8] = match self.field_writer.write_type().get_data_by_name(name.as_str(), data) {
                Some(d) => d,
                None => match &field_spec.default {
                    Some(d) => d.as_slice(),
                    None => {
                        return Err(FieldError::at_field(Error::FieldValueRequired, name.as_str()));
                    },
                },
            };
            let ghost before = *writer;
            proof {
                assert(field_value(u, fields[i as int].0, fields[i as int].1, data) == Some(field_data@));
            }
            let written = match self.field_writer.write(writer, field_spec, field_data, buffer) {
                Ok(w) => w,
                Err(e) => {
                    proof {
                        if let FieldOutcome::Formatted(s) = field_outcome(f, u, field_data@, *field_spec) {
                            lemma_overwritten_append(
                                start.contents(),
                                start.pos() as int,
                                concat_values(pieces),
                                s.take(written_len(before, s) as int),
                            );
                            assert(concat_values(pieces) + s.take(written_len(before, s) as int) =~= (concat_values(
                                pieces,
                            ) + s).take(start.room() as int));
                        }
                    }
                    return Err(FieldError::at_field(e, name.as_str()));
                },
            };
            let _ = writer.position();
            let ghost s = match field_outcome(f, u, field_data@, *field_spec) {
                FieldOutcome::Formatted(s) => s,
                _ => Seq::empty(),
            };
            proof {
                let np = pieces.push(s);
                lemma_concat_step(np, i as int);
                assert(np.take(i as int) =~= pieces);
                assert(np.take(i + 1) =~= np);
                assert(np.drop_last() =~= pieces);
                lemma_overwritten_append(start.contents(), start.pos() as int, concat_values(pieces), s);
                assert(s.take(s.len() as int) =~= s);
                lemma_room_after_write(before, *writer, s);
                pieces = np;
            }
            amount = amount + written;
            i = i + 1;
        }
        let ghost fields_bytes = concat_values(pieces);
        let ghost before_ending = *writer;
        match writer.write_all(spec.line_ending.as_slice()) {
            Ok(()) => {},
            Err(e) => {
                proof {
                    lemma_overwritten_append(
                        start.contents(),
                        start.pos() as int,
                        fields_bytes,
                        spec.line_ending@.take(written_len(before_ending, spec.line_ending@) as int),
                    );
                    assert(fields_bytes + spec.line_ending@.take(written_len(before_ending, spec.line_ending@) as int)
                        =~= (fields_bytes + spec.line_ending@).take(
                        written_len(start, fields_bytes + spec.line_ending@) as int,
                    ));
                }
                return Err(FieldError::from_error(Error::IoError(e)));
            },
        }
        proof {
            lemma_overwritten_append(start.contents(), start.pos() as int, fields_bytes, spec.line_ending@);
            assert((fields_bytes + spec.line_ending@).take((fields_bytes + spec.line_ending@).len() as int)
                =~= fields_bytes + spec.line_ending@);
            assert(fields_write_outcome(f, u, fields, data, start.room(), n as nat, pieces)
                == FieldsWriteOutcome::Formatted(pieces));
            assert(*f == *self.field_writer_spec().formatter_spec());
            assert(*u == *self.field_writer_spec().type_spec());
        }
        let r = Ok(amount + spec.line_ending.len());
        proof {
            let bytes = fields_bytes + spec.line_ending@;
            assert(spec.line_ending@.len() <= before_ending.room());
            assert(bytes.len() <= start.room());
            assert(written_len(start, bytes) == bytes.len());
            assert(bytes.take(bytes.len() as int) =~= bytes);
            assert(writer.contents() == overwritten(start.contents(), start.pos() as int, bytes));
            assert(r == Ok::<usize, FieldError>(bytes.len() as usize));
        }
        assert(record_write(self, *spec, data, start, *writer, r));
        r
    }
}

/// The error is the failure that `outcome` describes, for a field of `length`.
pub open spec fn failure_is(error: Error, outcome: FieldOutcome, length: usize) -> bool {
    match outcome {
        FieldOutcome::FormatFailed(x) => error matches Error::FormatterFailure(b) && b == x.repr_spec(),
        FieldOutcome::WrongLength(s) => error matches Error::FormattedValueWrongLength(l, v) && l == length && v@ == s,
        FieldOutcome::Formatted(_) => false,
    }
}

/// The error names the field `field`.
pub open spec fn field_is(e: FieldError, field: Seq<char>) -> bool {
    e.field matches Some(f) && f@ == field
}

/// The outcome `r` of writing a record named `name` whose record writer gave `x`: the
/// count of bytes, or the error at that record.
pub open spec fn placed(x: Result<usize, FieldError>, name: Seq<char>, r: Result<usize, PositionalError>) -> bool {
    match x {
        Ok(n) => r == Ok::<usize, PositionalError>(n),
        Err(fe) => match r {
            Err(p) => p.error == fe.error && match p.position {
                Some(pos) => pos.record@ == name && crate::reader::same_text(pos.field, fe.field),
                None => false,
            },
            Ok(_) => false,
        },
    }
}

/// Writes records one after another to a destination, taking the name of the spec of
/// each from a spec source.
pub struct Writer<T: FieldFormatter<V>, U, V: WriteSupporter> {
    destination: ByteWriter,
    writer: RecordWriter<T, V>,
    spec_source: U,
    record_specs: NameMap<RecordSpec>,
    buffer: Vec<u8>,
}

impl<T: FieldFormatter<V>, U, V: WriteSupporter> Writer<T, U, V> {
    pub closed spec fn destination_spec(&self) -> ByteWriter {
        self.destination
    }

    pub closed spec fn record_specs_spec(&self) -> Seq<(Seq<char>, RecordSpec)> {
        self.record_specs@
    }

    pub closed spec fn writer_spec(&self) -> &RecordWriter<T, V> {
        &self.writer
    }

    pub closed spec fn spec_source_spec(&self) -> U {
        self.spec_source
    }

    /// The buffer that writing works in.
    pub closed spec fn buffer_spec(&self) -> Seq<u8> {
        self.buffer@
    }

    /// What writing the record that `data` holds comes to, when the spec source named
    /// `next`: the error of the spec source, or the lack of a name, or of a record spec of
    /// that name, each with the destination untouched; else what the record writer makes
    /// of the destination with that record spec, an error taking the record as its place.
    pub open spec fn write_outcome<A: DataRanges>(
        self,
        after: Self,
        next: Result<Option<Seq<char>>, BoxedError>,
        data: &Data<A, V::DataHolder>,
        r: Result<usize, PositionalError>,
    ) -> bool {
        match next {
            Err(e) => after.destination_spec() == self.destination_spec() && (r matches Err(p) && p.error
                == Error::SpecStreamError(e) && p.position is None),
            Ok(None) => after.destination_spec() == self.destination_spec() && (r matches Err(p)
                && p.error is RecordSpecNameRequired && p.position is None),
            Ok(Some(name)) => match lookup(self.record_specs_spec(), name) {
                None => after.destination_spec() == self.destination_spec() && (r matches Err(p)
                    && p.error matches Error::RecordSpecNotFound(n) && n@ == name && p.position is None),
                Some(spec) => exists|x: Result<usize, FieldError>|
                    #![trigger record_write(self.writer_spec(), spec, data, self.destination_spec(), after.destination_spec(), x)]
                    record_write(self.writer_spec(), spec, data, self.destination_spec(), after.destination_spec(), x)
                        && placed(x, name, r),
            },
        }
    }

    /// Writes the record that `data` holds, of the spec that the spec source names, and
    /// says how many bytes it wrote. Whatever the spec source gives, the outcome is the one
    /// `write_outcome` says.
    pub fn write_record<A: DataRanges>(&mut self, data: &Data<A, V::DataHolder>) -> (r: Result<usize, PositionalError>)
        where U: SpecSource<V, A>
        requires
            old(self).spec_source_spec().next_accepts(),
            self::spec::ranges_accepted(old(self).writer_spec().field_writer_spec().type_spec(), data),
        ensures
            final(self).record_specs_spec() == old(self).record_specs_spec(),
            final(self).writer_spec() == old(self).writer_spec(),
            exists|next: Result<Option<Seq<char>>, BoxedError>|
                #[trigger] old(self).write_outcome(*final(self), next, data, r) && old(self).spec_source_spec().nexts(
                    &final(self).spec_source_spec(),
                    data,
                    old(self).record_specs_spec(),
                    old(self).writer_spec().field_writer_spec().type_spec(),
                    next,
                ),
    {
        let next = match self.spec_source.next(data, &self.record_specs, self.writer.write_type()) {
            Err(e) => Err(e),
            Ok(None) => Ok(None),
            Ok(Some(name)) => Ok(Some(name.to_owned())),
        };
        let ghost before = *self;
        let ghost next_view = crate::reader::name_view(next);
        let r = self.write_named_record(next, data);
        proof {
            assert(before.destination_spec() == old(self).destination_spec());
            assert(before.record_specs_spec() == old(self).record_specs_spec());
            assert(before.writer_spec() == old(self).writer_spec());
            if let Ok(Some(name)) = next_view {
                if let Some(spec) = lookup(before.record_specs_spec(), name) {
                    let x = choose|x: Result<usize, FieldError>|
                        record_write(before.writer_spec(), spec, data, before.destination_spec(), self.destination_spec(), x)
                            && placed(x, name, r);
                    assert(record_write(old(self).writer_spec(), spec, data, old(self).destination_spec(), self.destination_spec(), x));
                }
            }
            assert(old(self).write_outcome(*self, next_view, data, r));
        }
        r
    }

    /// Writes the record that `data` holds, of the spec named `next`, as `write_outcome`
    /// says.
    pub fn write_named_record<A: DataRanges>(
        &mut self,
        next: Result<Option<String>, BoxedError>,
        data: &Data<A, V::DataHolder>,
    ) -> (r: Result<usize, PositionalError>)
        requires
            self::spec::ranges_accepted(old(self).writer_spec().field_writer_spec().type_spec(), data),
        ensures
            final(self).record_specs_spec() == old(self).record_specs_spec(),
            final(self).writer_spec() == old(self).writer_spec(),
            final(self).spec_source_spec() == old(self).spec_source_spec(),
            old(self).write_outcome(*final(self), crate::reader::name_view(next), data, r),
    {
        let name = match next {
            Err(e) => {
                return Err(PositionalError::from_error(Error::SpecStreamError(e)));
            },
            Ok(None) => {
                return Err(PositionalError::from_error(Error::RecordSpecNameRequired));
            },
            Ok(Some(name)) => name,
        };
        let record_spec = match self.record_specs.get(name.as_str()) {
            Some(spec) => spec,
            None => {
                return Err(PositionalError::from_error(Error::RecordSpecNotFound(name)));
            },
        };
        let ghost spec = *record_spec;
        let x = self.writer.write(&mut self.destination, record_spec, data, &mut self.buffer);
        let ghost xv = x;
        let r = match x {
            Ok(n) => Ok(n),
            Err(e) => Err(PositionalError::from_field_error(e, name.as_str())),
        };
        assert(record_write(old(self).writer_spec(), spec, data, old(self).destination_spec(), self.destination_spec(), xv)
            && placed(xv, name@, r));
        r
    }

    /// The destination, with all that has been written to it.
    pub fn get_destination(&self) -> (r: &ByteWriter)
        ensures
            *r == self.destination_spec(),
    {
        &self.destination
    }

    pub fn into_inner(self) -> (r: RecordWriter<T, V>)
        ensures
            r == *self.writer_spec(),
    {
        self.writer
    }
}

/// Gathers the parts of a writer.
pub struct WriterBuilder<T: FieldFormatter<V>, U, V: WriteSupporter> {
    destination: Option<ByteWriter>,
    writer: RecordWriter<T, V>,
    spec_source: Option<U>,
    record_specs: Option<NameMap<RecordSpec>>,
    buffer: Vec<u8>,
}

impl<T: FieldFormatter<V>, U, V: WriteSupporter> WriterBuilder<T, U, V> {
    pub closed spec fn destination_spec(&self) -> Option<ByteWriter> {
        self.destination
    }

    pub closed spec fn spec_source_spec(&self) -> Option<U> {
        self.spec_source
    }

    pub closed spec fn record_specs_spec(&self) -> Option<Seq<(Seq<char>, RecordSpec)>> {
        match self.record_specs {
            Some(m) => Some(m@),
            None => None,
        }
    }

    /// The buffer that the built part works in.
    pub closed spec fn buffer_spec(&self) -> Seq<u8> {
        self.buffer@
    }

    pub closed spec fn writer_spec(&self) -> &RecordWriter<T, V> {
        &self.writer
    }

    /// Whether every part that building needs is set.
    pub open spec fn is_complete(&self) -> bool {
        &&& self.destination_spec() is Some
        &&& self.spec_source_spec() is Some
        &&& self.record_specs_spec() is Some
    }

    /// A builder around `record_writer`, with an empty buffer and nothing else set.
    pub fn new(record_writer: RecordWriter<T, V>) -> (b: Self)
        ensures
            b.destination_spec() is None,
            b.spec_source_spec() is None,
            b.record_specs_spec() is None,
            b.buffer_spec() == Seq::<u8>::empty(),
            *b.writer_spec() == record_writer,
    {
        WriterBuilder {
            destination: None,
            writer: record_writer,
            spec_source: None,
            record_specs: None,
            buffer: Vec::new(),
        }
    }

    pub fn with_source(self, destination: ByteWriter) -> (b: Self)
        ensures
            b.destination_spec() == Some(destination),
            b.spec_source_spec() == self.spec_source_spec(),
            b.record_specs_spec() == self.record_specs_spec(),
            b.buffer_spec() == self.buffer_spec(),
            b.writer_spec() == self.writer_spec(),
    {
        WriterBuilder { destination: Some(destination), ..self }
    }

    pub fn with_spec_source<Z>(self, spec_source: Z) -> (b: WriterBuilder<T, Z, V>)
        ensures
            b.spec_source_spec() == Some(spec_source),
            b.destination_spec() == self.destination_spec(),
            b.record_specs_spec() == self.record_specs_spec(),
            b.buffer_spec() == self.buffer_spec(),
            b.writer_spec() == self.writer_spec(),
    {
        WriterBuilder {
            destination: self.destination,
            writer: self.writer,
            spec_source: Some(spec_source),
            record_specs: self.record_specs,
            buffer: self.buffer,
        }
    }

    pub fn with_record_specs(self, record_specs: NameMap<RecordSpec>) -> (b: Self)
        ensures
            b.record_specs_spec() == Some(record_specs@),
            b.destination_spec() == self.destination_spec(),
            b.spec_source_spec() == self.spec_source_spec(),
            b.buffer_spec() == self.buffer_spec(),
            b.writer_spec() == self.writer_spec(),
    {
        WriterBuilder { record_specs: Some(record_specs), ..self }
    }

    /// Writes data of the kind `write_type`, with the same formatter.
    pub fn with_write_type<X: WriteSupporter>(self, write_type: X) -> (b: WriterBuilder<T, U, X>)
        where T: FieldFormatter<X>
        ensures
            *b.writer_spec().field_writer_spec().formatter_spec() == *self.writer_spec().field_writer_spec().formatter_spec(),
            *b.writer_spec().field_writer_spec().type_spec() == write_type,
            b.destination_spec() == self.destination_spec(),
            b.spec_source_spec() == self.spec_source_spec(),
            b.record_specs_spec() == self.record_specs_spec(),
            b.buffer_spec() == self.buffer_spec(),
    {
        let WriterBuilder { destination, writer, spec_source, record_specs, buffer } = self;
        let RecordWriter { field_writer } = writer;
        let FieldWriter { formatter, write_type: _ } = field_writer;
        WriterBuilder {
            destination,
            writer: RecordWriter::new(FieldWriter::new(formatter, write_type)),
            spec_source,
            record_specs,
            buffer,
        }
    }

    pub fn with_buffer(self, buffer: Vec<u8>) -> (b: Self)
        ensures
            b.buffer_spec() == buffer@,
            b.destination_spec() == self.destination_spec(),
            b.spec_source_spec() == self.spec_source_spec(),
            b.record_specs_spec() == self.record_specs_spec(),
            b.writer_spec() == self.writer_spec(),
    {
        WriterBuilder { buffer, ..self }
    }

    /// The writer made of the parts; every part it needs must be set.
    pub fn build(self) -> (w: Writer<T, U, V>)
        requires
            self.is_complete(),
        ensures
            w.destination_spec() == self.destination_spec()->0,
            w.spec_source_spec() == self.spec_source_spec()->0,
            w.record_specs_spec() == self.record_specs_spec()->0,
            w.buffer_spec() == self.buffer_spec(),
            w.writer_spec() == self.writer_spec(),
    {
        let WriterBuilder { destination, writer, spec_source, record_specs, buffer } = self;
        Writer {
            destination: destination.unwrap(),
            writer,
            spec_source: spec_source.unwrap(),
            record_specs: record_specs.unwrap(),
            buffer,
        }
    }
}

} // verus!
