//! Reading fields and records out of bytes.
//!
//! A field takes as many bytes as it needs to reach its length in the unit of the data
//! kind; its value is what the field parser makes of those bytes. A record reads its
//! fields one after another, in the order of their names, then its line ending.
pub mod spec;
pub mod field_buffer;

use vstd::prelude::*;
use core::ops::Range;
use crate::data_type::{DataSupporter, FieldReadSupporter, RecordReadSupporter, ShouldReadMore};
use crate::error::{BoxedError, Error, FieldError, PositionalError};
use crate::io::ByteReader;
use crate::names::NameMap;
use crate::parser::{self, FieldParser};
use crate::record::{BuildableDataRanges, Data, DataRanges, Record};
use crate::spec::{clone_bytes, FieldSpec, RecordSpec};
use self::field_buffer::Source as FieldBufferSource;
use self::spec::Stream as SpecSource;

verus! {

/// How many bytes a field of `wanted` units takes from `input`, once `taken` bytes are
/// in, and whether `input` had enough of them.
pub open spec fn field_take<U: DataSupporter>(u: &U, wanted: nat, input: Seq<u8>, taken: nat) -> (bool, nat)
    decreases input.len() - taken,
{
    if taken > input.len() {
        (false, taken)
    } else if u.length_of(input.take(taken as int)).0 >= wanted {
        (true, taken)
    } else {
        let need = (wanted - u.length_of(input.take(taken as int)).0) as nat;
        if taken + need <= input.len() {
            field_take(u, wanted, input, taken + need)
        } else {
            (false, input.len())
        }
    }
}

proof fn lemma_field_take_bound<U: DataSupporter>(u: &U, wanted: nat, input: Seq<u8>, taken: nat)
    requires
        taken <= input.len(),
    ensures
        taken <= field_take(u, wanted, input, taken).1 <= input.len(),
    decreases input.len() - taken,
{
    if u.length_of(input.take(taken as int)).0 < wanted {
        let need = (wanted - u.length_of(input.take(taken as int)).0) as nat;
        if taken + need <= input.len() {
            lemma_field_take_bound(u, wanted, input, taken + need);
        }
    }
}

/// How reading the fields of a record from `input` came out.
pub enum FieldsOutcome {
    /// Every field was read: the value of each, and the bytes that they took.
    Read { values: Seq<Seq<u8>>, consumed: nat },
    /// The input ran out in field `index`, after `got`.
    NotEnough { index: nat, got: Seq<u8> },
    /// The parser failed on field `index`.
    ParseFailed { index: nat, error: parser::Error },
}

/// Reading fields `i..` of `fields` from `input`, when the fields before them gave
/// `values` and took `consumed` bytes.
pub open spec fn fields_outcome<P: FieldParser<U>, U: DataSupporter>(
    p: &P,
    u: &U,
    fields: Seq<(Seq<char>, FieldSpec)>,
    input: Seq<u8>,
    i: nat,
    values: Seq<Seq<u8>>,
    consumed: nat,
) -> FieldsOutcome
    decreases fields.len() - i,
{
    if i >= fields.len() {
        FieldsOutcome::Read { values, consumed }
    } else {
        let rest = input.skip(consumed as int);
        let ft = field_take(u, fields[i as int].1.length as nat, rest, 0);
        let ok = ft.0;
        let n = ft.1;
        if !ok {
            FieldsOutcome::NotEnough { index: i, got: rest.take(n as int) }
        } else {
            match p.parse_result(rest.take(n as int), fields[i as int].1) {
                Err(e) => FieldsOutcome::ParseFailed { index: i, error: e },
                Ok(v) => fields_outcome(p, u, fields, input, i + 1, values.push(v), consumed + n),
            }
        }
    }
}

/// The values of a sequence of fields one after another.
pub open spec fn concat_values(values: Seq<Seq<u8>>) -> Seq<u8>
    decreases values.len(),
{
    if values.len() == 0 {
        Seq::empty()
    } else {
        concat_values(values.drop_last()) + values.last()
    }
}

/// Reads single fields.
pub struct FieldReader<T: FieldParser<U>, U: FieldReadSupporter> {
    parser: T,
    read_support: U,
}

impl<T: FieldParser<U>, U: FieldReadSupporter> FieldReader<T, U> {
    pub closed spec fn parser_spec(&self) -> &T {
        &self.parser
    }

    pub closed spec fn support_spec(&self) -> &U {
        &self.read_support
    }

    pub fn new(parser: T, read_support: U) -> (r: Self)
        ensures
            *r.parser_spec() == parser,
            *r.support_spec() == read_support,
    {
        FieldReader { parser, read_support }
    }

    pub fn read_support(&self) -> (r: &U)
        ensures
            *r == *self.support_spec(),
    {
        &self.read_support
    }

    /// The kind of data read, under its other name.
    pub fn read_type(&self) -> (r: &U)
        ensures
            *r == *self.support_spec(),
    {
        &self.read_support
    }

    /// Reads a field of `field_spec` from `reader`, putting its bytes into `buffer` and its
    /// value onto the end of `field_buffer`.
    pub fn read(
        &self,
        reader: &mut ByteReader,
        field_spec: &FieldSpec,
        field_buffer: &mut Vec<u8>,
        buffer: &mut Vec<u8>,
    ) -> (r: Result<(), Error>)
        requires
            self.parser_spec().parse_accepts(*field_spec),
        ensures
            ({
                let ft = field_take(self.support_spec(), field_spec.length as nat, old(reader).rest(), 0);
                let ok = ft.0;
                let n = ft.1;
                &&& final(reader).contents() == old(reader).contents()
                &&& final(reader).pos() == old(reader).pos() + n
                &&& final(reader).rest() == old(reader).rest().skip(n as int)
                &&& final(buffer)@ == old(reader).rest().take(n as int)
                &&& !ok ==> (r matches Err(Error::CouldNotReadEnough(got)) && got@ == old(reader).rest().take(
                    n as int,
                ) && final(field_buffer)@ == old(field_buffer)@)
                &&& ok ==> match self.parser_spec().parse_result(old(reader).rest().take(n as int), *field_spec) {
                    Ok(v) => r is Ok && final(field_buffer)@ == old(field_buffer)@ + v,
                    Err(e) => r matches Err(Error::ParserFailure(b)) && b == e.repr_spec() && final(field_buffer)@ == old(field_buffer)@,
                }
            }),
    {
        let _ = reader.position();
        let ghost input = reader.rest();
        let ghost start = reader.pos();
        let ghost wanted = field_spec.length as nat;
        buffer.clear();
        let ghost mut taken: nat = 0;
        proof {
            assert(input.take(0) =~= Seq::<u8>::empty());
        }
        loop
            invariant
                reader.contents() == old(reader).contents(),
                input == old(reader).rest(),
                start == old(reader).pos(),
                taken <= input.len(),
                reader.pos() == start + taken,
                reader.rest() == input.skip(taken as int),
                buffer@ == input.take(taken as int),
                field_take(&self.read_support, wanted, input, 0) == field_take(&self.read_support, wanted, input, taken),
                wanted == field_spec.length,
                field_buffer@ == old(field_buffer)@,
            ensures
                reader.contents() == old(reader).contents(),
                reader.pos() == start + taken,
                reader.rest() == input.skip(taken as int),
                buffer@ == input.take(taken as int),
                field_take(&self.read_support, wanted, input, 0) == (true, taken),
                field_buffer@ == old(field_buffer)@,
            decreases input.len() - taken,
        {
            match self.read_support.should_read_more(field_spec.length, buffer.as_slice()) {
                ShouldReadMore::More(amount) => {
                    let ghost rest = reader.rest();
                    let count = reader.read_up_to(amount, buffer);
                    proof {
                        assert(input.take(taken as int) + rest.take(count as int) =~= input.take(taken + count));
                        assert(reader.rest() =~= input.skip(taken + count));
                    }
                    if count != amount {
                        proof {
                            assert(taken + count == input.len());
                        }
                        return Err(Error::CouldNotReadEnough(clone_bytes(buffer)));
                    }
                    proof {
                        taken = (taken + count) as nat;
                    }
                },
                ShouldReadMore::NoMore => {
                    break ;
                },
            }
        }
        match self.parser.parse(buffer.as_slice(), field_spec, field_buffer, &self.read_support) {
            Ok(()) => Ok(()),
            Err(e) => Err(Error::ParserFailure(e.into_boxed())),
        }
    }
}

/// The error of a field that the input ran out in, after `got`.
pub open spec fn is_not_enough(e: FieldError, got: Seq<u8>, field: Seq<char>) -> bool {
    &&& (e.error matches Error::CouldNotReadEnough(g) && g@ == got)
    &&& (e.field matches Some(f) && f@ == field)
}

/// The error of a field that the parser failed on.
pub open spec fn is_parse_failure(e: FieldError, error: parser::Error, field: Seq<char>) -> bool {
    &&& (e.error matches Error::ParserFailure(b) && b == error.repr_spec())
    &&& (e.field matches Some(f) && f@ == field)
}

/// The error of a record whose line ending came out as `got` where `expected` was due.
pub open spec fn is_line_ending_mismatch(e: FieldError, expected: Seq<u8>, got: Seq<u8>) -> bool {
    &&& e.field is None
    &&& (e.error matches Error::DataDoesNotMatchLineEnding(x, a) && x@ == expected && a@ == got)
}

/// Reads whole records.
pub struct RecordReader<T: FieldParser<U>, U: RecordReadSupporter> {
    field_reader: FieldReader<T, U>,
}

/// The range of field `i` of a record whose field buffer started `base` bytes long.
pub open spec fn value_range(values: Seq<Seq<u8>>, base: nat, i: int) -> (nat, nat) {
    (base + concat_values(values.take(i)).len(), base + concat_values(values.take(i + 1)).len())
}

proof fn lemma_concat_values_step(values: Seq<Seq<u8>>, i: int)
    requires
        0 <= i < values.len(),
    ensures
        concat_values(values.take(i + 1)) == concat_values(values.take(i)) + values[i],
{
    assert(values.take(i + 1).drop_last() =~= values.take(i));
}

/// What reading a record of `spec` with `rr` comes to, from `before` to `after`, with the
/// values going onto the end of `field_buffer`.
pub open spec fn record_read<T: FieldParser<U>, U: RecordReadSupporter, X: BuildableDataRanges>(
    rr: &RecordReader<T, U>,
    spec: RecordSpec,
    before: ByteReader,
    after: ByteReader,
    field_buffer: Seq<u8>,
    r: Result<Data<X, U::DataHolder>, FieldError>,
) -> bool {
    &&& after.contents() == before.contents()
    &&& match fields_outcome(
        rr.field_reader_spec().parser_spec(),
        rr.field_reader_spec().support_spec(),
        spec.field_specs@,
        before.rest(),
        0,
        Seq::empty(),
        0,
    ) {
        FieldsOutcome::NotEnough { index, got } => (r matches Err(e) && is_not_enough(
            e,
            got,
            spec.field_specs@[index as int].0,
        )),
        FieldsOutcome::ParseFailed { index, error } => (r matches Err(e) && is_parse_failure(
            e,
            error,
            spec.field_specs@[index as int].0,
        )),
        FieldsOutcome::Read { values, consumed } => {
            let rest = before.rest().skip(consumed as int);
            let k = if spec.line_ending@.len() <= rest.len() {
                spec.line_ending@.len()
            } else {
                rest.len()
            };
            let got = rest.take(k as int);
            let bytes = field_buffer + concat_values(values);
            &&& after.pos() == before.pos() + consumed + k
            &&& k != 0 && got != spec.line_ending@ ==> (r matches Err(e) && is_line_ending_mismatch(
                e,
                spec.line_ending@,
                got,
            ))
            &&& (k == 0 || got == spec.line_ending@) && !rr.field_reader_spec().support_spec().upcast_ok(
                bytes,
            ) ==> (r matches Err(e) && e.field is None && e.error is DataHolderError)
            &&& (k == 0 || got == spec.line_ending@) && rr.field_reader_spec().support_spec().upcast_ok(
                bytes,
            ) ==> (r matches Ok(d) && rr.field_reader_spec().support_spec().holds(d.data, bytes)
                && forall|k: Seq<char>|
                #![trigger d.ranges.range_of(k)]
                d.ranges.range_of(k) == if X::keeps_ranges() {
                    match crate::names::position_of(spec.field_specs@, k) {
                        Some(i) => Some(value_range(values, field_buffer.len(), i)),
                        None => None,
                    }
                } else {
                    None
                })
        },
    }
}

impl<T: FieldParser<U>, U: RecordReadSupporter> RecordReader<T, U> {
    pub closed spec fn field_reader_spec(&self) -> &FieldReader<T, U> {
        &self.field_reader
    }

    pub fn new(field_reader: FieldReader<T, U>) -> (r: Self)
        ensures
            *r.field_reader_spec() == field_reader,
    {
        RecordReader { field_reader }
    }

    pub fn read_support(&self) -> (r: &U)
        ensures
            *r == *self.field_reader_spec().support_spec(),
    {
        self.field_reader.read_support()
    }

    /// The kind of data read, under its other name.
    pub fn read_type(&self) -> (r: &U)
        ensures
            *r == *self.field_reader_spec().support_spec(),
    {
        self.field_reader.read_support()
    }

    pub fn into_inner(self) -> (r: FieldReader<T, U>)
        ensures
            r == *self.field_reader_spec(),
    {
        self.field_reader
    }

    /// Reads a record of `spec` from `reader`: its fields, then its line ending. The
    /// values of the fields go onto the end of `field_buffer`, which becomes the data of
    /// the record.
    pub fn read<X: BuildableDataRanges>(
        &self,
        reader: &mut ByteReader,
        spec: &RecordSpec,
        field_buffer: Vec<u8>,
        buffer: &mut Vec<u8>,
    ) -> (r: Result<Data<X, U::DataHolder>, FieldError>)
        requires
            forall|i: int|
                0 <= i < spec.field_specs@.len() ==> self.field_reader_spec().parser_spec().parse_accepts(
                    #[trigger] spec.field_specs@[i].1,
                ),
        ensures
            record_read(self, *spec, *old(reader), *final(reader), field_buffer@, r),
    {
        let n = spec.field_specs.len();
        let _ = reader.position();
        let ghost fields = spec.field_specs@;
        let ghost input = reader.rest();
        let ghost base = field_buffer@.len();
        let ghost init = field_buffer@;
        let ghost p = &self.field_reader.parser;
        let ghost u = &self.field_reader.read_support;
        let ghost mut values: Seq<Seq<u8>> = Seq::empty();
        let ghost mut consumed: nat = 0;
        let mut field_buffer = field_buffer;
        let mut ranges = X::new();
        let mut i: usize = 0;
        proof {
            assert(input.skip(0) =~= input);
            assert(field_buffer@ =~= field_buffer@ + concat_values(Seq::<Seq<u8>>::empty()));
        }
        while i < n
            invariant
                n == fields.len(),
                fields == spec.field_specs@,
                crate::names::sorted_by_name(fields),
                forall|j: int| 0 <= j < fields.len() ==> p.parse_accepts(#[trigger] fields[j].1),
                p == &self.field_reader.parser,
                u == &self.field_reader.read_support,
                i <= n,
                values.len() == i,
                input == old(reader).rest(),
                reader.contents() == old(reader).contents(),
                consumed <= input.len(),
                reader.pos() == old(reader).pos() + consumed,
                reader.rest() == input.skip(consumed as int),
                field_buffer@ == init + concat_values(values),
                base == init.len(),
                fields_outcome(p, u, fields, input, 0, Seq::empty(), 0) == fields_outcome(
                    p,
                    u,
                    fields,
                    input,
                    i as nat,
                    values,
                    consumed,
                ),
                forall|k: Seq<char>|
                    #![trigger ranges.range_of(k)]
                    ranges.range_of(k) == if X::keeps_ranges() {
                        match crate::names::position_of(fields, k) {
                            Some(j) => if j < i {
                                Some(value_range(values, base, j))
                            } else {
                                None
                            },
                            None => None,
                        }
                    } else {
                        None
                    },
            decreases n - i,
        {
            let (name, field_spec) = spec.field_specs.entry(i);
            let old_length = field_buffer.len();
            let ghost rest = reader.rest();
            let ghost before = field_buffer@;
            proof {
                lemma_field_take_bound(u, field_spec.length as nat, rest, 0);
            }
            let ghost pos_before = reader.pos();
            match self.field_reader.read(reader, field_spec, &mut field_buffer, buffer) {
                Ok(()) => {},
                Err(e) => {
                    return Err(FieldError::at_field(e, name.as_str()));
                },
            }
            let ghost taken = field_take(u, field_spec.length as nat, rest, 0).1;
            let ghost parsed = p.parse_result(rest.take(taken as int), fields[i as int].1);
            let ghost v = field_buffer@.skip(before.len() as int);
            proof {
                assert(field_take(u, field_spec.length as nat, rest, 0).0);
                assert(parsed is Ok);
                assert(field_buffer@ == before + parsed->Ok_0);
                assert(v =~= parsed->Ok_0);
                assert(rest == input.skip(consumed as int));
                assert(reader.rest() =~= input.skip((consumed + taken) as int));
                assert(field_buffer@ =~= before + v);
                lemma_concat_values_step(values.push(v), i as int);
                assert(values.push(v).take(i as int) =~= values);
                assert(values.push(v).take(i + 1) =~= values.push(v));
                assert(values.push(v).drop_last() =~= values);
                assert(concat_values(values.push(v)) == concat_values(values) + v);
                assert(input.skip(consumed as int).skip(taken as int) =~= input.skip((consumed + taken) as int));
            }
            let range = self.field_reader.read_support().get_range(old_length, field_buffer.as_slice());
            let ghost old_ranges = ranges;
            ranges.insert(name.as_str(), range);
            proof {
                let new_values = values.push(v);
                assert forall|k: Seq<char>| #![trigger ranges.range_of(k)] ranges.range_of(k) == if X::keeps_ranges() {
                    match crate::names::position_of(fields, k) {
                        Some(j) => if j < i + 1 {
                            Some(value_range(new_values, base, j))
                        } else {
                            None
                        },
                        None => None,
                    }
                } else {
                    None
                } by {
                    crate::names::lemma_sorted_position_unique(fields, i as int, name@);
                    if X::keeps_ranges() {
                        assert(old_ranges.range_of(k) == old_ranges.range_of(k));
                        match crate::names::position_of(fields, k) {
                            Some(j) => {
                                if j < i {
                                    assert(new_values.take(j) =~= values.take(j));
                                    assert(new_values.take(j + 1) =~= values.take(j + 1));
                                }
                            },
                            None => {},
                        }
                    }
                }
                values = new_values;
                consumed = consumed + taken;
            }
            i = i + 1;
        }
        buffer.clear();
        let ending_length = spec.line_ending.len();
        let ghost rest = reader.rest();
        let count = reader.read_up_to(ending_length, buffer);
        if count != 0 && !crate::padding::bytes_equal(buffer.as_slice(), spec.line_ending.as_slice()) {
            return Err(
                FieldError::from_error(
                    Error::DataDoesNotMatchLineEnding(clone_bytes(&spec.line_ending), clone_bytes(buffer)),
                ),
            );
        }
        proof {
            assert(buffer@ =~= rest.take(count as int));
        }
        match self.field_reader.read_support().upcast_data(field_buffer) {
            Ok(data) => Ok(Data { ranges, data }),
            Err(e) => Err(FieldError::from_error(Error::DataHolderError(e))),
        }
    }
}

/// The bytes of the buffer a buffer source gave: none when it gave none.
pub open spec fn given_buffer(given: Option<Vec<u8>>) -> Seq<u8> {
    match given {
        Some(b) => b@,
        None => Seq::empty(),
    }
}

/// The name a spec source gave, as text.
pub open spec fn name_view(next: Result<Option<String>, BoxedError>) -> Result<Option<Seq<char>>, BoxedError> {
    match next {
        Err(e) => Err(e),
        Ok(None) => Ok(None),
        Ok(Some(n)) => Ok(Some(n@)),
    }
}

/// Whether two optional strings are both missing, or hold the same text.
pub open spec fn same_text(a: Option<String>, b: Option<String>) -> bool {
    match (a, b) {
        (Some(x), Some(y)) => x@ == y@,
        (None, None) => true,
        _ => false,
    }
}

/// The outcome `r` of reading a record named `name` whose record reader gave `x`: the
/// record under that name, or the error at that record.
pub open spec fn positioned<A: DataRanges, H>(
    x: Result<Data<A, H>, FieldError>,
    name: Seq<char>,
    r: Result<Record<A, H>, PositionalError>,
) -> bool {
    match x {
        Ok(d) => r matches Ok(rec) && rec.data == d && rec.name@ == name,
        Err(fe) => match r {
            Err(p) => p.error == fe.error && match p.position {
                Some(pos) => pos.record@ == name && same_text(pos.field, fe.field),
                None => false,
            },
            Ok(_) => false,
        },
    }
}

/// Reads records one after another from a source, taking the name of the spec of each
/// from a spec source.
pub struct Reader<T: FieldParser<V>, U: SpecSource<V>, V: RecordReadSupporter, Z: FieldBufferSource> {
    source: ByteReader,
    reader: RecordReader<T, V>,
    spec_source: U,
    record_specs: NameMap<RecordSpec>,
    buffer: Vec<u8>,
    field_buffer_source: Z,
}

impl<T: FieldParser<V>, U: SpecSource<V>, V: RecordReadSupporter, Z: FieldBufferSource> Reader<T, U, V, Z> {
    pub closed spec fn source_spec(&self) -> ByteReader {
        self.source
    }

    pub closed spec fn record_specs_spec(&self) -> Seq<(Seq<char>, RecordSpec)> {
        self.record_specs@
    }

    pub closed spec fn reader_spec(&self) -> &RecordReader<T, V> {
        &self.reader
    }

    pub closed spec fn spec_source_spec(&self) -> U {
        self.spec_source
    }

    pub closed spec fn field_buffer_source_spec(&self) -> Z {
        self.field_buffer_source
    }

    /// The buffer that reading works in.
    pub closed spec fn buffer_spec(&self) -> Seq<u8> {
        self.buffer@
    }

    /// Whether the parser takes every field of every record spec.
    pub open spec fn parser_accepts_all(&self) -> bool {
        forall|r: int, i: int|
            0 <= r < self.record_specs_spec().len() && 0 <= i < self.record_specs_spec()[r].1.field_specs@.len()
                ==> self.reader_spec().field_reader_spec().parser_spec().parse_accepts(
                #[trigger] self.record_specs_spec()[r].1.field_specs@[i].1,
            )
    }

    /// What reading the next record comes to, when the spec source named `next` and the
    /// buffer source gave `field_buffer`: the error of the spec source, or the lack of a
    /// name, or of a record spec of that name, each with the source untouched; else what
    /// the record reader makes of the source with that record spec, the record taking the
    /// name, an error taking the record as its place.
    pub open spec fn read_outcome<A: BuildableDataRanges>(
        self,
        after: Self,
        next: Result<Option<Seq<char>>, BoxedError>,
        field_buffer: Seq<u8>,
        r: Result<Record<A, V::DataHolder>, PositionalError>,
    ) -> bool {
        match next {
            Err(e) => after.source_spec() == self.source_spec() && (r matches Err(p) && p.error
                == Error::SpecStreamError(e) && p.position is None),
            Ok(None) => after.source_spec() == self.source_spec() && (r matches Err(p)
                && p.error is SpecStreamReturnedNone && p.position is None),
            Ok(Some(name)) => match crate::names::lookup(self.record_specs_spec(), name) {
                None => after.source_spec() == self.source_spec() && (r matches Err(p)
                    && p.error matches Error::RecordSpecNotFound(n) && n@ == name && p.position is None),
                Some(spec) => exists|x: Result<Data<A, V::DataHolder>, FieldError>|
                    #![trigger record_read(self.reader_spec(), spec, self.source_spec(), after.source_spec(), field_buffer, x)]
                    record_read(self.reader_spec(), spec, self.source_spec(), after.source_spec(), field_buffer, x)
                        && positioned(x, name, r),
            },
        }
    }

    /// Reads the next record, of the spec that the spec source names, the values of its
    /// fields going into a buffer that the buffer source gives (a new one when it gives
    /// none). Whatever the two sources give, the outcome is the one `read_outcome` says.
    pub fn read_record<A: BuildableDataRanges>(&mut self) -> (r: Result<Record<A, V::DataHolder>, PositionalError>)
        requires
            old(self).parser_accepts_all(),
            old(self).spec_source_spec().next_accepts(
                old(self).record_specs_spec(),
                old(self).reader_spec().field_reader_spec().support_spec(),
            ),
        ensures
            final(self).record_specs_spec() == old(self).record_specs_spec(),
            final(self).reader_spec() == old(self).reader_spec(),
            exists|next: Result<Option<Seq<char>>, BoxedError>, given: Option<Vec<u8>>|
                #[trigger] old(self).read_outcome(*final(self), next, given_buffer(given), r) && old(
                    self,
                ).spec_source_spec().nexts(
                    &final(self).spec_source_spec(),
                    old(self).source_spec(),
                    old(self).record_specs_spec(),
                    old(self).reader_spec().field_reader_spec().support_spec(),
                    next,
                ) && old(self).field_buffer_source_spec().gives(&final(self).field_buffer_source_spec(), given),
    {
        let next = match self.spec_source.next(&self.source, &self.record_specs, self.reader.read_support()) {
            Err(e) => Err(e),
            Ok(None) => Ok(None),
            Ok(Some(name)) => Ok(Some(name.to_owned())),
        };
        let given = self.field_buffer_source.get();
        let ghost given_view = given;
        let field_buffer = match given {
            Some(b) => b,
            None => Vec::new(),
        };
        let ghost before = *self;
        let ghost next_view = name_view(next);
        let ghost buffer_view = field_buffer@;
        let r = self.read_named_record(next, field_buffer);
        proof {
            assert(before.source_spec() == old(self).source_spec());
            assert(before.record_specs_spec() == old(self).record_specs_spec());
            assert(before.reader_spec() == old(self).reader_spec());
            assert(before.read_outcome(*self, next_view, buffer_view, r));
            if let Ok(Some(name)) = next_view {
                if let Some(spec) = crate::names::lookup(before.record_specs_spec(), name) {
                    let x = choose|x: Result<Data<A, V::DataHolder>, FieldError>|
                        record_read(before.reader_spec(), spec, before.source_spec(), self.source_spec(), buffer_view, x)
                            && positioned(x, name, r);
                    assert(record_read(old(self).reader_spec(), spec, old(self).source_spec(), self.source_spec(), buffer_view, x));
                }
            }
            assert(old(self).read_outcome(*self, next_view, buffer_view, r));
            assert(buffer_view == given_buffer(given_view));
        }
        r
    }

    /// Reads the next record, of the spec named `next`, into `field_buffer`, as
    /// `read_outcome` says.
    pub fn read_named_record<A: BuildableDataRanges>(
        &mut self,
        next: Result<Option<String>, BoxedError>,
        field_buffer: Vec<u8>,
    ) -> (r: Result<Record<A, V::DataHolder>, PositionalError>)
        requires
            old(self).parser_accepts_all(),
        ensures
            final(self).record_specs_spec() == old(self).record_specs_spec(),
            final(self).reader_spec() == old(self).reader_spec(),
            final(self).spec_source_spec() == old(self).spec_source_spec(),
            final(self).field_buffer_source_spec() == old(self).field_buffer_source_spec(),
            old(self).read_outcome(*final(self), name_view(next), field_buffer@, r),
    {
        let name = match next {
            Err(e) => {
                return Err(PositionalError::from_error(Error::SpecStreamError(e)));
            },
            Ok(None) => {
                return Err(PositionalError::from_error(Error::SpecStreamReturnedNone));
            },
            Ok(Some(name)) => name,
        };
        let record_spec = match self.record_specs.get(name.as_str()) {
            Some(spec) => spec,
            None => {
                return Err(PositionalError::from_error(Error::RecordSpecNotFound(name)));
            },
        };
        let _ = self.record_specs.len();
        proof {
            let s = self.record_specs@;
            let p = crate::names::position_of(s, name@)->0;
            assert forall|i: int| 0 <= i < record_spec.field_specs@.len() implies self.reader.field_reader_spec().parser_spec().parse_accepts(
                #[trigger] record_spec.field_specs@[i].1,
            ) by {
                assert(s[p].1 == *record_spec);
                assert(self.record_specs_spec()[p].1.field_specs@[i].1 == record_spec.field_specs@[i].1);
            }
        }
        let ghost before = self.source;
        let ghost spec = *record_spec;
        let x = self.reader.read(&mut self.source, record_spec, field_buffer, &mut self.buffer);
        let ghost xv = x;
        let r = match x {
            Ok(data) => Ok(Record { data, name }),
            Err(e) => Err(PositionalError::from_field_error(e, name.as_str())),
        };
        assert(record_read(old(self).reader_spec(), spec, old(self).source_spec(), self.source_spec(), field_buffer@, xv)
            && positioned(xv, name@, r));
        r
    }

    /// The source, read as far as the records read so far.
    pub fn get_source(&self) -> (r: &ByteReader)
        ensures
            *r == self.source_spec(),
    {
        &self.source
    }

    pub fn into_inner(self) -> (r: RecordReader<T, V>)
        ensures
            r == *self.reader_spec(),
    {
        self.reader
    }
}

/// Gathers the parts of a reader.
pub struct ReaderBuilder<T: FieldParser<V>, U: SpecSource<V>, V: RecordReadSupporter, Z: FieldBufferSource> {
    read_support: V,
    source: Option<ByteReader>,
    field_parser: Option<T>,
    spec_source: Option<U>,
    record_specs: Option<NameMap<RecordSpec>>,
    buffer: Vec<u8>,
    field_buffer_source: Z,
}

impl<T: FieldParser<V>, U: SpecSource<V>, V: RecordReadSupporter> ReaderBuilder<T, U, V, Option<Vec<u8>>> {
    /// A builder with nothing set but the kind of data, an empty buffer, and no buffer
    /// source of its own.
    pub fn new(read_support: V) -> (b: Self)
        ensures
            b.read_support_spec() == read_support,
            b.source_spec() is None,
            b.field_parser_spec() is None,
            b.spec_source_spec() is None,
            b.record_specs_spec() is None,
            b.buffer_spec() == Seq::<u8>::empty(),
            b.field_buffer_source_spec() is None,
    {
        ReaderBuilder {
            read_support,
            source: None,
            field_parser: None,
            spec_source: None,
            record_specs: None,
            buffer: Vec::new(),
            field_buffer_source: None,
        }
    }
}

impl<T: FieldParser<V>, U: SpecSource<V>, V: RecordReadSupporter, Z: FieldBufferSource> ReaderBuilder<T, U, V, Z> {
    /// The kind of data that the reader reads.
    pub closed spec fn read_support_spec(&self) -> V {
        self.read_support
    }

    pub closed spec fn source_spec(&self) -> Option<ByteReader> {
        self.source
    }

    pub closed spec fn field_parser_spec(&self) -> Option<T> {
        self.field_parser
    }

    pub closed spec fn spec_source_spec(&self) -> Option<U> {
        self.spec_source
    }

    pub closed spec fn record_specs_spec(&self) -> Option<Seq<(Seq<char>, RecordSpec)>> {
        match self.record_specs {
            Some(m) => Some(m@),
            None => None,
        }
    }

    /// The buffer that the built part works in.
    pub closed spec fn buffer_spec(&self) -> Seq<u8> {
        self.buffer@
    }

    pub closed spec fn field_buffer_source_spec(&self) -> Z {
        self.field_buffer_source
    }

    /// Whether every part that building needs is set.
    pub open spec fn is_complete(&self) -> bool {
        &&& self.source_spec() is Some
        &&& self.field_parser_spec() is Some
        &&& self.spec_source_spec() is Some
        &&& self.record_specs_spec() is Some
    }

    pub fn with_source(self, source: ByteReader) -> (b: Self)
        ensures
            b.source_spec() == Some(source),
            b.read_support_spec() == self.read_support_spec(),
            b.field_parser_spec() == self.field_parser_spec(),
            b.spec_source_spec() == self.spec_source_spec(),
            b.record_specs_spec() == self.record_specs_spec(),
            b.buffer_spec() == self.buffer_spec(),
            b.field_buffer_source_spec() == self.field_buffer_source_spec(),
    {
        ReaderBuilder { source: Some(source), ..self }
    }

    pub fn with_field_parser<A: FieldParser<V>>(self, field_parser: A) -> (b: ReaderBuilder<A, U, V, Z>)
        ensures
            b.field_parser_spec() == Some(field_parser),
            b.read_support_spec() == self.read_support_spec(),
            b.source_spec() == self.source_spec(),
            b.spec_source_spec() == self.spec_source_spec(),
            b.record_specs_spec() == self.record_specs_spec(),
            b.buffer_spec() == self.buffer_spec(),
            b.field_buffer_source_spec() == self.field_buffer_source_spec(),
    {
        ReaderBuilder {
            read_support: self.read_support,
            source: self.source,
            field_parser: Some(field_parser),
            spec_source: self.spec_source,
            record_specs: self.record_specs,
            buffer: self.buffer,
            field_buffer_source: self.field_buffer_source,
        }
    }

    pub fn with_spec_source<A: SpecSource<V>>(self, spec_source: A) -> (b: ReaderBuilder<T, A, V, Z>)
        ensures
            b.spec_source_spec() == Some(spec_source),
            b.read_support_spec() == self.read_support_spec(),
            b.source_spec() == self.source_spec(),
            b.field_parser_spec() == self.field_parser_spec(),
            b.record_specs_spec() == self.record_specs_spec(),
            b.buffer_spec() == self.buffer_spec(),
            b.field_buffer_source_spec() == self.field_buffer_source_spec(),
    {
        ReaderBuilder {
            read_support: self.read_support,
            source: self.source,
            field_parser: self.field_parser,
            spec_source: Some(spec_source),
            record_specs: self.record_specs,
            buffer: self.buffer,
            field_buffer_source: self.field_buffer_source,
        }
    }

    pub fn with_record_specs(self, record_specs: NameMap<RecordSpec>) -> (b: Self)
        ensures
            b.record_specs_spec() == Some(record_specs@),
            b.read_support_spec() == self.read_support_spec(),
            b.source_spec() == self.source_spec(),
            b.field_parser_spec() == self.field_parser_spec(),
            b.spec_source_spec() == self.spec_source_spec(),
            b.buffer_spec() == self.buffer_spec(),
            b.field_buffer_source_spec() == self.field_buffer_source_spec(),
    {
        ReaderBuilder { record_specs: Some(record_specs), ..self }
    }

    pub fn with_buffer(self, buffer: Vec<u8>) -> (b: Self)
        ensures
            b.buffer_spec() == buffer@,
            b.read_support_spec() == self.read_support_spec(),
            b.source_spec() == self.source_spec(),
            b.field_parser_spec() == self.field_parser_spec(),
            b.spec_source_spec() == self.spec_source_spec(),
            b.record_specs_spec() == self.record_specs_spec(),
            b.field_buffer_source_spec() == self.field_buffer_source_spec(),
    {
        ReaderBuilder { buffer, ..self }
    }

    pub fn with_field_buffer_source<A: FieldBufferSource>(self, field_buffer_source: A) -> (b: ReaderBuilder<
        T,
        U,
        V,
        A,
    >)
        ensures
            b.field_buffer_source_spec() == field_buffer_source,
            b.read_support_spec() == self.read_support_spec(),
            b.source_spec() == self.source_spec(),
            b.field_parser_spec() == self.field_parser_spec(),
            b.spec_source_spec() == self.spec_source_spec(),
            b.record_specs_spec() == self.record_specs_spec(),
            b.buffer_spec() == self.buffer_spec(),
    {
        ReaderBuilder {
            read_support: self.read_support,
            source: self.source,
            field_parser: self.field_parser,
            spec_source: self.spec_source,
            record_specs: self.record_specs,
            buffer: self.buffer,
            field_buffer_source,
        }
    }

    /// The reader made of the parts, when every part it needs is set; else the error that
    /// names the first part missing, in the order source, field parser, spec source,
    /// record specs.
    pub fn build(self) -> (r: Result<Reader<T, U, V, Z>, Error>)
        ensures
            self.source_spec() is None ==> (r matches Err(Error::BuildError(m)) && m@
                == "source needs to be defined in order to build"@),
            self.source_spec() is Some && self.field_parser_spec() is None ==> (r matches Err(
                Error::BuildError(m),
            ) && m@ == "field_parser needs to be defined in order to build"@),
            self.source_spec() is Some && self.field_parser_spec() is Some && self.spec_source_spec() is None
                ==> (r matches Err(Error::BuildError(m)) && m@
                == "spec_source needs to be defined in order to build"@),
            self.source_spec() is Some && self.field_parser_spec() is Some && self.spec_source_spec() is Some
                && self.record_specs_spec() is None ==> (r matches Err(Error::BuildError(m)) && m@
                == "record_specs needs to be defined in order to build"@),
            self.is_complete() ==> (r matches Ok(reader) && reader.source_spec() == self.source_spec()->0
                && reader.record_specs_spec() == self.record_specs_spec()->0 && reader.spec_source_spec()
                == self.spec_source_spec()->0 && *reader.reader_spec().field_reader_spec().parser_spec()
                == self.field_parser_spec()->0 && *reader.reader_spec().field_reader_spec().support_spec()
                == self.read_support_spec() && reader.buffer_spec() == self.buffer_spec()
                && reader.field_buffer_source_spec() == self.field_buffer_source_spec()),
    {
        let source = match self.source {
            Some(s) => s,
            None => {
                return Err(Error::BuildError("source needs to be defined in order to build"));
            },
        };
        let parser = match self.field_parser {
            Some(p) => p,
            None => {
                return Err(Error::BuildError("field_parser needs to be defined in order to build"));
            },
        };
        let spec_source = match self.spec_source {
            Some(s) => s,
            None => {
                return Err(Error::BuildError("spec_source needs to be defined in order to build"));
            },
        };
        let record_specs = match self.record_specs {
            Some(s) => s,
            None => {
                return Err(Error::BuildError("record_specs needs to be defined in order to build"));
            },
        };
        Ok(
            Reader {
                source,
                reader: RecordReader::new(FieldReader::new(parser, self.read_support)),
                spec_source,
                record_specs,
                buffer: self.buffer,
                field_buffer_source: self.field_buffer_source,
            },
        )
    }
}

} // verus!
