//! Where the readers of records learn the name of the spec of the next record.
use vstd::prelude::*;
use crate::data_type::{DataSupporter, FieldReadSupporter};
use crate::error::BoxedError;
use crate::io::ByteReader;
use crate::names::{AsName, NameMap, position_of};
use crate::spec::RecordSpec;
use crate::spec::resolver::IdFieldResolver;
use crate::spec::stream::{VecStream, vec_stream_next};

verus! {

/// Whether `input`, read as data of kind `u`, holds in the id field `id` of `record` the
/// default of that field.
pub open spec fn id_matches<T: DataSupporter>(u: &T, record: RecordSpec, id: Seq<char>, input: Seq<u8>) -> bool {
    match position_of(record.field_specs@, id) {
        Some(i) => match record.field_specs@[i].1.default {
            Some(default) => match u.byte_range_of(
                input,
                record.offset_of(i),
                record.end_of(i),
            ) {
                Some((s, e)) => e <= input.len() && input.subrange(s as int, e as int) == default@,
                None => false,
            },
            None => false,
        },
        None => false,
    }
}

/// Where the id field `id` of `record` ends, or 0 when it has none.
pub open spec fn id_end(record: RecordSpec, id: Seq<char>) -> nat {
    match position_of(record.field_specs@, id) {
        Some(i) => record.end_of(i),
        None => 0,
    }
}

/// The least of where the id fields of some records end (0 for no records).
pub open spec fn min_id_end(records: Seq<(Seq<char>, RecordSpec)>, id: Seq<char>) -> nat
    decreases records.len(),
{
    if records.len() == 0 {
        0
    } else if records.len() == 1 {
        id_end(records[0].1, id)
    } else {
        let rest = min_id_end(records.drop_last(), id);
        let last = id_end(records.last().1, id);
        if last < rest {
            last
        } else {
            rest
        }
    }
}

/// Parts that want to look ahead in the source, and may suggest how much.
pub trait RequiresBufRead<T: FieldReadSupporter> {
    open spec fn buffer_size_accepts(&self, record_specs: Seq<(Seq<char>, RecordSpec)>, read_support: &T) -> bool {
        true
    }

    /// What the suggestion `r` is, for the record specs `record_specs`; of a part that
    /// does not say, nothing is known.
    open spec fn suggests(&self, record_specs: Seq<(Seq<char>, RecordSpec)>, read_support: &T, r: Option<usize>) -> bool {
        true
    }

    fn get_suggested_buffer_size(&self, record_specs: &NameMap<RecordSpec>, read_support: &T) -> (r: Option<usize>)
        requires
            self.buffer_size_accepts(record_specs@, read_support),
        ensures
            self.suggests(record_specs@, read_support, r),
    ;
}

/// Names the spec of the next record, looking at what is left of the source.
pub trait Stream<T: FieldReadSupporter>: RequiresBufRead<T> {
    open spec fn next_accepts(&self, record_specs: Seq<(Seq<char>, RecordSpec)>, read_support: &T) -> bool {
        true
    }

    /// Whether `r`, with the names as text, is an answer this source stands by for what is
    /// left of `reader`, the source going on to `after`; of a source that does not say,
    /// nothing is known.
    open spec fn nexts(
        &self,
        after: &Self,
        reader: ByteReader,
        record_specs: Seq<(Seq<char>, RecordSpec)>,
        read_support: &T,
        r: Result<Option<Seq<char>>, BoxedError>,
    ) -> bool {
        true
    }

    fn next<'b>(&mut self, reader: &ByteReader, record_specs: &'b NameMap<RecordSpec>, read_support: &T) -> (r: Result<
        Option<&'b str>,
        BoxedError,
    >)
        requires
            old(self).next_accepts(record_specs@, read_support),
        ensures
            old(self).nexts(&*final(self), *reader, record_specs@, read_support, resolution_view(r)),
    ;
}

/// Tells the spec of the next record from what is left of the source, without changing.
pub trait Resolver<T: FieldReadSupporter>: RequiresBufRead<T> {
    open spec fn resolve_accepts(&self, record_specs: Seq<(Seq<char>, RecordSpec)>, read_support: &T) -> bool {
        true
    }

    /// Whether `r`, with the names as text, is an answer this resolver stands by for what is
    /// left of `reader`; of a resolver that does not say, nothing is known.
    open spec fn resolves(
        &self,
        reader: ByteReader,
        record_specs: Seq<(Seq<char>, RecordSpec)>,
        read_support: &T,
        r: Result<Option<Seq<char>>, BoxedError>,
    ) -> bool {
        true
    }

    fn resolve<'b>(&self, reader: &ByteReader, record_specs: &'b NameMap<RecordSpec>, read_support: &T) -> (r: Result<
        Option<&'b str>,
        BoxedError,
    >)
        requires
            self.resolve_accepts(record_specs@, read_support),
        ensures
            self.resolves(*reader, record_specs@, read_support, resolution_view(r)),
    ;
}

/// A name that a spec source or resolver gave, as text.
pub open spec fn resolution_view(r: Result<Option<&str>, BoxedError>) -> Result<Option<Seq<char>>, BoxedError> {
    match r {
        Ok(Some(n)) => Ok(Some(n@)),
        Ok(None) => Ok(None),
        Err(e) => Err(e),
    }
}

/// Whether `r` is the first record spec, in the order of the names, whose id field `id`
/// holds its default in `input`, read as data of kind `u`; none when no record spec's does.
pub open spec fn id_resolves<T: DataSupporter>(
    u: &T,
    record_specs: Seq<(Seq<char>, RecordSpec)>,
    id: Seq<char>,
    input: Seq<u8>,
    r: Result<Option<Seq<char>>, BoxedError>,
) -> bool {
    match r {
        Ok(Some(name)) => exists|i: int|
            0 <= i < record_specs.len() && record_specs[i].0 == name && id_matches(u, record_specs[i].1, id, input)
                && forall|j: int| 0 <= j < i ==> !id_matches(u, #[trigger] record_specs[j].1, id, input),
        Ok(None) => forall|j: int| 0 <= j < record_specs.len() ==> !id_matches(u, #[trigger] record_specs[j].1, id, input),
        Err(_) => false,
    }
}

/// A stream that asks a resolver each time.
pub struct ResolverSource<T> {
    resolver: T,
}

impl<T> ResolverSource<T> {
    pub closed spec fn resolver_spec(&self) -> T {
        self.resolver
    }

    pub fn new(resolver: T) -> (r: Self)
        ensures
            r.resolver_spec() == resolver,
    {
        ResolverSource { resolver }
    }
}

impl<T: Resolver<U>, U: FieldReadSupporter> RequiresBufRead<U> for ResolverSource<T> {
    open spec fn buffer_size_accepts(&self, record_specs: Seq<(Seq<char>, RecordSpec)>, read_support: &U) -> bool {
        self.resolver_spec().buffer_size_accepts(record_specs, read_support)
    }

    open spec fn suggests(&self, record_specs: Seq<(Seq<char>, RecordSpec)>, read_support: &U, r: Option<usize>) -> bool {
        self.resolver_spec().suggests(record_specs, read_support, r)
    }

    /// What the resolver suggests.
    fn get_suggested_buffer_size(&self, record_specs: &NameMap<RecordSpec>, read_support: &U) -> (r: Option<usize>) {
        self.resolver.get_suggested_buffer_size(record_specs, read_support)
    }
}

impl<T: Resolver<U>, U: FieldReadSupporter> Stream<U> for ResolverSource<T> {
    open spec fn next_accepts(&self, record_specs: Seq<(Seq<char>, RecordSpec)>, read_support: &U) -> bool {
        self.resolver_spec().resolve_accepts(record_specs, read_support)
    }

    open spec fn nexts(
        &self,
        after: &Self,
        reader: ByteReader,
        record_specs: Seq<(Seq<char>, RecordSpec)>,
        read_support: &U,
        r: Result<Option<Seq<char>>, BoxedError>,
    ) -> bool {
        *after == *self && self.resolver_spec().resolves(reader, record_specs, read_support, r)
    }

    /// What the resolver answers; the source stays as it is.
    fn next<'b>(&mut self, reader: &ByteReader, record_specs: &'b NameMap<RecordSpec>, read_support: &U) -> (r: Result<
        Option<&'b str>,
        BoxedError,
    >)
    {
        self.resolver.resolve(reader, record_specs, read_support)
    }
}

impl<T: FieldReadSupporter, U: AsName> RequiresBufRead<T> for IdFieldResolver<U> {
    open spec fn buffer_size_accepts(&self, record_specs: Seq<(Seq<char>, RecordSpec)>, read_support: &T) -> bool {
        &&& forall|i: int| 0 <= i < record_specs.len() ==> (#[trigger] record_specs[i]).1.fits()
        &&& read_support.size_hint_accepts(min_id_end(record_specs, self.id_spec()))
    }

    open spec fn suggests(&self, record_specs: Seq<(Seq<char>, RecordSpec)>, read_support: &T, r: Option<usize>) -> bool {
        &&& min_id_end(record_specs, self.id_spec()) == 0 ==> r is None
        &&& min_id_end(record_specs, self.id_spec()) != 0 ==> match read_support.size_hint_of(
            min_id_end(record_specs, self.id_spec()),
        ).1 {
            Some(m) => r == Some(m as usize),
            None => r is None,
        }
    }

    /// The most bytes that the id fields can take in the record whose id field ends first,
    /// or none when some record has no id field or there are no records.
    fn get_suggested_buffer_size(&self, record_specs: &NameMap<RecordSpec>, read_support: &T) -> (r: Option<usize>)
    {
        let id = self.id_field();
        let n = record_specs.len();
        let ghost s = record_specs@;
        let mut min: usize = 0;
        let mut i: usize = 0;
        while i < n
            invariant
                n == s.len(),
                s == record_specs@,
                id@ == self.id_spec(),
                forall|j: int| 0 <= j < s.len() ==> (#[trigger] s[j]).1.fits(),
                i <= n,
                i == 0 ==> min == 0,
                i > 0 ==> min == min_id_end(s.take(i as int), id@),
            decreases n - i,
        {
            let (_, record_spec) = record_specs.entry(i);
            assert(s[i as int].1 == *record_spec);
            let end = match record_spec.field_range(id) {
                Some(range) => range.end,
                None => 0,
            };
            proof {
                assert(s.take(i + 1).drop_last() =~= s.take(i as int));
                assert(s.take(i + 1).last() == s[i as int]);
                if i == 0 {
                    assert(s.take(1)[0] == s[0]);
                }
            }
            if i == 0 || end < min {
                min = end;
            }
            i = i + 1;
        }
        proof {
            assert(s.take(n as int) =~= s);
            if n > 0 {
                assert(min == min_id_end(s, id@));
            } else {
                assert(min_id_end(s, id@) == 0);
            }
        }
        if min == 0 {
            None
        } else {
            read_support.get_size_hint(min).1
        }
    }
}

impl<T: FieldReadSupporter, U: AsName> Resolver<T> for IdFieldResolver<U> {
    open spec fn resolve_accepts(&self, record_specs: Seq<(Seq<char>, RecordSpec)>, read_support: &T) -> bool {
        forall|i: int|
            0 <= i < record_specs.len() ==> (#[trigger] record_specs[i]).1.fits() && match position_of(
                record_specs[i].1.field_specs@,
                self.id_spec(),
            ) {
                Some(f) => read_support.byte_range_accepts(
                    record_specs[i].1.offset_of(f),
                    record_specs[i].1.end_of(f),
                ),
                None => true,
            }
    }

    open spec fn resolves(
        &self,
        reader: ByteReader,
        record_specs: Seq<(Seq<char>, RecordSpec)>,
        read_support: &T,
        r: Result<Option<Seq<char>>, BoxedError>,
    ) -> bool {
        id_resolves(read_support, record_specs, self.id_spec(), reader.rest(), r)
    }

    /// The first record spec, in the order of the names, that the id field tells.
    fn resolve<'b>(&self, reader: &ByteReader, record_specs: &'b NameMap<RecordSpec>, read_support: &T) -> (r: Result<
        Option<&'b str>,
        BoxedError,
    >)
    {
        let id = self.id_field();
        let buffer = reader.remaining();
        let n = record_specs.len();
        let mut i: usize = 0;
        while i < n
            invariant
                n == record_specs@.len(),
                id@ == self.id_spec(),
                buffer@ == reader.rest(),
                self.resolve_accepts(record_specs@, read_support),
                i <= n,
                forall|j: int|
                    0 <= j < i ==> !id_matches(
                        read_support,
                        #[trigger] record_specs@[j].1,
                        self.id_spec(),
                        reader.rest(),
                    ),
            decreases n - i,
        {
            let (name, record_spec) = record_specs.entry(i);
            assert(record_specs@[i as int].1 == *record_spec);
            let _ = record_spec.field_specs.len();
            if let Some(field_spec) = record_spec.field_specs.get(id) {
                if let Some(default) = &field_spec.default {
                    let field_range = match record_spec.field_range(id) {
                        Some(range) => range,
                        None => {
                            assert(false);
                            i = i + 1;
                            continue ;
                        },
                    };
                    if let Some(byte_range) = read_support.get_byte_range(buffer, field_range) {
                        if byte_range.end <= buffer.len() {
                            let part = vstd::slice::slice_subrange(buffer, byte_range.start, byte_range.end);
                            if crate::padding::bytes_equal(part, default.as_slice()) {
                                return Ok(Some(name.as_str()));
                            }
                        }
                    }
                }
            }
            i = i + 1;
        }
        Ok(None)
    }
}

impl<T: FieldReadSupporter> RequiresBufRead<T> for () {
    open spec fn buffer_size_accepts(&self, record_specs: Seq<(Seq<char>, RecordSpec)>, read_support: &T) -> bool {
        true
    }

    open spec fn suggests(&self, record_specs: Seq<(Seq<char>, RecordSpec)>, read_support: &T, r: Option<usize>) -> bool {
        r is None
    }

    fn get_suggested_buffer_size(&self, record_specs: &NameMap<RecordSpec>, read_support: &T) -> (r: Option<usize>)
        ensures
            r is None,
    {
        None
    }
}

impl<T: FieldReadSupporter> Resolver<T> for () {
    open spec fn resolve_accepts(&self, record_specs: Seq<(Seq<char>, RecordSpec)>, read_support: &T) -> bool {
        true
    }

    open spec fn resolves(
        &self,
        reader: ByteReader,
        record_specs: Seq<(Seq<char>, RecordSpec)>,
        read_support: &T,
        r: Result<Option<Seq<char>>, BoxedError>,
    ) -> bool {
        r matches Ok(None)
    }

    fn resolve<'b>(&self, reader: &ByteReader, record_specs: &'b NameMap<RecordSpec>, read_support: &T) -> (r: Result<
        Option<&'b str>,
        BoxedError,
    >)
        ensures
            r matches Ok(None),
    {
        Ok(None)
    }
}

impl<T: FieldReadSupporter> Stream<T> for () {
    open spec fn next_accepts(&self, record_specs: Seq<(Seq<char>, RecordSpec)>, read_support: &T) -> bool {
        true
    }

    open spec fn nexts(
        &self,
        after: &Self,
        reader: ByteReader,
        record_specs: Seq<(Seq<char>, RecordSpec)>,
        read_support: &T,
        r: Result<Option<Seq<char>>, BoxedError>,
    ) -> bool {
        r matches Ok(None)
    }

    fn next<'b>(&mut self, reader: &ByteReader, record_specs: &'b NameMap<RecordSpec>, read_support: &T) -> (r: Result<
        Option<&'b str>,
        BoxedError,
    >)
        ensures
            r matches Ok(None),
    {
        Ok(None)
    }
}

impl<T: FieldReadSupporter, U: AsName> RequiresBufRead<T> for VecStream<U> {
    open spec fn buffer_size_accepts(&self, record_specs: Seq<(Seq<char>, RecordSpec)>, read_support: &T) -> bool {
        true
    }

    open spec fn suggests(&self, record_specs: Seq<(Seq<char>, RecordSpec)>, read_support: &T, r: Option<usize>) -> bool {
        r is None
    }

    fn get_suggested_buffer_size(&self, record_specs: &NameMap<RecordSpec>, read_support: &T) -> (r: Option<usize>)
        ensures
            r is None,
    {
        None
    }
}

impl<T: FieldReadSupporter, U: AsName> Stream<T> for VecStream<U> {
    open spec fn next_accepts(&self, record_specs: Seq<(Seq<char>, RecordSpec)>, read_support: &T) -> bool {
        self.at() < usize::MAX
    }

    open spec fn nexts(
        &self,
        after: &Self,
        reader: ByteReader,
        record_specs: Seq<(Seq<char>, RecordSpec)>,
        read_support: &T,
        r: Result<Option<Seq<char>>, BoxedError>,
    ) -> bool {
        vec_stream_next(*self, *after, record_specs, r)
    }

    /// The name at the current place, as the key of its record spec; the stream moves on.
    fn next<'b>(&mut self, reader: &ByteReader, record_specs: &'b NameMap<RecordSpec>, read_support: &T) -> (r: Result<
        Option<&'b str>,
        BoxedError,
    >)
    {
        self.next_name(record_specs)
    }
}

} // verus!
