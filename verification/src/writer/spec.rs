//! Where the writers of records learn the name of the spec of the next record.
use vstd::prelude::*;
use crate::data_type::WriteSupporter;
use crate::error::BoxedError;
use crate::names::{AsName, NameMap, position_of};
use crate::record::{Data, DataRanges};
use crate::spec::RecordSpec;
use crate::spec::resolver::IdFieldResolver;
use crate::spec::stream::{VecStream, vec_stream_next};
use crate::reader::spec::resolution_view;

verus! {

/// Whether `data` holds in the id field `id` of `record` the default of that field.
pub open spec fn id_matches_data<T: WriteSupporter, U: DataRanges>(
    t: &T,
    record: RecordSpec,
    id: Seq<char>,
    data: &Data<U, T::DataHolder>,
) -> bool {
    match position_of(record.field_specs@, id) {
        Some(i) => match record.field_specs@[i].1.default {
            Some(default) => match data.ranges.range_of(id) {
                Some((s, e)) => t.bytes_of(data.data).subrange(s as int, e as int) == default@,
                None => false,
            },
            None => false,
        },
        None => false,
    }
}

/// Whether every range of the data is one that `t` can take bytes from.
pub open spec fn ranges_accepted<T: WriteSupporter, U: DataRanges>(t: &T, data: &Data<U, T::DataHolder>) -> bool {
    forall|k: Seq<char>, s: nat, e: nat|
        #![trigger data.ranges.range_of(k), t.get_data_accepts(data.data, s, e)]
        data.ranges.range_of(k) == Some((s, e)) ==> t.get_data_accepts(data.data, s, e)
}

/// Names the spec of the next record, from its data.
pub trait Stream<T: WriteSupporter, R: DataRanges> {
    open spec fn next_accepts(&self) -> bool {
        true
    }

    /// Whether `r`, with the names as text, is an answer this source stands by for `data`,
    /// the source going on to `after`; of a source that does not say, nothing is known.
    open spec fn nexts(
        &self,
        after: &Self,
        data: &Data<R, T::DataHolder>,
        record_specs: Seq<(Seq<char>, RecordSpec)>,
        write_support: &T,
        r: Result<Option<Seq<char>>, BoxedError>,
    ) -> bool {
        true
    }

    fn next<'b>(
        &mut self,
        data: &Data<R, T::DataHolder>,
        record_specs: &'b NameMap<RecordSpec>,
        write_support: &T,
    ) -> (r: Result<Option<&'b str>, BoxedError>)
        requires
            old(self).next_accepts(),
            ranges_accepted(write_support, data),
        ensures
            old(self).nexts(&*final(self), data, record_specs@, write_support, resolution_view(r)),
    ;
}

/// Tells the spec of a record from its data.
pub trait Resolver<T: WriteSupporter, R: DataRanges> {
    /// Whether `r`, with the names as text, is an answer this resolver stands by for
    /// `data`; of a resolver that does not say, nothing is known.
    open spec fn resolves(
        &self,
        data: &Data<R, T::DataHolder>,
        record_specs: Seq<(Seq<char>, RecordSpec)>,
        write_support: &T,
        r: Result<Option<Seq<char>>, BoxedError>,
    ) -> bool {
        true
    }

    fn resolve<'b>(
        &self,
        data: &Data<R, T::DataHolder>,
        record_specs: &'b NameMap<RecordSpec>,
        write_support: &T,
    ) -> (r: Result<Option<&'b str>, BoxedError>)
        requires
            ranges_accepted(write_support, data),
        ensures
            self.resolves(data, record_specs@, write_support, resolution_view(r)),
    ;
}

/// Whether `r` is the first record spec, in the order of the names, whose id field `id`
/// has as its default what `data` holds in that field; none when no record spec's does.
pub open spec fn id_resolves_data<T: WriteSupporter, U: DataRanges>(
    t: &T,
    record_specs: Seq<(Seq<char>, RecordSpec)>,
    id: Seq<char>,
    data: &Data<U, T::DataHolder>,
    r: Result<Option<Seq<char>>, BoxedError>,
) -> bool {
    match r {
        Ok(Some(name)) => exists|i: int|
            0 <= i < record_specs.len() && record_specs[i].0 == name && id_matches_data(t, record_specs[i].1, id, data)
                && forall|j: int| 0 <= j < i ==> !id_matches_data(t, #[trigger] record_specs[j].1, id, data),
        Ok(None) => forall|j: int| 0 <= j < record_specs.len() ==> !id_matches_data(t, #[trigger] record_specs[j].1, id, data),
        Err(_) => false,
    }
}

/// A stream that asks a resolver each time.
pub struct ResolverSource<T> {
    resolver: T,
}

impl<T> ResolverSource<T> {
    pub closed spec fn resolver_spec(&self) -> T {
        self.resolver
    }

    pub fn new(resolver: T) -> (r: Self)
        ensures
            r.resolver_spec() == resolver,
    {
        ResolverSource { resolver }
    }
}

impl<T: Resolver<U, R>, U: WriteSupporter, R: DataRanges> Stream<U, R> for ResolverSource<T> {
    open spec fn next_accepts(&self) -> bool {
        true
    }

    open spec fn nexts(
        &self,
        after: &Self,
        data: &Data<R, U::DataHolder>,
        record_specs: Seq<(Seq<char>, RecordSpec)>,
        write_support: &U,
        r: Result<Option<Seq<char>>, BoxedError>,
    ) -> bool {
        *after == *self && self.resolver_spec().resolves(data, record_specs, write_support, r)
    }

    /// What the resolver answers; the source stays as it is.
    fn next<'b>(
        &mut self,
        data: &Data<R, U::DataHolder>,
        record_specs: &'b NameMap<RecordSpec>,
        write_support: &U,
    ) -> (r: Result<Option<&'b str>, BoxedError>) {
        self.resolver.resolve(data, record_specs, write_support)
    }
}

impl<T: WriteSupporter, U: AsName, R: DataRanges> Resolver<T, R> for IdFieldResolver<U> {
    open spec fn resolves(
        &self,
        data: &Data<R, T::DataHolder>,
        record_specs: Seq<(Seq<char>, RecordSpec)>,
        write_support: &T,
        r: Result<Option<Seq<char>>, BoxedError>,
    ) -> bool {
        id_resolves_data(write_support, record_specs, self.id_spec(), data, r)
    }

    /// The first record spec, in the order of the names, that the id field tells.
    fn resolve<'b>(
        &self,
        data: &Data<R, T::DataHolder>,
        record_specs: &'b NameMap<RecordSpec>,
        write_support: &T,
    ) -> (r: Result<Option<&'b str>, BoxedError>)
    {
        let id = self.id_field();
        let n = record_specs.len();
        let mut i: usize = 0;
        while i < n
            invariant
                n == record_specs@.len(),
                id@ == self.id_spec(),
                ranges_accepted(write_support, data),
                i <= n,
                forall|j: int|
                    0 <= j < i ==> !id_matches_data(
                        write_support,
                        #[trigger] record_specs@[j].1,
                        self.id_spec(),
                        data,
                    ),
            decreases n - i,
        {
            let (name, record_spec) = record_specs.entry(i);
            assert(record_specs@[i as int].1 == *record_spec);
            if let Some(field_spec) = record_spec.field_specs.get(id) {
                if let Some(default) = &field_spec.default {
                    if let Some(value) = write_support.get_data_by_name(id, data) {
                        if crate::padding::bytes_equal(value, default.as_slice()) {
                            return Ok(Some(name.as_str()));
                        }
                    }
                }
            }
            i = i + 1;
        }
        Ok(None)
    }
}

impl<T: WriteSupporter, R: DataRanges> Resolver<T, R> for () {
    open spec fn resolves(
        &self,
        data: &Data<R, T::DataHolder>,
        record_specs: Seq<(Seq<char>, RecordSpec)>,
        write_support: &T,
        r: Result<Option<Seq<char>>, BoxedError>,
    ) -> bool {
        r matches Ok(None)
    }

    fn resolve<'b>(
        &self,
        data: &Data<R, T::DataHolder>,
        record_specs: &'b NameMap<RecordSpec>,
        write_support: &T,
    ) -> (r: Result<Option<&'b str>, BoxedError>)
        ensures
            r matches Ok(None),
    {
        Ok(None)
    }
}

impl<T: WriteSupporter, R: DataRanges> Stream<T, R> for () {
    open spec fn next_accepts(&self) -> bool {
        true
    }

    open spec fn nexts(
        &self,
        after: &Self,
        data: &Data<R, T::DataHolder>,
        record_specs: Seq<(Seq<char>, RecordSpec)>,
        write_support: &T,
        r: Result<Option<Seq<char>>, BoxedError>,
    ) -> bool {
        r matches Ok(None)
    }

    /// Never a name.
    fn next<'b>(
        &mut self,
        data: &Data<R, T::DataHolder>,
        record_specs: &'b NameMap<RecordSpec>,
        write_support: &T,
    ) -> (r: Result<Option<&'b str>, BoxedError>) {
        Ok(None)
    }
}

impl<T: WriteSupporter, U: AsName, R: DataRanges> Stream<T, R> for VecStream<U> {
    open spec fn next_accepts(&self) -> bool {
        self.at() < usize::MAX
    }

    open spec fn nexts(
        &self,
        after: &Self,
        data: &Data<R, T::DataHolder>,
        record_specs: Seq<(Seq<char>, RecordSpec)>,
        write_support: &T,
        r: Result<Option<Seq<char>>, BoxedError>,
    ) -> bool {
        vec_stream_next(*self, *after, record_specs, r)
    }

    /// The name at the current place, as the key of its record spec; the stream moves on.
    fn next<'b>(
        &mut self,
        data: &Data<R, T::DataHolder>,
        record_specs: &'b NameMap<RecordSpec>,
        write_support: &T,
    ) -> (r: Result<Option<&'b str>, BoxedError>) {
        self.next_name(record_specs)
    }
}

} // verus!
