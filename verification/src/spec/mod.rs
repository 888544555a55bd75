//! Specs of records and fields, and the builders that make them.
//!
//! A record spec lays its fields out one after the other, in the order of their names.
//! The builders chain: `SpecBuilder::with_record` opens a record builder whose `end`
//! gives the spec builder back, and the same between records and fields.
pub mod resolver;
pub mod stream;
pub mod loader;

use vstd::prelude::*;
use crate::names::{IntoBytes, IntoName, NameMap, position_of, lookup, inserted, sorted_by_name};
use core::ops::Range;

verus! {

/// On which side of a value the padding goes.
#[derive(Debug, PartialEq, Eq, Clone, Copy, Structural)]
pub enum PaddingDirection {
    Left,
    Right,
}

/// Why a spec could not be built.
#[derive(Debug, PartialEq, Eq)]
pub enum Error {
    /// A value without which the spec cannot be built was never given.
    FieldRequiredToBuild(&'static str),
    /// Some of the parts had errors: each with its name, in the order of the names.
    SubBuilderErrors(Vec<(String, Error)>),
}

pub type Result<T> = core::result::Result<T, Error>;

/// What makes a spec, or a part of one.
pub trait Builder<T>: Sized {
    /// Whether `r` is what building `self` gives; of a builder that does not say,
    /// nothing is known.
    open spec fn builds(&self, r: Result<T>) -> bool {
        true
    }

    fn build(self) -> (r: Result<T>)
        ensures
            self.builds(r),
    ;
}

/// How one field is laid out: its length, and how values are padded to it.
#[derive(Debug, PartialEq, Eq)]
pub struct FieldSpec {
    pub length: usize,
    pub padding_direction: PaddingDirection,
    pub padding: Vec<u8>,
    pub default: Option<Vec<u8>>,
}

impl Clone for FieldSpec {
    fn clone(&self) -> (r: Self)
        ensures
            r.length == self.length,
            r.padding_direction == self.padding_direction,
            r.padding@ == self.padding@,
            opt_bytes(r.default) == opt_bytes(self.default),
    {
        FieldSpec {
            length: self.length,
            padding_direction: self.padding_direction,
            padding: clone_bytes(&self.padding),
            default: match &self.default {
                Some(d) => Some(clone_bytes(d)),
                None => None,
            },
        }
    }
}

/// The contents of an optional byte vector.
pub open spec fn opt_bytes(o: Option<Vec<u8>>) -> Option<Seq<u8>> {
    match o {
        Some(v) => Some(v@),
        None => None,
    }
}

/// A copy of a byte vector.
pub fn clone_bytes(v: &Vec<u8>) -> (r: Vec<u8>)
    ensures
        r@ == v@,
{
    vstd::slice::slice_to_vec(v.as_slice())
}

impl Builder<FieldSpec> for FieldSpec {
    /// A spec builds into itself.
    open spec fn builds(&self, r: Result<FieldSpec>) -> bool {
        r == Ok::<FieldSpec, Error>(*self)
    }

    fn build(self) -> (r: Result<FieldSpec>) {
        Ok(self)
    }
}

/// The sum of the lengths of a sequence of fields.
pub open spec fn total_length(s: Seq<(Seq<char>, FieldSpec)>) -> nat
    decreases s.len(),
{
    if s.len() == 0 {
        0nat
    } else {
        total_length(s.drop_last()) + s.last().1.length as nat
    }
}

/// A prefix of the fields is no longer than all of them, and adding a field adds its length.
pub proof fn lemma_total_length_prefix(s: Seq<(Seq<char>, FieldSpec)>, i: int)
    requires
        0 <= i <= s.len(),
    ensures
        total_length(s.take(i)) <= total_length(s),
        i < s.len() ==> total_length(s.take(i + 1)) == total_length(s.take(i)) + s[i].1.length,
    decreases s.len(),
{
    if i < s.len() {
        assert(s.take(i + 1).drop_last() =~= s.take(i));
        assert(s.take(i + 1).last() == s[i]);
    }
    if i == s.len() {
        assert(s.take(i) =~= s);
    } else {
        lemma_total_length_prefix(s.drop_last(), i);
        assert(s.drop_last().take(i) =~= s.take(i));
    }
}

/// How one record is laid out: its fields, in the order of their names, then its line ending.
#[derive(Debug, PartialEq, Eq)]
pub struct RecordSpec {
    pub line_ending: Vec<u8>,
    pub field_specs: NameMap<FieldSpec>,
}

impl RecordSpec {
    /// The length of a record without its line ending.
    pub open spec fn spec_len(&self) -> nat {
        total_length(self.field_specs@)
    }

    /// Where the field at position `i` starts.
    pub open spec fn offset_of(&self, i: int) -> nat {
        total_length(self.field_specs@.take(i))
    }

    /// Where the field at position `i` ends.
    pub open spec fn end_of(&self, i: int) -> nat {
        self.offset_of(i) + self.field_specs@[i].1.length as nat
    }

    /// The lengths of the fields add up to no more than a `usize` holds.
    pub open spec fn fits(&self) -> bool {
        self.spec_len() <= usize::MAX
    }

    /// The range that the field named `name` takes in a record.
    pub fn field_range(&self, name: &str) -> (r: Option<Range<usize>>)
        requires
            self.fits(),
        ensures
            match position_of(self.field_specs@, name@) {
                Some(i) => r matches Some(range) && range.start == self.offset_of(i) && range.end
                    == self.offset_of(i) + self.field_specs@[i].1.length,
                None => r is None,
            },
    {
        let n = self.field_specs.len();
        let ghost s = self.field_specs@;
        let position = self.field_specs.position(name);
        let mut offset: usize = 0;
        let mut i: usize = 0;
        match position {
            None => None,
            Some(p) => {
                while i < p
                    invariant
                        s == self.field_specs@,
                        p < s.len(),
                        n == s.len(),
                        i <= p,
                        offset == total_length(s.take(i as int)),
                        total_length(s) <= usize::MAX,
                    decreases p - i,
                {
                    proof {
                        lemma_total_length_prefix(s, i as int);
                        lemma_total_length_prefix(s, i + 1);
                    }
                    let (_, field_spec) = self.field_specs.entry(i);
                    offset = offset + field_spec.length;
                    i = i + 1;
                }
                proof {
                    lemma_total_length_prefix(s, p as int);
                    lemma_total_length_prefix(s, p + 1);
                }
                let (_, field_spec) = self.field_specs.entry(p);
                Some(offset..offset + field_spec.length)
            },
        }
    }

    /// The length of a record without its line ending.
    pub fn len(&self) -> (n: usize)
        requires
            self.fits(),
        ensures
            n == self.spec_len(),
    {
        let count = self.field_specs.len();
        let ghost s = self.field_specs@;
        let mut total: usize = 0;
        let mut i: usize = 0;
        while i < count
            invariant
                s == self.field_specs@,
                count == s.len(),
                i <= count,
                total == total_length(s.take(i as int)),
                total_length(s) <= usize::MAX,
            decreases count - i,
        {
            proof {
                lemma_total_length_prefix(s, i + 1);
                lemma_total_length_prefix(s, i as int);
            }
            let (_, field_spec) = self.field_specs.entry(i);
            total = total + field_spec.length;
            i = i + 1;
        }
        proof {
            assert(s.take(count as int) =~= s);
        }
        total
    }
}

/// The fields of a record tile it: the first starts where the record does, each of the
/// others where the one before it ends, and the last ends where the record does.
pub proof fn law_fields_tile_the_record(record: RecordSpec)
    ensures
        record.offset_of(0) == 0,
        forall|i: int|
            0 <= i < record.field_specs@.len() ==> #[trigger] record.offset_of(i + 1) == record.offset_of(i)
                + record.field_specs@[i].1.length,
        record.offset_of(record.field_specs@.len() as int) == record.spec_len(),
{
    let s = record.field_specs@;
    assert(s.take(0) =~= Seq::<(Seq<char>, FieldSpec)>::empty());
    assert(s.take(s.len() as int) =~= s);
    assert forall|i: int| 0 <= i < s.len() implies #[trigger] record.offset_of(i + 1) == record.offset_of(i)
        + s[i].1.length by {
        lemma_total_length_prefix(s, i);
    }
}

/// Every field lies within the record: the range of a field ends no later than the record.
pub proof fn law_field_within_record(record: RecordSpec, i: int)
    requires
        0 <= i < record.field_specs@.len(),
    ensures
        record.offset_of(i) + record.field_specs@[i].1.length <= record.spec_len(),
{
    let s = record.field_specs@;
    lemma_total_length_prefix(s, i);
    lemma_total_length_prefix(s, i + 1);
}

impl Builder<RecordSpec> for RecordSpec {
    /// A spec builds into itself.
    open spec fn builds(&self, r: Result<RecordSpec>) -> bool {
        r == Ok::<RecordSpec, Error>(*self)
    }

    fn build(self) -> (r: Result<RecordSpec>) {
        Ok(self)
    }
}

/// The specs of all records, by name.
#[derive(Debug, PartialEq, Eq)]
pub struct Spec {
    pub record_specs: NameMap<RecordSpec>,
}

impl Builder<Spec> for Spec {
    /// A spec builds into itself.
    open spec fn builds(&self, r: Result<Spec>) -> bool {
        r == Ok::<Spec, Error>(*self)
    }

    fn build(self) -> (r: Result<Spec>) {
        Ok(self)
    }
}

/// The parts of a sequence of built parts whose building failed, each with its name and
/// error, in the same order.
pub open spec fn failed_parts<T>(s: Seq<(Seq<char>, Result<T>)>) -> Seq<(Seq<char>, Error)>
    decreases s.len(),
{
    if s.len() == 0 {
        Seq::empty()
    } else {
        match s.last().1 {
            Err(e) => failed_parts(s.drop_last()).push((s.last().0, e)),
            Ok(_) => failed_parts(s.drop_last()),
        }
    }
}

/// Whether `errors` are the failed parts `failed`, the names as text.
pub open spec fn errors_are(errors: Seq<(String, Error)>, failed: Seq<(Seq<char>, Error)>) -> bool {
    &&& errors.len() == failed.len()
    &&& forall|j: int| 0 <= j < errors.len() ==> (#[trigger] errors[j]).0@ == failed[j].0 && errors[j].1 == failed[j].1
}

/// Whether any part in a sequence of built parts failed.
pub open spec fn any_failed<T>(s: Seq<(Seq<char>, Result<T>)>) -> bool {
    exists|i: int| 0 <= i < s.len() && (#[trigger] s[i]).1 is Err
}

proof fn lemma_failed_parts_empty<T>(s: Seq<(Seq<char>, Result<T>)>)
    requires
        !any_failed(s),
    ensures
        failed_parts(s).len() == 0,
    decreases s.len(),
{
    if s.len() > 0 {
        let t = s.drop_last();
        assert(s.last() == s[s.len() - 1]);
        assert forall|i: int| 0 <= i < t.len() implies !((#[trigger] t[i]).1 is Err) by {
            assert(t[i] == s[i]);
        }
        lemma_failed_parts_empty(t);
    }
}

proof fn lemma_failed_parts_step<T>(s: Seq<(Seq<char>, Result<T>)>, i: int)
    requires
        0 <= i < s.len(),
    ensures
        failed_parts(s.take(i + 1)) == match s[i].1 {
            Err(e) => failed_parts(s.take(i)).push((s[i].0, e)),
            Ok(_) => failed_parts(s.take(i)),
        },
{
    assert(s.take(i + 1).drop_last() =~= s.take(i));
    assert(s.take(i + 1).last() == s[i]);
}

/// Splits built parts into the parts, when none failed, or the errors, when some did.
fn collect_parts<T>(parts: NameMap<Result<T>>) -> (r: core::result::Result<NameMap<T>, Vec<(String, Error)>>)
    ensures
        match r {
            Ok(m) => !any_failed(parts@) && m@.len() == parts@.len() && forall|i: int|
                0 <= i < parts@.len() ==> (#[trigger] m@[i]).0 == parts@[i].0 && parts@[i].1 == Ok::<T, Error>(m@[i].1),
            Err(errors) => any_failed(parts@) && errors_are(errors@, failed_parts(parts@)),
        },
{
    let ghost s = parts@;
    let mut entries = parts.into_entries();
    let n = entries.len();
    let mut oks: Vec<(String, T)> = Vec::new();
    let mut errors: Vec<(String, Error)> = Vec::new();
    let mut i: usize = 0;
    assert(s.take(0) =~= Seq::<(Seq<char>, Result<T>)>::empty());
    while i < n
        invariant
            n == s.len(),
            sorted_by_name(s),
            i <= n,
            entries@.len() == n - i,
            forall|j: int| 0 <= j < n - i ==> (#[trigger] entries@[j]).0@ == s[i + j].0 && entries@[j].1 == s[i + j].1,
            errors_are(errors@, failed_parts(s.take(i as int))),
            errors@.len() == 0 ==> (oks@.len() == i && forall|j: int|
                0 <= j < i ==> (#[trigger] oks@[j]).0@ == s[j].0 && s[j].1 == Ok::<T, Error>(oks@[j].1)),
            errors@.len() == 0 <==> !any_failed(s.take(i as int)),
        decreases n - i,
    {
        proof {
            lemma_failed_parts_step(s, i as int);
        }
        let ghost before = entries@;
        let (name, result) = entries.remove(0);
        assert(name@ == s[i as int].0 && result == s[i as int].1);
        assert forall|j: int| 0 <= j < n - (i + 1) implies (#[trigger] entries@[j]).0@ == s[i + 1 + j].0
            && entries@[j].1 == s[i + 1 + j].1 by {
            assert(entries@[j] == before[j + 1]);
        }
        match result {
            Ok(value) => {
                if errors.len() == 0 {
                    oks.push((name, value));
                }
            },
            Err(error) => {
                errors.push((name, error));
            },
        }
        proof {
            let t = s.take(i + 1);
            if !any_failed(t) {
                assert forall|j: int| 0 <= j < i implies !((#[trigger] s.take(i as int)[j]).1 is Err) by {
                    assert(t[j] == s.take(i as int)[j]);
                }
            } else {
                let k = choose|k: int| 0 <= k < t.len() && (#[trigger] t[k]).1 is Err;
                if k < i {
                    assert(s.take(i as int)[k] == t[k]);
                }
            }
        }
        i = i + 1;
    }
    proof {
        assert(s.take(n as int) =~= s);
    }
    if errors.len() == 0 {
        proof {
            let t = oks@.map_values(|e: (String, T)| (e.0@, e.1));
            assert forall|a: int, b: int| 0 <= a < b < t.len() implies crate::names::name_lt(
                #[trigger] t[a].0,
                #[trigger] t[b].0,
            ) by {
                assert(t[a].0 == s[a].0);
                assert(t[b].0 == s[b].0);
            }
        }
        let m = NameMap::from_sorted(oks);
        Ok(m)
    } else {
        Err(errors)
    }
}

/// Builds a spec out of the records added to it.
pub struct SpecBuilder {
    record_specs: NameMap<Result<RecordSpec>>,
    sub_builder_error: bool,
}

impl SpecBuilder {
    /// The records added so far, each with what building it gave.
    pub closed spec fn records(&self) -> Seq<(Seq<char>, Result<RecordSpec>)> {
        self.record_specs@
    }

    /// Whether building a record has failed.
    pub closed spec fn has_error(&self) -> bool {
        self.sub_builder_error
    }

    #[verifier::type_invariant]
    closed spec fn error_recorded(self) -> bool {
        any_failed(self.record_specs@) ==> self.sub_builder_error
    }

    /// A builder with no records.
    pub fn new() -> (b: Self)
        ensures
            b.records() == Seq::<(Seq<char>, Result<RecordSpec>)>::empty(),
            !b.has_error(),
    {
        SpecBuilder { record_specs: NameMap::new(), sub_builder_error: false }
    }

    /// Adds the record that `record` builds under `name`, replacing one of the same name.
    pub fn add_record<T: IntoName, U: Builder<RecordSpec>>(self, name: T, record: U) -> (b: Self)
        ensures
            exists|built: Result<RecordSpec>|
                #[trigger] record.builds(built) && b.records() == inserted(self.records(), name.name_view(), built)
                    && b.has_error() == (self.has_error() || built is Err),
    {
        proof {
            use_type_invariant(&self);
        }
        let built = record.build();
        let failed = built.is_err();
        let mut record_specs = self.record_specs;
        let ghost old_records = record_specs@;
        record_specs.insert(name.into_name(), built);
        proof {
            lemma_inserted_failure(old_records, name.name_view(), built);
        }
        let b = SpecBuilder { record_specs, sub_builder_error: self.sub_builder_error || failed };
        assert(b.records() == inserted(self.records(), name.name_view(), built));
        b
    }

    /// Starts a record named `name`, which `RecordSpecBuilder::end` adds to this builder.
    pub fn with_record<T: IntoName>(self, name: T) -> (b: RecordSpecBuilder)
        ensures
            b.parent() == Some(self),
            b.name_spec() == Some(name.name_view()),
            b.fields() == Seq::<(Seq<char>, Result<FieldSpec>)>::empty(),
            b.line_ending_spec() == Seq::<u8>::empty(),
            !b.has_error(),
    {
        RecordSpecBuilder::new_with_spec_builder(name, self)
    }
}

proof fn lemma_inserted_failure<T>(s: Seq<(Seq<char>, Result<T>)>, k: Seq<char>, v: Result<T>)
    ensures
        any_failed(inserted(s, k, v)) ==> any_failed(s) || v is Err,
{
    let t = inserted(s, k, v);
    if any_failed(t) && !(v is Err) {
        let i = choose|i: int| 0 <= i < t.len() && (#[trigger] t[i]).1 is Err;
        match position_of(s, k) {
            Some(p) => {
                assert(t[i] == s[i]);
            },
            None => {
                let c = crate::names::count_before(s, k) as int;
                lemma_count_before_bound(s, k);
                if i < c {
                    assert(t[i] == s[i]);
                } else {
                    assert(t[i] == s[i - 1]);
                }
            },
        }
    }
}

proof fn lemma_count_before_bound<V>(s: Seq<(Seq<char>, V)>, k: Seq<char>)
    ensures
        crate::names::count_before(s, k) <= s.len(),
    decreases s.len(),
{
    if s.len() > 0 {
        lemma_count_before_bound(s.drop_last(), k);
    }
}

impl Builder<Spec> for SpecBuilder {
    /// After a failed record, the errors of the records that failed, in the order of their
    /// names; else the spec of every record.
    open spec fn builds(&self, r: Result<Spec>) -> bool {
        &&& self.has_error() ==> (r matches Err(Error::SubBuilderErrors(errors)) && errors_are(
            errors@,
            failed_parts(self.records()),
        ))
        &&& !self.has_error() ==> (r matches Ok(spec) && spec.record_specs@.len() == self.records().len()
            && forall|i: int|
            0 <= i < self.records().len() ==> (#[trigger] spec.record_specs@[i]).0 == self.records()[i].0
                && self.records()[i].1 == Ok::<RecordSpec, Error>(spec.record_specs@[i].1))
    }

    fn build(self) -> (r: Result<Spec>) {
        proof {
            use_type_invariant(&self);
        }
        let error = self.sub_builder_error;
        let ghost records = self.record_specs@;
        match collect_parts(self.record_specs) {
            Ok(record_specs) => {
                proof {
                    lemma_failed_parts_empty(records);
                }
                if error {
                    Err(Error::SubBuilderErrors(Vec::new()))
                } else {
                    Ok(Spec { record_specs })
                }
            },
            Err(errors) => Err(Error::SubBuilderErrors(errors)),
        }
    }
}

/// Builds the spec of a record out of the fields added to it.
pub struct RecordSpecBuilder {
    line_ending: Vec<u8>,
    field_specs: NameMap<Result<FieldSpec>>,
    sub_builder_error: bool,
    spec_builder: Option<SpecBuilder>,
    name: Option<String>,
}

impl RecordSpecBuilder {
    /// The fields added so far, each with what building it gave.
    pub closed spec fn fields(&self) -> Seq<(Seq<char>, Result<FieldSpec>)> {
        self.field_specs@
    }

    /// Whether building a field has failed.
    pub closed spec fn has_error(&self) -> bool {
        self.sub_builder_error
    }

    /// The line ending that records of this spec end with.
    pub closed spec fn line_ending_spec(&self) -> Seq<u8> {
        self.line_ending@
    }

    /// The spec builder that `end` returns to.
    pub closed spec fn parent(&self) -> Option<SpecBuilder> {
        self.spec_builder
    }

    /// The name under which `end` adds the record.
    pub closed spec fn name_spec(&self) -> Option<Seq<char>> {
        match self.name {
            Some(n) => Some(n@),
            None => None,
        }
    }

    #[verifier::type_invariant]
    closed spec fn error_recorded(self) -> bool {
        any_failed(self.field_specs@) ==> self.sub_builder_error
    }

    /// A builder with no fields, not attached to a spec builder.
    pub fn new() -> (b: Self)
        ensures
            b.fields() == Seq::<(Seq<char>, Result<FieldSpec>)>::empty(),
            b.line_ending_spec() == Seq::<u8>::empty(),
            !b.has_error(),
            b.parent() is None,
            b.name_spec() is None,
    {
        RecordSpecBuilder {
            line_ending: Vec::new(),
            field_specs: NameMap::new(),
            sub_builder_error: false,
            spec_builder: None,
            name: None,
        }
    }

    /// A builder with no fields, whose `end` adds the record to `spec_builder` under `name`.
    pub fn new_with_spec_builder<T: IntoName>(name: T, spec_builder: SpecBuilder) -> (b: Self)
        ensures
            b.fields() == Seq::<(Seq<char>, Result<FieldSpec>)>::empty(),
            b.line_ending_spec() == Seq::<u8>::empty(),
            !b.has_error(),
            b.parent() == Some(spec_builder),
            b.name_spec() == Some(name.name_view()),
    {
        RecordSpecBuilder {
            line_ending: Vec::new(),
            field_specs: NameMap::new(),
            sub_builder_error: false,
            spec_builder: Some(spec_builder),
            name: Some(name.into_name()),
        }
    }

    /// Adds the field that `field` builds under `name`, replacing one of the same name.
    pub fn add_field<T: IntoName, U: Builder<FieldSpec>>(self, name: T, field: U) -> (b: Self)
        ensures
            exists|built: Result<FieldSpec>|
                #[trigger] field.builds(built) && b.fields() == inserted(self.fields(), name.name_view(), built)
                    && b.has_error() == (self.has_error() || built is Err),
            b.line_ending_spec() == self.line_ending_spec(),
            b.parent() == self.parent(),
            b.name_spec() == self.name_spec(),
    {
        proof {
            use_type_invariant(&self);
        }
        let built = field.build();
        let failed = built.is_err();
        let RecordSpecBuilder { line_ending, field_specs, sub_builder_error, spec_builder, name: record_name } =
            self;
        let mut field_specs = field_specs;
        let ghost old_fields = field_specs@;
        field_specs.insert(name.into_name(), built);
        proof {
            lemma_inserted_failure(old_fields, name.name_view(), built);
        }
        let b = RecordSpecBuilder {
            line_ending,
            field_specs,
            sub_builder_error: sub_builder_error || failed,
            spec_builder,
            name: record_name,
        };
        assert(b.fields() == inserted(self.fields(), name.name_view(), built));
        b
    }

    /// Starts a field named `name`, which `FieldSpecBuilder::end` adds to this builder.
    pub fn with_field<T: IntoName>(self, name: T) -> (b: FieldSpecBuilder)
        ensures
            b.parent() == Some(self),
            b.name_spec() == Some(name.name_view()),
            b.length_spec() is None,
            b.padding_direction_spec() is None,
            b.padding_spec() is None,
            b.default_spec() is None,
    {
        FieldSpecBuilder::new_with_record_spec_builder(name, self)
    }

    /// Sets the line ending that records of this spec end with.
    pub fn with_line_ending<T: IntoBytes>(self, line_ending: T) -> (b: Self)
        ensures
            b.line_ending_spec() == line_ending.bytes_view(),
            b.fields() == self.fields(),
            b.has_error() == self.has_error(),
            b.parent() == self.parent(),
            b.name_spec() == self.name_spec(),
    {
        proof {
            use_type_invariant(&self);
        }
        let RecordSpecBuilder { line_ending: _, field_specs, sub_builder_error, spec_builder, name } = self;
        RecordSpecBuilder {
            line_ending: line_ending.into_bytes(),
            field_specs,
            sub_builder_error,
            spec_builder,
            name,
        }
    }

    /// Adds this record to the spec builder it was started from.
    pub fn end(self) -> (b: SpecBuilder)
        requires
            self.parent() is Some,
            self.name_spec() is Some,
        ensures
            exists|built: Result<RecordSpec>|
                #[trigger] self.builds(built) && b.records() == inserted(
                    self.parent()->0.records(),
                    self.name_spec()->0,
                    built,
                ) && b.has_error() == (self.parent()->0.has_error() || built is Err),
    {
        proof {
            use_type_invariant(&self);
        }
        let RecordSpecBuilder { line_ending, field_specs, sub_builder_error, spec_builder, name } = self;
        let parent = match spec_builder {
            Some(p) => p,
            None => {
                assert(false);
                return SpecBuilder::new();
            },
        };
        let name = match name {
            Some(n) => n,
            None => {
                assert(false);
                return parent;
            },
        };
        let record = RecordSpecBuilder {
            line_ending,
            field_specs,
            sub_builder_error,
            spec_builder: None,
            name: None,
        };
        let ghost record_error = record.sub_builder_error;
        proof {
            use_type_invariant(&parent);
        }
        let built = record.build();
        let failed = built.is_err();
        let SpecBuilder { record_specs, sub_builder_error: parent_error } = parent;
        let mut record_specs = record_specs;
        let ghost old_records = record_specs@;
        let ghost key = name@;
        record_specs.insert(name, built);
        proof {
            lemma_inserted_failure(old_records, key, built);
        }
        let b = SpecBuilder { record_specs, sub_builder_error: parent_error || failed };
        assert(b.records() == inserted(self.parent()->0.records(), self.name_spec()->0, built));
        assert(self.builds(built));
        b
    }
}

impl Builder<RecordSpec> for RecordSpecBuilder {
    /// After a failed field, the errors of the fields that failed, in the order of their
    /// names; else the spec of the record, with its line ending and every field.
    open spec fn builds(&self, r: Result<RecordSpec>) -> bool {
        &&& self.has_error() ==> (r matches Err(Error::SubBuilderErrors(errors)) && errors_are(
            errors@,
            failed_parts(self.fields()),
        ))
        &&& !self.has_error() ==> (r matches Ok(spec) && spec.line_ending@ == self.line_ending_spec()
            && spec.field_specs@.len() == self.fields().len() && forall|i: int|
            0 <= i < self.fields().len() ==> (#[trigger] spec.field_specs@[i]).0 == self.fields()[i].0
                && self.fields()[i].1 == Ok::<FieldSpec, Error>(spec.field_specs@[i].1))
    }

    fn build(self) -> (r: Result<RecordSpec>) {
        proof {
            use_type_invariant(&self);
        }
        let RecordSpecBuilder { line_ending, field_specs, sub_builder_error, spec_builder: _, name: _ } = self;
        let ghost fields = field_specs@;
        match collect_parts(field_specs) {
            Ok(field_specs) => {
                proof {
                    lemma_failed_parts_empty(fields);
                }
                if sub_builder_error {
                    Err(Error::SubBuilderErrors(Vec::new()))
                } else {
                    Ok(RecordSpec { line_ending, field_specs })
                }
            },
            Err(errors) => Err(Error::SubBuilderErrors(errors)),
        }
    }
}

/// Builds the spec of a field.
pub struct FieldSpecBuilder {
    length: Option<usize>,
    padding_direction: Option<PaddingDirection>,
    padding: Option<Vec<u8>>,
    default: Option<Vec<u8>>,
    record_spec_builder: Option<RecordSpecBuilder>,
    name: Option<String>,
}

impl Clone for FieldSpecBuilder {
    /// A copy of the settings, not attached to a record builder.
    fn clone(&self) -> (r: Self)
        ensures
            r.length_spec() == self.length_spec(),
            r.padding_direction_spec() == self.padding_direction_spec(),
            r.padding_spec() == self.padding_spec(),
            r.default_spec() == self.default_spec(),
            r.parent() is None,
            r.name_spec() is None,
    {
        FieldSpecBuilder {
            length: self.length,
            padding_direction: self.padding_direction,
            padding: match &self.padding {
                Some(p) => Some(clone_bytes(p)),
                None => None,
            },
            default: match &self.default {
                Some(d) => Some(clone_bytes(d)),
                None => None,
            },
            record_spec_builder: None,
            name: None,
        }
    }
}

impl FieldSpecBuilder {
    pub closed spec fn length_spec(&self) -> Option<usize> {
        self.length
    }

    pub closed spec fn padding_direction_spec(&self) -> Option<PaddingDirection> {
        self.padding_direction
    }

    pub closed spec fn padding_spec(&self) -> Option<Seq<u8>> {
        opt_bytes(self.padding)
    }

    pub closed spec fn default_spec(&self) -> Option<Seq<u8>> {
        opt_bytes(self.default)
    }

    /// The record builder that `end` returns to.
    pub closed spec fn parent(&self) -> Option<RecordSpecBuilder> {
        self.record_spec_builder
    }

    /// The name under which `end` adds the field.
    pub closed spec fn name_spec(&self) -> Option<Seq<char>> {
        match self.name {
            Some(n) => Some(n@),
            None => None,
        }
    }

    /// A builder with nothing set, not attached to a record builder.
    pub fn new() -> (b: Self)
        ensures
            b.length_spec() is None,
            b.padding_direction_spec() is None,
            b.padding_spec() is None,
            b.default_spec() is None,
            b.parent() is None,
            b.name_spec() is None,
    {
        FieldSpecBuilder {
            length: None,
            padding_direction: None,
            padding: None,
            default: None,
            record_spec_builder: None,
            name: None,
        }
    }

    /// A builder with nothing set, whose `end` adds the field to `record_spec_builder`.
    pub fn new_with_record_spec_builder<T: IntoName>(name: T, record_spec_builder: RecordSpecBuilder) -> (b: Self)
        ensures
            b.length_spec() is None,
            b.padding_direction_spec() is None,
            b.padding_spec() is None,
            b.default_spec() is None,
            b.parent() == Some(record_spec_builder),
            b.name_spec() == Some(name.name_view()),
    {
        FieldSpecBuilder {
            length: None,
            padding_direction: None,
            padding: None,
            default: None,
            record_spec_builder: Some(record_spec_builder),
            name: Some(name.into_name()),
        }
    }

    /// A number: padded with `0` on the left.
    pub fn number(self) -> (b: Self)
        ensures
            b.padding_spec() == Some(seq![48u8]),
            b.padding_direction_spec() == Some(PaddingDirection::Left),
            b.length_spec() == self.length_spec(),
            b.default_spec() == self.default_spec(),
            b.parent() == self.parent(),
            b.name_spec() == self.name_spec(),
    {
        self.with_padding(vec![48u8]).with_padding_direction(PaddingDirection::Left)
    }

    /// A number that defaults to `0`.
    pub fn empty_number(self) -> (b: Self)
        ensures
            b.default_spec() == Some(seq![48u8]),
            b.padding_spec() == self.padding_spec(),
            b.padding_direction_spec() == self.padding_direction_spec(),
            b.length_spec() == self.length_spec(),
            b.parent() == self.parent(),
            b.name_spec() == self.name_spec(),
    {
        self.with_default(vec![48u8])
    }

    /// A string: padded with spaces on the right.
    pub fn string(self) -> (b: Self)
        ensures
            b.padding_spec() == Some(seq![32u8]),
            b.padding_direction_spec() == Some(PaddingDirection::Right),
            b.length_spec() == self.length_spec(),
            b.default_spec() == self.default_spec(),
            b.parent() == self.parent(),
            b.name_spec() == self.name_spec(),
    {
        self.with_padding(vec![32u8]).with_padding_direction(PaddingDirection::Right)
    }

    /// A string that defaults to the empty string.
    pub fn empty_string(self) -> (b: Self)
        ensures
            b.default_spec() == Some(Seq::<u8>::empty()),
            b.padding_spec() == Some(seq![32u8]),
            b.padding_direction_spec() == Some(PaddingDirection::Right),
            b.length_spec() == self.length_spec(),
            b.parent() == self.parent(),
            b.name_spec() == self.name_spec(),
    {
        self.string().with_default(Vec::new())
    }

    /// A filler of `length` spaces: a string that defaults to all spaces.
    pub fn filler(self, length: usize) -> (b: Self)
        ensures
            b.default_spec() == Some(Seq::new(length as nat, |i: int| 32u8)),
            b.padding_spec() == Some(seq![32u8]),
            b.padding_direction_spec() == Some(PaddingDirection::Right),
            b.length_spec() == Some(length),
            b.parent() == self.parent(),
            b.name_spec() == self.name_spec(),
    {
        let mut spaces: Vec<u8> = Vec::new();
        let mut i: usize = 0;
        while i < length
            invariant
                i <= length,
                spaces@ == Seq::new(i as nat, |j: int| 32u8),
            decreases length - i,
        {
            spaces.push(32u8);
            i = i + 1;
            assert(spaces@ =~= Seq::new(i as nat, |j: int| 32u8));
        }
        self.string().with_default(spaces).with_length(length)
    }

    pub fn with_length(self, length: usize) -> (b: Self)
        ensures
            b.length_spec() == Some(length),
            b.padding_spec() == self.padding_spec(),
            b.padding_direction_spec() == self.padding_direction_spec(),
            b.default_spec() == self.default_spec(),
            b.parent() == self.parent(),
            b.name_spec() == self.name_spec(),
    {
        FieldSpecBuilder { length: Some(length), ..self }
    }

    pub fn with_padding_direction(self, padding_direction: PaddingDirection) -> (b: Self)
        ensures
            b.padding_direction_spec() == Some(padding_direction),
            b.length_spec() == self.length_spec(),
            b.padding_spec() == self.padding_spec(),
            b.default_spec() == self.default_spec(),
            b.parent() == self.parent(),
            b.name_spec() == self.name_spec(),
    {
        FieldSpecBuilder { padding_direction: Some(padding_direction), ..self }
    }

    pub fn with_padding<T: IntoBytes>(self, padding: T) -> (b: Self)
        ensures
            b.padding_spec() == Some(padding.bytes_view()),
            b.length_spec() == self.length_spec(),
            b.padding_direction_spec() == self.padding_direction_spec(),
            b.default_spec() == self.default_spec(),
            b.parent() == self.parent(),
            b.name_spec() == self.name_spec(),
    {
        FieldSpecBuilder { padding: Some(padding.into_bytes()), ..self }
    }

    pub fn with_default<T: IntoBytes>(self, default: T) -> (b: Self)
        ensures
            b.default_spec() == Some(default.bytes_view()),
            b.length_spec() == self.length_spec(),
            b.padding_direction_spec() == self.padding_direction_spec(),
            b.padding_spec() == self.padding_spec(),
            b.parent() == self.parent(),
            b.name_spec() == self.name_spec(),
    {
        FieldSpecBuilder { default: Some(default.into_bytes()), ..self }
    }

    /// Adds this field to the record builder it was started from.
    pub fn end(self) -> (b: RecordSpecBuilder)
        requires
            self.parent() is Some,
            self.name_spec() is Some,
        ensures
            exists|built: Result<FieldSpec>|
                #[trigger] self.builds(built) && b.fields() == inserted(
                    self.parent()->0.fields(),
                    self.name_spec()->0,
                    built,
                ) && b.has_error() == (self.parent()->0.has_error() || built is Err),
            b.line_ending_spec() == self.parent()->0.line_ending_spec(),
            b.parent() == self.parent()->0.parent(),
            b.name_spec() == self.parent()->0.name_spec(),
    {
        let FieldSpecBuilder { length, padding_direction, padding, default, record_spec_builder, name } = self;
        let parent = match record_spec_builder {
            Some(p) => p,
            None => {
                assert(false);
                return RecordSpecBuilder::new();
            },
        };
        let name = match name {
            Some(n) => n,
            None => {
                assert(false);
                return parent;
            },
        };
        let field = FieldSpecBuilder {
            length,
            padding_direction,
            padding,
            default,
            record_spec_builder: None,
            name: None,
        };
        proof {
            use_type_invariant(&parent);
        }
        let built = field.build();
        let failed = built.is_err();
        let RecordSpecBuilder {
            line_ending,
            field_specs,
            sub_builder_error,
            spec_builder,
            name: record_name,
        } = parent;
        let mut field_specs = field_specs;
        let ghost old_fields = field_specs@;
        let ghost key = name@;
        field_specs.insert(name, built);
        proof {
            lemma_inserted_failure(old_fields, key, built);
        }
        let b = RecordSpecBuilder {
            line_ending,
            field_specs,
            sub_builder_error: sub_builder_error || failed,
            spec_builder,
            name: record_name,
        };
        assert(b.fields() == inserted(self.parent()->0.fields(), self.name_spec()->0, built));
        assert(self.builds(built));
        b
    }
}

impl Builder<FieldSpec> for FieldSpecBuilder {
    /// Without a length, or else without a padding direction, the error that names it;
    /// else the field with what was set, and no padding where none was.
    open spec fn builds(&self, r: Result<FieldSpec>) -> bool {
        &&& self.length_spec() is None ==> (r matches Err(Error::FieldRequiredToBuild(s)) && s@ == "length"@)
        &&& self.length_spec() is Some && self.padding_direction_spec() is None ==> (r matches Err(
            Error::FieldRequiredToBuild(s),
        ) && s@ == "padding"@)
        &&& self.length_spec() is Some && self.padding_direction_spec() is Some ==> (r matches Ok(f)
            && f.length == self.length_spec()->0 && f.padding_direction == self.padding_direction_spec()->0
            && f.padding@ == match self.padding_spec() {
            Some(p) => p,
            None => Seq::<u8>::empty(),
        } && opt_bytes(f.default) == self.default_spec())
    }

    fn build(self) -> (r: Result<FieldSpec>) {
        let length = match self.length {
            Some(l) => l,
            None => {
                return Err(Error::FieldRequiredToBuild("length"));
            },
        };
        let padding_direction = match self.padding_direction {
            Some(d) => d,
            None => {
                return Err(Error::FieldRequiredToBuild("padding"));
            },
        };
        let padding = match self.padding {
            Some(p) => p,
            None => Vec::new(),
        };
        Ok(FieldSpec { length, padding_direction, padding, default: self.default })
    }
}

impl Error {
    /// A short description of what went wrong.
    pub fn description(&self) -> (r: &'static str)
        ensures
            match self {
                Error::FieldRequiredToBuild(_) => r@ == "There is a required field missing"@,
                Error::SubBuilderErrors(_) => r@ == "Some sub builders had errors"@,
            },
    {
        match self {
            Error::FieldRequiredToBuild(_) => "There is a required field missing",
            Error::SubBuilderErrors(_) => "Some sub builders had errors",
        }
    }
}

} // verus!
