//! Specs of text records, and the builders that make them.
//!
//! A text record lays its fields out one after the other, in the order of their names,
//! like a binary one; a field may be a filler, which takes its room in the record but
//! holds no value of its own.
use vstd::prelude::*;
use crate::names::{IntoBytes, IntoName, NameMap, position_of, inserted};
use core::ops::Range;
pub use crate::spec::PaddingDirection;

verus! {

/// What makes a spec, or a part of one. Building needs everything that `ready` asks for.
pub trait Builder<T>: Sized {
    /// Whether everything that building needs has been given.
    spec fn ready(&self) -> bool;

    /// What building gives.
    spec fn built(&self) -> T;

    fn build(self) -> (r: T)
        requires
            self.ready(),
        ensures
            r == self.built(),
    ;
}

/// How one field is laid out: its length, how values are padded to it, the value it
/// takes when none is given, and whether it is a filler.
#[derive(Debug, PartialEq, Eq)]
pub struct FieldSpec {
    pub length: usize,
    pub padding_direction: PaddingDirection,
    pub padding: Vec<u8>,
    pub default: Option<Vec<u8>>,
    pub filler: bool,
}

impl Clone for FieldSpec {
    fn clone(&self) -> (r: Self)
        ensures
            r.length == self.length,
            r.padding_direction == self.padding_direction,
            r.padding@ == self.padding@,
            crate::spec::opt_bytes(r.default) == crate::spec::opt_bytes(self.default),
            r.filler == self.filler,
    {
        FieldSpec {
            length: self.length,
            padding_direction: self.padding_direction,
            padding: crate::spec::clone_bytes(&self.padding),
            default: match &self.default {
                Some(d) => Some(crate::spec::clone_bytes(d)),
                None => None,
            },
            filler: self.filler,
        }
    }
}

impl Builder<FieldSpec> for FieldSpec {
    open spec fn ready(&self) -> bool {
        true
    }

    open spec fn built(&self) -> FieldSpec {
        *self
    }

    fn build(self) -> (r: FieldSpec) {
        self
    }
}

/// The sum of the lengths of a sequence of fields.
pub open spec fn total_length(s: Seq<(Seq<char>, FieldSpec)>) -> nat
    decreases s.len(),
{
    if s.len() == 0 {
        0nat
    } else {
        total_length(s.drop_last()) + s.last().1.length as nat
    }
}

/// A prefix of the fields is no longer than all of them, and adding a field adds its length.
pub proof fn lemma_total_length_prefix(s: Seq<(Seq<char>, FieldSpec)>, i: int)
    requires
        0 <= i <= s.len(),
    ensures
        total_length(s.take(i)) <= total_length(s),
        i < s.len() ==> total_length(s.take(i + 1)) == total_length(s.take(i)) + s[i].1.length,
    decreases s.len(),
{
    if i < s.len() {
        assert(s.take(i + 1).drop_last() =~= s.take(i));
        assert(s.take(i + 1).last() == s[i]);
    }
    if i == s.len() {
        assert(s.take(i) =~= s);
    } else {
        lemma_total_length_prefix(s.drop_last(), i);
        assert(s.drop_last().take(i) =~= s.take(i));
    }
}

/// How one text record is laid out: its fields, in the order of their names, then its
/// line ending.
#[derive(Debug, PartialEq, Eq)]
pub struct RecordSpec {
    pub line_ending: Vec<u8>,
    pub field_specs: NameMap<FieldSpec>,
}

impl RecordSpec {
    /// The length of a record without its line ending.
    pub open spec fn spec_len(&self) -> nat {
        total_length(self.field_specs@)
    }

    /// Where the field at position `i` starts.
    pub open spec fn offset_of(&self, i: int) -> nat {
        total_length(self.field_specs@.take(i))
    }

    /// The lengths of the fields add up to no more than a `usize` holds.
    pub open spec fn fits(&self) -> bool {
        self.spec_len() <= usize::MAX
    }

    /// The range that the field named `name` takes in a record.
    pub fn field_range(&self, name: &str) -> (r: Option<Range<usize>>)
        requires
            self.fits(),
        ensures
            match position_of(self.field_specs@, name@) {
                Some(i) => r matches Some(range) && range.start == self.offset_of(i) && range.end
                    == self.offset_of(i) + self.field_specs@[i].1.length,
                None => r is None,
            },
    {
        let n = self.field_specs.len();
        let ghost s = self.field_specs@;
        let position = self.field_specs.position(name);
        let mut offset: usize = 0;
        let mut i: usize = 0;
        match position {
            None => None,
            Some(p) => {
                while i < p
                    invariant
                        s == self.field_specs@,
                        p < s.len(),
                        n == s.len(),
                        i <= p,
                        offset == total_length(s.take(i as int)),
                        total_length(s) <= usize::MAX,
                    decreases p - i,
                {
                    proof {
                        lemma_total_length_prefix(s, i as int);
                        lemma_total_length_prefix(s, i + 1);
                    }
                    let (_, field_spec) = self.field_specs.entry(i);
                    offset = offset + field_spec.length;
                    i = i + 1;
                }
                proof {
                    lemma_total_length_prefix(s, p as int);
                    lemma_total_length_prefix(s, p + 1);
                }
                let (_, field_spec) = self.field_specs.entry(p);
                Some(offset..offset + field_spec.length)
            },
        }
    }

    /// The length of a record without its line ending.
    pub fn len(&self) -> (n: usize)
        requires
            self.fits(),
        ensures
            n == self.spec_len(),
    {
        let count = self.field_specs.len();
        let ghost s = self.field_specs@;
        let mut total: usize = 0;
        let mut i: usize = 0;
        while i < count
            invariant
                s == self.field_specs@,
                count == s.len(),
                i <= count,
                total == total_length(s.take(i as int)),
                total_length(s) <= usize::MAX,
            decreases count - i,
        {
            proof {
                lemma_total_length_prefix(s, i + 1);
                lemma_total_length_prefix(s, i as int);
            }
            let (_, field_spec) = self.field_specs.entry(i);
            total = total + field_spec.length;
            i = i + 1;
        }
        proof {
            assert(s.take(count as int) =~= s);
        }
        total
    }
}

/// The fields of a text record tile it: the first starts where the record does, each of
/// the others where the one before it ends, and the last ends where the record does.
pub proof fn law_text_fields_tile_the_record(record: RecordSpec)
    ensures
        record.offset_of(0) == 0,
        forall|i: int|
            0 <= i < record.field_specs@.len() ==> #[trigger] record.offset_of(i + 1) == record.offset_of(i)
                + record.field_specs@[i].1.length,
        record.offset_of(record.field_specs@.len() as int) == record.spec_len(),
{
    let s = record.field_specs@;
    assert(s.take(0) =~= Seq::<(Seq<char>, FieldSpec)>::empty());
    assert(s.take(s.len() as int) =~= s);
    assert forall|i: int| 0 <= i < s.len() implies #[trigger] record.offset_of(i + 1) == record.offset_of(i)
        + s[i].1.length by {
        lemma_total_length_prefix(s, i);
    }
}

impl Builder<RecordSpec> for RecordSpec {
    open spec fn ready(&self) -> bool {
        true
    }

    open spec fn built(&self) -> RecordSpec {
        *self
    }

    fn build(self) -> (r: RecordSpec) {
        self
    }
}

/// The specs of all text records, by name.
#[derive(Debug, PartialEq, Eq)]
pub struct Spec {
    pub record_specs: NameMap<RecordSpec>,
}

impl Builder<Spec> for Spec {
    open spec fn ready(&self) -> bool {
        true
    }

    open spec fn built(&self) -> Spec {
        *self
    }

    fn build(self) -> (r: Spec) {
        self
    }
}

/// Builds a spec out of the records added to it.
pub struct SpecBuilder {
    record_specs: NameMap<RecordSpec>,
}

impl SpecBuilder {
    /// The records added so far.
    pub closed spec fn records(&self) -> NameMap<RecordSpec> {
        self.record_specs
    }

    /// A builder with no records.
    pub fn new() -> (b: Self)
        ensures
            b.records()@ == Seq::<(Seq<char>, RecordSpec)>::empty(),
    {
        SpecBuilder { record_specs: NameMap::new() }
    }

    /// Adds the record that `record` builds under `name`, replacing one of the same name.
    pub fn with_record<T: IntoName, U: Builder<RecordSpec>>(self, name: T, record: U) -> (b: Self)
        requires
            record.ready(),
        ensures
            b.records()@ == inserted(self.records()@, name.name_view(), record.built()),
    {
        let mut record_specs = self.record_specs;
        record_specs.insert(name.into_name(), record.build());
        SpecBuilder { record_specs }
    }
}

impl Builder<Spec> for SpecBuilder {
    open spec fn ready(&self) -> bool {
        true
    }

    open spec fn built(&self) -> Spec {
        Spec { record_specs: self.records() }
    }

    fn build(self) -> (r: Spec) {
        Spec { record_specs: self.record_specs }
    }
}

/// Builds the spec of a record out of the fields added to it.
pub struct RecordSpecBuilder {
    line_ending: Vec<u8>,
    field_specs: NameMap<FieldSpec>,
}

impl RecordSpecBuilder {
    /// The fields added so far.
    pub closed spec fn fields(&self) -> NameMap<FieldSpec> {
        self.field_specs
    }

    /// The line ending that records of this spec end with.
    pub closed spec fn line_ending_spec(&self) -> Vec<u8> {
        self.line_ending
    }

    /// A builder with no fields and an empty line ending.
    pub fn new() -> (b: Self)
        ensures
            b.fields()@ == Seq::<(Seq<char>, FieldSpec)>::empty(),
            b.line_ending_spec()@ == Seq::<u8>::empty(),
    {
        RecordSpecBuilder { line_ending: Vec::new(), field_specs: NameMap::new() }
    }

    /// Adds the field that `field` builds under `name`, replacing one of the same name.
    pub fn with_field<T: IntoName, U: Builder<FieldSpec>>(self, name: T, field: U) -> (b: Self)
        requires
            field.ready(),
        ensures
            b.fields()@ == inserted(self.fields()@, name.name_view(), field.built()),
            b.line_ending_spec() == self.line_ending_spec(),
    {
        let RecordSpecBuilder { line_ending, field_specs } = self;
        let mut field_specs = field_specs;
        field_specs.insert(name.into_name(), field.build());
        RecordSpecBuilder { line_ending, field_specs }
    }

    /// Sets the line ending that records of this spec end with.
    pub fn with_line_ending<T: IntoBytes>(self, line_ending: T) -> (b: Self)
        ensures
            b.line_ending_spec()@ == line_ending.bytes_view(),
            b.fields() == self.fields(),
    {
        RecordSpecBuilder { line_ending: line_ending.into_bytes(), field_specs: self.field_specs }
    }
}

impl Builder<RecordSpec> for RecordSpecBuilder {
    open spec fn ready(&self) -> bool {
        true
    }

    open spec fn built(&self) -> RecordSpec {
        RecordSpec { line_ending: self.line_ending_spec(), field_specs: self.fields() }
    }

    fn build(self) -> (r: RecordSpec) {
        RecordSpec { line_ending: self.line_ending, field_specs: self.field_specs }
    }
}

/// Builds the spec of a field; its length, padding direction and padding must be given.
pub struct FieldSpecBuilder {
    length: Option<usize>,
    padding_direction: Option<PaddingDirection>,
    padding: Option<Vec<u8>>,
    default: Option<Vec<u8>>,
    filler: bool,
}

/// The value held, or `d` when there is none.
pub open spec fn or_else<T>(o: Option<T>, d: T) -> T {
    match o {
        Some(v) => v,
        None => d,
    }
}

/// `length` spaces.
pub open spec fn spaces(length: nat) -> Seq<u8> {
    Seq::new(length, |i: int| 32u8)
}

impl FieldSpecBuilder {
    pub closed spec fn length_spec(&self) -> Option<usize> {
        self.length
    }

    pub closed spec fn padding_direction_spec(&self) -> Option<PaddingDirection> {
        self.padding_direction
    }

    pub closed spec fn padding_spec(&self) -> Option<Vec<u8>> {
        self.padding
    }

    pub closed spec fn default_spec(&self) -> Option<Vec<u8>> {
        self.default
    }

    pub closed spec fn filler_spec(&self) -> bool {
        self.filler
    }

    /// A builder with nothing given, for a field that is no filler.
    pub fn new() -> (b: Self)
        ensures
            b.length_spec() is None,
            b.padding_direction_spec() is None,
            b.padding_spec() is None,
            b.default_spec() is None,
            !b.filler_spec(),
    {
        FieldSpecBuilder { length: None, padding_direction: None, padding: None, default: None, filler: false }
    }

    /// A number: padded with zeros on the left.
    pub fn new_number() -> (b: Self)
        ensures
            b.length_spec() is None,
            b.padding_direction_spec() == Some(PaddingDirection::Left),
            b.padding_spec() matches Some(p) && p@ == seq![48u8],
            b.default_spec() is None,
            !b.filler_spec(),
    {
        Self::new().with_padding(vec![48u8]).with_padding_direction(PaddingDirection::Left)
    }

    /// A number that is zero when no value is given.
    pub fn new_empty_number() -> (b: Self)
        ensures
            b.length_spec() is None,
            b.padding_direction_spec() == Some(PaddingDirection::Left),
            b.padding_spec() matches Some(p) && p@ == seq![48u8],
            b.default_spec() matches Some(d) && d@ == seq![48u8],
            !b.filler_spec(),
    {
        Self::new_number().with_default(vec![48u8])
    }

    /// A string: padded with spaces on the right.
    pub fn new_string() -> (b: Self)
        ensures
            b.length_spec() is None,
            b.padding_direction_spec() == Some(PaddingDirection::Right),
            b.padding_spec() matches Some(p) && p@ == seq![32u8],
            b.default_spec() is None,
            !b.filler_spec(),
    {
        Self::new().with_padding(vec![32u8]).with_padding_direction(PaddingDirection::Right)
    }

    /// A string that is empty when no value is given.
    pub fn new_empty_string() -> (b: Self)
        ensures
            b.length_spec() is None,
            b.padding_direction_spec() == Some(PaddingDirection::Right),
            b.padding_spec() matches Some(p) && p@ == seq![32u8],
            b.default_spec() matches Some(d) && d@ == Seq::<u8>::empty(),
            !b.filler_spec(),
    {
        Self::new_string().with_default(Vec::<u8>::new())
    }

    /// A filler of `length` spaces.
    pub fn new_filler(length: usize) -> (b: Self)
        ensures
            b.length_spec() == Some(length),
            b.padding_direction_spec() == Some(PaddingDirection::Right),
            b.padding_spec() matches Some(p) && p@ == seq![32u8],
            b.default_spec() matches Some(d) && d@ == spaces(length as nat),
            b.filler_spec(),
    {
        let mut filling: Vec<u8> = Vec::new();
        let mut i: usize = 0;
        while i < length
            invariant
                i <= length,
                filling@ == spaces(i as nat),
            decreases length - i,
        {
            filling.push(32u8);
            i = i + 1;
            assert(filling@ =~= spaces(i as nat));
        }
        Self::new_string().with_default(filling).with_length(length).make_filler()
    }

    pub fn with_length(self, length: usize) -> (b: Self)
        ensures
            b.length_spec() == Some(length),
            b.padding_direction_spec() == self.padding_direction_spec(),
            b.padding_spec() == self.padding_spec(),
            b.default_spec() == self.default_spec(),
            b.filler_spec() == self.filler_spec(),
    {
        FieldSpecBuilder { length: Some(length), ..self }
    }

    pub fn with_padding_direction(self, padding_direction: PaddingDirection) -> (b: Self)
        ensures
            b.length_spec() == self.length_spec(),
            b.padding_direction_spec() == Some(padding_direction),
            b.padding_spec() == self.padding_spec(),
            b.default_spec() == self.default_spec(),
            b.filler_spec() == self.filler_spec(),
    {
        FieldSpecBuilder { padding_direction: Some(padding_direction), ..self }
    }

    pub fn with_padding<T: IntoBytes>(self, padding: T) -> (b: Self)
        ensures
            b.length_spec() == self.length_spec(),
            b.padding_direction_spec() == self.padding_direction_spec(),
            b.padding_spec() matches Some(p) && p@ == padding.bytes_view(),
            b.default_spec() == self.default_spec(),
            b.filler_spec() == self.filler_spec(),
    {
        FieldSpecBuilder { padding: Some(padding.into_bytes()), ..self }
    }

    pub fn with_default<T: IntoBytes>(self, default: T) -> (b: Self)
        ensures
            b.length_spec() == self.length_spec(),
            b.padding_direction_spec() == self.padding_direction_spec(),
            b.padding_spec() == self.padding_spec(),
            b.default_spec() matches Some(d) && d@ == default.bytes_view(),
            b.filler_spec() == self.filler_spec(),
    {
        FieldSpecBuilder { default: Some(default.into_bytes()), ..self }
    }

    /// Makes the field a filler, which holds no value of its own.
    pub fn make_filler(self) -> (b: Self)
        ensures
            b.length_spec() == self.length_spec(),
            b.padding_direction_spec() == self.padding_direction_spec(),
            b.padding_spec() == self.padding_spec(),
            b.default_spec() == self.default_spec(),
            b.filler_spec(),
    {
        FieldSpecBuilder { filler: true, ..self }
    }
}

impl Builder<FieldSpec> for FieldSpecBuilder {
    open spec fn ready(&self) -> bool {
        &&& self.length_spec() is Some
        &&& self.padding_direction_spec() is Some
        &&& self.padding_spec() is Some
    }

    open spec fn built(&self) -> FieldSpec {
        FieldSpec {
            length: or_else(self.length_spec(), 0),
            padding_direction: or_else(self.padding_direction_spec(), PaddingDirection::Left),
            padding: or_else(self.padding_spec(), vstd::pervasive::arbitrary()),
            default: self.default_spec(),
            filler: self.filler_spec(),
        }
    }

    fn build(self) -> (r: FieldSpec) {
        FieldSpec {
            length: self.length.unwrap(),
            padding_direction: self.padding_direction.unwrap(),
            padding: self.padding.unwrap(),
            default: self.default,
            filler: self.filler,
        }
    }
}

/// What record specs are looked up in: the specs themselves, or a reference to them.
pub trait RecordSpecs {
    spec fn specs_view(&self) -> NameMap<RecordSpec>;

    fn record_specs(&self) -> (r: &NameMap<RecordSpec>)
        ensures
            *r == self.specs_view(),
    ;
}

impl RecordSpecs for NameMap<RecordSpec> {
    open spec fn specs_view(&self) -> NameMap<RecordSpec> {
        *self
    }

    fn record_specs(&self) -> (r: &NameMap<RecordSpec>) {
        self
    }
}

impl<'a> RecordSpecs for &'a NameMap<RecordSpec> {
    open spec fn specs_view(&self) -> NameMap<RecordSpec> {
        **self
    }

    fn record_specs(&self) -> (r: &NameMap<RecordSpec>) {
        *self
    }
}

} // verus!
