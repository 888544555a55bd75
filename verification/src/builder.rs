//! Filling an in-memory file line by line with records: each record takes a new line,
//! and each of its values goes into the columns of its field.
use vstd::prelude::*;
use vstd::utf8::{encode_utf8, valid_utf8};
use crate::in_memory::{blank, set_into, File, InvalidRangeError};
use crate::names::{NameMap, lookup};
use crate::text::recognizers::{DataRecordSpecRecognizer, Error as RecognizeError};
use crate::text::spec::{RecordSpec, lemma_total_length_prefix, total_length};

verus! {

/// Why a record could not be added to a file.
#[derive(Debug, PartialEq, Eq)]
pub enum Error {
    FailedToAddLine(crate::in_memory::Error),
    RecordSpecNotFound(String),
    FailedToRecognizeRecordSpec(RecognizeError),
    RecordSpecNameRequired,
    FailedToSetDataOnLine(crate::in_memory::Error),
}

/// The line that the first `i` fields of `spec` make, in a line `width` columns wide that
/// starts blank, each field with a value in `data` having it set from where the field
/// starts; and the error of the first value that could not be set (one longer than its
/// field, or one that does not fit in the line), where one could not, the line staying
/// as it was before that value.
pub open spec fn filled_line(spec: RecordSpec, data: Seq<(Seq<char>, String)>, width: nat, i: nat) -> (
    Seq<u8>,
    Option<crate::in_memory::Error>,
)
    decreases i,
{
    if i == 0 {
        (blank(width), None)
    } else {
        let (line, error) = filled_line(spec, data, width, (i - 1) as nat);
        if error is Some {
            (line, error)
        } else {
            match lookup(data, spec.field_specs@[i - 1].0) {
                None => (line, None),
                Some(value) => {
                    let s = encode_utf8(value@);
                    let column = spec.offset_of(i - 1);
                    if s.len() > spec.field_specs@[i - 1].1.length {
                        (line, Some(crate::in_memory::Error::DataLongerThanRange))
                    } else if column + s.len() > width {
                        (line, Some(crate::in_memory::Error::InvalidRange(InvalidRangeError::EndOffEndOfLine)))
                    } else if !valid_utf8(set_into(line, column, s)) {
                        (line, Some(crate::in_memory::Error::InvalidRange(InvalidRangeError::SplitsCharacter)))
                    } else {
                        (set_into(line, column, s), None)
                    }
                },
            }
        }
    }
}

/// Adds records to a file, by the record specs it was given, naming each record's spec
/// itself or through a recognizer.
pub struct FileBuilder<'a, U: DataRecordSpecRecognizer> {
    pub file: File,
    record_specs: &'a NameMap<RecordSpec>,
    recognizer: Option<&'a U>,
}

impl<'a, U: DataRecordSpecRecognizer> FileBuilder<'a, U> {
    /// The file that records are added to.
    pub closed spec fn file_spec(&self) -> File {
        self.file
    }

    pub closed spec fn record_specs_spec(&self) -> Seq<(Seq<char>, RecordSpec)> {
        self.record_specs@
    }

    pub closed spec fn recognizer_spec(&self) -> Option<&'a U> {
        self.recognizer
    }

    /// A builder without a recognizer: every record must be named.
    pub fn new(file: File, record_specs: &'a NameMap<RecordSpec>) -> (b: Self)
        ensures
            b.file_spec() == file,
            b.record_specs_spec() == record_specs@,
            b.recognizer_spec() is None,
    {
        FileBuilder { file, record_specs, recognizer: None }
    }

    /// A builder that asks `recognizer` for the spec of a record not named.
    pub fn new_with_recognizer(file: File, record_specs: &'a NameMap<RecordSpec>, recognizer: &'a U) -> (b: Self)
        ensures
            b.file_spec() == file,
            b.record_specs_spec() == record_specs@,
            b.recognizer_spec() == Some(recognizer),
    {
        FileBuilder { file, record_specs, recognizer: Some(recognizer) }
    }

    /// What adding the record of the values `data`, of the spec named `name`, comes to:
    /// without a record spec of that name, the error that says so and the file as it was;
    /// else a new last line, filled as `filled_line` says, and its index, or the error of
    /// the first value that could not be set.
    pub open spec fn add_outcome(
        self,
        after: Self,
        data: Seq<(Seq<char>, String)>,
        name: Seq<char>,
        r: Result<usize, Error>,
    ) -> bool {
        match lookup(self.record_specs_spec(), name) {
            None => after.file_spec() == self.file_spec() && (r matches Err(Error::RecordSpecNotFound(n)) && n@ == name),
            Some(spec) => {
                let (line, error) = filled_line(spec, data, self.file_spec().width_spec(), spec.field_specs@.len());
                &&& after.file_spec().lines_spec() == self.file_spec().lines_spec().push(line)
                &&& after.file_spec().width_spec() == self.file_spec().width_spec()
                &&& after.file_spec().separator_spec() == self.file_spec().separator_spec()
                &&& r == match error {
                    None => Ok::<usize, Error>(self.file_spec().lines_spec().len() as usize),
                    Some(e) => Err(Error::FailedToSetDataOnLine(e)),
                }
            },
        }
    }

    /// Adds the record of the values `data` as a new line, of the spec named `name`, or,
    /// without a name, of the spec that the recognizer names; says where the line is.
    pub fn add_line(&mut self, data: &NameMap<String>, name: Option<String>) -> (r: Result<usize, Error>)
        requires
            old(self).file_spec().wf(),
            forall|i: int| 0 <= i < old(self).record_specs_spec().len() ==> (#[trigger] old(self).record_specs_spec()[i]).1.fits(),
        ensures
            final(self).file_spec().wf(),
            final(self).record_specs_spec() == old(self).record_specs_spec(),
            final(self).recognizer_spec() == old(self).recognizer_spec(),
            match name {
                Some(n) => old(self).add_outcome(*final(self), data@, n@, r),
                None => match old(self).recognizer_spec() {
                    None => r == Err::<usize, Error>(Error::RecordSpecNameRequired) && final(self).file_spec() == old(self).file_spec(),
                    Some(recognizer) => exists|recognized: Result<String, RecognizeError>|
                        #[trigger] recognizer.recognizes_data(data@, old(self).record_specs_spec(), recognized)
                            && match recognized {
                            Ok(n) => old(self).add_outcome(*final(self), data@, n@, r),
                            Err(e) => r == Err::<usize, Error>(Error::FailedToRecognizeRecordSpec(e))
                                && final(self).file_spec() == old(self).file_spec(),
                        },
                },
            },
    {
        let name = match name {
            Some(n) => n,
            None => match self.recognizer {
                None => {
                    return Err(Error::RecordSpecNameRequired);
                },
                Some(recognizer) => {
                    let recognized = recognizer.recognize_for_data(data, self.record_specs);
                    assert(recognizer.recognizes_data(data@, old(self).record_specs_spec(), recognized));
                    match recognized {
                        Ok(n) => n,
                        Err(e) => {
                            return Err(Error::FailedToRecognizeRecordSpec(e));
                        },
                    }
                },
            },
        };
        self.add_named_line(data, name)
    }

    /// Adds the record of the values `data` as a new line, of the spec named `name`, as
    /// `add_outcome` says.
    pub fn add_named_line(&mut self, data: &NameMap<String>, name: String) -> (r: Result<usize, Error>)
        requires
            old(self).file_spec().wf(),
            forall|i: int| 0 <= i < old(self).record_specs_spec().len() ==> (#[trigger] old(self).record_specs_spec()[i]).1.fits(),
        ensures
            final(self).file_spec().wf(),
            final(self).record_specs_spec() == old(self).record_specs_spec(),
            final(self).recognizer_spec() == old(self).recognizer_spec(),
            old(self).add_outcome(*final(self), data@, name@, r),
    {
        let record_specs = self.record_specs;
        let spec = match record_specs.get(name.as_str()) {
            Some(s) => s,
            None => {
                return Err(Error::RecordSpecNotFound(name));
            },
        };
        proof {
            let p = crate::names::position_of(record_specs@, name@)->0;
            assert(record_specs@[p].1 == *spec);
            assert(old(self).record_specs_spec()[p].1.fits());
        }
        let _ = self.file.len();
        let ghost width = self.file.width_spec();
        let ghost before = self.file.lines_spec();
        let index = match self.file.add_line() {
            Ok(i) => i,
            Err(e) => {
                return Err(Error::FailedToAddLine(e));
            },
        };
        let ghost s = spec.field_specs@;
        let n = spec.field_specs.len();
        let mut offset: usize = 0;
        let mut i: usize = 0;
        while i < n
            invariant
                s == spec.field_specs@,
                n == s.len(),
                i <= n,
                total_length(s) <= usize::MAX,
                offset == total_length(s.take(i as int)),
                index as int == before.len(),
                self.file.wf(),
                self.file.width_spec() == width,
                self.file.separator_spec() == old(self).file_spec().separator_spec(),
                self.file.lines_spec() == before.push(filled_line(*spec, data@, width, i as nat).0),
                filled_line(*spec, data@, width, i as nat).1 is None,
                self.record_specs == old(self).record_specs,
                lookup(old(self).record_specs_spec(), name@) == Some(*spec),
                before == old(self).file_spec().lines_spec(),
                width == old(self).file_spec().width_spec(),
                self.recognizer == old(self).recognizer,
            decreases n - i,
        {
            proof {
                lemma_total_length_prefix(s, i as int);
                lemma_total_length_prefix(s, i + 1);
            }
            let (field_name, field_spec) = spec.field_specs.entry(i);
            let ghost line = filled_line(*spec, data@, width, i as nat).0;
            match data.get(field_name.as_str()) {
                None => {},
                Some(value) => {
                    if value.as_str().as_bytes().len() > field_spec.length {
                        proof {
                            assert(filled_line(*spec, data@, width, (i + 1) as nat) == (
                                line,
                                Some(crate::in_memory::Error::DataLongerThanRange),
                            ));
                            lemma_filled_line_stops(*spec, data@, width, (i + 1) as nat, n as nat);
                        }
                        return Err(Error::FailedToSetDataOnLine(crate::in_memory::Error::DataLongerThanRange));
                    }
                    let ghost lines = self.file.lines_spec();
                    assert(lines[index as int] == line);
                    let set = self.file.set(index, offset, value);
                    match set {
                        Ok(()) => {
                            assert(self.file.lines_spec() =~= before.push(filled_line(*spec, data@, width, (i + 1) as nat).0));
                        },
                        Err(e) => {
                            proof {
                                assert(self.file.lines_spec() == lines);
                                assert(filled_line(*spec, data@, width, (i + 1) as nat) == (line, Some(e)));
                                lemma_filled_line_stops(*spec, data@, width, (i + 1) as nat, n as nat);
                            }
                            return Err(Error::FailedToSetDataOnLine(e));
                        },
                    }
                },
            }
            offset = offset + field_spec.length;
            i = i + 1;
        }
        proof {
            assert(s.take(n as int) =~= s);
        }
        Ok(index)
    }
}

/// Once a value could not be set, the line and the error stay as they are through the
/// fields that follow.
proof fn lemma_filled_line_stops(spec: RecordSpec, data: Seq<(Seq<char>, String)>, width: nat, i: nat, j: nat)
    requires
        i <= j,
        filled_line(spec, data, width, i).1 is Some,
    ensures
        filled_line(spec, data, width, j) == filled_line(spec, data, width, i),
    decreases j - i,
{
    if i < j {
        lemma_filled_line_stops(spec, data, width, i, (j - 1) as nat);
    }
}


/// Fields lie one after the other: a field ends no later than any later field starts.
proof fn lemma_fields_in_order(spec: RecordSpec, j: int, i: int)
    requires
        0 <= j < i <= spec.field_specs@.len(),
    ensures
        spec.offset_of(j) + spec.field_specs@[j].1.length <= spec.offset_of(i),
{
    let s = spec.field_specs@;
    lemma_total_length_prefix(s, j);
    lemma_total_length_prefix(s.take(i), j + 1);
    assert(s.take(i).take(j + 1) =~= s.take(j + 1));
}

/// A line that adding a record filled without an error holds the value of each field that
/// has one at the columns where the field starts, and is as wide as the file.
pub proof fn law_filled_line_holds_values(spec: RecordSpec, data: Seq<(Seq<char>, String)>, width: nat, i: nat)
    requires
        i <= spec.field_specs@.len(),
        filled_line(spec, data, width, i).1 is None,
    ensures
        filled_line(spec, data, width, i).0.len() == width,
        forall|j: int|
            0 <= j < i ==> (#[trigger] lookup(data, spec.field_specs@[j].0) matches Some(v) ==> {
                let s = encode_utf8(v@);
                let line = filled_line(spec, data, width, i).0;
                &&& s.len() <= spec.field_specs@[j].1.length
                &&& line.subrange(spec.offset_of(j) as int, (spec.offset_of(j) + s.len()) as int) == s
            }),
    decreases i,
{
    if i > 0 {
        let k = (i - 1) as nat;
        assert(filled_line(spec, data, width, k).1 is None);
        law_filled_line_holds_values(spec, data, width, k);
        let before = filled_line(spec, data, width, k).0;
        let line = filled_line(spec, data, width, i).0;
        assert forall|j: int|
            0 <= j < i implies (#[trigger] lookup(data, spec.field_specs@[j].0) matches Some(v) ==> {
                let s = encode_utf8(v@);
                &&& s.len() <= spec.field_specs@[j].1.length
                &&& line.subrange(spec.offset_of(j) as int, (spec.offset_of(j) + s.len()) as int) == s
            }) by {
            if let Some(v) = lookup(data, spec.field_specs@[j].0) {
                let s = encode_utf8(v@);
                if j < k {
                    lemma_fields_in_order(spec, j, k as int);
                    if let Some(w) = lookup(data, spec.field_specs@[k as int].0) {
                        let t = encode_utf8(w@);
                        assert(line == set_into(before, spec.offset_of(k as int), t));
                        assert(line.subrange(spec.offset_of(j) as int, (spec.offset_of(j) + s.len()) as int) =~= before.subrange(
                            spec.offset_of(j) as int,
                            (spec.offset_of(j) + s.len()) as int,
                        ));
                    }
                } else {
                    assert(line == set_into(before, spec.offset_of(j), s));
                    assert(line.subrange(spec.offset_of(j) as int, (spec.offset_of(j) + s.len()) as int) =~= s);
                }
            }
        }
    }
}

} // verus!
