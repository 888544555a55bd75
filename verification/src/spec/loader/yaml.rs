//! Loading a spec from a YAML document.
//!
//! The document is a hash whose key `records` holds a hash of records by name; a record
//! is a hash with the hash `fields` of its fields by name and, optionally, `line_ending`;
//! a field is a hash with `length`, `padding_direction` (`left`, `Left`, `right` or
//! `Right`) and, optionally, `padding` and `default`.
use vstd::prelude::*;
use vstd::string::{StringExecFns, StringSliceAdditionalSpecFns};
use vstd::utf8::{decode_utf8, encode_utf8, valid_utf8};
use yaml_rust::Yaml;
use crate::data_type::string_from_utf8;
use crate::error::BoxedError;
use crate::io::{ByteReader, IoError};
use crate::names::{NameMap, count_before, inserted, names_equal, position_of, sorted_by_name};
use crate::spec::loader::Loader;
use crate::spec::{FieldSpec, PaddingDirection, RecordSpec, Spec, opt_bytes};

verus! {

broadcast use vstd::utf8::encode_utf8_decode_utf8, vstd::utf8::decode_utf8_encode_utf8;

/// A YAML value, as the loader reads it.
#[derive(Debug, PartialEq, Eq)]
pub enum Value {
    Real(String),
    Integer(i64),
    String(String),
    Boolean(bool),
    Array(Vec<Value>),
    Hash(Vec<(Value, Value)>),
    Alias(usize),
    Null,
    BadValue,
}

#[verifier::external_type_specification]
#[verifier::external_body]
pub struct ExYaml(Yaml);


/// Takes a value of the `yaml-rust` crate apart into a `Value`, variant for variant.
#[verifier::external_body]
fn value_of(yaml: Yaml) -> Value {
    match yaml {
        Yaml::Real(s) => Value::Real(s),
        Yaml::Integer(i) => Value::Integer(i),
        Yaml::String(s) => Value::String(s),
        Yaml::Boolean(b) => Value::Boolean(b),
        Yaml::Array(a) => Value::Array(a.into_iter().map(value_of).collect()),
        Yaml::Hash(h) => Value::Hash(h.into_iter().map(|(k, v)| (value_of(k), value_of(v))).collect()),
        Yaml::Alias(n) => Value::Alias(n),
        Yaml::Null => Value::Null,
        Yaml::BadValue => Value::BadValue,
    }
}

/// The documents that the `yaml-rust` crate reads out of a text, or none when it fails to
/// scan the text.
pub uninterp spec fn yaml_documents(text: Seq<char>) -> Option<Seq<Value>>;

/// The most bytes a line of a YAML text may hold. Each level of nesting in a YAML text
/// either starts further along a line than the level around it (a block) or opens a
/// bracket (a flow, of which the `yaml-rust` crate allows 255 levels), and the crate, like
/// `value_of`, goes one call deeper for each level; this bound keeps that depth, at most
/// this many levels and 255 more, within what the stack of a thread of 2 MiB holds.
pub const LONGEST_LINE: usize = 256;

/// Whether `b` ends a line: a line feed or a carriage return.
pub open spec fn is_line_break(b: u8) -> bool {
    b == 10u8 || b == 13u8
}

/// How many bytes of `bytes` before `n` follow the last line break before `n`: the
/// length of the line up to `n`.
pub open spec fn line_length_at(bytes: Seq<u8>, n: int) -> nat
    decreases n,
{
    if n <= 0 {
        0
    } else if is_line_break(bytes[n - 1]) {
        0
    } else {
        line_length_at(bytes, n - 1) + 1
    }
}

/// Whether every line of `bytes` is at most `limit` bytes long.
pub open spec fn lines_within(bytes: Seq<u8>, limit: nat) -> bool {
    forall|n: int| 0 <= n <= bytes.len() ==> #[trigger] line_length_at(bytes, n) <= limit
}

/// Whether every line of `bytes` is at most `limit` bytes long.
pub fn lines_are_within(bytes: &[u8], limit: usize) -> (r: bool)
    ensures
        r == lines_within(bytes@, limit as nat),
{
    let n = bytes.len();
    let mut run: usize = 0;
    let mut idx: usize = 0;
    while idx < n
        invariant
            n == bytes@.len(),
            idx <= n,
            run == line_length_at(bytes@, idx as int),
            forall|m: int| 0 <= m <= idx ==> #[trigger] line_length_at(bytes@, m) <= limit,
        decreases n - idx,
    {
        let b = bytes[idx];
        if b == 10u8 || b == 13u8 {
            run = 0;
        } else {
            if run >= limit {
                assert(line_length_at(bytes@, idx + 1) > limit);
                return false;
            }
            run = run + 1;
        }
        idx = idx + 1;
        assert(line_length_at(bytes@, idx as int) == run);
    }
    true
}

/// Where and why the `yaml-rust` crate could not scan a text: its explanation, and the
/// line and the column, counted from 0, where it stopped.
#[derive(Debug, PartialEq, Eq)]
pub struct ScanFailure {
    pub info: String,
    pub line: usize,
    pub col: usize,
}

/// Calls `yaml_rust::YamlLoader::load_from_str` on `text`, and takes each document apart
/// into a `Value`, or the crate's scan error into a `ScanFailure`. The contract claims no
/// more than that the outcome is a function of the text, named `yaml_documents`, and
/// nothing of what that function is; of the scan error it says nothing. The text must have no line longer than `LONGEST_LINE` bytes: the crate
/// follows each level of nesting with a recursive call, and deeper nesting than such lines
/// allow could overflow the stack.
#[verifier::external_body]
fn load_from_str(text: &str) -> (r: Result<Vec<Value>, ScanFailure>)
    requires
        lines_within(encode_utf8(text@), LONGEST_LINE as nat),
    ensures
        match yaml_documents(text@) {
            Some(docs) => r matches Ok(v) && v@ == docs,
            None => r is Err,
        },
{
    #[allow(deprecated)]
    match yaml_rust::YamlLoader::load_from_str(text) {
        Ok(docs) => Ok(docs.into_iter().map(value_of).collect()),
        Err(e) => Err(ScanFailure { info: std::error::Error::description(&e).to_string(), line: e.marker().line(), col: e.marker().col() }),
    }
}

/// What went wrong while loading a spec.
#[derive(Debug, PartialEq, Eq)]
pub enum Error {
    /// The text held no document.
    NoDocumentsFound,
    /// The key was missing, in the place the path names.
    MissingKey { key: &'static str, path: Option<String> },
    /// The value was not of the type expected, in the place the path names.
    InvalidType { value: Value, expected_type: &'static str, path: Option<String> },
    /// Building the spec failed.
    BuilderError(crate::spec::Error),
    /// The text could not be scanned as YAML.
    Scan(ScanFailure),
    /// A line of the text is longer than `LONGEST_LINE` bytes.
    LineTooLong,
}

/// Why a document does not describe a spec, as values: a missing key, or a value of the
/// wrong type, each with the key or the expected type and the path.
pub enum Failure {
    Missing(Seq<char>, Option<Seq<char>>),
    Invalid(Value, Seq<char>, Option<Seq<char>>),
}

/// Whether `e` is the error for the failure `f`.
pub open spec fn is_failure(e: Error, f: Failure) -> bool {
    match f {
        Failure::Missing(k, p) => e matches Error::MissingKey { key, path } && key@ == k && opt_text(path) == p,
        Failure::Invalid(v, t, p) => e matches Error::InvalidType { value, expected_type, path } && value == v
            && expected_type@ == t && opt_text(path) == p,
    }
}

/// The text of an optional string.
pub open spec fn opt_text(o: Option<String>) -> Option<Seq<char>> {
    match o {
        Some(s) => Some(s@),
        None => None,
    }
}

/// The parts of a path, one after the other with nothing between them.
pub open spec fn joined(parts: Seq<Seq<char>>) -> Seq<char>
    decreases parts.len(),
{
    if parts.len() == 0 {
        Seq::empty()
    } else {
        joined(parts.drop_last()) + parts.last()
    }
}

/// The texts of a sequence of strings.
pub open spec fn texts(parts: Seq<&str>) -> Seq<Seq<char>> {
    parts.map_values(|p: &str| p@)
}

/// The text of an optional path.
pub open spec fn path_text(path: Option<&[&str]>) -> Option<Seq<char>> {
    match path {
        Some(p) => Some(joined(texts(p@))),
        None => None,
    }
}

/// The path of a record.
pub open spec fn record_path(name: Seq<char>) -> Option<Seq<char>> {
    Some(joined(seq!["records"@, name]))
}

/// The path of the fields of a record.
pub open spec fn fields_path(name: Seq<char>) -> Option<Seq<char>> {
    Some(joined(seq!["records"@, name, "fields"@]))
}

/// The path of a field of a record.
pub open spec fn field_path(name: Seq<char>, field: Seq<char>) -> Option<Seq<char>> {
    Some(joined(seq!["records"@, name, "fields"@, field]))
}

/// Whether a key is the string `key`.
pub open spec fn is_key(v: Value, key: Seq<char>) -> bool {
    v matches Value::String(s) && s@ == key
}

/// The value of the first entry whose key is the string `key`.
pub open spec fn find(entries: Seq<(Value, Value)>, key: Seq<char>) -> Option<Value>
    decreases entries.len(),
{
    if entries.len() == 0 {
        None
    } else if is_key(entries[0].0, key) {
        Some(entries[0].1)
    } else {
        find(entries.drop_first(), key)
    }
}

/// The character of a decimal digit.
pub open spec fn digit(d: int) -> char {
    if d == 0 {
        '0'
    } else if d == 1 {
        '1'
    } else if d == 2 {
        '2'
    } else if d == 3 {
        '3'
    } else if d == 4 {
        '4'
    } else if d == 5 {
        '5'
    } else if d == 6 {
        '6'
    } else if d == 7 {
        '7'
    } else if d == 8 {
        '8'
    } else {
        '9'
    }
}

/// The decimal digits of `n`.
pub open spec fn digits(n: nat) -> Seq<char>
    decreases n,
{
    if n < 10 {
        seq![digit(n as int)]
    } else {
        digits(n / 10).push(digit((n % 10) as int))
    }
}

/// An integer in decimal, with a minus sign when it is negative.
pub open spec fn decimal(i: int) -> Seq<char> {
    if i < 0 {
        seq!['-'] + digits((-i) as nat)
    } else {
        digits(i as nat)
    }
}

/// The text that a value stands for: a string, or an integer in decimal.
pub open spec fn text_of(v: Value) -> Option<Seq<char>> {
    match v {
        Value::String(s) => Some(s@),
        Value::Integer(i) => Some(decimal(i as int)),
        _ => None,
    }
}

/// The padding direction that a value names.
pub open spec fn direction_of(v: Value) -> Option<PaddingDirection> {
    match v {
        Value::String(s) => if s@ == "right"@ || s@ == "Right"@ {
            Some(PaddingDirection::Right)
        } else if s@ == "left"@ || s@ == "Left"@ {
            Some(PaddingDirection::Left)
        } else {
            None
        },
        _ => None,
    }
}

/// A field spec as values: length, padding direction, padding and default.
pub type FieldParts = (usize, PaddingDirection, Seq<u8>, Option<Seq<u8>>);

/// A record spec as values: its line ending, and its fields by name.
pub type RecordParts = (Seq<u8>, Seq<(Seq<char>, FieldParts)>);

/// The values of a field spec.
pub open spec fn parts_of(f: FieldSpec) -> FieldParts {
    (f.length, f.padding_direction, f.padding@, opt_bytes(f.default))
}

/// The values of the field specs of a record, by name.
pub open spec fn fields_view(s: Seq<(Seq<char>, FieldSpec)>) -> Seq<(Seq<char>, FieldParts)> {
    s.map_values(|e: (Seq<char>, FieldSpec)| (e.0, parts_of(e.1)))
}

/// The values of a record spec.
pub open spec fn record_view(r: RecordSpec) -> RecordParts {
    (r.line_ending@, fields_view(r.field_specs@))
}

/// The values of the record specs of a spec, by name.
pub open spec fn records_view(s: Seq<(Seq<char>, RecordSpec)>) -> Seq<(Seq<char>, RecordParts)> {
    s.map_values(|e: (Seq<char>, RecordSpec)| (e.0, record_view(e.1)))
}

/// The values of a spec.
pub open spec fn spec_view(s: Spec) -> Seq<(Seq<char>, RecordParts)> {
    records_view(s.record_specs@)
}

/// The bytes of an optional value that stands for text, at `path`: none when there is no
/// value.
pub open spec fn optional_bytes(v: Option<Value>, path: Option<Seq<char>>) -> Result<Option<Seq<u8>>, Failure> {
    match v {
        None => Ok(None),
        Some(x) => match text_of(x) {
            None => Err(Failure::Invalid(x, "String"@, path)),
            Some(t) => Ok(Some(encode_utf8(t))),
        },
    }
}

/// The bytes of an optional value, or none at all when there is no value.
pub open spec fn or_empty(o: Option<Seq<u8>>) -> Seq<u8> {
    match o {
        Some(b) => b,
        None => Seq::empty(),
    }
}

/// The field spec that `data` describes, for the field `field` of the record `name`.
pub open spec fn field_parts(data: Value, name: Seq<char>, field: Seq<char>) -> Result<FieldParts, Failure> {
    let path = field_path(name, field);
    match data {
        Value::Hash(entries) => {
            let e = entries@;
            match find(e, "length"@) {
                None => Err(Failure::Missing("length"@, path)),
                Some(l) => match l {
                    Value::Integer(n) => match find(e, "padding_direction"@) {
                        None => Err(Failure::Missing("padding_direction"@, path)),
                        Some(d) => match direction_of(d) {
                            None => Err(Failure::Invalid(d, "String: right, Right, left, Left"@, path)),
                            Some(direction) => match optional_bytes(find(e, "padding"@), path) {
                                Err(f) => Err(f),
                                Ok(padding) => match optional_bytes(find(e, "default"@), path) {
                                    Err(f) => Err(f),
                                    Ok(default) => Ok((n as usize, direction, or_empty(padding), default)),
                                },
                            },
                        },
                    },
                    _ => Err(Failure::Invalid(l, "Integer"@, path)),
                },
            }
        },
        _ => Err(Failure::Invalid(data, "Hash"@, path)),
    }
}

/// The field specs that the entries of the `fields` hash of the record `name` describe, one
/// after the other: the first that fails decides.
pub open spec fn fields_parts(entries: Seq<(Value, Value)>, name: Seq<char>) -> Result<
    Seq<(Seq<char>, FieldParts)>,
    Failure,
>
    decreases entries.len(),
{
    if entries.len() == 0 {
        Ok(Seq::empty())
    } else {
        match fields_parts(entries.drop_last(), name) {
            Err(f) => Err(f),
            Ok(m) => {
                let (k, v) = entries.last();
                match text_of(k) {
                    None => Err(Failure::Invalid(k, "String"@, fields_path(name))),
                    Some(field) => match field_parts(v, name, field) {
                        Err(f) => Err(f),
                        Ok(p) => Ok(inserted(m, field, p)),
                    },
                }
            },
        }
    }
}

/// The record spec that `data` describes, for the record `name`. A missing `fields` hash
/// is reported as a missing key `records`, at the path of the fields.
pub open spec fn record_parts(data: Value, name: Seq<char>) -> Result<RecordParts, Failure> {
    match data {
        Value::Hash(entries) => match find(entries@, "fields"@) {
            None => Err(Failure::Missing("records"@, fields_path(name))),
            Some(f) => match f {
                Value::Hash(fs) => match fields_parts(fs@, name) {
                    Err(x) => Err(x),
                    Ok(m) => match optional_bytes(find(entries@, "line_ending"@), fields_path(name)) {
                        Err(x) => Err(x),
                        Ok(line_ending) => Ok((or_empty(line_ending), m)),
                    },
                },
                _ => Err(Failure::Invalid(f, "Hash"@, fields_path(name))),
            },
        },
        _ => Err(Failure::Invalid(data, "Hash"@, record_path(name))),
    }
}

/// The record specs that the entries of the `records` hash describe, one after the other:
/// the first that fails decides.
pub open spec fn records_parts(entries: Seq<(Value, Value)>) -> Result<Seq<(Seq<char>, RecordParts)>, Failure>
    decreases entries.len(),
{
    if entries.len() == 0 {
        Ok(Seq::empty())
    } else {
        match records_parts(entries.drop_last()) {
            Err(f) => Err(f),
            Ok(m) => {
                let (k, v) = entries.last();
                match text_of(k) {
                    None => Err(Failure::Invalid(k, "String"@, Some("records"@))),
                    Some(name) => match record_parts(v, name) {
                        Err(f) => Err(f),
                        Ok(p) => Ok(inserted(m, name, p)),
                    },
                }
            },
        }
    }
}

/// The spec that a document describes.
pub open spec fn spec_parts(doc: Value) -> Result<Seq<(Seq<char>, RecordParts)>, Failure> {
    match doc {
        Value::Hash(entries) => match find(entries@, "records"@) {
            None => Err(Failure::Missing("records"@, None)),
            Some(r) => match r {
                Value::Hash(rs) => records_parts(rs@),
                _ => Err(Failure::Invalid(r, "Hash"@, Some("records"@))),
            },
        },
        _ => Err(Failure::Invalid(doc, "Hash"@, None)),
    }
}

/// What loading the documents `docs` gives, as a boxed error when it fails.
pub open spec fn boxed_documents_outcome(docs: Seq<Value>, r: Result<Spec, BoxedError>) -> bool {
    match r {
        Ok(s) => documents_outcome(docs, Ok(s)),
        Err(BoxedError::Loader(e)) => documents_outcome(docs, Err(e)),
        Err(_) => false,
    }
}

/// What loading the documents `docs` gives: the spec of the first one.
pub open spec fn documents_outcome(docs: Seq<Value>, r: Result<Spec, Error>) -> bool {
    if docs.len() == 0 {
        r matches Err(Error::NoDocumentsFound)
    } else {
        match spec_parts(docs[0]) {
            Ok(m) => r matches Ok(s) && spec_view(s) == m,
            Err(f) => r matches Err(e) && is_failure(e, f),
        }
    }
}

proof fn lemma_find_first(s: Seq<(Value, Value)>, key: Seq<char>, i: int)
    requires
        0 <= i <= s.len(),
        forall|j: int| 0 <= j < i ==> !is_key(#[trigger] s[j].0, key),
    ensures
        i < s.len() && is_key(s[i].0, key) ==> find(s, key) == Some(s[i].1),
        i == s.len() ==> find(s, key) is None,
    decreases i,
{
    if i > 0 {
        let t = s.drop_first();
        assert(!is_key(s[0].0, key));
        assert forall|j: int| 0 <= j < i - 1 implies !is_key(#[trigger] t[j].0, key) by {
            assert(t[j] == s[j + 1]);
        }
        lemma_find_first(t, key, i - 1);
        if i < s.len() {
            assert(t[i - 1] == s[i]);
        }
    }
}

proof fn lemma_find_update(s: Seq<(Value, Value)>, i: int, x: Value, key: Seq<char>)
    requires
        0 <= i < s.len(),
        !is_key(s[i].0, key),
    ensures
        find(s.update(i, (s[i].0, x)), key) == find(s, key),
    decreases i,
{
    let u = s.update(i, (s[i].0, x));
    if i == 0 {
        assert(u.drop_first() =~= s.drop_first());
    } else {
        let t = s.drop_first();
        assert(u[0] == s[0]);
        assert(u.drop_first() =~= t.update(i - 1, (t[i - 1].0, x)));
        lemma_find_update(t, i - 1, x, key);
    }
}

proof fn lemma_count_before_parallel<V, W>(s: Seq<(Seq<char>, V)>, t: Seq<(Seq<char>, W)>, k: Seq<char>)
    requires
        s.len() == t.len(),
        forall|i: int| 0 <= i < s.len() ==> (#[trigger] t[i]).0 == s[i].0,
    ensures
        count_before(t, k) == count_before(s, k),
    decreases s.len(),
{
    if s.len() > 0 {
        let s1 = s.drop_last();
        let t1 = t.drop_last();
        assert forall|i: int| 0 <= i < s1.len() implies (#[trigger] t1[i]).0 == s1[i].0 by {
            assert(t1[i] == t[i] && s1[i] == s[i]);
        }
        assert(t.last().0 == s.last().0) by {
            assert(t[t.len() - 1].0 == s[s.len() - 1].0);
        }
        lemma_count_before_parallel(s1, t1, k);
    }
}

proof fn lemma_count_before_bound<V>(s: Seq<(Seq<char>, V)>, k: Seq<char>)
    ensures
        count_before(s, k) <= s.len(),
    decreases s.len(),
{
    if s.len() > 0 {
        lemma_count_before_bound(s.drop_last(), k);
    }
}

/// Two sorted sequences of entries with the same names in the same places take a new
/// entry in the same place.
proof fn lemma_inserted_parallel<V, W>(s: Seq<(Seq<char>, V)>, t: Seq<(Seq<char>, W)>, k: Seq<char>)
    requires
        sorted_by_name(s),
        s.len() == t.len(),
        forall|i: int| 0 <= i < s.len() ==> (#[trigger] t[i]).0 == s[i].0,
    ensures
        position_of(t, k) == position_of(s, k),
        count_before(t, k) == count_before(s, k),
        sorted_by_name(t),
{
    assert forall|i: int, j: int| 0 <= i < j < t.len() implies crate::names::name_lt(
        #[trigger] t[i].0,
        #[trigger] t[j].0,
    ) by {
        assert(crate::names::name_lt(s[i].0, s[j].0));
    }
    match position_of(s, k) {
        Some(i) => {
            assert(t[i].0 == k);
            crate::names::lemma_sorted_position_unique(t, i, k);
        },
        None => {
            assert forall|j: int| 0 <= j < t.len() implies t[j].0 != k by {
                assert(t[j].0 == s[j].0);
            }
        },
    }
    lemma_count_before_parallel(s, t, k);
}

/// The values of the fields after an insertion are those of the insertion of the values.
proof fn lemma_fields_view_inserted(s: Seq<(Seq<char>, FieldSpec)>, k: Seq<char>, f: FieldSpec)
    requires
        sorted_by_name(s),
    ensures
        fields_view(inserted(s, k, f)) == inserted(fields_view(s), k, parts_of(f)),
{
    let t = fields_view(s);
    lemma_inserted_parallel(s, t, k);
    match position_of(s, k) {
        Some(i) => {
            assert(fields_view(inserted(s, k, f)) =~= inserted(t, k, parts_of(f)));
        },
        None => {
            let c = count_before(s, k) as int;
            lemma_count_before_bound(s, k);
            let a = fields_view(inserted(s, k, f));
            let b = inserted(t, k, parts_of(f));
            assert(a.len() == b.len());
            assert forall|j: int| 0 <= j < a.len() implies a[j] == b[j] by {
                if j < c {
                    assert(a[j] == (s[j].0, parts_of(s[j].1)));
                } else if j > c {
                    assert(a[j] == (s[j - 1].0, parts_of(s[j - 1].1)));
                }
            }
            assert(a =~= b);
        },
    }
}

/// The values of the records after an insertion are those of the insertion of the values.
proof fn lemma_records_view_inserted(s: Seq<(Seq<char>, RecordSpec)>, k: Seq<char>, r: RecordSpec)
    requires
        sorted_by_name(s),
    ensures
        records_view(inserted(s, k, r)) == inserted(records_view(s), k, record_view(r)),
{
    let t = records_view(s);
    lemma_inserted_parallel(s, t, k);
    match position_of(s, k) {
        Some(i) => {
            assert(records_view(inserted(s, k, r)) =~= inserted(t, k, record_view(r)));
        },
        None => {
            let c = count_before(s, k) as int;
            lemma_count_before_bound(s, k);
            let a = records_view(inserted(s, k, r));
            let b = inserted(t, k, record_view(r));
            assert(a.len() == b.len());
            assert forall|j: int| 0 <= j < a.len() implies a[j] == b[j] by {
                if j < c {
                    assert(a[j] == (s[j].0, record_view(s[j].1)));
                } else if j > c {
                    assert(a[j] == (s[j - 1].0, record_view(s[j - 1].1)));
                }
            }
            assert(a =~= b);
        },
    }
}

/// The keys of a document differ from each other.
proof fn lemma_keys_differ()
    ensures
        "length"@ != "padding_direction"@,
        "length"@ != "padding"@,
        "padding_direction"@ != "padding"@,
        "length"@ != "default"@,
        "padding_direction"@ != "default"@,
        "padding"@ != "default"@,
        "fields"@ != "line_ending"@,
{
    reveal_strlit("length");
    reveal_strlit("padding_direction");
    reveal_strlit("padding");
    reveal_strlit("default");
    reveal_strlit("fields");
    reveal_strlit("line_ending");
    assert("length"@.len() == 6);
    assert("padding_direction"@.len() == 17);
    assert("padding"@.len() == 7 && "padding"@[0] == 'p');
    assert("default"@.len() == 7 && "default"@[0] == 'd');
    assert("fields"@.len() == 6);
    assert("line_ending"@.len() == 11);
}

proof fn lemma_fields_parts_failed(s: Seq<(Value, Value)>, name: Seq<char>, m: int)
    requires
        0 <= m <= s.len(),
        fields_parts(s.take(m), name) is Err,
    ensures
        fields_parts(s, name) == fields_parts(s.take(m), name),
    decreases s.len() - m,
{
    if m < s.len() {
        assert(s.take(m + 1).drop_last() =~= s.take(m));
        lemma_fields_parts_failed(s, name, m + 1);
    } else {
        assert(s.take(m) =~= s);
    }
}

proof fn lemma_records_parts_failed(s: Seq<(Value, Value)>, m: int)
    requires
        0 <= m <= s.len(),
        records_parts(s.take(m)) is Err,
    ensures
        records_parts(s) == records_parts(s.take(m)),
    decreases s.len() - m,
{
    if m < s.len() {
        assert(s.take(m + 1).drop_last() =~= s.take(m));
        lemma_records_parts_failed(s, m + 1);
    } else {
        assert(s.take(m) =~= s);
    }
}

/// Takes the value of the first entry whose key is the string `key` out of `entries`,
/// leaving `Null` in its place.
fn take_value(entries: &mut Vec<(Value, Value)>, key: &str) -> (r: Option<Value>)
    ensures
        r == find(old(entries)@, key@),
        forall|k: Seq<char>| k != key@ ==> #[trigger] find(final(entries)@, k) == find(old(entries)@, k),
{
    let mut i: usize = 0;
    while i < entries.len()
        invariant
            i <= entries@.len(),
            entries@ == old(entries)@,
            forall|j: int| 0 <= j < i ==> !is_key(#[trigger] entries@[j].0, key@),
        decreases entries@.len() - i,
    {
        let hit = match &entries[i].0 {
            Value::String(s) => names_equal(s.as_str(), key),
            _ => false,
        };
        if hit {
            proof {
                lemma_find_first(entries@, key@, i as int);
            }
            let ghost before = entries@;
            let (k, v) = entries.remove(i);
            entries.insert(i, (k, Value::Null));
            proof {
                assert(entries@ =~= before.update(i as int, (before[i as int].0, Value::Null)));
                assert forall|k2: Seq<char>| k2 != key@ implies #[trigger] find(entries@, k2) == find(before, k2) by {
                    lemma_find_update(before, i as int, Value::Null, k2);
                }
            }
            return Some(v);
        }
        i = i + 1;
    }
    proof {
        lemma_find_first(entries@, key@, i as int);
    }
    None
}

/// The text of a decimal digit.
fn digit_text(d: u64) -> (r: &'static str)
    requires
        d < 10,
    ensures
        r@ == seq![digit(d as int)],
{
    if d == 0 {
        proof { reveal_strlit("0"); }
        "0"
    } else if d == 1 {
        proof { reveal_strlit("1"); }
        "1"
    } else if d == 2 {
        proof { reveal_strlit("2"); }
        "2"
    } else if d == 3 {
        proof { reveal_strlit("3"); }
        "3"
    } else if d == 4 {
        proof { reveal_strlit("4"); }
        "4"
    } else if d == 5 {
        proof { reveal_strlit("5"); }
        "5"
    } else if d == 6 {
        proof { reveal_strlit("6"); }
        "6"
    } else if d == 7 {
        proof { reveal_strlit("7"); }
        "7"
    } else if d == 8 {
        proof { reveal_strlit("8"); }
        "8"
    } else {
        proof { reveal_strlit("9"); }
        "9"
    }
}

/// Appends the decimal digits of `n` to `s`.
pub(crate) fn append_digits(s: &mut String, n: u128)
    ensures
        final(s)@ == old(s)@ + digits(n as nat),
    decreases n,
{
    if n >= 10 {
        append_digits(s, n / 10);
    }
    let d = digit_text((n % 10) as u64);
    s.append(d);
    proof {
        if n >= 10 {
            assert(old(s)@ + digits((n / 10) as nat) + seq![digit((n % 10) as int)] =~= old(s)@ + digits(
                n as nat,
            ));
        } else {
            assert(old(s)@ + seq![digit((n % 10) as int)] =~= old(s)@ + digits(n as nat));
        }
    }
}

/// An integer in decimal.
pub fn decimal_string(i: i64) -> (r: String)
    ensures
        r@ == decimal(i as int),
{
    let mut s = String::new();
    let magnitude: u64 = if i < 0 {
        proof {
            reveal_strlit("-");
        }
        s.append("-");
        ((-(i + 1)) as u64) + 1
    } else {
        i as u64
    };
    append_digits(&mut s, magnitude as u128);
    s
}

/// Writes a path out as text: its parts one after the other.
fn normalize_path(path: &[&str]) -> (r: String)
    ensures
        r@ == joined(texts(path@)),
{
    let mut string = String::new();
    let mut i: usize = 0;
    while i < path.len()
        invariant
            i <= path@.len(),
            string@ == joined(texts(path@).take(i as int)),
        decreases path@.len() - i,
    {
        string.append(path[i]);
        proof {
            let p = texts(path@);
            assert(p.take(i + 1).drop_last() =~= p.take(i as int));
            assert(p.take(i + 1).last() == path@[i as int]@);
        }
        i = i + 1;
    }
    assert(texts(path@).take(i as int) =~= texts(path@));
    string
}

fn owned_path(path: Option<&[&str]>) -> (r: Option<String>)
    ensures
        opt_text(r) == path_text(path),
{
    match path {
        Some(p) => Some(normalize_path(p)),
        None => None,
    }
}

impl Error {
    /// The key `key` is missing, in the place `path` names.
    pub fn missing_key(key: &'static str, path: Option<&[&str]>) -> (e: Self)
        ensures
            is_failure(e, Failure::Missing(key@, path_text(path))),
    {
        Error::MissingKey { key, path: owned_path(path) }
    }

    /// The value `value` is not of the type `expected_type`, in the place `path` names.
    pub fn invalid_type(value: Value, expected_type: &'static str, path: Option<&[&str]>) -> (e: Self)
        ensures
            is_failure(e, Failure::Invalid(value, expected_type@, path_text(path))),
    {
        Error::InvalidType { value, expected_type, path: owned_path(path) }
    }
}

/// Loads a spec from a YAML document.
pub struct YamlLoader;

impl YamlLoader {
    /// The entries of a hash.
    fn get_hash(value: Value, path: Option<&[&str]>) -> (r: Result<Vec<(Value, Value)>, Error>)
        ensures
            match value {
                Value::Hash(e) => r == Ok::<Vec<(Value, Value)>, Error>(e),
                _ => r matches Err(e) && is_failure(e, Failure::Invalid(value, "Hash"@, path_text(path))),
            },
    {
        match value {
            Value::Hash(v) => Ok(v),
            _ => Err(Error::invalid_type(value, "Hash", path)),
        }
    }

    /// The text a string or an integer stands for.
    fn get_string(value: Value, path: Option<&[&str]>) -> (r: Result<String, Error>)
        ensures
            match text_of(value) {
                Some(t) => r matches Ok(s) && s@ == t,
                None => r matches Err(e) && is_failure(e, Failure::Invalid(value, "String"@, path_text(path))),
            },
    {
        match value {
            Value::String(v) => Ok(v),
            Value::Integer(v) => Ok(decimal_string(v)),
            _ => Err(Error::invalid_type(value, "String", path)),
        }
    }

    /// The bytes of the text a string or an integer stands for.
    fn get_bytes(value: Value, path: Option<&[&str]>) -> (r: Result<Vec<u8>, Error>)
        ensures
            match text_of(value) {
                Some(t) => r matches Ok(b) && b@ == encode_utf8(t),
                None => r matches Err(e) && is_failure(e, Failure::Invalid(value, "String"@, path_text(path))),
            },
    {
        match Self::get_string(value, path) {
            Ok(s) => Ok(crate::names::IntoBytes::into_bytes(s)),
            Err(e) => Err(e),
        }
    }

    /// An integer, as a `usize`.
    fn get_usize(value: Value, path: Option<&[&str]>) -> (r: Result<usize, Error>)
        ensures
            match value {
                Value::Integer(n) => r == Ok::<usize, Error>(n as usize),
                _ => r matches Err(e) && is_failure(e, Failure::Invalid(value, "Integer"@, path_text(path))),
            },
    {
        match value {
            Value::Integer(v) => Ok(v as usize),
            _ => Err(Error::invalid_type(value, "Integer", path)),
        }
    }

    /// The padding direction a string names.
    fn get_padding_direction(value: Value, path: Option<&[&str]>) -> (r: Result<PaddingDirection, Error>)
        ensures
            match direction_of(value) {
                Some(d) => r == Ok::<PaddingDirection, Error>(d),
                None => r matches Err(e) && is_failure(
                    e,
                    Failure::Invalid(value, "String: right, Right, left, Left"@, path_text(path)),
                ),
            },
    {
        let direction = match &value {
            Value::String(v) => if names_equal(v.as_str(), "right") || names_equal(v.as_str(), "Right") {
                Some(PaddingDirection::Right)
            } else if names_equal(v.as_str(), "left") || names_equal(v.as_str(), "Left") {
                Some(PaddingDirection::Left)
            } else {
                None
            },
            _ => None,
        };
        match direction {
            Some(d) => Ok(d),
            None => Err(Error::invalid_type(value, "String: right, Right, left, Left", path)),
        }
    }

    /// The field spec that `field_spec_data` describes, for the field `field_name` of the
    /// record `name`.
    fn get_field_spec(field_spec_data: Value, name: &str, field_name: &str) -> (r: Result<FieldSpec, Error>)
        ensures
            match field_parts(field_spec_data, name@, field_name@) {
                Ok(p) => r matches Ok(f) && parts_of(f) == p,
                Err(x) => r matches Err(e) && is_failure(e, x),
            },
    {
        let parts = vec!["records", name, "fields", field_name];
        let path = parts.as_slice();
        proof {
            lemma_keys_differ();
            assert(texts(path@) =~= seq!["records"@, name@, "fields"@, field_name@]);
        }
        let mut map = match Self::get_hash(field_spec_data, Some(path)) {
            Ok(m) => m,
            Err(e) => return Err(e),
        };
        let ghost entries = map@;
        let length = match take_value(&mut map, "length") {
            Some(v) => match Self::get_usize(v, Some(path)) {
                Ok(n) => n,
                Err(e) => return Err(e),
            },
            None => return Err(Error::missing_key("length", Some(path))),
        };
        let padding_direction = match take_value(&mut map, "padding_direction") {
            Some(v) => match Self::get_padding_direction(v, Some(path)) {
                Ok(d) => d,
                Err(e) => return Err(e),
            },
            None => return Err(Error::missing_key("padding_direction", Some(path))),
        };
        let padding = match take_value(&mut map, "padding") {
            Some(v) => match Self::get_bytes(v, Some(path)) {
                Ok(b) => b,
                Err(e) => return Err(e),
            },
            None => Vec::new(),
        };
        let default = match take_value(&mut map, "default") {
            Some(v) => match Self::get_bytes(v, Some(path)) {
                Ok(b) => Some(b),
                Err(e) => return Err(e),
            },
            None => None,
        };
        Ok(FieldSpec { length, padding_direction, padding, default })
    }

    /// The record spec that `record_spec_data` describes, for the record `name`.
    #[verifier::rlimit(40)]
    fn get_record_spec(record_spec_data: Value, name: &str) -> (r: Result<RecordSpec, Error>)
        ensures
            match record_parts(record_spec_data, name@) {
                Ok(p) => r matches Ok(rs) && record_view(rs) == p,
                Err(x) => r matches Err(e) && is_failure(e, x),
            },
    {
        let record_parts_of_path = vec!["records", name];
        let record_path = record_parts_of_path.as_slice();
        let fields_parts_of_path = vec!["records", name, "fields"];
        let path = fields_parts_of_path.as_slice();
        proof {
            lemma_keys_differ();
            assert(texts(record_path@) =~= seq!["records"@, name@]);
            assert(texts(path@) =~= seq!["records"@, name@, "fields"@]);
        }
        let ghost data = record_spec_data;
        let mut map = match Self::get_hash(record_spec_data, Some(record_path)) {
            Ok(m) => m,
            Err(e) => return Err(e),
        };
        let ghost entries = map@;
        let mut fields = match take_value(&mut map, "fields") {
            Some(v) => match Self::get_hash(v, Some(path)) {
                Ok(f) => f,
                Err(e) => return Err(e),
            },
            None => return Err(Error::missing_key("records", Some(path))),
        };
        let ghost all = fields@;
        let ghost rest_of_map = map@;
        let mut field_specs: NameMap<FieldSpec> = NameMap::new();
        let ghost mut n: int = 0;
        assert(all.take(0) =~= Seq::<(Value, Value)>::empty());
        assert(fields_view(field_specs@) =~= Seq::<(Seq<char>, FieldParts)>::empty());
        while fields.len() > 0
            invariant
                0 <= n <= all.len(),
                fields@ == all.skip(n),
                sorted_by_name(field_specs@),
                fields_parts(all.take(n), name@) == Ok::<Seq<(Seq<char>, FieldParts)>, Failure>(
                    fields_view(field_specs@),
                ),
                path_text(Some(path)) == fields_path(name@),
                map@ == rest_of_map,
                data == record_spec_data,
                match fields_parts(all, name@) {
                    Err(x) => record_parts(data, name@) == Err::<RecordParts, Failure>(x),
                    Ok(_) => true,
                },
            ensures
                n == all.len(),
            decreases all.len() - n,
        {
            let (k, v) = fields.remove(0);
            proof {
                assert(all.take(n + 1).drop_last() =~= all.take(n));
                assert(all.take(n + 1).last() == all[n]);
                assert(all[n] == (k, v));
            }
            let field_name = match Self::get_string(k, Some(path)) {
                Ok(s) => s,
                Err(e) => {
                    proof {
                        lemma_fields_parts_failed(all, name@, n + 1);
                    }
                    return Err(e);
                },
            };
            let field_spec = match Self::get_field_spec(v, name, field_name.as_str()) {
                Ok(f) => f,
                Err(e) => {
                    proof {
                        lemma_fields_parts_failed(all, name@, n + 1);
                    }
                    return Err(e);
                },
            };
            let ghost before = field_specs@;
            let ghost key = field_name@;
            field_specs.insert(field_name, field_spec);
            proof {
                lemma_fields_view_inserted(before, key, field_spec);
                n = n + 1;
                assert(fields@ =~= all.skip(n));
            }
        }
        assert(all.take(n) =~= all);
        let line_ending = match take_value(&mut map, "line_ending") {
            Some(v) => match Self::get_bytes(v, Some(path)) {
                Ok(b) => b,
                Err(e) => return Err(e),
            },
            None => Vec::new(),
        };
        Ok(RecordSpec { line_ending, field_specs })
    }

    /// The spec that a document describes.
    #[verifier::rlimit(40)]
    pub fn read_spec(doc: Value) -> (r: Result<Spec, Error>)
        ensures
            match spec_parts(doc) {
                Ok(m) => r matches Ok(s) && spec_view(s) == m,
                Err(x) => r matches Err(e) && is_failure(e, x),
            },
    {
        proof {
            reveal_strlit("records");
        }
        let ghost d = doc;
        let mut top = match Self::get_hash(doc, None) {
            Ok(m) => m,
            Err(e) => return Err(e),
        };
        let records_value = match take_value(&mut top, "records") {
            Some(v) => v,
            None => return Err(Error::missing_key("records", None)),
        };
        let parts = vec!["records"];
        let path = parts.as_slice();
        proof {
            let p = seq!["records"@];
            assert(texts(path@) =~= p);
            assert(p.drop_last() =~= Seq::<Seq<char>>::empty());
            assert(joined(p.drop_last()) == Seq::<char>::empty());
            assert(p.last() == "records"@);
            assert(joined(p) =~= "records"@);
        }
        let mut records = match Self::get_hash(records_value, Some(path)) {
            Ok(m) => m,
            Err(e) => return Err(e),
        };
        let ghost all = records@;
        let mut record_specs: NameMap<RecordSpec> = NameMap::new();
        let ghost mut n: int = 0;
        assert(all.take(0) =~= Seq::<(Value, Value)>::empty());
        assert(records_view(record_specs@) =~= Seq::<(Seq<char>, RecordParts)>::empty());
        while records.len() > 0
            invariant
                0 <= n <= all.len(),
                records@ == all.skip(n),
                sorted_by_name(record_specs@),
                records_parts(all.take(n)) == Ok::<Seq<(Seq<char>, RecordParts)>, Failure>(
                    records_view(record_specs@),
                ),
                path_text(Some(path)) == Some("records"@),
                spec_parts(d) == records_parts(all),
                d == doc,
            ensures
                n == all.len(),
            decreases all.len() - n,
        {
            let (k, v) = records.remove(0);
            proof {
                assert(all.take(n + 1).drop_last() =~= all.take(n));
                assert(all.take(n + 1).last() == all[n]);
                assert(all[n] == (k, v));
            }
            let name = match Self::get_string(k, Some(path)) {
                Ok(s) => s,
                Err(e) => {
                    proof {
                        lemma_records_parts_failed(all, n + 1);
                    }
                    return Err(e);
                },
            };
            let record_spec = match Self::get_record_spec(v, name.as_str()) {
                Ok(rs) => rs,
                Err(e) => {
                    proof {
                        lemma_records_parts_failed(all, n + 1);
                    }
                    return Err(e);
                },
            };
            let ghost before = record_specs@;
            let ghost key = name@;
            record_specs.insert(name, record_spec);
            proof {
                lemma_records_view_inserted(before, key, record_spec);
                n = n + 1;
                assert(records@ =~= all.skip(n));
            }
        }
        assert(all.take(n) =~= all);
        Ok(Spec { record_specs })
    }

    /// The spec of the first of the documents that a text held.
    pub fn load_documents(docs: Vec<Value>) -> (r: Result<Spec, Error>)
        ensures
            documents_outcome(docs@, r),
    {
        let mut docs = docs;
        if docs.len() == 0 {
            return Err(Error::NoDocumentsFound);
        }
        Self::read_spec(docs.remove(0))
    }
}

impl<'a> Loader<&'a mut ByteReader> for YamlLoader {
    /// Reads all that is left of `resource` as text, and loads the spec of the first YAML
    /// document in it.
    fn load(&self, resource: &'a mut ByteReader) -> (r: Result<Spec, BoxedError>)
        ensures
            final(resource).contents() == old(resource).contents(),
            final(resource).pos() == old(resource).pos() + old(resource).rest().len(),
            !valid_utf8(old(resource).rest()) ==> r == Err::<Spec, BoxedError>(BoxedError::Io(IoError::InvalidData)),
            valid_utf8(old(resource).rest()) && !lines_within(old(resource).rest(), LONGEST_LINE as nat) ==> r
                == Err::<Spec, BoxedError>(BoxedError::Loader(Error::LineTooLong)),
            valid_utf8(old(resource).rest()) && lines_within(old(resource).rest(), LONGEST_LINE as nat) ==> match yaml_documents(decode_utf8(old(resource).rest())) {
                None => r matches Err(BoxedError::Loader(Error::Scan(_))),
                Some(docs) => boxed_documents_outcome(docs, r),
            },
    {
        let n = resource.remaining().len();
        let mut contents: Vec<u8> = Vec::new();
        resource.read_up_to(n, &mut contents);
        assert(contents@ =~= old(resource).rest());
        let text = match string_from_utf8(contents) {
            Ok(t) => t,
            Err(_) => return Err(BoxedError::Io(IoError::InvalidData)),
        };
        if !lines_are_within(text.as_str().as_bytes(), LONGEST_LINE) {
            return Err(BoxedError::Loader(Error::LineTooLong));
        }
        match load_from_str(text.as_str()) {
            Ok(docs) => match Self::load_documents(docs) {
                Ok(spec) => Ok(spec),
                Err(e) => Err(BoxedError::Loader(e)),
            },
            Err(e) => Err(BoxedError::Loader(Error::Scan(e))),
        }
    }
}

impl Error {
    /// A short description of what went wrong.
    pub fn description(&self) -> (r: &'static str)
        ensures
            match self {
                Error::NoDocumentsFound => r@ == "The resource at the given path has no documents in it"@,
                Error::MissingKey { .. } => r@ == "There is a key missing"@,
                Error::InvalidType { .. } => r@ == "The type is wrong"@,
                Error::BuilderError(_) => r@ == "The spec builder had an error"@,
                Error::Scan(_) => r@ == "The resource could not be scanned as YAML"@,
                Error::LineTooLong => r@ == "A line of the resource is too long to load"@,
            },
    {
        match self {
            Error::NoDocumentsFound => "The resource at the given path has no documents in it",
            Error::MissingKey { .. } => "There is a key missing",
            Error::InvalidType { .. } => "The type is wrong",
            Error::BuilderError(_) => "The spec builder had an error",
            Error::Scan(_) => "The resource could not be scanned as YAML",
            Error::LineTooLong => "A line of the resource is too long to load",
        }
    }
}

} // verus!
