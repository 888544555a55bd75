//! What a read gives back of a write: binary records written with the default formatter
//! read back, with the default parser, as the values they were written from; and data
//! written through lines read back, through the same lines, as the data.
use vstd::prelude::*;
use crate::data_type::BinarySupporter;
use crate::line::{absorb, col, lines_of, min, read_lines, read_loop, sep_emit, sep_left, write_lines, write_loop, ReadFailure};
use vstd::utf8::valid_utf8;
use crate::formatter::DefaultFormatter;
use crate::padding::{law_padded_length, law_unpad_undoes_pad, padded};
use crate::parser::DefaultParser;
use crate::reader::{concat_values, field_take, fields_outcome, FieldsOutcome};
use crate::record::{Data, DataRanges};
use crate::spec::{total_length, FieldSpec, PaddingDirection};
use crate::writer::{field_value, fields_write_outcome, FieldsWriteOutcome};

verus! {

/// Whether taking the padding of field `f` off `value` padded for `f` gives `value` back:
/// there is padding, the value fits, the padding fills whole copies, and the value does not
/// itself begin (padded on the left) or end (padded on the right) with a copy of the
/// padding, whose copies on the right must also divide the field's length.
pub open spec fn pads_back(value: Seq<u8>, f: FieldSpec) -> bool {
    let p = f.padding@;
    let l = f.length as nat;
    &&& p.len() > 0
    &&& value.len() <= l
    &&& (l - value.len()) % (p.len() as int) == 0
    &&& f.padding_direction == PaddingDirection::Left ==> (value.len() < p.len() || value.take(p.len() as int) != p)
    &&& f.padding_direction == PaddingDirection::Right ==> ((l as int) % (p.len() as int) == 0 && (value.len()
        < p.len() || value.skip(value.len() - p.len()) != p))
}

/// The bytes the default formatter makes of each value for its field.
pub open spec fn written(fields: Seq<(Seq<char>, FieldSpec)>, values: Seq<Seq<u8>>) -> Seq<Seq<u8>> {
    Seq::new(
        values.len(),
        |i: int| padded(values[i], fields[i].1.length as nat, fields[i].1.padding@, fields[i].1.padding_direction),
    )
}

proof fn lemma_concat_split(s: Seq<Seq<u8>>, k: int)
    requires
        0 <= k <= s.len(),
    ensures
        concat_values(s) == concat_values(s.take(k)) + concat_values(s.skip(k)),
    decreases s.len(),
{
    if k == s.len() {
        assert(s.take(k) =~= s);
        assert(s.skip(k) =~= Seq::<Seq<u8>>::empty());
        assert(concat_values(s) + Seq::<u8>::empty() =~= concat_values(s));
    } else {
        let t = s.drop_last();
        lemma_concat_split(t, k);
        assert(t.take(k) =~= s.take(k));
        assert(s.skip(k).drop_last() =~= t.skip(k));
        assert(s.skip(k).last() == s.last());
        assert(concat_values(s.take(k)) + concat_values(s.skip(k)) =~= concat_values(s.take(k)) + concat_values(
            t.skip(k),
        ) + s.last());
    }
}

proof fn lemma_concat_single(x: Seq<u8>)
    ensures
        concat_values(seq![x]) == x,
{
    let one = seq![x];
    assert(one.drop_last() =~= Seq::<Seq<u8>>::empty());
    assert(concat_values(one.drop_last()) == Seq::<u8>::empty());
    assert(one.last() == x);
    assert(Seq::<u8>::empty() + x =~= x);
}

proof fn lemma_concat_first(s: Seq<Seq<u8>>)
    requires
        s.len() > 0,
    ensures
        concat_values(s) == s[0] + concat_values(s.skip(1)),
{
    lemma_concat_split(s, 1);
    assert(s.take(1) =~= seq![s[0]]);
    lemma_concat_single(s[0]);
}

proof fn lemma_written_length(fields: Seq<(Seq<char>, FieldSpec)>, values: Seq<Seq<u8>>)
    requires
        values.len() == fields.len(),
        forall|i: int| 0 <= i < fields.len() ==> pads_back(#[trigger] values[i], fields[i].1),
    ensures
        concat_values(written(fields, values)).len() == total_length(fields),
    decreases fields.len(),
{
    if fields.len() > 0 {
        let n = fields.len() - 1;
        let f2 = fields.drop_last();
        let v2 = values.drop_last();
        assert forall|i: int| 0 <= i < f2.len() implies pads_back(#[trigger] v2[i], f2[i].1) by {
            assert(v2[i] == values[i] && f2[i] == fields[i]);
        }
        lemma_written_length(f2, v2);
        assert(written(fields, values).drop_last() =~= written(f2, v2));
        assert(pads_back(values[n], fields[n].1));
        law_padded_length(values[n], fields[n].1.length as nat, fields[n].1.padding@, fields[n].1.padding_direction);
        assert(fields.last() == fields[n]);
    }
}

proof fn lemma_write_from<W: DataRanges>(
    fields: Seq<(Seq<char>, FieldSpec)>,
    data: &Data<W, Vec<u8>>,
    values: Seq<Seq<u8>>,
    room: nat,
    i: nat,
)
    requires
        values.len() == fields.len(),
        i <= fields.len(),
        forall|j: int| 0 <= j < fields.len() ==> pads_back(#[trigger] values[j], fields[j].1),
        forall|j: int|
            0 <= j < fields.len() ==> field_value(&BinarySupporter, fields[j].0, fields[j].1, data) == Some(
                #[trigger] values[j],
            ),
        concat_values(written(fields, values)).len() <= room,
    ensures
        fields_write_outcome(
            &DefaultFormatter,
            &BinarySupporter,
            fields,
            data,
            room,
            i,
            written(fields, values).take(i as int),
        ) == FieldsWriteOutcome::Formatted(written(fields, values)),
    decreases fields.len() - i,
{
    let w = written(fields, values);
    if i == fields.len() {
        assert(w.take(i as int) =~= w);
    } else {
        let f = fields[i as int].1;
        assert(pads_back(values[i as int], f));
        law_padded_length(values[i as int], f.length as nat, f.padding@, f.padding_direction);
        assert(field_value(&BinarySupporter, fields[i as int].0, f, data) == Some(values[i as int]));
        lemma_concat_split(w, i as int + 1);
        lemma_concat_split(w.take(i as int + 1), i as int);
        assert(w.take(i as int + 1).take(i as int) =~= w.take(i as int));
        assert(w.take(i as int + 1).skip(i as int) =~= seq![w[i as int]]);
        lemma_concat_single(w[i as int]);
        assert(w.take(i as int).push(w[i as int]) =~= w.take(i as int + 1));
        lemma_write_from(fields, data, values, room, i + 1);
    }
}

proof fn lemma_read_from(fields: Seq<(Seq<char>, FieldSpec)>, values: Seq<Seq<u8>>, input: Seq<u8>, rest: Seq<u8>, i: nat)
    requires
        values.len() == fields.len(),
        i <= fields.len(),
        forall|j: int| 0 <= j < fields.len() ==> pads_back(#[trigger] values[j], fields[j].1),
        input == concat_values(written(fields, values)) + rest,
    ensures
        fields_outcome(
            &DefaultParser,
            &BinarySupporter,
            fields,
            input,
            i,
            values.take(i as int),
            concat_values(written(fields, values).take(i as int)).len(),
        ) == (FieldsOutcome::Read { values, consumed: concat_values(written(fields, values)).len() }),
    decreases fields.len() - i,
{
    let w = written(fields, values);
    if i == fields.len() {
        assert(w.take(i as int) =~= w);
        assert(values.take(i as int) =~= values);
    } else {
        let f = fields[i as int].1;
        let v = values[i as int];
        let len = f.length as nat;
        assert(pads_back(v, f));
        law_padded_length(v, len, f.padding@, f.padding_direction);
        law_unpad_undoes_pad(v, len, f.padding@, f.padding_direction);
        let c = concat_values(w.take(i as int)).len();
        lemma_concat_split(w, i as int);
        lemma_concat_first(w.skip(i as int));
        assert(w.skip(i as int)[0] == w[i as int]);
        assert(w.skip(i as int).skip(1) =~= w.skip(i as int + 1));
        let after = input.skip(c as int);
        assert(after =~= w[i as int] + concat_values(w.skip(i as int + 1)) + rest);
        assert(after.take(len as int) =~= w[i as int]);
        assert(after.take(0) =~= Seq::<u8>::empty());
        if len > 0 {
            assert(field_take(&BinarySupporter, len, after, len) == (true, len));
        }
        assert(field_take(&BinarySupporter, len, after, 0) == (true, len));
        lemma_concat_split(w.take(i as int + 1), i as int);
        assert(w.take(i as int + 1).take(i as int) =~= w.take(i as int));
        assert(w.take(i as int + 1).skip(i as int) =~= seq![w[i as int]]);
        lemma_concat_single(w[i as int]);
        assert(values.take(i as int).push(v) =~= values.take(i as int + 1));
        lemma_read_from(fields, values, input, rest, i + 1);
    }
}

/// What the default formatter writes of a record, the default parser reads back: when the
/// data gives each field a value that pads back (`pads_back`) and the writer has room for
/// the whole record, writing the fields gives the padded values, and reading the fields
/// from those bytes followed by anything gives the values again, taking the length of
/// the record's fields.
pub proof fn law_read_gives_back_write<W: DataRanges>(
    fields: Seq<(Seq<char>, FieldSpec)>,
    data: &Data<W, Vec<u8>>,
    values: Seq<Seq<u8>>,
    room: nat,
    rest: Seq<u8>,
)
    requires
        values.len() == fields.len(),
        forall|i: int| 0 <= i < fields.len() ==> pads_back(#[trigger] values[i], fields[i].1),
        forall|i: int|
            0 <= i < fields.len() ==> field_value(&BinarySupporter, fields[i].0, fields[i].1, data) == Some(
                #[trigger] values[i],
            ),
        total_length(fields) <= room,
    ensures
        fields_write_outcome(&DefaultFormatter, &BinarySupporter, fields, data, room, 0, Seq::empty())
            == FieldsWriteOutcome::Formatted(written(fields, values)),
        fields_outcome(
            &DefaultParser,
            &BinarySupporter,
            fields,
            concat_values(written(fields, values)) + rest,
            0,
            Seq::empty(),
            0,
        ) == (FieldsOutcome::Read { values, consumed: total_length(fields) }),
{
    let w = written(fields, values);
    lemma_written_length(fields, values);
    assert(w.take(0) =~= Seq::<Seq<u8>>::empty());
    assert(values.take(0) =~= Seq::<Seq<u8>>::empty());
    lemma_write_from(fields, data, values, room, 0);
    lemma_read_from(fields, values, concat_values(w) + rest, rest, 0);
}

/// Moving `d` bytes on from `p` within one line and its separator moves the column by
/// `d`; reaching the end of the separator wraps it to the start of the next line.
proof fn lemma_col_step(p: nat, d: nat, length: nat, sep: Seq<u8>)
    requires
        length > 0,
        col(p, length, sep) + d <= length + sep.len(),
    ensures
        col(p, length, sep) + d < length + sep.len() ==> col(p + d, length, sep) == col(p, length, sep) + d,
        col(p, length, sep) + d == length + sep.len() ==> col(p + d, length, sep) == 0,
{
    let l = (length + sep.len()) as int;
    let q = (p as int) / l;
    let m = (p as int) % l;
    vstd::arithmetic::div_mod::lemma_fundamental_div_mod(p as int, l);
    assert(p == l * q + m);
    assert(l * q == q * l) by (nonlinear_arith);
    if m + d < l {
        vstd::arithmetic::div_mod::lemma_fundamental_div_mod_converse((p + d) as int, l, q, m + d);
    } else {
        assert((q + 1) * l == q * l + l) by (nonlinear_arith);
        vstd::arithmetic::div_mod::lemma_fundamental_div_mod_converse((p + d) as int, l, q + 1, 0);
    }
}

/// The bytes of the data that one step of writing lines takes from `p`, with `rem` bytes
/// of data left: the rest of the line, or the rest of the data.
pub open spec fn step_count(length: nat, sep: Seq<u8>, p: nat, rem: nat) -> nat {
    min((length - col(p, length, sep)) as nat, rem)
}

/// The separator that follows a step of `count` bytes from `p`: the whole separator when
/// the step ends its line, else nothing.
pub open spec fn step_sep(length: nat, sep: Seq<u8>, p: nat, count: nat) -> Seq<u8> {
    if sep.len() > 0 && col(p, length, sep) + count == length {
        sep
    } else {
        Seq::empty()
    }
}

proof fn lemma_write_step(length: nat, sep: Seq<u8>, p: nat, rem: nat, room: nat)
    requires
        length > 0,
        rem > 0,
        col(p, length, sep) < length,
        room >= rem * (1 + sep.len()),
    ensures
        ({
            let count = step_count(length, sep, p, rem);
            let s = step_sep(length, sep, p, count);
            &&& 1 <= count <= rem
            &&& min(count, room) == count
            &&& sep_emit(length, sep, p + count, (room - count) as nat) == s
            &&& sep_left(p + count, length, sep) == s.len()
            &&& col(p + count + s.len(), length, sep) < length
            &&& room - count - s.len() >= (rem - count) * (1 + sep.len())
        }),
{
    let sl = sep.len();
    let c = col(p, length, sep);
    let count = step_count(length, sep, p, rem);
    let s = step_sep(length, sep, p, count);
    assert(rem * (1 + sl) >= rem) by (nonlinear_arith)
        requires
            rem >= 0,
            sl >= 0,
    ;
    lemma_col_step(p, count, length, sep);
    if sl > 0 && c + count == length {
        assert(col(p + count, length, sep) == length);
        assert(count * (1 + sl) >= count + sl) by (nonlinear_arith)
            requires
                count >= 1,
                sl >= 0,
        ;
        assert(rem * (1 + sl) >= count * (1 + sl)) by (nonlinear_arith)
            requires
                rem >= count,
                sl >= 0,
        ;
        assert(sep_emit(length, sep, p + count, (room - count) as nat) =~= sep);
        lemma_col_step(p + count, sl, length, sep);
    } else {
        if c + count < length {
            assert(col(p + count, length, sep) < length);
        } else {
            assert(col(p + count, length, sep) == 0);
        }
        assert(sep_emit(length, sep, p + count, (room - count) as nat) =~= Seq::<u8>::empty());
    }
    let room2 = room - count - s.len();
    assert(room2 >= (rem - count) * (1 + sl)) by (nonlinear_arith)
        requires
            room >= rem * (1 + sl),
            count >= 1,
            count <= rem,
            s.len() <= sl,
            room2 == room - count - s.len(),
            sl >= 0,
    ;
}

proof fn lemma_absorb_step(length: nat, sep: Seq<u8>, p: nat, count: nat, tail: Seq<u8>)
    requires
        valid_utf8(sep),
        sep_left(p + count, length, sep) == step_sep(length, sep, p, count).len(),
    ensures
        absorb(step_sep(length, sep, p, count) + tail, length, sep, p + count) == (
            None::<ReadFailure>,
            step_sep(length, sep, p, count).len(),
            step_sep(length, sep, p, count).len(),
        ),
{
    let s = step_sep(length, sep, p, count);
    let input = s + tail;
    if s.len() > 0 {
        assert(input.take(min(s.len(), input.len()) as int) =~= sep);
        assert(sep.skip(0) =~= sep);
    }
}

proof fn lemma_write_unfold(length: nat, sep: Seq<u8>, p: nat, data: Seq<u8>, total: nat, room: nat, emitted: Seq<u8>)
    requires
        length > 0,
        total < data.len(),
        col(p, length, sep) < length,
        room >= (data.len() - total) * (1 + sep.len()),
    ensures
        ({
            let rem = (data.len() - total) as nat;
            let count = step_count(length, sep, p, rem);
            let s = step_sep(length, sep, p, count);
            write_loop(length, sep, p, data, total, room, emitted) == write_loop(
                length,
                sep,
                p + count + s.len(),
                data,
                total + count,
                (room - count - s.len()) as nat,
                emitted + data.subrange(total as int, (total + count) as int) + s,
            )
        }),
{
    lemma_write_step(length, sep, p, (data.len() - total) as nat, room);
}

proof fn lemma_read_unfold(
    length: nat,
    sep: Seq<u8>,
    p: nat,
    n: nat,
    out: Seq<u8>,
    chunk: Seq<u8>,
    tail: Seq<u8>,
)
    requires
        length > 0,
        valid_utf8(sep),
        col(p, length, sep) < length,
        out.len() < n,
        chunk.len() == step_count(length, sep, p, (n - out.len()) as nat),
        chunk.len() >= 1,
        sep_left(p + chunk.len(), length, sep) == step_sep(length, sep, p, chunk.len()).len(),
    ensures
        ({
            let s = step_sep(length, sep, p, chunk.len());
            let rest = read_loop(tail, length, sep, p + chunk.len() + s.len(), n, out + chunk);
            read_loop(chunk + s + tail, length, sep, p, n, out) == (
                rest.0,
                rest.1,
                chunk.len() + s.len() + rest.2,
                chunk.len() + s.len() + rest.3,
            )
        }),
{
    let s = step_sep(length, sep, p, chunk.len());
    let input = chunk + s + tail;
    assert(input.take(min(chunk.len(), input.len()) as int) =~= chunk);
    assert(input.skip(chunk.len() as int) =~= s + tail);
    lemma_absorb_step(length, sep, p, chunk.len(), tail);
    assert(input.skip((chunk.len() + s.len()) as int) =~= tail);
}

/// Reading back, from where a write of `data` began, what the write emitted gives the data
/// again and takes exactly the emitted bytes, when the write had room for all of it.
#[verifier::rlimit(60)]
proof fn lemma_read_back_loop(
    length: nat,
    sep: Seq<u8>,
    p: nat,
    data: Seq<u8>,
    total: nat,
    room: nat,
    emitted: Seq<u8>,
    out: Seq<u8>,
    rest: Seq<u8>,
)
    requires
        length > 0,
        valid_utf8(sep),
        total <= data.len(),
        col(p, length, sep) < length,
        room >= (data.len() - total) * (1 + sep.len()),
    ensures
        ({
            let w = write_loop(length, sep, p, data, total, room, emitted);
            let x = read_loop(
                w.0.skip(emitted.len() as int) + rest,
                length,
                sep,
                p,
                (out.len() + (data.len() - total)) as nat,
                out,
            );
            &&& w.0.len() >= emitted.len()
            &&& w.0.take(emitted.len() as int) == emitted
            &&& w.1 == data.len()
            &&& x.0 is None
            &&& x.1 == out + data.skip(total as int)
            &&& x.2 == w.0.len() - emitted.len()
            &&& x.3 == w.0.len() - emitted.len()
        }),
    decreases data.len() - total,
{
    let w = write_loop(length, sep, p, data, total, room, emitted);
    let n = (out.len() + (data.len() - total)) as nat;
    let input = w.0.skip(emitted.len() as int) + rest;
    if total >= data.len() {
        assert(w.0.skip(emitted.len() as int) =~= Seq::<u8>::empty());
        assert(data.skip(total as int) =~= Seq::<u8>::empty());
        assert(out + data.skip(total as int) =~= out);
        assert(w.0.take(emitted.len() as int) =~= emitted);
    } else {
        let rem = (data.len() - total) as nat;
        lemma_write_step(length, sep, p, rem, room);
        lemma_write_unfold(length, sep, p, data, total, room, emitted);
        let count = step_count(length, sep, p, rem);
        let s = step_sep(length, sep, p, count);
        let chunk = data.subrange(total as int, (total + count) as int);
        let p2 = p + count + s.len();
        let room2 = (room - count - s.len()) as nat;
        let emitted2 = emitted + chunk + s;
        let out2 = out + chunk;
        lemma_read_back_loop(length, sep, p2, data, total + count, room2, emitted2, out2, rest);
        assert(w.0.take(emitted.len() as int) =~= w.0.take(emitted2.len() as int).take(emitted.len() as int));
        assert(emitted2.take(emitted.len() as int) =~= emitted);
        let tail = w.0.skip(emitted2.len() as int) + rest;
        assert(w.0 =~= emitted2 + w.0.skip(emitted2.len() as int));
        assert(input =~= chunk + s + tail);
        lemma_read_unfold(length, sep, p, n, out, chunk, tail);
        assert(out2 + data.skip((total + count) as int) =~= out + data.skip(total as int));
        assert(n == out2.len() + (data.len() - (total + count)));
    }
}

/// What a handler writes of `data` from a position in the data of a line, a handler
/// reading from that position gives back: when the separator is text and the writer has
/// room for the data and a separator after each of its bytes, all the data is written,
/// and reading as many bytes from what was written, followed by anything, gives the data
/// and takes exactly the bytes written.
pub proof fn law_line_read_gives_back_write(length: nat, sep: Seq<u8>, p: nat, data: Seq<u8>, room: nat, rest: Seq<u8>)
    requires
        length > 0,
        valid_utf8(sep),
        col(p, length, sep) < length,
        room >= data.len() * (1 + sep.len()),
    ensures
        write_lines(length, sep, p, data, room).1 == data.len(),
        read_lines(write_lines(length, sep, p, data, room).0 + rest, length, sep, p, data.len()) == (
            None::<ReadFailure>,
            data,
            write_lines(length, sep, p, data, room).0.len(),
            write_lines(length, sep, p, data, room).0.len(),
        ),
{
    let s = sep_emit(length, sep, p, room);
    assert(s =~= Seq::<u8>::empty());
    let w = write_lines(length, sep, p, data, room);
    lemma_read_back_loop(length, sep, p, data, 0, room, Seq::empty(), Seq::empty(), rest);
    assert(w.0.skip(0) =~= w.0);
    assert(Seq::<u8>::empty() + data.skip(0) =~= data);
    let input = w.0 + rest;
    assert(absorb(input, length, sep, p) == (None::<ReadFailure>, 0nat, 0nat));
    assert(input.skip(0) =~= input);
}


proof fn lemma_write_loop_lines(length: nat, sep: Seq<u8>, p: nat, data: Seq<u8>, total: nat, room: nat, emitted: Seq<u8>)
    requires
        length > 0,
        total <= data.len(),
        col(p, length, sep) < length,
        room >= (data.len() - total) * (1 + sep.len()),
    ensures
        write_loop(length, sep, p, data, total, room, emitted).0 == emitted + lines_of(
            data.skip(total as int),
            length,
            sep,
            col(p, length, sep),
        ),
    decreases data.len() - total,
{
    let rest = data.skip(total as int);
    let c = col(p, length, sep);
    if total == data.len() {
        assert(emitted + rest =~= emitted);
    } else {
        let rem = (data.len() - total) as nat;
        lemma_write_unfold(length, sep, p, data, total, room, emitted);
        lemma_write_step(length, sep, p, rem, room);
        let count = step_count(length, sep, p, rem);
        let s = step_sep(length, sep, p, count);
        let chunk = data.subrange(total as int, (total + count) as int);
        let p2 = p + count + s.len();
        lemma_write_loop_lines(length, sep, p2, data, total + count, (room - count - s.len()) as nat, emitted + chunk + s);
        if rem < length - c {
            assert(count == rem);
            assert(chunk =~= rest);
            assert(data.skip((total + count) as int) =~= Seq::<u8>::empty());
            assert(emitted + chunk + s =~= emitted + rest);
        } else {
            assert(count == length - c);
            lemma_col_step(p, count, length, sep);
            if sep.len() > 0 {
                assert(s == sep);
                lemma_col_step(p + count, sep.len(), length, sep);
            } else {
                assert(s =~= sep);
            }
            assert(col(p2, length, sep) == 0);
            assert(rest.take(length - c) =~= chunk);
            assert(rest.skip(length - c) =~= data.skip((total + count) as int));
            assert(emitted + chunk + s + lines_of(data.skip((total + count) as int), length, sep, 0) =~= emitted
                + lines_of(rest, length, sep, c));
        }
    }
}

/// From a position in the data of a line, with room for the data and a separator after
/// each of its bytes, a handler writes the data laid out in lines: each line of data
/// followed by the separator, the last line, when the data ends inside it, without one.
pub proof fn law_lines_written(length: nat, sep: Seq<u8>, p: nat, data: Seq<u8>, room: nat)
    requires
        length > 0,
        col(p, length, sep) < length,
        room >= data.len() * (1 + sep.len()),
    ensures
        write_lines(length, sep, p, data, room).0 == lines_of(data, length, sep, col(p, length, sep)),
{
    assert(sep_emit(length, sep, p, room) =~= Seq::<u8>::empty());
    lemma_write_loop_lines(length, sep, p, data, 0, room, Seq::empty());
    assert(data.skip(0) =~= data);
    assert(Seq::<u8>::empty() + lines_of(data, length, sep, col(p, length, sep)) =~= lines_of(
        data,
        length,
        sep,
        col(p, length, sep),
    ));
}

/// Reading through lines takes the separators out: from a position in the data of a line,
/// reading as many bytes as `data` holds from `data` laid out in lines, followed by
/// anything, gives `data` and takes exactly the bytes laid out, when the separator is text.
pub proof fn law_read_takes_separators_out(length: nat, sep: Seq<u8>, p: nat, data: Seq<u8>, rest: Seq<u8>)
    requires
        length > 0,
        valid_utf8(sep),
        col(p, length, sep) < length,
    ensures
        read_lines(lines_of(data, length, sep, col(p, length, sep)) + rest, length, sep, p, data.len()) == (
            None::<ReadFailure>,
            data,
            lines_of(data, length, sep, col(p, length, sep)).len(),
            lines_of(data, length, sep, col(p, length, sep)).len(),
        ),
{
    let room = data.len() * (1 + sep.len());
    law_lines_written(length, sep, p, data, room);
    law_line_read_gives_back_write(length, sep, p, data, room, rest);
}

} // verus!
