//! Padding byte strings to a length, and taking the padding off again.
//!
//! A value shorter than its field is filled with the padding, repeated as often as it
//! takes, on the side that the padding direction names; a longer one is cut to the
//! field's length. Taking padding off removes whole copies of the padding from that side,
//! looking at the value in chunks of the padding's length counted from its start.
use vstd::prelude::*;
use crate::spec::PaddingDirection;

verus! {

/// The padding repeated until it is `n` bytes long (nothing, when the padding is empty).
pub open spec fn repeat_padding(padding: Seq<u8>, n: nat) -> Seq<u8> {
    if padding.len() == 0 {
        Seq::empty()
    } else {
        Seq::new(n, |i: int| padding[i % (padding.len() as int)])
    }
}

/// `data` padded or cut to `length`.
pub open spec fn padded(data: Seq<u8>, length: nat, padding: Seq<u8>, direction: PaddingDirection) -> Seq<u8> {
    if data.len() >= length {
        data.take(length as int)
    } else {
        let fill = repeat_padding(padding, (length - data.len()) as nat);
        match direction {
            PaddingDirection::Left => fill + data,
            PaddingDirection::Right => data + fill,
        }
    }
}

/// How many copies of `padding` `data` starts with, chunk after chunk.
pub open spec fn leading_copies(data: Seq<u8>, padding: Seq<u8>) -> nat
    decreases data.len(),
{
    if padding.len() > 0 && data.len() >= padding.len() && data.take(padding.len() as int) == padding {
        1 + leading_copies(data.skip(padding.len() as int), padding)
    } else {
        0
    }
}

/// How many copies of `padding` `data` ends with, chunk after chunk.
pub open spec fn trailing_copies(data: Seq<u8>, padding: Seq<u8>) -> nat
    decreases data.len(),
{
    if padding.len() > 0 && data.len() >= padding.len() && data.skip(data.len() - padding.len()) == padding {
        1 + trailing_copies(data.take(data.len() - padding.len()), padding)
    } else {
        0
    }
}

/// `data` with the padding taken off. On the right, the chunks are counted from the
/// start of the value, so only a value whose length is a multiple of the padding's has
/// its last chunk compared.
pub open spec fn unpadded(data: Seq<u8>, padding: Seq<u8>, direction: PaddingDirection) -> Seq<u8> {
    match direction {
        PaddingDirection::Left => data.skip((leading_copies(data, padding) * padding.len()) as int),
        PaddingDirection::Right => if data.len() % padding.len() != 0 {
            data
        } else {
            data.take(data.len() - trailing_copies(data, padding) * padding.len())
        },
    }
}

proof fn lemma_leading_copies_bound(data: Seq<u8>, padding: Seq<u8>)
    requires
        padding.len() > 0,
    ensures
        leading_copies(data, padding) * padding.len() <= data.len(),
    decreases data.len(),
{
    if data.len() >= padding.len() && data.take(padding.len() as int) == padding {
        let rest = data.skip(padding.len() as int);
        lemma_leading_copies_bound(rest, padding);
        let a = leading_copies(data, padding);
        let b = leading_copies(rest, padding);
        let p = padding.len();
        assert(a == 1 + b);
        assert(a * p == p + b * p) by (nonlinear_arith)
            requires
                a == 1 + b,
        ;
        assert(b * p <= rest.len());
    } else {
        assert(leading_copies(data, padding) == 0);
        assert(0 * padding.len() == 0);
    }
}

proof fn lemma_trailing_copies_bound(data: Seq<u8>, padding: Seq<u8>)
    requires
        padding.len() > 0,
    ensures
        trailing_copies(data, padding) * padding.len() <= data.len(),
    decreases data.len(),
{
    if data.len() >= padding.len() && data.skip(data.len() - padding.len()) == padding {
        let rest = data.take(data.len() - padding.len());
        lemma_trailing_copies_bound(rest, padding);
        let a = trailing_copies(data, padding);
        let b = trailing_copies(rest, padding);
        let p = padding.len();
        assert(a == 1 + b);
        assert(a * p == p + b * p) by (nonlinear_arith)
            requires
                a == 1 + b,
        ;
        assert(b * p <= rest.len());
    } else {
        assert(trailing_copies(data, padding) == 0);
        assert(0 * padding.len() == 0);
    }
}

/// Whether two byte strings are equal.
pub fn bytes_equal(a: &[u8], b: &[u8]) -> (r: bool)
    ensures
        r == (a@ == b@),
{
    if a.len() != b.len() {
        return false;
    }
    let mut i: usize = 0;
    while i < a.len()
        invariant
            a@.len() == b@.len(),
            i <= a@.len(),
            forall|j: int| 0 <= j < i ==> a@[j] == b@[j],
        decreases a@.len() - i,
    {
        if a[i] != b[i] {
            return false;
        }
        i = i + 1;
    }
    assert(a@ =~= b@);
    true
}

/// Appends `src[start..end]` to `dest`.
pub fn extend_from_range(dest: &mut Vec<u8>, src: &[u8], start: usize, end: usize)
    requires
        start <= end <= src@.len(),
    ensures
        final(dest)@ == old(dest)@ + src@.subrange(start as int, end as int),
{
    let mut i = start;
    while i < end
        invariant
            start <= i <= end <= src@.len(),
            dest@ == old(dest)@ + src@.subrange(start as int, i as int),
        decreases end - i,
    {
        dest.push(src[i]);
        i = i + 1;
        assert(dest@ =~= old(dest)@ + src@.subrange(start as int, i as int));
    }
}

/// Appends the padding, repeated until `n` bytes long, to `dest`.
fn extend_with_padding(dest: &mut Vec<u8>, padding: &[u8], n: usize)
    ensures
        final(dest)@ == old(dest)@ + repeat_padding(padding@, n as nat),
{
    if padding.len() == 0 {
        assert(old(dest)@ + repeat_padding(padding@, n as nat) =~= old(dest)@);
        return;
    }
    let mut i: usize = 0;
    let mut k: usize = 0;
    let ghost p = padding@.len() as int;
    let ghost mut q: int = 0;
    while i < n
        invariant
            p == padding@.len() > 0,
            i <= n,
            k < p,
            q >= 0,
            i == q * p + k,
            dest@ == old(dest)@ + repeat_padding(padding@, i as nat),
        decreases n - i,
    {
        proof {
            vstd::arithmetic::div_mod::lemma_fundamental_div_mod_converse(i as int, p, q, k as int);
        }
        dest.push(padding[k]);
        proof {
            assert(dest@ =~= old(dest)@ + repeat_padding(padding@, (i + 1) as nat));
        }
        i = i + 1;
        if k + 1 == padding.len() {
            k = 0;
            proof {
                assert((q + 1) * p == q * p + p) by (nonlinear_arith);
                q = q + 1;
            }
        } else {
            k = k + 1;
        }
    }
}

/// Appends `data` padded or cut to `length` to `destination`.
pub fn pad_into(
    data: &[u8],
    length: usize,
    padding: &[u8],
    direction: PaddingDirection,
    destination: &mut Vec<u8>,
)
    ensures
        final(destination)@ == old(destination)@ + padded(data@, length as nat, padding@, direction),
{
    if data.len() >= length {
        extend_from_range(destination, data, 0, length);
        assert(data@.subrange(0, length as int) =~= data@.take(length as int));
        return;
    }
    let fill = length - data.len();
    match direction {
        PaddingDirection::Left => {
            extend_with_padding(destination, padding, fill);
            extend_from_range(destination, data, 0, data.len());
        },
        PaddingDirection::Right => {
            extend_from_range(destination, data, 0, data.len());
            extend_with_padding(destination, padding, fill);
        },
    }
    assert(data@.subrange(0, data@.len() as int) =~= data@);
    assert(final(destination)@ =~= old(destination)@ + padded(data@, length as nat, padding@, direction));
}

/// Appends `data` with the padding taken off to `destination`.
pub fn unpad_into(data: &[u8], padding: &[u8], direction: PaddingDirection, destination: &mut Vec<u8>)
    requires
        padding@.len() > 0,
    ensures
        final(destination)@ == old(destination)@ + unpadded(data@, padding@, direction),
{
    let p = padding.len();
    match direction {
        PaddingDirection::Left => {
            let mut index: usize = 0;
            let ghost mut copies: nat = 0;
            proof {
                assert(data@.skip(0) =~= data@);
            }
            while p <= data.len() - index && bytes_equal(
                vstd::slice::slice_subrange(data, index, index + p),
                padding,
            )
                invariant
                    p == padding@.len() > 0,
                    index <= data@.len(),
                    index == copies * p,
                    leading_copies(data@, padding@) == copies + leading_copies(data@.skip(index as int), padding@),
                decreases data@.len() - index,
            {
                proof {
                    let rest = data@.skip(index as int);
                    assert(rest.take(p as int) =~= data@.subrange(index as int, index + p));
                    assert(rest.skip(p as int) =~= data@.skip(index + p));
                    assert((copies + 1) * p == copies * p + p) by (nonlinear_arith);
                    copies = copies + 1;
                }
                index = index + p;
            }
            proof {
                let rest = data@.skip(index as int);
                if p <= data@.len() - index {
                    assert(rest.take(p as int) =~= data@.subrange(index as int, index + p));
                }
                assert(leading_copies(rest, padding@) == 0);
            }
            extend_from_range(destination, data, index, data.len());
            assert(data@.subrange(index as int, data@.len() as int) =~= data@.skip(index as int));
        },
        PaddingDirection::Right => {
            if data.len() % p != 0 {
                extend_from_range(destination, data, 0, data.len());
                assert(data@.subrange(0, data@.len() as int) =~= data@);
                return;
            }
            let mut end: usize = data.len();
            let ghost mut copies: nat = 0;
            proof {
                assert(data@.take(data@.len() as int) =~= data@);
            }
            while end >= p && bytes_equal(vstd::slice::slice_subrange(data, end - p, end), padding)
                invariant
                    p == padding@.len() > 0,
                    end <= data@.len(),
                    end == data@.len() - copies * p,
                    trailing_copies(data@, padding@) == copies + trailing_copies(data@.take(end as int), padding@),
                decreases end,
            {
                proof {
                    let rest = data@.take(end as int);
                    assert(rest.skip(rest.len() - p) =~= data@.subrange(end - p, end as int));
                    assert(rest.take(rest.len() - p) =~= data@.take(end - p));
                    assert((copies + 1) * p == copies * p + p) by (nonlinear_arith);
                    copies = copies + 1;
                }
                end = end - p;
            }
            proof {
                let rest = data@.take(end as int);
                if end >= p {
                    assert(rest.skip(rest.len() - p) =~= data@.subrange(end - p, end as int));
                }
                assert(trailing_copies(rest, padding@) == 0);
            }
            extend_from_range(destination, data, 0, end);
            assert(data@.subrange(0, end as int) =~= data@.take(end as int));
        },
    }
}

/// A padded value is exactly as long as its field, whenever there is padding to fill with.
pub proof fn law_padded_length(data: Seq<u8>, length: nat, padding: Seq<u8>, direction: PaddingDirection)
    requires
        padding.len() > 0 || data.len() >= length,
    ensures
        padded(data, length, padding, direction).len() == length,
{
    if data.len() < length {
        let fill = repeat_padding(padding, (length - data.len()) as nat);
        assert(fill.len() == length - data.len());
    }
}

/// A value that fits its field comes back whole inside the padded value: at its end when
/// padded on the left, at its start when padded on the right.
pub proof fn law_padded_keeps_value(data: Seq<u8>, length: nat, padding: Seq<u8>, direction: PaddingDirection)
    requires
        data.len() <= length,
        padding.len() > 0,
    ensures
        direction == PaddingDirection::Left ==> padded(data, length, padding, direction).skip(length - data.len())
            == data,
        direction == PaddingDirection::Right ==> padded(data, length, padding, direction).take(data.len() as int)
            == data,
{
    let r = padded(data, length, padding, direction);
    if data.len() == length {
        assert(data.take(length as int) =~= data);
        assert(r.skip(0) =~= r);
        assert(r.take(data.len() as int) =~= r);
    } else {
        let fill = repeat_padding(padding, (length - data.len()) as nat);
        if direction == PaddingDirection::Left {
            assert((fill + data).skip(fill.len() as int) =~= data);
        } else {
            assert((data + fill).take(data.len() as int) =~= data);
        }
    }
}

/// `k` copies of the padding, one after another.
pub open spec fn copies_of(padding: Seq<u8>, k: nat) -> Seq<u8>
    decreases k,
{
    if k == 0 {
        Seq::empty()
    } else {
        padding + copies_of(padding, (k - 1) as nat)
    }
}

proof fn lemma_copies_len(padding: Seq<u8>, k: nat)
    ensures
        copies_of(padding, k).len() == k * padding.len(),
    decreases k,
{
    if k > 0 {
        lemma_copies_len(padding, (k - 1) as nat);
        assert(k * padding.len() == padding.len() + (k - 1) * padding.len()) by (nonlinear_arith)
            requires
                k > 0,
        ;
    } else {
        assert(0 * padding.len() == 0);
    }
}

proof fn lemma_repeat_is_copies(padding: Seq<u8>, k: nat)
    requires
        padding.len() > 0,
    ensures
        repeat_padding(padding, k * padding.len()) == copies_of(padding, k),
    decreases k,
{
    let p = padding.len() as int;
    lemma_copies_len(padding, k);
    if k > 0 {
        lemma_repeat_is_copies(padding, (k - 1) as nat);
        let n = (k * padding.len()) as nat;
        let m = ((k - 1) * padding.len()) as nat;
        assert(n == m + p) by (nonlinear_arith)
            requires
                k > 0,
                n == k * p,
                m == (k - 1) * p,
        ;
        let a = repeat_padding(padding, n);
        let b = padding + repeat_padding(padding, m);
        assert forall|i: int| 0 <= i < n implies a[i] == b[i] by {
            if i >= p {
                assert(i % p == (i - p) % p) by (nonlinear_arith)
                    requires
                        p > 0,
                        i >= p,
                ;
            } else {
                assert(i % p == i) by (nonlinear_arith)
                    requires
                        0 <= i < p,
                ;
            }
        }
        assert(a =~= b);
    } else {
        assert(repeat_padding(padding, 0) =~= copies_of(padding, 0));
    }
}

proof fn lemma_leading_copies_of(padding: Seq<u8>, k: nat, data: Seq<u8>)
    requires
        padding.len() > 0,
        data.len() < padding.len() || data.take(padding.len() as int) != padding,
    ensures
        leading_copies(copies_of(padding, k) + data, padding) == k,
    decreases k,
{
    if k == 0 {
        assert(copies_of(padding, 0) + data =~= data);
    } else {
        let rest = copies_of(padding, (k - 1) as nat) + data;
        let whole = copies_of(padding, k) + data;
        assert(whole =~= padding + rest);
        assert(whole.take(padding.len() as int) =~= padding);
        assert(whole.skip(padding.len() as int) =~= rest);
        lemma_leading_copies_of(padding, (k - 1) as nat, data);
    }
}

proof fn lemma_trailing_copies_of(padding: Seq<u8>, k: nat, data: Seq<u8>)
    requires
        padding.len() > 0,
        data.len() < padding.len() || data.skip(data.len() - padding.len()) != padding,
    ensures
        trailing_copies(data + copies_of(padding, k), padding) == k,
    decreases k,
{
    if k == 0 {
        assert(data + copies_of(padding, 0) =~= data);
    } else {
        lemma_copies_last(padding, k);
        let rest = data + copies_of(padding, (k - 1) as nat);
        let whole = data + copies_of(padding, k);
        assert(whole =~= rest + padding);
        assert(whole.skip(whole.len() - padding.len()) =~= padding);
        assert(whole.take(whole.len() - padding.len()) =~= rest);
        lemma_trailing_copies_of(padding, (k - 1) as nat, data);
    }
}

proof fn lemma_copies_last(padding: Seq<u8>, k: nat)
    requires
        k > 0,
    ensures
        copies_of(padding, k) == copies_of(padding, (k - 1) as nat) + padding,
    decreases k,
{
    if k == 1 {
        assert(copies_of(padding, 0) =~= Seq::<u8>::empty());
        assert(copies_of(padding, 1) =~= padding + Seq::<u8>::empty());
        assert(copies_of(padding, 1) =~= Seq::<u8>::empty() + padding);
    } else {
        lemma_copies_last(padding, (k - 1) as nat);
        assert(copies_of(padding, k) =~= padding + (copies_of(padding, (k - 2) as nat) + padding));
        assert(copies_of(padding, (k - 1) as nat) =~= padding + copies_of(padding, (k - 2) as nat));
    }
}

/// Taking the padding off a padded value gives the value back, when the padding fills
/// whole copies and the value does not itself begin (on the left) or end (on the right)
/// with a copy of the padding; on the right the field's length must also be a multiple
/// of the padding's, since the chunks are counted from the start of the value.
pub proof fn law_unpad_undoes_pad(data: Seq<u8>, length: nat, padding: Seq<u8>, direction: PaddingDirection)
    requires
        padding.len() > 0,
        data.len() <= length,
        (length - data.len()) % (padding.len() as int) == 0,
        direction == PaddingDirection::Left ==> (data.len() < padding.len() || data.take(padding.len() as int)
            != padding),
        direction == PaddingDirection::Right ==> ((length as int) % (padding.len() as int) == 0 && (data.len()
            < padding.len() || data.skip(data.len() - padding.len()) != padding)),
    ensures
        unpadded(padded(data, length, padding, direction), padding, direction) == data,
{
    let p = padding.len() as int;
    let m = (length - data.len()) as nat;
    let k = ((m as int) / p) as nat;
    assert(m == k * p) by (nonlinear_arith)
        requires
            p > 0,
            (m as int) % p == 0,
            k == (m as int) / p,
    ;
    lemma_copies_len(padding, k);
    let fill = repeat_padding(padding, m);
    if data.len() == length {
        assert(k == 0) by (nonlinear_arith)
            requires
                m == 0,
                k == (m as int) / p,
                p > 0,
        ;
    }
    lemma_repeat_is_copies(padding, k);
    if data.len() == length {
        assert(padded(data, length, padding, direction) =~= data);
        assert(copies_of(padding, 0) =~= Seq::<u8>::empty());
    }
    match direction {
        PaddingDirection::Left => {
            let r = copies_of(padding, k) + data;
            if data.len() < length {
                assert(padded(data, length, padding, direction) == r);
            } else {
                assert(r =~= data);
            }
            lemma_leading_copies_of(padding, k, data);
            assert(r.skip(k * p) =~= data);
        },
        PaddingDirection::Right => {
            let r = data + copies_of(padding, k);
            if data.len() < length {
                assert(padded(data, length, padding, direction) == r);
            } else {
                assert(r =~= data);
            }
            lemma_trailing_copies_of(padding, k, data);
            assert(r.len() == length);
            assert(r.take(r.len() - k * p) =~= data);
        },
    }
}

/// Taking the padding off leaves a part of the value: its end, from the left; its start,
/// from the right.
pub proof fn law_unpadded_is_part_of_value(data: Seq<u8>, padding: Seq<u8>, direction: PaddingDirection)
    requires
        padding.len() > 0,
    ensures
        direction == PaddingDirection::Left ==> data.skip(data.len() - unpadded(data, padding, direction).len())
            == unpadded(data, padding, direction),
        direction == PaddingDirection::Right ==> data.take(unpadded(data, padding, direction).len() as int)
            == unpadded(data, padding, direction),
        unpadded(data, padding, direction).len() <= data.len(),
{
    lemma_leading_copies_bound(data, padding);
    lemma_trailing_copies_bound(data, padding);
    if direction == PaddingDirection::Right && data.len() % padding.len() != 0 {
        assert(data.take(data.len() as int) =~= data);
    }
}

} // verus!
