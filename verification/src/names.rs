//! Maps keyed by names, kept sorted in the byte order in which `str` values compare.
//!
//! Record specs lay their fields out in the order of the field names, so the order
//! of the entries is part of the meaning of a map here, not only its contents.
use vstd::prelude::*;
use vstd::utf8::encode_utf8;

verus! {

broadcast use vstd::utf8::encode_utf8_decode_utf8;

/// Strict lexicographic order on byte strings.
pub open spec fn bytes_lt(a: Seq<u8>, b: Seq<u8>) -> bool
    decreases a.len(),
{
    if a.len() == 0 {
        b.len() > 0
    } else if b.len() == 0 {
        false
    } else if a[0] != b[0] {
        a[0] < b[0]
    } else {
        bytes_lt(a.drop_first(), b.drop_first())
    }
}

/// Strict order on names: that of their UTF-8 encodings.
pub open spec fn name_lt(a: Seq<char>, b: Seq<char>) -> bool {
    bytes_lt(encode_utf8(a), encode_utf8(b))
}

pub proof fn lemma_bytes_lt_irreflexive(a: Seq<u8>)
    ensures
        !bytes_lt(a, a),
    decreases a.len(),
{
    if a.len() > 0 {
        lemma_bytes_lt_irreflexive(a.drop_first());
    }
}

pub proof fn lemma_bytes_lt_asymmetric(a: Seq<u8>, b: Seq<u8>)
    ensures
        bytes_lt(a, b) ==> !bytes_lt(b, a),
    decreases a.len(),
{
    if a.len() > 0 && b.len() > 0 && a[0] == b[0] {
        lemma_bytes_lt_asymmetric(a.drop_first(), b.drop_first());
    }
}

pub proof fn lemma_bytes_lt_transitive(a: Seq<u8>, b: Seq<u8>, c: Seq<u8>)
    requires
        bytes_lt(a, b),
        bytes_lt(b, c),
    ensures
        bytes_lt(a, c),
    decreases a.len(),
{
    if a.len() > 0 && b.len() > 0 && c.len() > 0 && a[0] == b[0] && b[0] == c[0] {
        lemma_bytes_lt_transitive(a.drop_first(), b.drop_first(), c.drop_first());
    }
}

pub proof fn lemma_bytes_lt_total(a: Seq<u8>, b: Seq<u8>)
    ensures
        a == b || bytes_lt(a, b) || bytes_lt(b, a),
    decreases a.len(),
{
    if a.len() > 0 && b.len() > 0 && a[0] == b[0] {
        lemma_bytes_lt_total(a.drop_first(), b.drop_first());
        if a.drop_first() == b.drop_first() {
            assert(a =~= seq![a[0]] + a.drop_first());
            assert(b =~= seq![b[0]] + b.drop_first());
        }
    } else if a.len() == 0 && b.len() == 0 {
        assert(a =~= b);
    }
}

/// A name sorts before every longer name that begins with it, as `str` compares them.
pub proof fn law_prefix_sorts_first(a: Seq<u8>, s: Seq<u8>)
    requires
        s.len() > 0,
    ensures
        bytes_lt(a, a + s),
        !bytes_lt(a + s, a),
    decreases a.len(),
{
    if a.len() > 0 {
        law_prefix_sorts_first(a.drop_first(), s);
        assert((a + s).drop_first() =~= a.drop_first() + s);
        assert((a + s)[0] == a[0]);
    }
}

/// A name sorts before every longer name that begins with it.
pub proof fn law_name_prefix_sorts_first(a: Seq<char>, s: Seq<char>)
    requires
        s.len() > 0,
    ensures
        name_lt(a, a + s),
        !name_lt(a + s, a),
{
    crate::data_type::lemma_encode_concat(a, s);
    if encode_utf8(s).len() == 0 {
        assert(vstd::utf8::decode_utf8(encode_utf8(s)) == s);
        assert(encode_utf8(s) =~= Seq::<u8>::empty());
        assert(vstd::utf8::decode_utf8(Seq::<u8>::empty()) =~= Seq::<char>::empty());
    }
    law_prefix_sorts_first(encode_utf8(a), encode_utf8(s));
}

/// Of two names that agree up to a position, the one with the smaller byte there sorts first.
pub proof fn law_first_difference_decides(a: Seq<u8>, b: Seq<u8>, i: int)
    requires
        0 <= i < a.len(),
        i < b.len(),
        a.take(i) == b.take(i),
        a[i] < b[i],
    ensures
        bytes_lt(a, b),
        !bytes_lt(b, a),
    decreases i,
{
    if i > 0 {
        assert(a[0] == a.take(i)[0] && b[0] == b.take(i)[0]);
        assert(a.drop_first().take(i - 1) =~= a.take(i).drop_first());
        assert(b.drop_first().take(i - 1) =~= b.take(i).drop_first());
        law_first_difference_decides(a.drop_first(), b.drop_first(), i - 1);
    }
}

pub proof fn lemma_name_lt_irreflexive(a: Seq<char>)
    ensures
        !name_lt(a, a),
{
    lemma_bytes_lt_irreflexive(encode_utf8(a));
}

pub proof fn lemma_name_lt_asymmetric(a: Seq<char>, b: Seq<char>)
    ensures
        name_lt(a, b) ==> !name_lt(b, a),
{
    lemma_bytes_lt_asymmetric(encode_utf8(a), encode_utf8(b));
}

pub proof fn lemma_name_lt_transitive(a: Seq<char>, b: Seq<char>, c: Seq<char>)
    requires
        name_lt(a, b),
        name_lt(b, c),
    ensures
        name_lt(a, c),
{
    lemma_bytes_lt_transitive(encode_utf8(a), encode_utf8(b), encode_utf8(c));
}

pub proof fn lemma_name_lt_total(a: Seq<char>, b: Seq<char>)
    ensures
        a == b || name_lt(a, b) || name_lt(b, a),
{
    lemma_bytes_lt_total(encode_utf8(a), encode_utf8(b));
    if encode_utf8(a) == encode_utf8(b) {
        assert(vstd::utf8::decode_utf8(encode_utf8(a)) == a);
        assert(vstd::utf8::decode_utf8(encode_utf8(b)) == b);
    }
}

/// The outcome of comparing two names.
#[derive(Clone, Copy, Debug, PartialEq, Eq, Structural)]
pub enum NameOrder {
    Less,
    Equal,
    Greater,
}

/// Compares two byte strings lexicographically.
pub fn order_bytes(a: &[u8], b: &[u8]) -> (r: NameOrder)
    ensures
        (r == NameOrder::Less) <==> bytes_lt(a@, b@),
        (r == NameOrder::Equal) <==> a@ == b@,
        (r == NameOrder::Greater) <==> bytes_lt(b@, a@),
{
    proof {
        lemma_bytes_lt_irreflexive(a@);
        lemma_bytes_lt_asymmetric(a@, b@);
        lemma_bytes_lt_total(a@, b@);
    }
    assert(a@.skip(0) =~= a@);
    assert(b@.skip(0) =~= b@);
    let mut i: usize = 0;
    while i < a.len() && i < b.len()
        invariant
            i <= a@.len(),
            i <= b@.len(),
            a@.subrange(0, i as int) == b@.subrange(0, i as int),
            bytes_lt(a@, b@) == bytes_lt(a@.skip(i as int), b@.skip(i as int)),
            bytes_lt(b@, a@) == bytes_lt(b@.skip(i as int), a@.skip(i as int)),
        decreases a@.len() - i,
    {
        assert(a@.skip(i as int).drop_first() =~= a@.skip(i + 1));
        assert(b@.skip(i as int).drop_first() =~= b@.skip(i + 1));
        if a[i] < b[i] {
            return NameOrder::Less;
        } else if a[i] > b[i] {
            return NameOrder::Greater;
        }
        assert(a@.subrange(0, i + 1) =~= a@.subrange(0, i as int).push(a@[i as int]));
        assert(b@.subrange(0, i + 1) =~= b@.subrange(0, i as int).push(b@[i as int]));
        i = i + 1;
    }
    if a.len() == b.len() {
        assert(a@ =~= a@.subrange(0, i as int));
        assert(b@ =~= b@.subrange(0, i as int));
        NameOrder::Equal
    } else if a.len() < b.len() {
        NameOrder::Less
    } else {
        NameOrder::Greater
    }
}

/// Compares two names in the order of their UTF-8 encodings.
pub fn order_names(a: &str, b: &str) -> (r: NameOrder)
    ensures
        (r == NameOrder::Less) <==> name_lt(a@, b@),
        (r == NameOrder::Equal) <==> a@ == b@,
        (r == NameOrder::Greater) <==> name_lt(b@, a@),
{
    let r = order_bytes(a.as_bytes(), b.as_bytes());
    proof {
        if encode_utf8(a@) == encode_utf8(b@) {
            assert(vstd::utf8::decode_utf8(encode_utf8(a@)) == a@);
            assert(vstd::utf8::decode_utf8(encode_utf8(b@)) == b@);
        }
    }
    r
}

/// Whether two names are equal.
pub fn names_equal(a: &str, b: &str) -> (r: bool)
    ensures
        r == (a@ == b@),
{
    match order_names(a, b) {
        NameOrder::Equal => true,
        _ => false,
    }
}

/// The keys of a sequence of named entries.
pub open spec fn keys_of<V>(s: Seq<(Seq<char>, V)>) -> Seq<Seq<char>> {
    s.map_values(|e: (Seq<char>, V)| e.0)
}

/// The entries are in strictly increasing order of their names.
pub open spec fn sorted_by_name<V>(s: Seq<(Seq<char>, V)>) -> bool {
    forall|i: int, j: int| 0 <= i < j < s.len() ==> name_lt(#[trigger] s[i].0, #[trigger] s[j].0)
}

/// The position of the entry named `k`, when there is one.
pub open spec fn position_of<V>(s: Seq<(Seq<char>, V)>, k: Seq<char>) -> Option<int> {
    if exists|i: int| 0 <= i < s.len() && s[i].0 == k {
        Some(choose|i: int| 0 <= i < s.len() && s[i].0 == k)
    } else {
        None
    }
}

/// The value of the entry named `k`, when there is one.
pub open spec fn lookup<V>(s: Seq<(Seq<char>, V)>, k: Seq<char>) -> Option<V> {
    match position_of(s, k) {
        Some(i) => Some(s[i].1),
        None => None,
    }
}

/// The number of entries whose name comes before `k`.
pub open spec fn count_before<V>(s: Seq<(Seq<char>, V)>, k: Seq<char>) -> nat
    decreases s.len(),
{
    if s.len() == 0 {
        0
    } else {
        (if name_lt(s.last().0, k) { 1nat } else { 0nat }) + count_before(s.drop_last(), k)
    }
}

/// What an insertion of `(k, v)` makes of a sorted sequence of entries: the entry named
/// `k` takes the new value, or a new entry takes its place in the order.
pub open spec fn inserted<V>(s: Seq<(Seq<char>, V)>, k: Seq<char>, v: V) -> Seq<(Seq<char>, V)> {
    match position_of(s, k) {
        Some(i) => s.update(i, (k, v)),
        None => s.insert(count_before(s, k) as int, (k, v)),
    }
}

pub proof fn lemma_sorted_position_unique<V>(s: Seq<(Seq<char>, V)>, i: int, k: Seq<char>)
    requires
        sorted_by_name(s),
        0 <= i < s.len(),
        s[i].0 == k,
    ensures
        position_of(s, k) == Some(i),
{
    assert(exists|j: int| 0 <= j < s.len() && s[j].0 == k);
    let j = choose|j: int| 0 <= j < s.len() && s[j].0 == k;
    assert(0 <= j < s.len() && s[j].0 == k);
    lemma_name_lt_irreflexive(k);
    if j < i {
        assert(name_lt(s[j].0, s[i].0));
    } else if j > i {
        assert(name_lt(s[i].0, s[j].0));
    }
    assert(j == i);
    assert(position_of(s, k) == Some(j));
}

proof fn lemma_count_before_sorted<V>(s: Seq<(Seq<char>, V)>, k: Seq<char>, i: int)
    requires
        sorted_by_name(s),
        0 <= i <= s.len(),
        forall|j: int| 0 <= j < i ==> name_lt(#[trigger] s[j].0, k),
        forall|j: int| i <= j < s.len() ==> !name_lt(#[trigger] s[j].0, k),
    ensures
        count_before(s, k) == i,
    decreases s.len(),
{
    if s.len() > 0 {
        let t = s.drop_last();
        let n = s.len() - 1;
        assert(s.last() == s[n]);
        if n < i {
            assert(name_lt(s[n].0, k));
        } else {
            assert(!name_lt(s[n].0, k));
        }
        if i == s.len() {
            assert forall|j: int| 0 <= j < i - 1 implies name_lt(#[trigger] t[j].0, k) by {
                assert(t[j] == s[j]);
            }
            lemma_count_before_sorted(t, k, i - 1);
        } else {
            assert forall|j: int| 0 <= j < i implies name_lt(#[trigger] t[j].0, k) by {
                assert(t[j] == s[j]);
            }
            assert forall|j: int| i <= j < t.len() implies !name_lt(#[trigger] t[j].0, k) by {
                assert(t[j] == s[j]);
            }
            lemma_count_before_sorted(t, k, i);
        }
    }
}

/// What a map of names holds after an insertion: the new value under its name, and what it
/// held before under every other name.
pub proof fn law_lookup_after_insert<V>(s: Seq<(Seq<char>, V)>, name: Seq<char>, v: V, k: Seq<char>)
    requires
        sorted_by_name(s),
        sorted_by_name(inserted(s, name, v)),
    ensures
        lookup(inserted(s, name, v), k) == if k == name {
            Some(v)
        } else {
            lookup(s, k)
        },
{
    let t = inserted(s, name, v);
    match position_of(s, name) {
        Some(i) => {
            assert(t[i].0 == name);
            lemma_sorted_position_unique(t, i, name);
            if k != name {
                match position_of(s, k) {
                    Some(j) => {
                        assert(t[j] == s[j]);
                        lemma_sorted_position_unique(t, j, k);
                    },
                    None => {
                        assert forall|j: int| 0 <= j < t.len() implies t[j].0 != k by {
                            if j != i {
                                assert(t[j] == s[j]);
                            }
                        }
                    },
                }
            }
        },
        None => {
            let c = count_before(s, name) as int;
            lemma_count_before_le(s, name);
            assert(t[c].0 == name);
            lemma_sorted_position_unique(t, c, name);
            if k != name {
                match position_of(s, k) {
                    Some(j) => {
                        if j < c {
                            assert(t[j] == s[j]);
                            lemma_sorted_position_unique(t, j, k);
                        } else {
                            assert(t[j + 1] == s[j]);
                            lemma_sorted_position_unique(t, j + 1, k);
                        }
                    },
                    None => {
                        assert forall|j: int| 0 <= j < t.len() implies t[j].0 != k by {
                            if j < c {
                                assert(t[j] == s[j]);
                            } else if j > c {
                                assert(t[j] == s[j - 1]);
                            }
                        }
                    },
                }
            }
        },
    }
}

proof fn lemma_count_before_le<V>(s: Seq<(Seq<char>, V)>, k: Seq<char>)
    ensures
        count_before(s, k) <= s.len(),
    decreases s.len(),
{
    if s.len() > 0 {
        lemma_count_before_le(s.drop_last(), k);
    }
}

/// A map from names to values, whose entries stay sorted by name.
#[derive(Debug, PartialEq, Eq)]
pub struct NameMap<V> {
    entries: Vec<(String, V)>,
}

impl<V> View for NameMap<V> {
    type V = Seq<(Seq<char>, V)>;

    closed spec fn view(&self) -> Seq<(Seq<char>, V)> {
        self.entries@.map_values(|e: (String, V)| (e.0@, e.1))
    }
}

impl<V> NameMap<V> {
    #[verifier::type_invariant]
    closed spec fn entries_sorted(self) -> bool {
        sorted_by_name(self@)
    }

    /// An empty map.
    pub fn new() -> (m: Self)
        ensures
            m@ == Seq::<(Seq<char>, V)>::empty(),
    {
        let m = NameMap { entries: Vec::new() };
        assert(m@ =~= Seq::<(Seq<char>, V)>::empty());
        m
    }

    /// The number of entries; every map is sorted by name.
    pub fn len(&self) -> (n: usize)
        ensures
            n == self@.len(),
            sorted_by_name(self@),
    {
        proof {
            use_type_invariant(self);
        }
        self.entries.len()
    }

    /// Whether the map has no entries.
    pub fn is_empty(&self) -> (b: bool)
        ensures
            b == (self@.len() == 0),
            sorted_by_name(self@),
    {
        self.len() == 0
    }

    /// The position of the entry named `name`.
    pub fn position(&self, name: &str) -> (r: Option<usize>)
        ensures
            r == match position_of(self@, name@) {
                Some(i) => Some(i as usize),
                None => None::<usize>,
            },
            match r {
                Some(i) => i < self@.len() && self@[i as int].0 == name@,
                None => forall|j: int| 0 <= j < self@.len() ==> self@[j].0 != name@,
            },
            sorted_by_name(self@),
    {
        proof {
            use_type_invariant(self);
        }
        let mut i: usize = 0;
        while i < self.entries.len()
            invariant
                i <= self@.len(),
                self@.len() == self.entries@.len(),
                sorted_by_name(self@),
                forall|j: int| 0 <= j < i ==> self@[j].0 != name@,
            decreases self@.len() - i,
        {
            assert(self@[i as int].0 == self.entries@[i as int].0@);
            if names_equal(self.entries[i].0.as_str(), name) {
                proof {
                    lemma_sorted_position_unique(self@, i as int, name@);
                }
                return Some(i);
            }
            i = i + 1;
        }
        None
    }

    /// The entry at a position.
    pub fn entry(&self, i: usize) -> (r: (&String, &V))
        requires
            i < self@.len(),
        ensures
            r.0@ == self@[i as int].0,
            *r.1 == self@[i as int].1,
    {
        let e = &self.entries[i];
        (&e.0, &e.1)
    }

    /// The value of the entry named `name`.
    pub fn get(&self, name: &str) -> (r: Option<&V>)
        ensures
            match lookup(self@, name@) {
                Some(v) => r matches Some(x) && *x == v,
                None => r is None,
            },
    {
        match self.position(name) {
            Some(i) => {
                proof {
                    lemma_sorted_position_unique(self@, i as int, name@);
                }
                assert(self@[i as int].1 == self.entries@[i as int].1);
                Some(&self.entries[i].1)
            },
            None => None,
        }
    }

    /// Whether an entry is named `name`.
    pub fn contains_key(&self, name: &str) -> (b: bool)
        ensures
            b == (lookup(self@, name@) is Some),
    {
        self.position(name).is_some()
    }

    /// Sets the value of the entry named `name`, adding an entry in its place in the
    /// order when there is none.
    pub fn insert(&mut self, name: String, value: V)
        ensures
            final(self)@ == inserted(old(self)@, name@, value),
            sorted_by_name(final(self)@),
    {
        proof {
            use_type_invariant(&*self);
        }
        let ghost s = self@;
        let mut i: usize = 0;
        while i < self.entries.len()
            invariant
                s == self@,
                s == old(self)@,
                sorted_by_name(s),
                i <= s.len(),
                s.len() == self.entries@.len(),
                forall|j: int| 0 <= j < i ==> name_lt(#[trigger] s[j].0, name@),
            ensures
                s == self@,
                i <= s.len(),
                forall|j: int| 0 <= j < i ==> name_lt(#[trigger] s[j].0, name@),
                i < s.len() ==> name_lt(name@, s[i as int].0),
            decreases s.len() - i,
        {
            assert(s[i as int].0 == self.entries@[i as int].0@);
            let order = order_names(self.entries[i].0.as_str(), name.as_str());
            match order {
                NameOrder::Less => {},
                NameOrder::Equal => {
                    proof {
                        lemma_sorted_position_unique(s, i as int, name@);
                    }
                    let mut entries = Vec::new();
                    std::mem::swap(&mut entries, &mut self.entries);
                    entries.set(i, (name, value));
                    proof {
                        let t = entries@.map_values(|e: (String, V)| (e.0@, e.1));
                        assert(t =~= s.update(i as int, (name@, value)));
                        assert forall|a: int, b: int| 0 <= a < b < t.len() implies name_lt(
                            #[trigger] t[a].0,
                            #[trigger] t[b].0,
                        ) by {
                            assert(t[a].0 == s[a].0);
                            assert(t[b].0 == s[b].0);
                        }
                    }
                    self.entries = entries;
                    assert(self@ =~= s.update(i as int, (name@, value)));
                    assert(position_of(s, name@) == Some(i as int));
                    assert(self@ == inserted(s, name@, value));
                    return;
                },
                NameOrder::Greater => {
                    break;
                },
            }
            i = i + 1;
        }
        proof {
            lemma_name_lt_irreflexive(name@);
            assert forall|j: int| 0 <= j < s.len() implies s[j].0 != name@ by {
                if j < i {
                    assert(name_lt(s[j].0, name@));
                } else if j == i {
                    assert(name_lt(name@, s[i as int].0));
                } else {
                    assert(name_lt(s[i as int].0, s[j].0));
                    lemma_name_lt_transitive(name@, s[i as int].0, s[j].0);
                }
            }
            assert forall|j: int| i <= j < s.len() implies !name_lt(#[trigger] s[j].0, name@) by {
                assert(name_lt(name@, s[i as int].0));
                if j > i {
                    assert(name_lt(s[i as int].0, s[j].0));
                    lemma_name_lt_transitive(name@, s[i as int].0, s[j].0);
                    lemma_name_lt_asymmetric(name@, s[j].0);
                } else {
                    lemma_name_lt_asymmetric(name@, s[i as int].0);
                }
            }
            lemma_count_before_sorted(s, name@, i as int);
        }
        let mut entries = Vec::new();
        std::mem::swap(&mut entries, &mut self.entries);
        entries.insert(i, (name, value));
        proof {
            let t = entries@.map_values(|e: (String, V)| (e.0@, e.1));
            assert(t =~= s.insert(i as int, (name@, value)));
            assert forall|a: int, b: int| 0 <= a < b < t.len() implies name_lt(
                #[trigger] t[a].0,
                #[trigger] t[b].0,
            ) by {
                if b < i {
                } else if a < i && b == i {
                } else if a < i && b > i {
                    assert(name_lt(s[a].0, s[b - 1].0));
                } else if a == i {
                    if b - 1 > i {
                        assert(name_lt(s[i as int].0, s[b - 1].0));
                    }
                    lemma_name_lt_total(name@, s[b - 1].0);
                    if b - 1 > i {
                        if name_lt(s[b - 1].0, name@) {
                            assert(false);
                        }
                    }
                } else {
                    assert(name_lt(s[a - 1].0, s[b - 1].0));
                }
            }
        }
        self.entries = entries;
        assert(self@ =~= s.insert(i as int, (name@, value)));
    }

    /// Removes the entry named `name` and gives its value back.
    pub fn remove(&mut self, name: &str) -> (r: Option<V>)
        ensures
            r == lookup(old(self)@, name@),
            match position_of(old(self)@, name@) {
                Some(i) => final(self)@ == old(self)@.remove(i),
                None => final(self)@ == old(self)@,
            },
            sorted_by_name(final(self)@),
    {
        proof {
            use_type_invariant(&*self);
        }
        let ghost s = self@;
        match self.position(name) {
            Some(i) => {
                proof {
                    lemma_sorted_position_unique(s, i as int, name@);
                }
                let mut entries = Vec::new();
                std::mem::swap(&mut entries, &mut self.entries);
                let e = entries.remove(i);
                assert(e.1 == s[i as int].1);
                let ghost t = entries@.map_values(|e: (String, V)| (e.0@, e.1));
                assert(t =~= s.remove(i as int));
                assert forall|a: int, b: int| 0 <= a < b < t.len() implies name_lt(
                    #[trigger] t[a].0,
                    #[trigger] t[b].0,
                ) by {
                    if a >= i {
                        assert(name_lt(s[a + 1].0, s[b + 1].0));
                    } else if b >= i {
                        assert(name_lt(s[a].0, s[b + 1].0));
                    } else {
                        assert(name_lt(s[a].0, s[b].0));
                    }
                }
                self.entries = entries;
                Some(e.1)
            },
            None => None,
        }
    }

    /// A map made of entries that are already in increasing order of their names.
    pub fn from_sorted(entries: Vec<(String, V)>) -> (m: Self)
        requires
            sorted_by_name(entries@.map_values(|e: (String, V)| (e.0@, e.1))),
        ensures
            m@ == entries@.map_values(|e: (String, V)| (e.0@, e.1)),
    {
        NameMap { entries }
    }

    /// The entries, in the order of their names.
    pub fn into_entries(self) -> (v: Vec<(String, V)>)
        ensures
            v@.map_values(|e: (String, V)| (e.0@, e.1)) == self@,
            sorted_by_name(self@),
    {
        proof {
            use_type_invariant(&self);
        }
        self.entries
    }

    /// All entries, in the order of their names.
    pub fn as_slice(&self) -> (r: &[(String, V)])
        ensures
            r@.len() == self@.len(),
            forall|i: int| 0 <= i < r@.len() ==> (#[trigger] r@[i]).0@ == self@[i].0 && r@[i].1 == self@[i].1,
            sorted_by_name(self@),
    {
        proof {
            use_type_invariant(self);
        }
        self.entries.as_slice()
    }
}

impl<V: Clone> Clone for NameMap<V> {
    fn clone(&self) -> (r: Self)
        ensures
            r@.len() == self@.len(),
            forall|i: int|
                0 <= i < self@.len() ==> (#[trigger] r@[i]).0 == self@[i].0 && cloned(self@[i].1, r@[i].1),
    {
        proof {
            use_type_invariant(self);
        }
        let mut entries: Vec<(String, V)> = Vec::new();
        let mut i: usize = 0;
        while i < self.entries.len()
            invariant
                i <= self.entries@.len(),
                entries@.len() == i,
                forall|j: int|
                    0 <= j < i ==> (#[trigger] entries@[j]).0@ == self.entries@[j].0@ && cloned(
                        self.entries@[j].1,
                        entries@[j].1,
                    ),
            decreases self.entries@.len() - i,
        {
            let name = self.entries[i].0.clone();
            let value = self.entries[i].1.clone();
            entries.push((name, value));
            i = i + 1;
        }
        let ghost t = entries@.map_values(|e: (String, V)| (e.0@, e.1));
        assert forall|a: int, b: int| 0 <= a < b < t.len() implies name_lt(
            #[trigger] t[a].0,
            #[trigger] t[b].0,
        ) by {
            assert(t[a].0 == self@[a].0);
            assert(t[b].0 == self@[b].0);
        }
        NameMap { entries }
    }
}

/// Values that can name a record or a field.
pub trait IntoName {
    spec fn name_view(&self) -> Seq<char>;

    fn into_name(self) -> (r: String)
        ensures
            r@ == self.name_view(),
    ;
}

impl IntoName for String {
    open spec fn name_view(&self) -> Seq<char> {
        self@
    }

    fn into_name(self) -> (r: String) {
        self
    }
}

impl<'a> IntoName for &'a str {
    open spec fn name_view(&self) -> Seq<char> {
        (*self)@
    }

    fn into_name(self) -> (r: String) {
        self.to_owned()
    }
}

impl<'a> IntoName for &'a String {
    open spec fn name_view(&self) -> Seq<char> {
        (*self)@
    }

    fn into_name(self) -> (r: String) {
        self.clone()
    }
}

/// Values that can be taken as a sequence of bytes.
pub trait IntoBytes {
    spec fn bytes_view(&self) -> Seq<u8>;

    fn into_bytes(self) -> (r: Vec<u8>)
        ensures
            r@ == self.bytes_view(),
    ;
}

impl IntoBytes for Vec<u8> {
    open spec fn bytes_view(&self) -> Seq<u8> {
        self@
    }

    fn into_bytes(self) -> (r: Vec<u8>) {
        self
    }
}

impl<'a> IntoBytes for &'a [u8] {
    open spec fn bytes_view(&self) -> Seq<u8> {
        (*self)@
    }

    fn into_bytes(self) -> (r: Vec<u8>) {
        vstd::slice::slice_to_vec(self)
    }
}

impl<'a> IntoBytes for &'a str {
    open spec fn bytes_view(&self) -> Seq<u8> {
        encode_utf8((*self)@)
    }

    fn into_bytes(self) -> (r: Vec<u8>) {
        vstd::slice::slice_to_vec(self.as_bytes())
    }
}

impl IntoBytes for String {
    open spec fn bytes_view(&self) -> Seq<u8> {
        encode_utf8(self@)
    }

    fn into_bytes(self) -> (r: Vec<u8>) {
        vstd::slice::slice_to_vec(self.as_str().as_bytes())
    }
}

/// Values that hold a name and can lend it.
pub trait AsName {
    spec fn name_of(&self) -> Seq<char>;

    fn as_name(&self) -> (r: &str)
        ensures
            r@ == self.name_of(),
    ;
}

impl AsName for String {
    open spec fn name_of(&self) -> Seq<char> {
        self@
    }

    fn as_name(&self) -> (r: &str) {
        self.as_str()
    }
}

impl<'a> AsName for &'a str {
    open spec fn name_of(&self) -> Seq<char> {
        (*self)@
    }

    fn as_name(&self) -> (r: &str) {
        *self
    }
}

} // verus!
