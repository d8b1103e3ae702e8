//! Bounded tables keyed by field names, kept in ascending byte order of the
//! key so that two tables with the same content hold the same entries in the
//! same order, whatever order they were filled in.
use vstd::prelude::*;
use vstd::utf8::*;

verus! {

/// Largest number of entries a table may hold.
pub const TABLE_CAP: usize = 255;

/// Lexicographic order on byte strings (a proper prefix comes first).
pub open spec fn bytes_lt(a: Seq<u8>, b: Seq<u8>) -> bool
    decreases a.len(),
{
    if a.len() == 0 {
        b.len() > 0
    } else if b.len() == 0 {
        false
    } else if a[0] != b[0] {
        a[0] < b[0]
    } else {
        bytes_lt(a.drop_first(), b.drop_first())
    }
}

pub proof fn lemma_bytes_lt_irreflexive(a: Seq<u8>)
    ensures
        !bytes_lt(a, a),
    decreases a.len(),
{
    if a.len() > 0 {
        lemma_bytes_lt_irreflexive(a.drop_first());
    }
}

pub proof fn lemma_bytes_lt_transitive(a: Seq<u8>, b: Seq<u8>, c: Seq<u8>)
    requires
        bytes_lt(a, b),
        bytes_lt(b, c),
    ensures
        bytes_lt(a, c),
    decreases a.len(),
{
    if a.len() > 0 && b.len() > 0 && c.len() > 0 && a[0] == b[0] && b[0] == c[0] {
        lemma_bytes_lt_transitive(a.drop_first(), b.drop_first(), c.drop_first());
    }
}

pub proof fn lemma_bytes_lt_total(a: Seq<u8>, b: Seq<u8>)
    requires
        a != b,
    ensures
        bytes_lt(a, b) || bytes_lt(b, a),
    decreases a.len(),
{
    if a.len() > 0 && b.len() > 0 && a[0] == b[0] {
        if a.drop_first() == b.drop_first() {
            assert(a =~= seq![a[0]] + a.drop_first());
            assert(b =~= seq![b[0]] + b.drop_first());
        }
        lemma_bytes_lt_total(a.drop_first(), b.drop_first());
    } else if a.len() == 0 && b.len() == 0 {
        assert(a =~= b);
    }
}

/// The byte form of a field name, by which tables are ordered.
pub open spec fn name_bytes(k: Seq<char>) -> Seq<u8> {
    encode_utf8(k)
}

pub proof fn lemma_name_bytes_injective(a: Seq<char>, b: Seq<char>)
    requires
        name_bytes(a) == name_bytes(b),
    ensures
        a == b,
{
    encode_utf8_decode_utf8(a);
    encode_utf8_decode_utf8(b);
}

/// Byte strings strictly ascending.
pub open spec fn strictly_sorted(s: Seq<Seq<u8>>) -> bool {
    forall|i: int, j: int| 0 <= i < j < s.len() ==> bytes_lt(#[trigger] s[i], #[trigger] s[j])
}

/// Two strictly ascending sequences with the same elements are equal.
pub proof fn lemma_sorted_same_elements(s1: Seq<Seq<u8>>, s2: Seq<Seq<u8>>)
    requires
        strictly_sorted(s1),
        strictly_sorted(s2),
        forall|x: Seq<u8>| #![trigger s1.contains(x)] #![trigger s2.contains(x)] s1.contains(x) == s2.contains(x),
    ensures
        s1 == s2,
    decreases s1.len(),
{
    if s1.len() == 0 {
        if s2.len() > 0 {
            assert(s2.contains(s2[0]));
            assert(!s1.contains(s2[0]));
        }
        assert(s1 =~= s2);
    } else {
        if s2.len() == 0 {
            assert(s1.contains(s1[0]));
        }
        let n1 = s1.len() - 1;
        let n2 = s2.len() - 1;
        let a = s1[n1];
        let b = s2[n2];
        assert(s1.contains(a));
        assert(s2.contains(b));
        let j = choose|j: int| 0 <= j < s2.len() && s2[j] == a;
        let k = choose|k: int| 0 <= k < s1.len() && s1[k] == b;
        if a != b {
            assert(bytes_lt(s2[j], s2[n2]));
            assert(bytes_lt(s1[k], s1[n1]));
            lemma_bytes_lt_transitive(a, b, a);
            lemma_bytes_lt_irreflexive(a);
        }
        let t1 = s1.drop_last();
        let t2 = s2.drop_last();
        assert forall|x: Seq<u8>| #![trigger t1.contains(x)] #![trigger t2.contains(x)] t1.contains(x) == t2.contains(x) by {
            lemma_bytes_lt_irreflexive(a);
            if t1.contains(x) {
                let i = choose|i: int| 0 <= i < t1.len() && t1[i] == x;
                assert(s1[i] == x);
                assert(bytes_lt(s1[i], s1[n1]));
                assert(s1.contains(x));
                let m = choose|m: int| 0 <= m < s2.len() && s2[m] == x;
                assert(t2[m] == x);
            }
            if t2.contains(x) {
                let i = choose|i: int| 0 <= i < t2.len() && t2[i] == x;
                assert(s2[i] == x);
                assert(bytes_lt(s2[i], s2[n2]));
                assert(s2.contains(x));
                let m = choose|m: int| 0 <= m < s1.len() && s1[m] == x;
                assert(t1[m] == x);
            }
        }
        lemma_sorted_same_elements(t1, t2);
        assert(s1 =~= t1.push(a));
        assert(s2 =~= t2.push(b));
    }
}

/// Three-way comparison of byte strings: negative, zero or positive.
pub fn compare_bytes(a: &[u8], b: &[u8]) -> (r: i8)
    ensures
        (r < 0) == bytes_lt(a@, b@),
        (r == 0) == (a@ == b@),
        (r > 0) == bytes_lt(b@, a@),
{
    let mut i: usize = 0;
    assert(a@.skip(0) =~= a@);
    assert(b@.skip(0) =~= b@);
    while i < a.len() && i < b.len()
        invariant
            0 <= i <= a@.len(),
            i <= b@.len(),
            a@.subrange(0, i as int) == b@.subrange(0, i as int),
            bytes_lt(a@, b@) == bytes_lt(a@.skip(i as int), b@.skip(i as int)),
            bytes_lt(b@, a@) == bytes_lt(b@.skip(i as int), a@.skip(i as int)),
        decreases a@.len() - i,
    {
        assert(a@.skip(i as int)[0] == a@[i as int]);
        assert(b@.skip(i as int)[0] == b@[i as int]);
        if a[i] != b[i] {
            proof {
                if a@ == b@ {
                    assert(a@[i as int] == b@[i as int]);
                }
            }
            if a[i] < b[i] {
                return -1;
            } else {
                return 1;
            }
        }
        assert(a@.skip(i as int).drop_first() =~= a@.skip(i + 1));
        assert(b@.skip(i as int).drop_first() =~= b@.skip(i + 1));
        assert(a@.subrange(0, i + 1) =~= a@.subrange(0, i as int).push(a@[i as int]));
        assert(b@.subrange(0, i + 1) =~= b@.subrange(0, i as int).push(b@[i as int]));
        i = i + 1;
    }
    if a.len() == b.len() {
        assert(a@ =~= a@.subrange(0, i as int));
        assert(b@ =~= b@.subrange(0, i as int));
        assert(a@ == b@);
        proof {
            lemma_bytes_lt_irreflexive(a@);
        }
        0
    } else if a.len() < b.len() {
        assert(a@.skip(i as int).len() == 0);
        -1
    } else {
        assert(b@.skip(i as int).len() == 0);
        1
    }
}

/// A table from field names to values, in ascending byte order of the names.
pub struct FieldMap<V> {
    entries: Vec<(String, V)>,
}

impl<V> View for FieldMap<V> {
    type V = Seq<(Seq<char>, V)>;

    closed spec fn view(&self) -> Seq<(Seq<char>, V)> {
        self.entries@.map_values(|e: (String, V)| (e.0@, e.1))
    }
}

impl<V> FieldMap<V> {
    /// Names strictly ascending by their bytes (so each appears once), and
    /// no more than `TABLE_CAP` entries.
    pub open spec fn wf(&self) -> bool {
        &&& self@.len() <= TABLE_CAP
        &&& forall|i: int, j: int|
            0 <= i < j < self@.len() ==> bytes_lt(
                name_bytes(#[trigger] self@[i].0),
                name_bytes(#[trigger] self@[j].0),
            )
    }

    pub open spec fn contains(&self, k: Seq<char>) -> bool {
        exists|i: int| 0 <= i < self@.len() && (#[trigger] self@[i]).0 == k
    }

    pub open spec fn index_of(&self, k: Seq<char>) -> int {
        choose|i: int| 0 <= i < self@.len() && (#[trigger] self@[i]).0 == k
    }

    /// The value stored under `k`, where `contains(k)`.
    pub open spec fn lookup(&self, k: Seq<char>) -> V {
        self@[self.index_of(k)].1
    }

    /// The table as a finite map from names to values.
    pub open spec fn as_map(&self) -> Map<Seq<char>, V> {
        Map::new(|k: Seq<char>| self.contains(k), |k: Seq<char>| self.lookup(k))
    }

    pub proof fn lemma_unique(&self, i: int, j: int)
        requires
            self.wf(),
            0 <= i < self@.len(),
            0 <= j < self@.len(),
            self@[i].0 == self@[j].0,
        ensures
            i == j,
    {
        if i != j {
            lemma_bytes_lt_irreflexive(name_bytes(self@[i].0));
        }
    }

    /// In a well-formed table the entry at `i` is what `lookup` gives for its name.
    pub proof fn lemma_lookup_at(&self, i: int)
        requires
            self.wf(),
            0 <= i < self@.len(),
        ensures
            self.contains(self@[i].0),
            self.index_of(self@[i].0) == i,
            self.lookup(self@[i].0) == self@[i].1,
    {
        let k = self@[i].0;
        assert(self@[i].0 == k);
        let j = self.index_of(k);
        self.lemma_unique(i, j);
    }

    /// The byte forms of the names, in table order.
    pub open spec fn name_seq(&self) -> Seq<Seq<u8>> {
        self@.map_values(|e: (Seq<char>, V)| name_bytes(e.0))
    }

    /// Two well-formed tables with the same names hold them at the same
    /// positions, whatever order they were filled in.
    pub proof fn lemma_same_names_same_order<W>(&self, other: &FieldMap<W>)
        requires
            self.wf(),
            other.wf(),
            forall|k: Seq<char>| #![trigger self.contains(k)] #![trigger other.contains(k)] self.contains(k) == other.contains(k),
        ensures
            self@.len() == other@.len(),
            forall|i: int| 0 <= i < self@.len() ==> #[trigger] self@[i].0 == other@[i].0,
    {
        let s1 = self.name_seq();
        let s2 = other.name_seq();
        assert forall|x: Seq<u8>| #![trigger s1.contains(x)] #![trigger s2.contains(x)] s1.contains(x) == s2.contains(x) by {
            if s1.contains(x) {
                let i = choose|i: int| 0 <= i < s1.len() && s1[i] == x;
                assert(self.contains(self@[i].0));
                let j = choose|j: int| 0 <= j < other@.len() && (#[trigger] other@[j]).0 == self@[i].0;
                assert(s2[j] == x);
            }
            if s2.contains(x) {
                let i = choose|i: int| 0 <= i < s2.len() && s2[i] == x;
                assert(other.contains(other@[i].0));
                let j = choose|j: int| 0 <= j < self@.len() && (#[trigger] self@[j]).0 == other@[i].0;
                assert(s1[j] == x);
            }
        }
        assert forall|i: int, j: int| 0 <= i < j < s1.len() implies bytes_lt(#[trigger] s1[i], #[trigger] s1[j]) by {
            assert(bytes_lt(name_bytes(self@[i].0), name_bytes(self@[j].0)));
        }
        assert forall|i: int, j: int| 0 <= i < j < s2.len() implies bytes_lt(#[trigger] s2[i], #[trigger] s2[j]) by {
            assert(bytes_lt(name_bytes(other@[i].0), name_bytes(other@[j].0)));
        }
        lemma_sorted_same_elements(s1, s2);
        assert forall|i: int| 0 <= i < self@.len() implies #[trigger] self@[i].0 == other@[i].0 by {
            assert(s1[i] == s2[i]);
            lemma_name_bytes_injective(self@[i].0, other@[i].0);
        }
    }

    /// Two well-formed tables with the same contents hold the same entries in
    /// the same order, whatever order they were filled in.
    pub proof fn lemma_same_map_same_entries(&self, other: &Self)
        requires
            self.wf(),
            other.wf(),
            self.as_map() == other.as_map(),
        ensures
            self@ == other@,
    {
        assert forall|k: Seq<char>| #![trigger self.contains(k)] #![trigger other.contains(k)] self.contains(k) == other.contains(k) by {
            assert(self.as_map().dom().contains(k) == self.contains(k));
            assert(other.as_map().dom().contains(k) == other.contains(k));
        }
        self.lemma_same_names_same_order(other);
        assert forall|i: int| 0 <= i < self@.len() implies #[trigger] self@[i] == other@[i] by {
            self.lemma_lookup_at(i);
            other.lemma_lookup_at(i);
            assert(self.as_map()[self@[i].0] == self.lookup(self@[i].0));
            assert(other.as_map()[other@[i].0] == other.lookup(other@[i].0));
        }
        assert(self@ =~= other@);
    }

    pub fn new() -> (r: Self)
        ensures
            r.wf(),
            r@.len() == 0,
    {
        FieldMap { entries: Vec::new() }
    }

    pub fn len(&self) -> (r: usize)
        ensures
            r == self@.len(),
    {
        self.entries.len()
    }

    pub fn is_empty(&self) -> (r: bool)
        ensures
            r == (self@.len() == 0),
    {
        self.entries.len() == 0
    }

    /// The name of the entry at position `i`.
    pub fn key_at(&self, i: usize) -> (r: &String)
        requires
            i < self@.len(),
        ensures
            r@ == self@[i as int].0,
    {
        &self.entries[i].0
    }

    /// The value of the entry at position `i`.
    pub fn value_at(&self, i: usize) -> (r: &V)
        requires
            i < self@.len(),
        ensures
            *r == self@[i as int].1,
    {
        &self.entries[i].1
    }

    /// Position of the first entry whose name is not below `key`.
    fn position(&self, key: &String) -> (r: usize)
        requires
            self.wf(),
        ensures
            r <= self@.len(),
            forall|i: int| 0 <= i < r ==> bytes_lt(name_bytes(#[trigger] self@[i].0), name_bytes(key@)),
            r < self@.len() ==> !bytes_lt(name_bytes(self@[r as int].0), name_bytes(key@)),
    {
        let kb = key.as_str().as_bytes();
        let mut i: usize = 0;
        while i < self.entries.len()
            invariant
                self.wf(),
                0 <= i <= self@.len(),
                kb@ == name_bytes(key@),
                forall|j: int| 0 <= j < i ==> bytes_lt(name_bytes(#[trigger] self@[j].0), name_bytes(key@)),
            decreases self@.len() - i,
        {
            let c = compare_bytes(self.entries[i].0.as_str().as_bytes(), kb);
            if c >= 0 {
                return i;
            }
            i = i + 1;
        }
        i
    }

    /// The value stored under `key`, if any.
    pub fn get(&self, key: &String) -> (r: Option<&V>)
        requires
            self.wf(),
        ensures
            r.is_some() == self.contains(key@),
            r.is_some() ==> *r.unwrap() == self.lookup(key@),
    {
        let p = self.position(key);
        if p < self.entries.len() && self.entries[p].0 == *key {
            proof {
                self.lemma_lookup_at(p as int);
            }
            Some(&self.entries[p].1)
        } else {
            proof {
                if self.contains(key@) {
                    let j = self.index_of(key@);
                    lemma_bytes_lt_irreflexive(name_bytes(key@));
                    if j > p {
                        lemma_bytes_lt_total(name_bytes(self@[p as int].0), name_bytes(key@));
                    }
                }
            }
            None
        }
    }

    pub fn contains_key(&self, key: &String) -> (r: bool)
        requires
            self.wf(),
        ensures
            r == self.contains(key@),
    {
        self.get(key).is_some()
    }

    /// Stores `value` under `key`, replacing what was there. A table that is
    /// full takes no new name: it is left unchanged and `false` comes back.
    pub fn insert(&mut self, key: String, value: V) -> (r: bool)
        requires
            old(self).wf(),
        ensures
            final(self).wf(),
            r == (old(self).contains(key@) || old(self)@.len() < TABLE_CAP),
            r ==> final(self).as_map() == old(self).as_map().insert(key@, value),
            !r ==> final(self)@ == old(self)@,
    {
        let p = self.position(&key);
        let ghost k = key@;
        let ghost s = self@;
        if p < self.entries.len() && self.entries[p].0 == key {
            self.entries.set(p, (key, value));
            proof {
                assert(self@ =~= s.update(p as int, (k, value)));
                self.lemma_map_after_update(s, p as int, k, value, *old(self));
            }
            true
        } else if self.entries.len() < TABLE_CAP {
            proof {
                if old(self).contains(k) {
                    let j = old(self).index_of(k);
                    lemma_bytes_lt_irreflexive(name_bytes(k));
                }
                if p < s.len() {
                    if name_bytes(s[p as int].0) == name_bytes(k) {
                        lemma_name_bytes_injective(s[p as int].0, k);
                    } else {
                        lemma_bytes_lt_total(name_bytes(s[p as int].0), name_bytes(k));
                    }
                }
            }
            self.entries.insert(p, (key, value));
            proof {
                assert(self@ =~= s.insert(p as int, (k, value)));
                self.lemma_wf_after_insert(s, p as int, k, value);
                self.lemma_map_after_insert(s, p as int, k, value, *old(self));
            }
            true
        } else {
            proof {
                if old(self).contains(k) {
                    let j = old(self).index_of(k);
                    lemma_bytes_lt_irreflexive(name_bytes(k));
                    if j > p {
                        lemma_bytes_lt_total(name_bytes(s[p as int].0), name_bytes(k));
                    }
                }
            }
            false
        }
    }

    proof fn lemma_map_after_update(&self, s: Seq<(Seq<char>, V)>, p: int, k: Seq<char>, v: V, prev: Self)
        requires
            0 <= p < s.len(),
            prev@ == s,
            prev.wf(),
            s[p].0 == k,
            self@ == s.update(p, (k, v)),
        ensures
            self.wf(),
            self.as_map() == prev.as_map().insert(k, v),
    {
        assert forall|i: int, j: int| 0 <= i < j < self@.len() implies bytes_lt(name_bytes(#[trigger] self@[i].0), name_bytes(#[trigger] self@[j].0)) by {
            assert(self@[i].0 == s[i].0 && self@[j].0 == s[j].0);
        }
        assert forall|k2: Seq<char>| self.contains(k2) == (k2 == k || prev.contains(k2)) by {
            if k2 == k {
                assert(self@[p].0 == k);
            }
            if prev.contains(k2) {
                let i = prev.index_of(k2);
                assert(self@[i].0 == k2);
            }
            if self.contains(k2) {
                let i = self.index_of(k2);
                assert(s[i].0 == k2);
            }
        }
        assert forall|k2: Seq<char>| self.contains(k2) implies #[trigger] self.lookup(k2) == prev.as_map().insert(k, v)[k2] by {
            let i = self.index_of(k2);
            assert(s[i].0 == k2);
            assert(self@[p].0 == k);
            if k2 == k {
                self.lemma_unique(i, p);
            } else {
                let j = prev.index_of(k2);
                prev.lemma_unique(i, j);
            }
        }
        assert(self.as_map() =~= prev.as_map().insert(k, v));
    }

    proof fn lemma_wf_after_insert(&self, s: Seq<(Seq<char>, V)>, p: int, k: Seq<char>, v: V)
        requires
            0 <= p <= s.len(),
            s.len() < TABLE_CAP,
            self@ == s.insert(p, (k, v)),
            forall|i: int, j: int|
                0 <= i < j < s.len() ==> bytes_lt(name_bytes(#[trigger] s[i].0), name_bytes(#[trigger] s[j].0)),
            forall|i: int| 0 <= i < p ==> bytes_lt(name_bytes(#[trigger] s[i].0), name_bytes(k)),
            p < s.len() ==> bytes_lt(name_bytes(k), name_bytes(s[p].0)),
        ensures
            self.wf(),
    {
        assert forall|i: int, j: int| 0 <= i < j < self@.len() implies bytes_lt(name_bytes(#[trigger] self@[i].0), name_bytes(#[trigger] self@[j].0)) by {
            if j < p {
                assert(self@[i] == s[i] && self@[j] == s[j]);
            } else if j == p {
                assert(self@[i] == s[i]);
            } else if i < p {
                assert(self@[i] == s[i] && self@[j] == s[j - 1]);
            } else if i == p {
                assert(self@[j] == s[j - 1]);
                if j - 1 > p {
                    lemma_bytes_lt_transitive(name_bytes(k), name_bytes(s[p].0), name_bytes(s[j - 1].0));
                }
            } else {
                assert(self@[i] == s[i - 1] && self@[j] == s[j - 1]);
            }
        }
    }

    proof fn lemma_map_after_insert(&self, s: Seq<(Seq<char>, V)>, p: int, k: Seq<char>, v: V, prev: Self)
        requires
            0 <= p <= s.len(),
            prev@ == s,
            prev.wf(),
            self.wf(),
            self@ == s.insert(p, (k, v)),
            !prev.contains(k),
        ensures
            self.as_map() == prev.as_map().insert(k, v),
    {
        assert forall|k2: Seq<char>| self.contains(k2) == (k2 == k || prev.contains(k2)) by {
            if k2 == k {
                assert(self@[p].0 == k);
            }
            if prev.contains(k2) {
                let i = prev.index_of(k2);
                if i < p {
                    assert(self@[i].0 == k2);
                } else {
                    assert(self@[i + 1].0 == k2);
                }
            }
            if self.contains(k2) && k2 != k {
                let i = self.index_of(k2);
                if i < p {
                    assert(s[i].0 == k2);
                } else if i > p {
                    assert(s[i - 1].0 == k2);
                }
            }
        }
        assert forall|k2: Seq<char>| self.contains(k2) implies #[trigger] self.lookup(k2) == prev.as_map().insert(k, v)[k2] by {
            let i = self.index_of(k2);
            if k2 == k {
                assert(self@[p].0 == k);
                self.lemma_unique(i, p);
            } else {
                let j = prev.index_of(k2);
                prev.lemma_lookup_at(j);
                if i < p {
                    assert(s[i].0 == k2);
                    prev.lemma_unique(i, j);
                } else {
                    assert(i != p);
                    assert(s[i - 1].0 == k2);
                    prev.lemma_unique(i - 1, j);
                }
            }
        }
        assert(self.as_map() =~= prev.as_map().insert(k, v));
    }
}

/// A table of names alone.
pub type FieldSet = FieldMap<()>;

/// A bounded set of one-byte tags, kept in ascending order.
pub struct TagSet {
    tags: Vec<u8>,
}

impl View for TagSet {
    type V = Seq<u8>;

    closed spec fn view(&self) -> Seq<u8> {
        self.tags@
    }
}

impl TagSet {
    /// Tags strictly ascending, and no more than `TABLE_CAP` of them.
    pub open spec fn wf(&self) -> bool {
        &&& self@.len() <= TABLE_CAP
        &&& forall|i: int, j: int| 0 <= i < j < self@.len() ==> #[trigger] self@[i] < #[trigger] self@[j]
    }

    pub open spec fn has(&self, t: u8) -> bool {
        self@.contains(t)
    }

    /// Two well-formed tag sets with the same tags hold them in the same order.
    pub proof fn lemma_same_tags_same_order(&self, other: &Self)
        requires
            self.wf(),
            other.wf(),
            forall|t: u8| #![trigger self.has(t)] #![trigger other.has(t)] self.has(t) == other.has(t),
        ensures
            self@ == other@,
    {
        let s1 = self@.map_values(|t: u8| seq![t]);
        let s2 = other@.map_values(|t: u8| seq![t]);
        assert forall|x: Seq<u8>| #![trigger s1.contains(x)] #![trigger s2.contains(x)] s1.contains(x) == s2.contains(x) by {
            if s1.contains(x) {
                let i = choose|i: int| 0 <= i < s1.len() && s1[i] == x;
                assert(self.has(self@[i]));
                let j = choose|j: int| 0 <= j < other@.len() && other@[j] == self@[i];
                assert(s2[j] == x);
            }
            if s2.contains(x) {
                let i = choose|i: int| 0 <= i < s2.len() && s2[i] == x;
                assert(other.has(other@[i]));
                let j = choose|j: int| 0 <= j < self@.len() && self@[j] == other@[i];
                assert(s1[j] == x);
            }
        }
        assert forall|i: int, j: int| 0 <= i < j < s1.len() implies bytes_lt(#[trigger] s1[i], #[trigger] s1[j]) by {
            assert(self@[i] < self@[j]);
            assert(s1[i].drop_first().len() == 0);
        }
        assert forall|i: int, j: int| 0 <= i < j < s2.len() implies bytes_lt(#[trigger] s2[i], #[trigger] s2[j]) by {
            assert(other@[i] < other@[j]);
            assert(s2[i].drop_first().len() == 0);
        }
        lemma_sorted_same_elements(s1, s2);
        assert forall|i: int| 0 <= i < self@.len() implies #[trigger] self@[i] == other@[i] by {
            assert(s1[i] == s2[i]);
            assert(s1[i][0] == self@[i]);
            assert(s2[i][0] == other@[i]);
        }
        assert(self@ =~= other@);
    }

    pub fn new() -> (r: Self)
        ensures
            r.wf(),
            r@.len() == 0,
    {
        TagSet { tags: Vec::new() }
    }

    pub fn len(&self) -> (r: usize)
        ensures
            r == self@.len(),
    {
        self.tags.len()
    }

    pub fn tag_at(&self, i: usize) -> (r: u8)
        requires
            i < self@.len(),
        ensures
            r == self@[i as int],
    {
        self.tags[i]
    }

    /// Adds `tag`. A full set takes no new tag: it is left unchanged and
    /// `false` comes back.
    pub fn insert(&mut self, tag: u8) -> (r: bool)
        requires
            old(self).wf(),
        ensures
            final(self).wf(),
            r == (old(self).has(tag) || old(self)@.len() < TABLE_CAP),
            forall|t: u8| #[trigger] final(self).has(t) == (old(self).has(t) || (r && t == tag)),
    {
        let mut p: usize = 0;
        while p < self.tags.len() && self.tags[p] < tag
            invariant
                self.wf(),
                p <= self@.len(),
                forall|j: int| 0 <= j < p ==> #[trigger] self@[j] < tag,
            decreases self@.len() - p,
        {
            p = p + 1;
        }
        let ghost s = self@;
        if p < self.tags.len() && self.tags[p] == tag {
            true
        } else if self.tags.len() < TABLE_CAP {
            self.tags.insert(p, tag);
            proof {
                assert forall|i: int, j: int| 0 <= i < j < self@.len() implies #[trigger] self@[i] < #[trigger] self@[j] by {
                    if j < p {
                    } else if j == p {
                    } else if i < p {
                        assert(self@[j] == s[j - 1]);
                    } else if i == p {
                        assert(self@[j] == s[j - 1]);
                    } else {
                        assert(self@[i] == s[i - 1] && self@[j] == s[j - 1]);
                    }
                }
                assert forall|t: u8| #[trigger] self.has(t) == (s.contains(t) || t == tag) by {
                    if s.contains(t) {
                        let j = choose|j: int| 0 <= j < s.len() && s[j] == t;
                        if j < p {
                            assert(self@[j] == t);
                        } else {
                            assert(self@[j + 1] == t);
                        }
                    }
                    if t == tag {
                        assert(self@[p as int] == t);
                    }
                    if self.has(t) {
                        let j = choose|j: int| 0 <= j < self@.len() && self@[j] == t;
                        if j < p {
                            assert(s[j] == t);
                        } else if j > p {
                            assert(s[j - 1] == t);
                        }
                    }
                }
            }
            true
        } else {
            proof {
                if s.contains(tag) {
                    let j = choose|j: int| 0 <= j < s.len() && s[j] == tag;
                    if j > p {
                        assert(s[p as int] < s[j]);
                    }
                }
            }
            false
        }
    }

    pub fn contains(&self, tag: u8) -> (r: bool)
        ensures
            r == self.has(tag),
    {
        let mut i: usize = 0;
        while i < self.tags.len()
            invariant
                i <= self@.len(),
                forall|j: int| 0 <= j < i ==> #[trigger] self@[j] != tag,
            decreases self@.len() - i,
        {
            if self.tags[i] == tag {
                return true;
            }
            i = i + 1;
        }
        false
    }
}

} // verus!
