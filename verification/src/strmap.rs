use vstd::prelude::*;
use crate::text::{chars_of, string_of};

verus! {

/// Lexicographic order on character sequences (by code point), as `str` orders.
pub open spec fn lex_lt(a: Seq<char>, b: Seq<char>) -> bool
    decreases a.len(),
{
    if a.len() == 0 {
        b.len() > 0
    } else if b.len() == 0 {
        false
    } else if a[0] < b[0] {
        true
    } else if a[0] == b[0] {
        lex_lt(a.drop_first(), b.drop_first())
    } else {
        false
    }
}

pub proof fn lemma_lex_irreflexive(a: Seq<char>)
    ensures
        !lex_lt(a, a),
    decreases a.len(),
{
    if a.len() > 0 {
        lemma_lex_irreflexive(a.drop_first());
    }
}

pub proof fn lemma_lex_transitive(a: Seq<char>, b: Seq<char>, c: Seq<char>)
    requires
        lex_lt(a, b),
        lex_lt(b, c),
    ensures
        lex_lt(a, c),
    decreases a.len(),
{
    if a.len() > 0 && b.len() > 0 && c.len() > 0 {
        if a[0] == b[0] && b[0] == c[0] {
            lemma_lex_transitive(a.drop_first(), b.drop_first(), c.drop_first());
        }
    }
}

pub proof fn lemma_lex_total(a: Seq<char>, b: Seq<char>)
    ensures
        a == b || lex_lt(a, b) || lex_lt(b, a),
    decreases a.len(),
{
    if a.len() > 0 && b.len() > 0 {
        if a[0] == b[0] {
            lemma_lex_total(a.drop_first(), b.drop_first());
            if a.drop_first() == b.drop_first() {
                assert(a =~= seq![a[0]] + a.drop_first());
                assert(b =~= seq![b[0]] + b.drop_first());
            }
        }
    } else if a.len() == 0 && b.len() == 0 {
        assert(a =~= b);
    }
}

pub proof fn lemma_lex_asymmetric(a: Seq<char>, b: Seq<char>)
    requires
        lex_lt(a, b),
    ensures
        !lex_lt(b, a),
{
    if lex_lt(b, a) {
        lemma_lex_transitive(a, b, a);
        lemma_lex_irreflexive(a);
    }
}

/// Lexicographic comparison of two character sequences.
pub fn lex_less(a: &[char], b: &[char]) -> (r: bool)
    ensures
        r == lex_lt(a@, b@),
{
    let mut i: usize = 0;
    assert(a@.skip(0) =~= a@);
    assert(b@.skip(0) =~= b@);
    while i < a.len() && i < b.len() && a[i] == b[i]
        invariant
            i <= a@.len(),
            i <= b@.len(),
            lex_lt(a@, b@) == lex_lt(a@.skip(i as int), b@.skip(i as int)),
        decreases a.len() - i,
    {
        proof {
            assert(a@.skip(i as int).drop_first() =~= a@.skip(i + 1));
            assert(b@.skip(i as int).drop_first() =~= b@.skip(i + 1));
        }
        i += 1;
    }
    if i == a.len() {
        i < b.len()
    } else if i == b.len() {
        false
    } else {
        a[i] < b[i]
    }
}

/// Character-wise equality of two sequences.
pub fn chars_eq(a: &[char], b: &[char]) -> (r: bool)
    ensures
        r == (a@ == b@),
{
    if a.len() != b.len() {
        return false;
    }
    let mut i: usize = 0;
    while i < a.len()
        invariant
            i <= a@.len(),
            a@.len() == b@.len(),
            forall|j: int| 0 <= j < i ==> a@[j] == b@[j],
        decreases a.len() - i,
    {
        if a[i] != b[i] {
            return false;
        }
        i += 1;
    }
    assert(a@ =~= b@);
    true
}

/// A map from strings to values, keys kept in strictly increasing order.
pub struct StrMap<V: View> {
    keys: Vec<Vec<char>>,
    vals: Vec<V>,
}

impl<V: View> StrMap<V> {
    /// The keys, in increasing order.
    pub closed spec fn key_seq(&self) -> Seq<Seq<char>> {
        self.keys@.map_values(|k: Vec<char>| k@)
    }

    /// The values, position by position with `key_seq`.
    pub closed spec fn val_seq(&self) -> Seq<V::V> {
        self.vals@.map_values(|v: V| v@)
    }

    /// Keys strictly increasing, one value per key.
    #[verifier::type_invariant]
    pub closed spec fn sorted(&self) -> bool {
        &&& self.keys@.len() == self.vals@.len()
        &&& forall|i: int, j: int|
            0 <= i < j < self.keys@.len() ==> lex_lt(#[trigger] self.keys@[i]@, #[trigger] self.keys@[j]@)
    }

    spec fn pos(&self, k: Seq<char>) -> int {
        choose|i: int| 0 <= i < self.keys@.len() && self.keys@[i]@ == k
    }

    spec fn has(&self, k: Seq<char>) -> bool {
        exists|i: int| 0 <= i < self.keys@.len() && self.keys@[i]@ == k
    }

    proof fn lemma_unique(&self, i: int, j: int)
        requires
            self.sorted(),
            0 <= i < self.keys@.len(),
            0 <= j < self.keys@.len(),
            self.keys@[i]@ == self.keys@[j]@,
        ensures
            i == j,
    {
        if i < j {
            lemma_lex_irreflexive(self.keys@[i]@);
        } else if j < i {
            lemma_lex_irreflexive(self.keys@[i]@);
        }
    }

    proof fn lemma_pos(&self, i: int)
        requires
            self.sorted(),
            0 <= i < self.keys@.len(),
        ensures
            self.has(self.keys@[i]@),
            self.pos(self.keys@[i]@) == i,
    {
        let k = self.keys@[i]@;
        assert(self.has(k));
        let p = self.pos(k);
        self.lemma_unique(p, i);
    }
}

impl StrMap<String> {
    /// A copy of the map.
    pub fn copy(&self) -> (m: Self)
        ensures
            m@ == self@,
    {
        proof {
            use_type_invariant(self);
        }
        let mut keys: Vec<Vec<char>> = Vec::new();
        let mut vals: Vec<String> = Vec::new();
        let mut i: usize = 0;
        while i < self.keys.len()
            invariant
                i <= self.keys@.len(),
                self.keys@.len() == self.vals@.len(),
                keys@.len() == i,
                vals@.len() == i,
                forall|j: int| 0 <= j < i ==> #[trigger] keys@[j]@ == self.keys@[j]@ && vals@[j]@ == self.vals@[j]@,
            decreases self.keys.len() - i,
        {
            let src = &self.keys[i];
            let mut k: Vec<char> = Vec::new();
            let mut t: usize = 0;
            while t < src.len()
                invariant
                    t <= src@.len(),
                    k@ == src@.take(t as int),
                decreases src.len() - t,
            {
                k.push(src[t]);
                proof {
                    assert(k@ =~= src@.take(t + 1));
                }
                t += 1;
            }
            proof {
                assert(src@.take(src@.len() as int) =~= src@);
            }
            keys.push(k);
            vals.push(self.vals[i].clone());
            i += 1;
        }
        let m = StrMap { keys, vals };
        proof {
            m.lemma_view_facts();
            self.lemma_view_facts();
            assert(m.key_seq() =~= self.key_seq());
            assert forall|j: int| 0 <= j < m.vals@.len() implies #[trigger] m.val_seq()[j] == self.val_seq()[j] by {
                assert(m.keys@[j]@ == self.keys@[j]@);
            }
            assert(m.val_seq() =~= self.val_seq());
            assert(m@ =~= self@);
        }
        m
    }
}

impl<V: View> View for StrMap<V> {
    type V = Map<Seq<char>, V::V>;

    closed spec fn view(&self) -> Map<Seq<char>, V::V> {
        Map::new(|k: Seq<char>| self.has(k), |k: Seq<char>| self.vals@[self.pos(k)]@)
    }
}

impl<V: View> StrMap<V> {
    /// The empty map.
    pub fn new() -> (m: Self)
        ensures
            m@ == Map::<Seq<char>, V::V>::empty(),
            m.key_seq().len() == 0,
    {
        let m = StrMap { keys: Vec::new(), vals: Vec::new() };
        assert(m@ =~= Map::<Seq<char>, V::V>::empty());
        m
    }

    /// The number of keys.
    pub fn len(&self) -> (n: usize)
        ensures
            n == self.key_seq().len(),
    {
        proof {
            use_type_invariant(self);
            self.lemma_view_facts();
        }
        self.keys.len()
    }

    /// What the view holds: exactly the keys of `key_seq`, each with its value.
    pub proof fn lemma_view_facts(&self)
        requires
            self.sorted(),
        ensures
            self.key_seq().len() == self.val_seq().len(),
            forall|i: int|
                0 <= i < self.key_seq().len() ==> #[trigger] self@.contains_key(self.key_seq()[i])
                    && self@[self.key_seq()[i]] == self.val_seq()[i],
            forall|k: Seq<char>|
                #[trigger] self@.contains_key(k) ==> exists|i: int|
                    0 <= i < self.key_seq().len() && self.key_seq()[i] == k,
            forall|i: int, j: int|
                0 <= i < j < self.key_seq().len() ==> lex_lt(
                    #[trigger] self.key_seq()[i],
                    #[trigger] self.key_seq()[j],
                ),
    {
        assert forall|i: int| 0 <= i < self.key_seq().len() implies #[trigger] self@.contains_key(
            self.key_seq()[i],
        ) && self@[self.key_seq()[i]] == self.val_seq()[i] by {
            self.lemma_pos(i);
        }
        assert forall|k: Seq<char>| #[trigger] self@.contains_key(k) implies exists|i: int|
            0 <= i < self.key_seq().len() && self.key_seq()[i] == k by {
            let i = self.pos(k);
            assert(self.key_seq()[i] == k);
        }
    }
}

impl<V: View> StrMap<V> {
    /// Position of the first key not below `k`, and whether that key is `k`.
    fn search(&self, k: &[char]) -> (r: (usize, bool))
        ensures
            r.0 <= self.key_seq().len(),
            forall|j: int| 0 <= j < r.0 ==> lex_lt(#[trigger] self.key_seq()[j], k@),
            forall|j: int|
                r.0 <= j < self.key_seq().len() ==> !lex_lt(#[trigger] self.key_seq()[j], k@),
            r.1 == (r.0 < self.key_seq().len() && self.key_seq()[r.0 as int] == k@),
    {
        proof {
            use_type_invariant(self);
        }
        let mut lo: usize = 0;
        let mut hi: usize = self.keys.len();
        while lo < hi
            invariant
                self.sorted(),
                lo <= hi <= self.keys@.len(),
                forall|j: int| 0 <= j < lo ==> lex_lt(#[trigger] self.key_seq()[j], k@),
                forall|j: int| hi <= j < self.keys@.len() ==> !lex_lt(#[trigger] self.key_seq()[j], k@),
            decreases hi - lo,
        {
            let mid = lo + (hi - lo) / 2;
            if lex_less(self.keys[mid].as_slice(), k) {
                proof {
                    assert forall|j: int| 0 <= j < mid + 1 implies lex_lt(#[trigger] self.key_seq()[j], k@) by {
                        if j < mid {
                            lemma_lex_transitive(self.key_seq()[j], self.key_seq()[mid as int], k@);
                        }
                    }
                }
                lo = mid + 1;
            } else {
                proof {
                    assert forall|j: int| mid <= j < self.keys@.len() implies !lex_lt(#[trigger] self.key_seq()[j], k@) by {
                        if j > mid && lex_lt(self.key_seq()[j], k@) {
                            lemma_lex_transitive(self.key_seq()[mid as int], self.key_seq()[j], k@);
                        }
                    }
                }
                hi = mid;
            }
        }
        if lo < self.keys.len() {
            let eq = chars_eq(self.keys[lo].as_slice(), k);
            (lo, eq)
        } else {
            (lo, false)
        }
    }

    /// The position of key `k`, if present.
    pub fn index_of(&self, k: &[char]) -> (r: Option<usize>)
        ensures
            self.key_seq().len() == self.val_seq().len(),
            match r {
                Some(i) => i < self.key_seq().len() && self.key_seq()[i as int] == k@
                    && self@.contains_key(k@) && self@[k@] == self.val_seq()[i as int],
                None => !self@.contains_key(k@),
            },
    {
        proof {
            use_type_invariant(self);
            self.lemma_view_facts();
        }
        let (i, found) = self.search(k);
        if found {
            Some(i)
        } else {
            proof {
                if self@.contains_key(k@) {
                    let j = choose|j: int| 0 <= j < self.key_seq().len() && self.key_seq()[j] == k@;
                    lemma_lex_irreflexive(k@);
                    if j > i && i < self.key_seq().len() {
                        lemma_lex_total(self.key_seq()[i as int], k@);
                        assert(lex_lt(self.key_seq()[i as int], self.key_seq()[j]));
                    }
                }
            }
            None
        }
    }

    /// The value of key `k`, if present.
    pub fn get_chars(&self, k: &[char]) -> (r: Option<&V>)
        ensures
            match r {
                Some(v) => self@.contains_key(k@) && self@[k@] == v@,
                None => !self@.contains_key(k@),
            },
    {
        match self.index_of(k) {
            Some(i) => {
                proof {
                    use_type_invariant(self);
                }
                assert(self.val_seq()[i as int] == self.vals@[i as int]@);
                Some(&self.vals[i])
            },
            None => None,
        }
    }

    /// The value of key `k`, if present.
    pub fn get(&self, k: &str) -> (r: Option<&V>)
        ensures
            match r {
                Some(v) => self@.contains_key(k@) && self@[k@] == v@,
                None => !self@.contains_key(k@),
            },
    {
        let kc = chars_of(k);
        self.get_chars(kc.as_slice())
    }

    /// Whether key `k` is present.
    pub fn contains_key(&self, k: &str) -> (b: bool)
        ensures
            b == self@.contains_key(k@),
    {
        let kc = chars_of(k);
        self.index_of(kc.as_slice()).is_some()
    }

    /// The key at position `i`.
    pub fn key_at(&self, i: usize) -> (k: String)
        requires
            i < self.key_seq().len(),
        ensures
            k@ == self.key_seq()[i as int],
            self@.contains_key(k@),
    {
        proof {
            use_type_invariant(self);
            self.lemma_view_facts();
        }
        string_of(self.keys[i].as_slice())
    }

    /// The value at position `i`.
    pub fn value_at(&self, i: usize) -> (v: &V)
        requires
            i < self.key_seq().len(),
        ensures
            v@ == self.val_seq()[i as int],
            self@[self.key_seq()[i as int]] == v@,
    {
        proof {
            use_type_invariant(self);
            self.lemma_view_facts();
            assert(self.val_seq()[i as int] == self.vals@[i as int]@);
            assert(self@.contains_key(self.key_seq()[i as int]));
        }
        &self.vals[i]
    }

    /// Puts `v` at position `i` and gives back the value that was there.
    pub fn replace_value(&mut self, i: usize, v: V) -> (old_v: V)
        requires
            i < old(self).key_seq().len(),
        ensures
            old_v@ == old(self).val_seq()[i as int],
            final(self).key_seq() == old(self).key_seq(),
            final(self).val_seq() == old(self).val_seq().update(i as int, v@),
            final(self)@ == old(self)@.insert(old(self).key_seq()[i as int], v@),
    {
        proof {
            use_type_invariant(&*self);
        }
        let ghost old_map = self@;
        let ghost ks = self.key_seq();
        let ghost vs = self.vals@;
        let ghost vv = v@;
        let mut slot = v;
        let mut whole = StrMap::new();
        std::mem::swap(self, &mut whole);
        let StrMap { keys, mut vals } = whole;
        vals.set_and_swap(i, &mut slot);
        *self = StrMap { keys, vals };
        let old_v = slot;
        proof {
            use_type_invariant(&*self);
            self.lemma_view_facts();
            assert(self.val_seq() =~= old(self).val_seq().update(i as int, vv));
            assert(self.key_seq() =~= ks);
            assert(self@ =~= old_map.insert(ks[i as int], vv)) by {
                assert forall|k: Seq<char>| #[trigger] self@.contains_key(k) == old_map.insert(ks[i as int], vv).contains_key(k) by {
                    if old_map.contains_key(k) { old(self).lemma_view_facts(); }
                }
                assert forall|k: Seq<char>| self@.contains_key(k) implies #[trigger] self@[k] == old_map.insert(ks[i as int], vv)[k] by {
                    let j = choose|j: int| 0 <= j < self.key_seq().len() && self.key_seq()[j] == k;
                    old(self).lemma_view_facts();
                    if j != i {
                        assert(ks[j] == k);
                        assert(old_map.contains_key(ks[j]));
                        assert(old_map[k] == old(self).val_seq()[j]);
                        if k == ks[i as int] {
                            self.lemma_unique(i as int, j);
                        }
                    }
                }
            }
        }
        old_v
    }

    /// Sets key `k` to `v`, replacing any earlier value (`HashMap::insert`).
    pub fn insert(&mut self, k: String, v: V)
        ensures
            final(self)@ == old(self)@.insert(k@, v@),
    {
        let kc = chars_of(k.as_str());
        self.insert_chars(kc, v);
    }

    /// Sets key `k` to `v`, replacing any earlier value.
    pub fn insert_chars(&mut self, kc: Vec<char>, v: V)
        ensures
            final(self)@ == old(self)@.insert(kc@, v@),
    {
        let (i, found) = self.search(kc.as_slice());
        if found {
            self.replace_value(i, v);
        } else {
            proof {
                use_type_invariant(&*self);
                self.lemma_view_facts();
            }
            let ghost old_map = self@;
            let ghost ks = self.key_seq();
            let ghost vs = self.val_seq();
            let ghost k = kc@;
            let mut whole = StrMap::new();
            std::mem::swap(self, &mut whole);
            let StrMap { mut keys, mut vals } = whole;
            proof {
                assert(keys@.map_values(|c: Vec<char>| c@) == ks);
                assert(vals@.map_values(|c: V| c@) == vs);
            }
            keys.insert(i, kc);
            vals.insert(i, v);
            let ghost nks = keys@.map_values(|c: Vec<char>| c@);
            proof {
                assert(nks =~= ks.insert(i as int, k));
                assert forall|a: int, b: int| 0 <= a < b < keys@.len() implies lex_lt(#[trigger] keys@[a]@, #[trigger] keys@[b]@) by {
                    assert(keys@[a]@ == nks[a]);
                    assert(keys@[b]@ == nks[b]);
                    if a < i && b == i {
                    } else if a == i && b > i {
                        lemma_lex_total(ks[b - 1], k);
                    } else if a < i && b > i {
                        lemma_lex_total(ks[b - 1], k);
                        lemma_lex_transitive(ks[a], k, ks[b - 1]);
                    } else if b < i {
                    } else {
                        assert(lex_lt(ks[a - 1], ks[b - 1]));
                    }
                }
            }
            *self = StrMap { keys, vals };
            proof {
                self.lemma_view_facts();
                assert(self.key_seq() =~= ks.insert(i as int, k));
                assert(self.val_seq() =~= vs.insert(i as int, v@));
                assert(self@ =~= old_map.insert(k, v@)) by {
                    assert forall|x: Seq<char>| #[trigger] self@.contains_key(x) == old_map.insert(k, v@).contains_key(x) by {
                        if self@.contains_key(x) {
                            let j = choose|j: int| 0 <= j < self.key_seq().len() && self.key_seq()[j] == x;
                            if j < i { assert(self.key_seq()[j] == ks[j]); assert(old_map.contains_key(ks[j])); }
                            else if j > i { assert(self.key_seq()[j] == ks[j - 1]); assert(old_map.contains_key(ks[j - 1])); }
                        }
                        if x == k {
                            assert(self.key_seq()[i as int] == k);
                            assert(self@.contains_key(self.key_seq()[i as int]));
                        }
                        if old_map.contains_key(x) {
                            let j = choose|j: int| 0 <= j < ks.len() && ks[j] == x;
                            if j < i { assert(self.key_seq()[j] == x); assert(self@.contains_key(self.key_seq()[j])); }
                            else { assert(self.key_seq()[j + 1] == x); assert(self@.contains_key(self.key_seq()[j + 1])); }
                        }
                    }
                    assert forall|x: Seq<char>| self@.contains_key(x) implies #[trigger] self@[x] == old_map.insert(k, v@)[x] by {
                        let j = choose|j: int| 0 <= j < self.key_seq().len() && self.key_seq()[j] == x;
                        if j < i {
                            assert(self.key_seq()[j] == ks[j]);
                            assert(self.val_seq()[j] == vs[j]);
                            assert(old_map.contains_key(ks[j]));
                            assert(old_map[ks[j]] == vs[j]);
                            if x == k { lemma_lex_irreflexive(k); }
                        } else if j > i {
                            assert(self.key_seq()[j] == ks[j - 1]);
                            assert(self.val_seq()[j] == vs[j - 1]);
                            assert(old_map.contains_key(ks[j - 1]));
                            assert(old_map[ks[j - 1]] == vs[j - 1]);
                            if x == k { lemma_lex_irreflexive(k); }
                        }
                    }
                }
            }
        }
    }

    /// Sets key `k` to `v` unless `k` is present (`entry(k).or_insert(v)`).
    pub fn insert_if_absent(&mut self, k: String, v: V)
        ensures
            old(self)@.contains_key(k@) ==> final(self)@ == old(self)@,
            !old(self)@.contains_key(k@) ==> final(self)@ == old(self)@.insert(k@, v@),
    {
        let kc = chars_of(k.as_str());
        if self.index_of(kc.as_slice()).is_none() {
            self.insert_chars(kc, v);
        }
    }
}

impl<V: View> StrMap<V> {
    /// The keys and values, position by position, in increasing key order.
    pub fn into_parts(self) -> (r: (Vec<String>, Vec<V>))
        ensures
            r.0@.len() == self.key_seq().len(),
            r.1@.len() == self.key_seq().len(),
            forall|i: int| 0 <= i < r.0@.len() ==> (#[trigger] r.0@[i])@ == self.key_seq()[i],
            forall|i: int| 0 <= i < r.1@.len() ==> (#[trigger] r.1@[i])@ == self.val_seq()[i],
    {
        proof {
            use_type_invariant(&self);
        }
        let ghost ks = self.key_seq();
        let ghost vs = self.val_seq();
        let StrMap { keys, vals } = self;
        let mut names: Vec<String> = Vec::new();
        let mut i: usize = 0;
        while i < keys.len()
            invariant
                i <= keys@.len(),
                ks == keys@.map_values(|k: Vec<char>| k@),
                names@.len() == i,
                forall|j: int| 0 <= j < i ==> (#[trigger] names@[j])@ == ks[j],
            decreases keys.len() - i,
        {
            names.push(string_of(keys[i].as_slice()));
            i += 1;
        }
        proof {
            assert forall|j: int| 0 <= j < vals@.len() implies (#[trigger] vals@[j])@ == vs[j] by {}
        }
        (names, vals)
    }
}

impl<V: View> StrMap<V> {
    /// Adds every entry of `other` whose key is not present yet (`entry(k).or_insert(v)`
    /// for each entry).
    pub fn merge_absent(&mut self, other: StrMap<V>)
        ensures
            final(self)@ == other@.union_prefer_right(old(self)@),
    {
        proof {
            use_type_invariant(&other);
            other.lemma_view_facts();
        }
        let ghost om = other@;
        let ghost ks = other.key_seq();
        let ghost vs = other.val_seq();
        let ghost start = self@;
        proof {
            assert forall|a: int, b: int| 0 <= a < b < ks.len() implies ks[a] != ks[b] by {
                lemma_lex_irreflexive(ks[a]);
            }
        }
        let (names, mut vals) = other.into_parts();
        let n = names.len();
        let mut i: usize = n;
        // Entries are taken from the back; the keys are distinct so the order is free.
        while i > 0
            invariant
                i <= n,
                n == names@.len(),
                vals@.len() == i,
                forall|j: int| 0 <= j < n ==> (#[trigger] names@[j])@ == ks[j],
                forall|j: int| 0 <= j < i ==> (#[trigger] vals@[j])@ == vs[j],
                ks.len() == n,
                vs.len() == n,
                forall|j: int| 0 <= j < n ==> #[trigger] om.contains_key(ks[j]) && om[ks[j]] == vs[j],
                forall|k: Seq<char>| #[trigger] om.contains_key(k) ==> exists|j: int| 0 <= j < n && ks[j] == k,
                forall|a: int, b: int| 0 <= a < b < n ==> ks[a] != ks[b],
                self@ == Map::new(
                    |k: Seq<char>| start.contains_key(k) || exists|j: int| i <= j < n && ks[j] == k,
                    |k: Seq<char>| if start.contains_key(k) { start[k] } else { om[k] },
                ),
            decreases i,
        {
            let v = vals.pop().unwrap();
            let k = names[i - 1].clone();
            proof {
                assert(v@ == vs[i - 1]);
                assert(k@ == ks[i - 1]);
                assert(om.contains_key(ks[i - 1]));
            }
            let ghost before = self@;
            self.insert_if_absent(k, v);
            proof {
                let kk = ks[i - 1];
                assert(self@ =~= Map::new(
                    |k: Seq<char>| start.contains_key(k) || exists|j: int| i - 1 <= j < n && ks[j] == k,
                    |k: Seq<char>| if start.contains_key(k) { start[k] } else { om[k] },
                )) by {
                    assert forall|x: Seq<char>| #[trigger] self@.contains_key(x) == (start.contains_key(x) || exists|j: int| i - 1 <= j < n && ks[j] == x) by {
                        if x != kk && (exists|j: int| i - 1 <= j < n && ks[j] == x) {
                            let j = choose|j: int| i - 1 <= j < n && ks[j] == x;
                            assert(i <= j);
                        }
                    }
                    assert forall|x: Seq<char>| self@.contains_key(x) implies #[trigger] self@[x] == (if start.contains_key(x) { start[x] } else { om[x] }) by {
                        if x == kk && !before.contains_key(x) {
                            assert(om[ks[i - 1]] == vs[i - 1]);
                        }
                    }
                }
            }
            i -= 1;
        }
        proof {
            assert(self@ =~= om.union_prefer_right(start)) by {
                assert forall|x: Seq<char>| #[trigger] self@.contains_key(x) == om.union_prefer_right(start).contains_key(x) by {
                    if om.contains_key(x) {
                        let j = choose|j: int| 0 <= j < n && ks[j] == x;
                    }
                }
            }
        }
    }
}

impl<V: View> StrMap<V> {
    /// Sets every entry of `other`, replacing earlier values (`HashMap::extend`).
    pub fn extend(&mut self, other: StrMap<V>)
        ensures
            final(self)@ == old(self)@.union_prefer_right(other@),
    {
        proof {
            use_type_invariant(&other);
            other.lemma_view_facts();
        }
        let ghost om = other@;
        let ghost ks = other.key_seq();
        let ghost vs = other.val_seq();
        let ghost start = self@;
        proof {
            assert forall|a: int, b: int| 0 <= a < b < ks.len() implies ks[a] != ks[b] by {
                lemma_lex_irreflexive(ks[a]);
            }
        }
        let (names, mut vals) = other.into_parts();
        let n = names.len();
        let mut i: usize = n;
        // Entries are taken from the back; the keys are distinct so the order is free.
        while i > 0
            invariant
                i <= n,
                n == names@.len(),
                vals@.len() == i,
                forall|j: int| 0 <= j < n ==> (#[trigger] names@[j])@ == ks[j],
                forall|j: int| 0 <= j < i ==> (#[trigger] vals@[j])@ == vs[j],
                ks.len() == n,
                vs.len() == n,
                forall|j: int| 0 <= j < n ==> #[trigger] om.contains_key(ks[j]) && om[ks[j]] == vs[j],
                forall|k: Seq<char>| #[trigger] om.contains_key(k) ==> exists|j: int| 0 <= j < n && ks[j] == k,
                forall|a: int, b: int| 0 <= a < b < n ==> ks[a] != ks[b],
                self@ == Map::new(
                    |k: Seq<char>| start.contains_key(k) || exists|j: int| i <= j < n && ks[j] == k,
                    |k: Seq<char>| if exists|j: int| i <= j < n && ks[j] == k { om[k] } else { start[k] },
                ),
            decreases i,
        {
            let v = vals.pop().unwrap();
            let k = names[i - 1].clone();
            proof {
                assert(v@ == vs[i - 1]);
                assert(k@ == ks[i - 1]);
                assert(om.contains_key(ks[i - 1]));
            }
            let ghost before = self@;
            self.insert(k, v);
            proof {
                let kk = ks[i - 1];
                assert(self@ =~= Map::new(
                    |k: Seq<char>| start.contains_key(k) || exists|j: int| i - 1 <= j < n && ks[j] == k,
                    |k: Seq<char>| if exists|j: int| i - 1 <= j < n && ks[j] == k { om[k] } else { start[k] },
                )) by {
                    assert forall|x: Seq<char>| #[trigger] self@.contains_key(x) == (start.contains_key(x) || exists|j: int| i - 1 <= j < n && ks[j] == x) by {
                        if x != kk && (exists|j: int| i - 1 <= j < n && ks[j] == x) {
                            let j = choose|j: int| i - 1 <= j < n && ks[j] == x;
                            assert(i <= j);
                        }
                        if x == kk {
                            assert(ks[i - 1] == x);
                        }
                    }
                    assert forall|x: Seq<char>| self@.contains_key(x) implies #[trigger] self@[x] == (if exists|j: int| i - 1 <= j < n && ks[j] == x { om[x] } else { start[x] }) by {
                        if x == kk {
                            assert(ks[i - 1] == x);
                            assert(om[ks[i - 1]] == vs[i - 1]);
                        } else if exists|j: int| i - 1 <= j < n && ks[j] == x {
                            let j = choose|j: int| i - 1 <= j < n && ks[j] == x;
                            assert(i <= j);
                        }
                    }
                }
            }
            i -= 1;
        }
        proof {
            assert(self@ =~= start.union_prefer_right(om)) by {
                assert forall|x: Seq<char>| #[trigger] self@.contains_key(x) == start.union_prefer_right(om).contains_key(x) by {
                    if om.contains_key(x) {
                        let j = choose|j: int| 0 <= j < n && ks[j] == x;
                    }
                }
                assert forall|x: Seq<char>| self@.contains_key(x) implies #[trigger] self@[x] == start.union_prefer_right(om)[x] by {
                    if om.contains_key(x) {
                        let j = choose|j: int| 0 <= j < n && ks[j] == x;
                    }
                }
            }
        }
    }
}

} // verus!
