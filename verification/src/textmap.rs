//! A map from text to values, kept in the order of its keys.

use vstd::prelude::*;

use crate::text::{chars_of, same_text};

verus! {

broadcast use vstd::seq::group_seq_axioms;

// ---------------------------------------------------------------------------
// Order of texts
// ---------------------------------------------------------------------------

/// `a` stands before `b` in the order of their characters.
pub open spec fn text_lt(a: Seq<char>, b: Seq<char>) -> bool
    decreases a.len(),
{
    if b.len() == 0 {
        false
    } else if a.len() == 0 {
        true
    } else if a[0] != b[0] {
        a[0] < b[0]
    } else {
        text_lt(a.drop_first(), b.drop_first())
    }
}

/// The order is strict and total.
pub proof fn lemma_text_lt_total(a: Seq<char>, b: Seq<char>)
    ensures
        text_lt(a, b) ==> !text_lt(b, a) && a != b,
        !text_lt(a, b) && !text_lt(b, a) ==> a == b,
    decreases a.len(),
{
    if a.len() > 0 && b.len() > 0 {
        lemma_text_lt_total(a.drop_first(), b.drop_first());
        if a[0] == b[0] && a.drop_first() == b.drop_first() {
            assert(a =~= seq![a[0]] + a.drop_first());
            assert(b =~= seq![b[0]] + b.drop_first());
        }
    } else if a.len() == 0 && b.len() == 0 {
        assert(a =~= b);
    }
}

/// The order is transitive.
pub proof fn lemma_text_lt_transitive(a: Seq<char>, b: Seq<char>, c: Seq<char>)
    requires
        text_lt(a, b),
        text_lt(b, c),
    ensures
        text_lt(a, c),
    decreases a.len(),
{
    if a.len() > 0 && a[0] == b[0] && b[0] == c[0] {
        lemma_text_lt_transitive(a.drop_first(), b.drop_first(), c.drop_first());
    }
}

/// The order is that of a dictionary: what two texts start with in common does
/// not count, then the first character in which they differ decides, and a text
/// stands before every longer one that it starts.
pub proof fn law_order_is_that_of_a_dictionary(
    common: Seq<char>,
    x: char,
    a: Seq<char>,
    y: char,
    b: Seq<char>,
)
    ensures
        x < y ==> text_lt(common + seq![x] + a, common + seq![y] + b),
        text_lt(common, common + seq![y] + b),
    decreases common.len(),
{
    let p = common + seq![x] + a;
    let q = common + seq![y] + b;
    if common.len() == 0 {
        assert(p[0] == x && q[0] == y);
    } else {
        let rest = common.drop_first();
        law_order_is_that_of_a_dictionary(rest, x, a, y, b);
        assert(p.drop_first() =~= rest + seq![x] + a);
        assert(q.drop_first() =~= rest + seq![y] + b);
        assert(p[0] == common[0] && q[0] == common[0]);
    }
}

/// Whether `a` stands before `b`.
pub fn precedes(a: &str, b: &str) -> (r: bool)
    ensures
        r == text_lt(a@, b@),
{
    let x = chars_of(a);
    let y = chars_of(b);
    let mut i: usize = 0;
    proof {
        assert(x@.skip(0) =~= x@);
        assert(y@.skip(0) =~= y@);
    }
    loop
        invariant
            x@ == a@,
            y@ == b@,
            i <= x.len(),
            i <= y.len(),
            text_lt(x@.skip(i as int), y@.skip(i as int)) == text_lt(a@, b@),
        decreases x.len() - i,
    {
        if i == y.len() {
            return false;
        }
        if i == x.len() {
            return true;
        }
        if x[i] != y[i] {
            return x[i] < y[i];
        }
        proof {
            assert(x@.skip(i as int).drop_first() =~= x@.skip(i + 1));
            assert(y@.skip(i as int).drop_first() =~= y@.skip(i + 1));
        }
        i += 1;
    }
}

// ---------------------------------------------------------------------------
// The map
// ---------------------------------------------------------------------------

/// The keys stand in strictly rising order.
pub open spec fn sorted<V>(e: Seq<(Seq<char>, V)>) -> bool {
    forall|i: int, j: int| 0 <= i < j < e.len() ==> text_lt(#[trigger] e[i].0, #[trigger] e[j].0)
}

/// `key` is the key of some entry.
pub open spec fn has_key<V>(e: Seq<(Seq<char>, V)>, key: Seq<char>) -> bool {
    exists|i: int| 0 <= i < e.len() && #[trigger] e[i].0 == key
}

/// The value that stands under a key.
pub open spec fn value_of<V>(e: Seq<(Seq<char>, V)>, key: Seq<char>) -> V {
    e[choose|i: int| 0 <= i < e.len() && #[trigger] e[i].0 == key].1
}

/// A map from text to values whose entries are walked in the order of their
/// keys.
pub struct TextMap<V> {
    entries: Vec<(String, V)>,
}

impl<V> View for TextMap<V> {
    type V = Map<Seq<char>, V>;

    open spec fn view(&self) -> Map<Seq<char>, V> {
        Map::new(
            |key: Seq<char>| has_key(self.entries(), key),
            |key: Seq<char>| value_of(self.entries(), key),
        )
    }
}

impl<V> TextMap<V> {
    /// The entries in the order of their keys.
    pub closed spec fn entries(&self) -> Seq<(Seq<char>, V)> {
        self.entries@.map_values(|e: (String, V)| (e.0@, e.1))
    }

    #[verifier::type_invariant]
    spec fn inv(&self) -> bool {
        sorted(self.entries@.map_values(|e: (String, V)| (e.0@, e.1)))
    }

    /// The empty map.
    pub fn new() -> (r: Self)
        ensures
            r.entries() == Seq::<(Seq<char>, V)>::empty(),
            r@ == Map::<Seq<char>, V>::empty(),
    {
        let r = TextMap { entries: Vec::new() };
        proof {
            assert(r.entries() =~= Seq::<(Seq<char>, V)>::empty());
            assert(r@ =~= Map::<Seq<char>, V>::empty());
        }
        r
    }

    /// A map has finitely many keys.
    pub proof fn lemma_finite(&self)
        ensures
            self@.dom().finite(),
    {
        let keys = self.entries().map_values(|e: (Seq<char>, V)| e.0);
        vstd::seq_lib::seq_to_set_is_finite(keys);
        assert forall|k: Seq<char>| self@.dom().contains(k) implies keys.to_set().contains(k) by {
            let i = choose|i: int|
                0 <= i < self.entries().len() && #[trigger] self.entries()[i].0 == k;
            assert(keys[i] == k);
        }
        vstd::set_lib::lemma_len_subset(self@.dom(), keys.to_set());
    }

    /// The number of entries.
    pub fn len(&self) -> (r: usize)
        ensures
            r == self.entries().len(),
            sorted(self.entries()),
    {
        proof {
            use_type_invariant(self);
        }
        self.entries.len()
    }

    /// Whether the map has no entry.
    pub fn is_empty(&self) -> (r: bool)
        ensures
            r == (self.entries().len() == 0),
            r == (self@.dom() == Set::<Seq<char>>::empty()),
    {
        proof {
            if self.entries().len() == 0 {
                assert(self@.dom() =~= Set::<Seq<char>>::empty());
            } else {
                assert(self@.contains_key(self.entries()[0].0));
            }
        }
        self.entries.len() == 0
    }

    /// The key of entry `i`.
    pub fn key_at(&self, i: usize) -> (r: &str)
        requires
            i < self.entries().len(),
        ensures
            r@ == self.entries()[i as int].0,
            sorted(self.entries()),
    {
        proof {
            use_type_invariant(self);
        }
        self.entries[i].0.as_str()
    }

    /// The value of entry `i`.
    pub fn value_at(&self, i: usize) -> (r: &V)
        requires
            i < self.entries().len(),
        ensures
            *r == self.entries()[i as int].1,
            sorted(self.entries()),
    {
        proof {
            use_type_invariant(self);
        }
        &self.entries[i].1
    }

    /// The value under a key.
    pub fn get(&self, key: &str) -> (r: Option<&V>)
        ensures
            match r {
                Some(v) => self@.contains_key(key@) && self@[key@] == *v,
                None => !self@.contains_key(key@),
            },
    {
        proof {
            use_type_invariant(self);
        }
        let mut i: usize = 0;
        while i < self.entries.len()
            invariant
                i <= self.entries.len(),
                sorted(self.entries()),
                forall|j: int| 0 <= j < i ==> (#[trigger] self.entries()[j]).0 != key@,
            decreases self.entries.len() - i,
        {
            if same_text(self.entries[i].0.as_str(), key) {
                proof {
                    lemma_value_of(self.entries(), i as int);
                }
                return Some(&self.entries[i].1);
            }
            i += 1;
        }
        None
    }

    /// Put `value` under `key`, in place of what stood there.
    pub fn insert(&mut self, key: String, value: V)
        ensures
            final(self)@ == old(self)@.insert(key@, value),
    {
        proof {
            use_type_invariant(&*self);
        }
        let mut e: Vec<(String, V)> = Vec::new();
        std::mem::swap(&mut e, &mut self.entries);
        let ghost before = e@.map_values(|e: (String, V)| (e.0@, e.1));
        let mut i: usize = 0;
        while i < e.len() && precedes(e[i].0.as_str(), key.as_str())
            invariant
                i <= e.len(),
                before == e@.map_values(|e: (String, V)| (e.0@, e.1)),
                forall|j: int| 0 <= j < i ==> text_lt((#[trigger] before[j]).0, key@),
            decreases e.len() - i,
        {
            i += 1;
        }
        let found = i < e.len() && same_text(e[i].0.as_str(), key.as_str());
        let ghost k = key@;
        if found {
            let _ = e.remove(i);
        }
        e.insert(i, (key, value));
        proof {
            let after = e@.map_values(|e: (String, V)| (e.0@, e.1));
            if found {
                assert(after =~= before.update(i as int, (k, value)));
            } else {
                assert(after =~= before.insert(i as int, (k, value)));
            }
            lemma_put(before, after, i as int, found, k, value);
        }
        self.entries = e;
    }
}

// ---------------------------------------------------------------------------
// Merging
// ---------------------------------------------------------------------------

/// A value that can be copied with everything that its view shows.
pub trait Duplicate: View + Sized {
    fn duplicate(&self) -> (r: Self)
        ensures
            r@ == self@,
    ;
}

/// The map with every value replaced by its view.
pub open spec fn deep<T: View>(m: Map<Seq<char>, T>) -> Map<Seq<char>, T::V> {
    m.map_values(|v: T| v@)
}

/// The map that a list of entries makes.
pub open spec fn map_of<V>(e: Seq<(Seq<char>, V)>) -> Map<Seq<char>, V> {
    Map::new(|key: Seq<char>| has_key(e, key), |key: Seq<char>| value_of(e, key))
}

/// One more entry puts one more key in place.
proof fn lemma_map_of_next<V>(e: Seq<(Seq<char>, V)>, i: int)
    requires
        sorted(e),
        0 <= i < e.len(),
    ensures
        map_of(e.take(i + 1)) == map_of(e.take(i)).insert(e[i].0, e[i].1),
{
    let short = e.take(i);
    let long = e.take(i + 1);
    assert(sorted(short));
    assert(sorted(long));
    assert forall|k: Seq<char>| map_of(long).contains_key(k) == map_of(short).insert(
        e[i].0,
        e[i].1,
    ).contains_key(k) by {
        if has_key(short, k) {
            let j = choose|j: int| 0 <= j < short.len() && #[trigger] short[j].0 == k;
            assert(long[j].0 == k);
        }
        if has_key(long, k) {
            let j = choose|j: int| 0 <= j < long.len() && #[trigger] long[j].0 == k;
            if j < i {
                assert(short[j].0 == k);
            }
        }
        assert(long[i].0 == e[i].0);
    }
    assert forall|k: Seq<char>| map_of(long).contains_key(k) implies map_of(long)[k] == map_of(
        short,
    ).insert(e[i].0, e[i].1)[k] by {
        let j = choose|j: int| 0 <= j < long.len() && #[trigger] long[j].0 == k;
        lemma_value_of(long, j);
        if j < i {
            assert(short[j] == long[j]);
            lemma_value_of(short, j);
            lemma_text_lt_total(e[j].0, e[i].0);
            assert(text_lt(e[j].0, e[i].0));
        } else {
            assert(long[i] == e[i]);
        }
    }
    assert(map_of(long) =~= map_of(short).insert(e[i].0, e[i].1));
}

impl<V: Duplicate> TextMap<V> {
    /// Put a copy of every entry of `from` in place.
    pub fn put_all(&mut self, from: &TextMap<V>)
        ensures
            deep(final(self)@) == deep(old(self)@).union_prefer_right(deep(from@)),
    {
        proof {
            use_type_invariant(from);
        }
        let ghost e = from.entries();
        let n: usize = from.len();
        let mut i: usize = 0;
        proof {
            assert(map_of(e.take(0)) =~= Map::<Seq<char>, V>::empty());
            assert(deep(self@) =~= deep(old(self)@).union_prefer_right(deep(map_of(e.take(0)))));
        }
        while i < n
            invariant
                n == e.len(),
                e == from.entries(),
                sorted(e),
                i <= n,
                deep(self@) == deep(old(self)@).union_prefer_right(deep(map_of(e.take(i as int)))),
            decreases n - i,
        {
            let ghost before = self@;
            let key = from.key_at(i).to_string();
            let value = from.value_at(i).duplicate();
            let ghost k = key@;
            let ghost v = value;
            self.insert(key, value);
            proof {
                lemma_map_of_next(e, i as int);
                let short = map_of(e.take(i as int));
                assert(deep(before.insert(k, v)) =~= deep(before).insert(k, v@));
                assert(deep(short.insert(k, e[i as int].1)) =~= deep(short).insert(k, v@));
                assert(deep(old(self)@).union_prefer_right(deep(short)).insert(k, v@)
                    =~= deep(old(self)@).union_prefer_right(deep(short).insert(k, v@)));
            }
            i += 1;
        }
        proof {
            assert(e.take(e.len() as int) =~= e);
            assert(map_of(e) =~= from@);
        }
    }

    /// The entries of both maps; where both have a key, that of `top`.
    pub fn merged(base: &TextMap<V>, top: &TextMap<V>) -> (r: TextMap<V>)
        ensures
            deep(r@) == deep(base@).union_prefer_right(deep(top@)),
    {
        let mut out: TextMap<V> = TextMap::new();
        out.put_all(base);
        proof {
            assert(deep(out@) =~= deep(base@));
        }
        out.put_all(top);
        out
    }
}

/// Under distinct keys, entry `i` is the one its key leads to.
pub proof fn lemma_value_of<V>(e: Seq<(Seq<char>, V)>, i: int)
    requires
        sorted(e),
        0 <= i < e.len(),
    ensures
        has_key(e, e[i].0),
        value_of(e, e[i].0) == e[i].1,
{
    let k = choose|k: int| 0 <= k < e.len() && #[trigger] e[k].0 == e[i].0;
    if k < i {
        lemma_text_lt_total(e[k].0, e[i].0);
    } else if i < k {
        lemma_text_lt_total(e[i].0, e[k].0);
    }
}

/// Putting an entry at its place keeps the order and changes one key only.
proof fn lemma_put<V>(
    before: Seq<(Seq<char>, V)>,
    after: Seq<(Seq<char>, V)>,
    i: int,
    found: bool,
    key: Seq<char>,
    value: V,
)
    requires
        sorted(before),
        0 <= i <= before.len(),
        forall|j: int| 0 <= j < i ==> text_lt((#[trigger] before[j]).0, key),
        i < before.len() ==> !text_lt(before[i].0, key),
        found == (i < before.len() && before[i].0 == key),
        found ==> after == before.update(i, (key, value)),
        !found ==> after == before.insert(i, (key, value)),
    ensures
        sorted(after),
        Map::new(|k: Seq<char>| has_key(after, k), |k: Seq<char>| value_of(after, k)) == Map::new(
            |k: Seq<char>| has_key(before, k),
            |k: Seq<char>| value_of(before, k),
        ).insert(key, value),
{
    // An entry of `before` other than the replaced one, and where it went.
    let moved = |j: int| if !found && j >= i { j + 1 } else { j };
    assert forall|j: int| i <= j < before.len() && !(found && j == i) implies text_lt(
        key,
        (#[trigger] before[j]).0,
    ) by {
        lemma_text_lt_total(before[i].0, key);
        if j > i {
            if before[i].0 != key {
                lemma_text_lt_transitive(key, before[i].0, before[j].0);
            }
        }
    }
    assert forall|j: int, k: int| 0 <= j < k < after.len() implies text_lt(
        #[trigger] after[j].0,
        #[trigger] after[k].0,
    ) by {
        let pj = if !found && j > i { j - 1 } else { j };
        let pk = if !found && k > i { k - 1 } else { k };
        if j != i {
            assert(after[j] == before[pj]);
        }
        if k != i {
            assert(after[k] == before[pk]);
        }
    }
    let m0 = Map::new(|k: Seq<char>| has_key(before, k), |k: Seq<char>| value_of(before, k));
    let m1 = Map::new(|k: Seq<char>| has_key(after, k), |k: Seq<char>| value_of(after, k));
    lemma_value_of(after, i);
    assert forall|k: Seq<char>| m1.contains_key(k) == m0.insert(key, value).contains_key(k) by {
        if has_key(before, k) {
            let j = choose|j: int| 0 <= j < before.len() && #[trigger] before[j].0 == k;
            assert(after[moved(j)].0 == k);
        }
        if has_key(after, k) && k != key {
            let j = choose|j: int| 0 <= j < after.len() && #[trigger] after[j].0 == k;
            let pj = if !found && j > i { j - 1 } else { j };
            assert(before[pj].0 == k);
        }
    }
    assert forall|k: Seq<char>| m1.contains_key(k) implies m1[k] == m0.insert(key, value)[k] by {
        if k != key {
            let j = choose|j: int| 0 <= j < before.len() && #[trigger] before[j].0 == k;
            assert(m0.contains_key(k));
            assert(after[moved(j)] == before[j]);
            lemma_value_of(after, moved(j));
            lemma_value_of(before, j);
        }
    }
    assert(m1 =~= m0.insert(key, value));
}

} // verus!
