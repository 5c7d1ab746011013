//! A map keyed by names that keeps its entries in insertion order.
use vstd::prelude::*;

verus! {

/// A value that can be duplicated with the same view.
pub trait Duplicate: View + Sized {
    fn duplicate(&self) -> (r: Self)
        ensures
            r@ == self@,
    ;
}

impl Duplicate for u32 {
    fn duplicate(&self) -> (r: u32) {
        *self
    }
}

impl Duplicate for i64 {
    fn duplicate(&self) -> (r: i64) {
        *self
    }
}

impl Duplicate for String {
    fn duplicate(&self) -> (r: String) {
        self.clone()
    }
}

impl Duplicate for Vec<i64> {
    fn duplicate(&self) -> (r: Vec<i64>) {
        let r = self.clone();
        assert(r@ =~= self@);
        r
    }
}

/// Map from names to values. A lookup finds the first entry of a name; an
/// insertion replaces the value of a name that is there and appends otherwise.
pub struct NameMap<V: View> {
    list: Vec<(String, V)>,
}

/// The position of the first entry for `k`, or the number of entries.
pub open spec fn key_pos<T>(e: Seq<(Seq<char>, T)>, k: Seq<char>) -> int
    decreases e.len(),
{
    if e.len() == 0 || e[0].0 == k {
        0
    } else {
        1 + key_pos(e.drop_first(), k)
    }
}

/// The map a list of entries stands for: the first entry of a name counts.
pub open spec fn map_of<T>(e: Seq<(Seq<char>, T)>) -> Map<Seq<char>, T>
    decreases e.len(),
{
    if e.len() == 0 {
        Map::empty()
    } else {
        map_of(e.drop_first()).insert(e[0].0, e[0].1)
    }
}

/// `e` with the value of `k` replaced, or with an entry for `k` appended.
pub open spec fn upsert<T>(e: Seq<(Seq<char>, T)>, k: Seq<char>, v: T) -> Seq<(Seq<char>, T)> {
    if key_pos(e, k) < e.len() {
        e.update(key_pos(e, k), (k, v))
    } else {
        e.push((k, v))
    }
}

pub open spec fn distinct_keys<T>(e: Seq<(Seq<char>, T)>) -> bool {
    forall|i: int, j: int| 0 <= i < j < e.len() ==> (#[trigger] e[i]).0 != (#[trigger] e[j]).0
}

pub proof fn lemma_key_pos<T>(e: Seq<(Seq<char>, T)>, k: Seq<char>, n: int)
    requires
        0 <= n <= e.len(),
        forall|i: int| 0 <= i < n ==> (#[trigger] e[i]).0 != k,
        n == e.len() || e[n].0 == k,
    ensures
        key_pos(e, k) == n,
    decreases e.len(),
{
    if n > 0 {
        let t = e.drop_first();
        assert forall|i: int| 0 <= i < n - 1 implies (#[trigger] t[i]).0 != k by {
            assert(t[i] == e[i + 1]);
        }
        lemma_key_pos(t, k, n - 1);
    }
}

pub proof fn lemma_key_pos_range<T>(e: Seq<(Seq<char>, T)>, k: Seq<char>)
    ensures
        0 <= key_pos(e, k) <= e.len(),
        key_pos(e, k) < e.len() ==> e[key_pos(e, k)].0 == k,
        forall|i: int| 0 <= i < key_pos(e, k) ==> (#[trigger] e[i]).0 != k,
    decreases e.len(),
{
    if e.len() > 0 && e[0].0 != k {
        lemma_key_pos_range(e.drop_first(), k);
        let p = key_pos(e, k);
        assert forall|i: int| 0 <= i < p implies (#[trigger] e[i]).0 != k by {
            if i > 0 {
                assert(e.drop_first()[i - 1] == e[i]);
            }
        }
    }
}

pub proof fn lemma_map_of<T>(e: Seq<(Seq<char>, T)>, k: Seq<char>)
    ensures
        map_of(e).contains_key(k) <==> key_pos(e, k) < e.len(),
        key_pos(e, k) < e.len() ==> map_of(e)[k] == e[key_pos(e, k)].1,
    decreases e.len(),
{
    if e.len() > 0 && e[0].0 != k {
        lemma_map_of(e.drop_first(), k);
        lemma_key_pos_range(e.drop_first(), k);
    }
}

proof fn lemma_upsert<T>(e: Seq<(Seq<char>, T)>, k: Seq<char>, v: T)
    ensures
        map_of(upsert(e, k, v)) == map_of(e).insert(k, v),
        distinct_keys(e) ==> distinct_keys(upsert(e, k, v)),
    decreases e.len(),
{
    let u = upsert(e, k, v);
    lemma_key_pos_range(e, k);
    if e.len() == 0 {
        assert(u.drop_first() =~= e);
        assert(map_of(u) =~= map_of(e).insert(k, v));
    } else if e[0].0 == k {
        assert(u.drop_first() =~= e.drop_first());
        assert(map_of(u) =~= map_of(e).insert(k, v));
    } else {
        lemma_upsert(e.drop_first(), k, v);
        assert(u.drop_first() =~= upsert(e.drop_first(), k, v));
        assert(map_of(u) =~= map_of(e).insert(k, v));
    }
}

impl<V: View> NameMap<V> {
    /// The entries in the order of insertion.
    pub closed spec fn entries(self) -> Seq<(Seq<char>, V::V)> {
        Seq::new(self.list@.len(), |i: int| (self.list@[i].0@, self.list@[i].1@))
    }

    /// No name occurs twice.
    #[verifier::type_invariant]
    spec fn inv(self) -> bool {
        distinct_keys(self.entries())
    }

    pub fn new() -> (r: Self)
        ensures
            r.entries().len() == 0,
            r@ == Map::<Seq<char>, V::V>::empty(),
    {
        let r = NameMap { list: Vec::new() };
        assert(r.entries() =~= Seq::empty());
        r
    }

    /// The number of entries, no two of which have the same name.
    pub fn len(&self) -> (r: usize)
        ensures
            r == self.entries().len(),
            distinct_keys(self.entries()),
    {
        proof {
            use_type_invariant(self);
        }
        self.list.len()
    }

    pub fn is_empty(&self) -> (r: bool)
        ensures
            r == (self.entries().len() == 0),
            r == (self@ == Map::<Seq<char>, V::V>::empty()),
    {
        proof {
            if self.entries().len() > 0 {
                lemma_map_of(self.entries(), self.entries()[0].0);
            }
        }
        self.list.len() == 0
    }

    /// The name of the entry at `i`.
    pub fn key(&self, i: usize) -> (r: &String)
        requires
            i < self.entries().len(),
        ensures
            r@ == self.entries()[i as int].0,
    {
        &self.list[i].0
    }

    /// The value of the entry at `i`.
    pub fn value(&self, i: usize) -> (r: &V)
        requires
            i < self.entries().len(),
        ensures
            r@ == self.entries()[i as int].1,
    {
        &self.list[i].1
    }

    fn position(&self, name: &String) -> (r: usize)
        ensures
            r == key_pos(self.entries(), name@),
            r <= self.list@.len(),
    {
        let mut i: usize = 0;
        while i < self.list.len()
            invariant
                i <= self.list@.len(),
                forall|k: int| 0 <= k < i ==> (#[trigger] self.entries()[k]).0 != name@,
            decreases self.list@.len() - i,
        {
            if self.list[i].0 == *name {
                proof {
                    lemma_key_pos(self.entries(), name@, i as int);
                }
                return i;
            }
            i = i + 1;
        }
        proof {
            lemma_key_pos(self.entries(), name@, i as int);
        }
        i
    }

    /// The value of a name.
    pub fn get(&self, name: &String) -> (r: Option<&V>)
        ensures
            r matches Some(v) ==> self@.contains_key(name@) && v@ == self@[name@],
            r is None ==> !self@.contains_key(name@),
    {
        let p: usize = self.position(name);
        proof {
            lemma_map_of(self.entries(), name@);
        }
        if p < self.list.len() {
            Some(&self.list[p].1)
        } else {
            None
        }
    }

    pub fn contains_key(&self, name: &String) -> (r: bool)
        ensures
            r == self@.contains_key(name@),
    {
        self.get(name).is_some()
    }

    /// Sets the value of a name.
    pub fn insert(&mut self, name: String, value: V)
        ensures
            final(self)@ == old(self)@.insert(name@, value@),
            final(self).entries() == upsert(old(self).entries(), name@, value@),
    {
        proof {
            use_type_invariant(&*self);
        }
        let p: usize = self.position(&name);
        let ghost start = self.entries();
        let ghost k = name@;
        let ghost v = value@;
        let mut list: Vec<(String, V)> = Vec::new();
        std::mem::swap(&mut list, &mut self.list);
        if p < list.len() {
            list[p] = (name, value);
        } else {
            list.push((name, value));
        }
        proof {
            let now = Seq::new(list@.len(), |i: int| (list@[i].0@, list@[i].1@));
            assert(now =~= upsert(start, k, v));
            lemma_upsert(start, k, v);
        }
        self.list = list;
        assert(self.entries() =~= upsert(start, k, v));
    }

    /// Sets the value of a name that has none.
    pub fn insert_new(&mut self, name: String, value: V)
        ensures
            final(self)@ == (if old(self)@.contains_key(name@) {
                old(self)@
            } else {
                old(self)@.insert(name@, value@)
            }),
            old(self)@.contains_key(name@) ==> final(self).entries() == old(self).entries(),
            !old(self)@.contains_key(name@) ==> final(self).entries() == upsert(
                old(self).entries(),
                name@,
                value@,
            ),
    {
        if !self.contains_key(&name) {
            self.insert(name, value);
        }
    }
}

impl<V: Duplicate> NameMap<V> {
    /// A map with the same entries.
    pub fn copy(&self) -> (r: Self)
        ensures
            r@ == self@,
            r.entries() == self.entries(),
    {
        let mut list: Vec<(String, V)> = Vec::new();
        let mut i: usize = 0;
        while i < self.list.len()
            invariant
                i <= self.list@.len(),
                list@.len() == i,
                forall|k: int|
                    0 <= k < i ==> (#[trigger] list@[k]).0@ == self.list@[k].0@ && list@[k].1@
                        == self.list@[k].1@,
            decreases self.list@.len() - i,
        {
            list.push((self.list[i].0.clone(), self.list[i].1.duplicate()));
            i = i + 1;
        }
        proof {
            use_type_invariant(self);
            let now = Seq::new(list@.len(), |i: int| (list@[i].0@, list@[i].1@));
            assert(now =~= self.entries());
        }
        let r = NameMap { list };
        assert(r.entries() =~= self.entries());
        r
    }
}

impl<V: View> View for NameMap<V> {
    type V = Map<Seq<char>, V::V>;

    open spec fn view(&self) -> Map<Seq<char>, V::V> {
        map_of(self.entries())
    }
}

} // verus!
