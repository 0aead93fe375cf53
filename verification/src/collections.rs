//! Finite maps and sets over keys that can be compared for identity.
use vstd::prelude::*;

verus! {

/// What a table can be keyed by.
pub trait Key: Sized {
    /// The mathematical value by which two keys are told apart.
    type Id;

    /// The identity of a key; every verified implementation defines it.
    open spec fn id(&self) -> Self::Id {
        arbitrary()
    }

    /// Whether two keys have the same identity.
    fn same(&self, other: &Self) -> (r: bool)
        ensures
            r == (self.id() == other.id()),
    ;

    /// Another copy of the key.
    fn duplicate(&self) -> (r: Self)
        ensures
            r == *self,
    ;
}

impl Key for String {
    type Id = Seq<char>;

    open spec fn id(&self) -> Seq<char> {
        self@
    }

    fn same(&self, other: &Self) -> (r: bool) {
        *self == *other
    }

    fn duplicate(&self) -> (r: Self) {
        self.clone()
    }
}

impl Key for u128 {
    type Id = u128;

    open spec fn id(&self) -> u128 {
        *self
    }

    fn same(&self, other: &Self) -> (r: bool) {
        *self == *other
    }

    fn duplicate(&self) -> (r: Self) {
        *self
    }
}

impl<A: Key, B: Key> Key for (A, B) {
    type Id = (A::Id, B::Id);

    open spec fn id(&self) -> (A::Id, B::Id) {
        (self.0.id(), self.1.id())
    }

    fn same(&self, other: &Self) -> (r: bool) {
        self.0.same(&other.0) && self.1.same(&other.1)
    }

    fn duplicate(&self) -> (r: Self) {
        (self.0.duplicate(), self.1.duplicate())
    }
}

/// A finite map.
pub struct Table<K, V> {
    keys: Vec<K>,
    values: Vec<V>,
}

impl<K: Key, V> Table<K, V> {
    /// The keys, in the order in which they are held.
    pub closed spec fn items(self) -> Seq<K> {
        self.keys@
    }

    /// The identities of the keys, in the order in which they are held.
    pub open spec fn ids(self) -> Seq<K::Id> {
        ids_of(self.items())
    }

    /// The values, in the order in which they are held.
    pub closed spec fn vals(self) -> Seq<V> {
        self.values@
    }

    /// The map that the table stands for.
    pub open spec fn view(self) -> Map<K::Id, V> {
        Map::new(
            |k: K::Id| self.ids().contains(k),
            |k: K::Id| self.vals()[self.ids().index_of(k)],
        )
    }

    /// One value per key, and no key twice.
    pub open spec fn wf(self) -> bool {
        &&& self.ids().len() == self.vals().len()
        &&& self.ids().no_duplicates()
    }

    /// What the map holds at a position of the order.
    pub proof fn lemma_at(self, i: int)
        requires
            self.wf(),
            0 <= i < self.ids().len(),
        ensures
            self@.contains_key(self.ids()[i]),
            self@[self.ids()[i]] == self.vals()[i],
    {
        assert(self.ids().contains(self.ids()[i]));
        let j = self.ids().index_of(self.ids()[i]);
        assert(self.ids()[j] == self.ids()[i]);
    }

    /// Where a key of the map stands in the order.
    pub proof fn lemma_position(self, k: K::Id) -> (i: int)
        requires
            self.wf(),
            self@.contains_key(k),
        ensures
            0 <= i < self.ids().len(),
            self.ids()[i] == k,
            self.vals()[i] == self@[k],
    {
        let i = self.ids().index_of(k);
        assert(self.ids()[i] == k);
        i
    }

    /// The number of keys.
    pub proof fn lemma_len(self)
        requires
            self.wf(),
        ensures
            self@.dom().finite(),
            self@.len() == self.ids().len(),
    {
        self.ids().unique_seq_to_set();
        assert(self@.dom() =~= self.ids().to_set());
    }

    /// A table without entries.
    pub fn new() -> (r: Self)
        ensures
            r.wf(),
            r.ids().len() == 0,
            r@ == Map::<K::Id, V>::empty(),
    {
        let r = Table { keys: Vec::new(), values: Vec::new() };
        assert(r@ =~= Map::<K::Id, V>::empty());
        r
    }

    /// The number of entries.
    pub fn len(&self) -> (n: usize)
        requires
            self.wf(),
        ensures
            n == self.ids().len(),
            n == self@.len(),
    {
        proof {
            self.lemma_len();
        }
        self.keys.len()
    }

    /// The key at a position of the order.
    pub fn key_at(&self, i: usize) -> (k: &K)
        requires
            self.wf(),
            i < self.ids().len(),
        ensures
            *k == self.items()[i as int],
            k.id() == self.ids()[i as int],
    {
        &self.keys[i]
    }

    /// The value at a position of the order.
    pub fn value_at(&self, i: usize) -> (v: &V)
        requires
            self.wf(),
            i < self.ids().len(),
        ensures
            *v == self.vals()[i as int],
    {
        &self.values[i]
    }

    /// The keys, none of them twice.
    pub fn keys_list(&self) -> (r: Vec<K>)
        requires
            self.wf(),
        ensures
            r@ == self.items(),
            ids_of(r@).no_duplicates(),
            ids_of(r@).to_set() == self@.dom(),
    {
        let mut r: Vec<K> = Vec::new();
        let mut i: usize = 0;
        while i < self.keys.len()
            invariant
                i <= self.keys@.len(),
                r@ =~= self.items().take(i as int),
            decreases self.keys.len() - i,
        {
            let k = self.keys[i].duplicate();
            r.push(k);
            i = i + 1;
        }
        assert(r@ =~= self.items());
        assert(ids_of(r@).to_set() =~= self@.dom());
        r
    }

    /// Where a key stands in the order.
    pub fn position(&self, k: &K) -> (r: Option<usize>)
        requires
            self.wf(),
        ensures
            match r {
                Some(i) => i < self.ids().len() && self.ids()[i as int] == k.id() && self@.contains_key(
                    k.id(),
                ) && self@[k.id()] == self.vals()[i as int],
                None => !self@.contains_key(k.id()),
            },
    {
        let mut i: usize = 0;
        while i < self.keys.len()
            invariant
                self.wf(),
                i <= self.keys@.len(),
                forall|j: int| 0 <= j < i ==> self.ids()[j] != k.id(),
            decreases self.keys.len() - i,
        {
            if self.keys[i].same(k) {
                proof {
                    self.lemma_at(i as int);
                }
                return Some(i);
            }
            i = i + 1;
        }
        None
    }

    /// Whether a key has an entry.
    pub fn contains_key(&self, k: &K) -> (r: bool)
        requires
            self.wf(),
        ensures
            r == self@.contains_key(k.id()),
    {
        self.position(k).is_some()
    }

    /// The value of a key.
    pub fn get(&self, k: &K) -> (r: Option<&V>)
        requires
            self.wf(),
        ensures
            match r {
                Some(v) => self@.contains_key(k.id()) && *v == self@[k.id()],
                None => !self@.contains_key(k.id()),
            },
    {
        match self.position(k) {
            Some(i) => Some(&self.values[i]),
            None => None,
        }
    }

    /// Gives a key a value, in place of the one that it had.
    pub fn insert(&mut self, k: K, v: V) -> (r: Option<V>)
        requires
            old(self).wf(),
        ensures
            final(self).wf(),
            final(self)@ == old(self)@.insert(k.id(), v),
            match r {
                Some(w) => old(self)@.contains_key(k.id()) && w == old(self)@[k.id()],
                None => !old(self)@.contains_key(k.id()),
            },
    {
        let ghost before = *self;
        match self.position(&k) {
            Some(i) => {
                let mut v = v;
                let ghost w = v;
                std::mem::swap(&mut self.values[i], &mut v);
                assert(self.ids() =~= before.ids());
                assert(self.vals() =~= before.vals().update(i as int, w));
                assert(self@ =~= before@.insert(k.id(), w)) by {
                    assert forall|x: K::Id| self.ids().contains(x) implies self@[x] == before@.insert(
                        k.id(),
                        w,
                    )[x] by {
                        let j = self.ids().index_of(x);
                        assert(self.ids()[j] == x);
                    }
                    assert(self.ids().contains(k.id()));
                }
                Some(v)
            },
            None => {
                self.keys.push(k);
                self.values.push(v);
                assert(self.ids() =~= before.ids().push(k.id()));
                assert(!before.ids().contains(k.id()));
                proof {
                    lemma_pushed(before.ids(), before.vals(), k.id(), v);
                }
                assert(self@ =~= before@.insert(k.id(), v));
                None
            },
        }
    }

    /// Takes the entry of a key out.
    pub fn remove(&mut self, k: &K) -> (r: Option<V>)
        requires
            old(self).wf(),
        ensures
            final(self).wf(),
            final(self)@ == old(self)@.remove(k.id()),
            match r {
                Some(w) => old(self)@.contains_key(k.id()) && w == old(self)@[k.id()],
                None => !old(self)@.contains_key(k.id()),
            },
    {
        let ghost before = *self;
        match self.position(k) {
            Some(i) => {
                let _ = self.keys.remove(i);
                let v = self.values.remove(i);
                assert(self.ids() =~= before.ids().remove(i as int));
                assert(self.vals() =~= before.vals().remove(i as int));
                proof {
                    lemma_removed(before.ids(), before.vals(), i as int);
                }
                assert(self@ =~= before@.remove(k.id()));
                Some(v)
            },
            None => {
                assert(self@ =~= before@.remove(k.id()));
                None
            },
        }
    }

    /// Takes some entry out.
    pub fn pop(&mut self) -> (r: Option<(K, V)>)
        requires
            old(self).wf(),
        ensures
            final(self).wf(),
            match r {
                Some((k, v)) => {
                    &&& old(self).ids().len() == final(self).ids().len() + 1
                    &&& old(self)@.contains_key(k.id())
                    &&& old(self)@[k.id()] == v
                    &&& final(self)@ == old(self)@.remove(k.id())
                },
                None => {
                    &&& old(self).ids().len() == 0
                    &&& old(self)@ == Map::<K::Id, V>::empty()
                    &&& *final(self) == *old(self)
                },
            },
    {
        let ghost before = *self;
        let n: usize = self.keys.len();
        if n == 0 {
            assert(before@ =~= Map::<K::Id, V>::empty());
            return None;
        }
        let k = self.keys.remove(n - 1);
        let v = self.values.remove(n - 1);
        assert(self.ids() =~= before.ids().remove(n - 1));
        assert(self.vals() =~= before.vals().remove(n - 1));
        proof {
            before.lemma_at(n - 1);
            lemma_removed(before.ids(), before.vals(), n - 1);
        }
        assert(self@ =~= before@.remove(k.id()));
        Some((k, v))
    }
}

proof fn lemma_pushed<I, V>(ids: Seq<I>, vals: Seq<V>, k: I, v: V)
    requires
        ids.len() == vals.len(),
        ids.no_duplicates(),
        !ids.contains(k),
    ensures
        ids.push(k).no_duplicates(),
        forall|x: I| #[trigger] ids.push(k).contains(x) <==> (x == k || ids.contains(x)),
        forall|x: I|
            #[trigger] ids.push(k).contains(x) ==> vals.push(v)[ids.push(k).index_of(x)] == (if x == k {
                v
            } else {
                vals[ids.index_of(x)]
            }),
{
    let ids2 = ids.push(k);
    assert forall|x: I| #[trigger] ids2.contains(x) <==> (x == k || ids.contains(x)) by {
        if x == k {
            assert(ids2[ids.len() as int] == k);
        }
        if ids.contains(x) {
            let j = ids.index_of(x);
            assert(ids2[j] == x);
        }
    }
    assert forall|x: I| #[trigger] ids2.contains(x) implies vals.push(v)[ids2.index_of(x)] == (if x == k {
        v
    } else {
        vals[ids.index_of(x)]
    }) by {
        let j = ids2.index_of(x);
        assert(ids2[j] == x);
        if x == k {
            if j < ids.len() {
                assert(ids[j] == k);
            }
        } else {
            let i = ids.index_of(x);
            assert(ids[i] == x && ids[j] == x);
        }
    }
}

proof fn lemma_removed<I, V>(ids: Seq<I>, vals: Seq<V>, i: int)
    requires
        ids.len() == vals.len(),
        ids.no_duplicates(),
        0 <= i < ids.len(),
    ensures
        ids.remove(i).no_duplicates(),
        forall|x: I| #[trigger] ids.remove(i).contains(x) <==> (x != ids[i] && ids.contains(x)),
        forall|x: I|
            #[trigger] ids.remove(i).contains(x) ==> vals.remove(i)[ids.remove(i).index_of(x)]
                == vals[ids.index_of(x)],
{
    let ids2 = ids.remove(i);
    assert forall|x: I| #[trigger] ids2.contains(x) <==> (x != ids[i] && ids.contains(x)) by {
        if ids2.contains(x) {
            let j = ids2.index_of(x);
            assert(ids2[j] == x);
            if j < i {
                assert(ids[j] == x);
            } else {
                assert(ids[j + 1] == x);
            }
        }
        if x != ids[i] && ids.contains(x) {
            let j = ids.index_of(x);
            assert(ids[j] == x);
            if j < i {
                assert(ids2[j] == x);
            } else {
                assert(ids2[j - 1] == x);
            }
        }
    }
    assert forall|x: I| #[trigger] ids2.contains(x) implies vals.remove(i)[ids2.index_of(x)]
        == vals[ids.index_of(x)] by {
        let j = ids2.index_of(x);
        assert(ids2[j] == x);
        let m = ids.index_of(x);
        assert(ids.contains(x));
        assert(ids[m] == x);
    }
}

/// A finite set.
pub struct KeySet<K> {
    table: Table<K, ()>,
}

impl<K: Key> KeySet<K> {
    /// The members, in the order in which they are held.
    pub closed spec fn items(self) -> Seq<K> {
        self.table.items()
    }

    /// The identities of the members, in the order in which they are held.
    pub open spec fn ids(self) -> Seq<K::Id> {
        ids_of(self.items())
    }

    /// The set that is stood for.
    pub open spec fn view(self) -> Set<K::Id> {
        self.ids().to_set()
    }

    /// No member is held twice.
    pub closed spec fn wf(self) -> bool {
        self.table.wf()
    }

    proof fn lemma_dom(self)
        requires
            self.wf(),
        ensures
            self@ == self.table@.dom(),
    {
        assert(self@ =~= self.table@.dom());
    }

    /// No member is held twice, and the order holds as many as the set has.
    pub proof fn lemma_len(self)
        requires
            self.wf(),
        ensures
            self.ids().no_duplicates(),
            self@.finite(),
            self@.len() == self.ids().len(),
    {
        self.ids().unique_seq_to_set();
    }

    /// The empty set.
    pub fn new() -> (r: Self)
        ensures
            r.wf(),
            r@ == Set::<K::Id>::empty(),
    {
        let r = KeySet { table: Table::new() };
        assert(r@ =~= Set::<K::Id>::empty());
        r
    }

    /// The number of members.
    pub fn len(&self) -> (n: usize)
        requires
            self.wf(),
        ensures
            n == self.ids().len(),
            n == self@.len(),
    {
        proof {
            self.lemma_len();
        }
        self.table.len()
    }

    /// Whether there is no member.
    pub fn is_empty(&self) -> (r: bool)
        requires
            self.wf(),
        ensures
            r == (self@ == Set::<K::Id>::empty()),
    {
        proof {
            self.lemma_len();
            if self.ids().len() > 0 {
                assert(self.ids().contains(self.ids()[0]));
                assert(self@.contains(self.ids()[0]));
            } else {
                assert(self@ =~= Set::<K::Id>::empty());
            }
        }
        self.len() == 0
    }

    /// The member at a position of the order.
    pub fn item_at(&self, i: usize) -> (k: &K)
        requires
            self.wf(),
            i < self.ids().len(),
        ensures
            *k == self.items()[i as int],
            k.id() == self.ids()[i as int],
            self@.contains(k.id()),
    {
        assert(self.ids().contains(self.ids()[i as int]));
        self.table.key_at(i)
    }

    /// Whether a key is a member.
    pub fn contains(&self, k: &K) -> (r: bool)
        requires
            self.wf(),
        ensures
            r == self@.contains(k.id()),
    {
        proof {
            self.lemma_dom();
        }
        self.table.contains_key(k)
    }

    /// Adds a member; false if it was one already.
    pub fn insert(&mut self, k: K) -> (r: bool)
        requires
            old(self).wf(),
        ensures
            final(self).wf(),
            final(self)@ == old(self)@.insert(k.id()),
            r == !old(self)@.contains(k.id()),
    {
        let ghost before = *self;
        proof {
            self.lemma_dom();
        }
        let r = self.table.insert(k, ());
        proof {
            self.lemma_dom();
            assert(self@ =~= before@.insert(k.id()));
        }
        r.is_none()
    }

    /// Removes a member; false if it was none.
    pub fn remove(&mut self, k: &K) -> (r: bool)
        requires
            old(self).wf(),
        ensures
            final(self).wf(),
            final(self)@ == old(self)@.remove(k.id()),
            r == old(self)@.contains(k.id()),
    {
        let ghost before = *self;
        proof {
            self.lemma_dom();
        }
        let r = self.table.remove(k);
        proof {
            self.lemma_dom();
            assert(self@ =~= before@.remove(k.id()));
        }
        r.is_some()
    }

    /// The set of the keys that a list holds.
    pub fn from_items(items: &Vec<K>) -> (r: Self)
        ensures
            r.wf(),
            r@ == ids_of(items@).to_set(),
    {
        let mut r: Self = KeySet::new();
        let mut i: usize = 0;
        assert(ids_of(items@).take(0).to_set() =~= Set::<K::Id>::empty());
        while i < items.len()
            invariant
                i <= items@.len(),
                r.wf(),
                r@ == ids_of(items@).take(i as int).to_set(),
            decreases items.len() - i,
        {
            let k = items[i].duplicate();
            let _ = r.insert(k);
            proof {
                lemma_take_next_to_set(ids_of(items@), i as int);
            }
            i = i + 1;
        }
        assert(ids_of(items@).take(items@.len() as int) =~= ids_of(items@));
        r
    }

    /// Another set with the same members.
    pub fn duplicate(&self) -> (r: Self)
        requires
            self.wf(),
        ensures
            r.wf(),
            r@ == self@,
    {
        let mut r: Self = KeySet::new();
        r.insert_all(self);
        assert(r@ =~= self@);
        r
    }

    /// Adds every member of another set.
    pub fn insert_all(&mut self, other: &Self)
        requires
            old(self).wf(),
            other.wf(),
        ensures
            final(self).wf(),
            final(self)@ == old(self)@.union(other@),
    {
        let ghost before = self@;
        let mut i: usize = 0;
        assert(other.ids().take(0).to_set() =~= Set::<K::Id>::empty());
        assert(before =~= before.union(Set::<K::Id>::empty()));
        while i < other.len()
            invariant
                i <= other.ids().len(),
                other.wf(),
                self.wf(),
                self@ == before.union(other.ids().take(i as int).to_set()),
            decreases other.ids().len() - i,
        {
            let k = other.item_at(i).duplicate();
            let _ = self.insert(k);
            proof {
                lemma_take_next_to_set(other.ids(), i as int);
                assert(self@ =~= before.union(other.ids().take(i + 1).to_set()));
            }
            i = i + 1;
        }
        assert(other.ids().take(other.ids().len() as int) =~= other.ids());
    }

    /// Removes every member of another set.
    pub fn remove_all(&mut self, other: &Self)
        requires
            old(self).wf(),
            other.wf(),
        ensures
            final(self).wf(),
            final(self)@ == old(self)@.difference(other@),
    {
        let ghost before = self@;
        let mut i: usize = 0;
        assert(other.ids().take(0).to_set() =~= Set::<K::Id>::empty());
        assert(before =~= before.difference(Set::<K::Id>::empty()));
        while i < other.len()
            invariant
                i <= other.ids().len(),
                other.wf(),
                self.wf(),
                self@ == before.difference(other.ids().take(i as int).to_set()),
            decreases other.ids().len() - i,
        {
            let _ = self.remove(other.item_at(i));
            proof {
                lemma_take_next_to_set(other.ids(), i as int);
                assert(self@ =~= before.difference(other.ids().take(i + 1).to_set()));
            }
            i = i + 1;
        }
        assert(other.ids().take(other.ids().len() as int) =~= other.ids());
    }

    /// The members as a list, none of them twice.
    pub fn to_items(&self) -> (r: Vec<K>)
        requires
            self.wf(),
        ensures
            r@ == self.items(),
            ids_of(r@).no_duplicates(),
            ids_of(r@).to_set() == self@,
    {
        let mut r: Vec<K> = Vec::new();
        let mut i: usize = 0;
        while i < self.len()
            invariant
                self.wf(),
                i <= self.ids().len(),
                r@ =~= self.items().take(i as int),
            decreases self.ids().len() - i,
        {
            let k = self.item_at(i).duplicate();
            r.push(k);
            i = i + 1;
        }
        proof {
            self.lemma_len();
            assert(r@ =~= self.items());
        }
        r
    }
}

/// The identities of a list of keys.
pub open spec fn ids_of<K: Key>(items: Seq<K>) -> Seq<K::Id> {
    Seq::new(items.len(), |i: int| items[i].id())
}

/// The set of one more element of a sequence.
pub proof fn lemma_take_next_to_set<A>(s: Seq<A>, i: int)
    requires
        0 <= i < s.len(),
    ensures
        s.take(i + 1).to_set() == s.take(i).to_set().insert(s[i]),
{
    let a = s.take(i + 1);
    let b = s.take(i);
    assert forall|x: A| a.to_set().contains(x) <==> b.to_set().insert(s[i]).contains(x) by {
        if a.contains(x) {
            let j = choose|j: int| 0 <= j < a.len() && a[j] == x;
            if j < i {
                assert(b[j] == x);
            }
        }
        if b.contains(x) {
            let j = choose|j: int| 0 <= j < b.len() && b[j] == x;
            assert(a[j] == x);
        }
        if x == s[i] {
            assert(a[i] == x);
        }
    }
    assert(a.to_set() =~= b.to_set().insert(s[i]));
}

/// A filter of one more element of a sequence.
pub proof fn lemma_filter_next<A>(s: Seq<A>, i: int, keep: spec_fn(A) -> bool)
    requires
        0 <= i < s.len(),
    ensures
        s.take(i + 1).filter(keep) == (if keep(s[i]) {
            s.take(i).filter(keep).push(s[i])
        } else {
            s.take(i).filter(keep)
        }),
{
    reveal(Seq::filter);
    assert(s.take(i + 1).drop_last() =~= s.take(i));
    assert(s.take(i + 1).last() == s[i]);
}

/// A filter holds exactly what is there and passes.
pub proof fn lemma_filter_contains<A>(s: Seq<A>, keep: spec_fn(A) -> bool, x: A)
    ensures
        s.filter(keep).contains(x) <==> s.contains(x) && keep(x),
    decreases s.len(),
{
    reveal(Seq::filter);
    if s.len() > 0 {
        let t = s.drop_last();
        lemma_filter_contains(t, keep, x);
        assert(s == t.push(s.last()));
        if s.contains(x) && x != s.last() {
            let i = choose|i: int| 0 <= i < s.len() && s[i] == x;
            assert(t[i] == x);
        }
        if t.contains(x) {
            let i = choose|i: int| 0 <= i < t.len() && t[i] == x;
            assert(s[i] == x);
        }
        assert(s[s.len() - 1] == s.last());
        if keep(s.last()) {
            let f = t.filter(keep);
            let g = f.push(s.last());
            assert(g == s.filter(keep));
            if f.contains(x) {
                let i = choose|i: int| 0 <= i < f.len() && f[i] == x;
                assert(g[i] == x);
            }
            if x == s.last() {
                assert(g[f.len() as int] == x);
            }
            if g.contains(x) && x != s.last() {
                let i = choose|i: int| 0 <= i < g.len() && g[i] == x;
                assert(f[i] == x);
            }
        }
    }
}

/// What passes one test and then another is what passes both.
pub proof fn lemma_filter_twice<A>(s: Seq<A>, one: spec_fn(A) -> bool, other: spec_fn(A) -> bool)
    ensures
        s.filter(one).filter(other) == s.filter(|x: A| one(x) && other(x)),
    decreases s.len(),
{
    reveal(Seq::filter);
    let both = |x: A| one(x) && other(x);
    if s.len() > 0 {
        let t = s.drop_last();
        lemma_filter_twice(t, one, other);
        if one(s.last()) {
            let f = t.filter(one);
            let g = f.push(s.last());
            assert(g.drop_last() =~= f);
            assert(g.last() == s.last());
            assert(s.filter(one) == g);
            assert(both(s.last()) == other(s.last()));
        }
    } else {
        assert(s.filter(one) =~= s);
    }
}

/// The places of a list that pass a test, in their order: a filter holds what is at them.
pub proof fn lemma_filter_places<A>(s: Seq<A>, keep: spec_fn(A) -> bool) -> (at: Seq<int>)
    ensures
        at.len() == s.filter(keep).len(),
        forall|j: int| 0 <= j < at.len() ==> 0 <= #[trigger] at[j] < s.len() && s.filter(keep)[j] == s[at[j]] && keep(s[at[j]]),
        forall|i: int, j: int| 0 <= i < j < at.len() ==> #[trigger] at[i] < #[trigger] at[j],
        forall|i: int| 0 <= i < s.len() && keep(#[trigger] s[i]) ==> at.contains(i),
    decreases s.len(),
{
    reveal(Seq::filter);
    if s.len() == 0 {
        Seq::empty()
    } else {
        let t = s.drop_last();
        let last = s.len() - 1;
        let before = lemma_filter_places(t, keep);
        if keep(s[last]) {
            let at = before.push(last);
            assert(s.filter(keep) == t.filter(keep).push(s[last]));
            assert forall|j: int| 0 <= j < at.len() implies 0 <= #[trigger] at[j] < s.len() && s.filter(keep)[j] == s[at[j]]
                && keep(s[at[j]]) by {
                if j < before.len() {
                    assert(at[j] == before[j]);
                    assert(t[before[j]] == s[before[j]]);
                }
            }
            assert forall|i: int| 0 <= i < s.len() && keep(#[trigger] s[i]) implies at.contains(i) by {
                if i < last {
                    assert(t[i] == s[i]);
                    assert(before.contains(i));
                    let j = choose|j: int| 0 <= j < before.len() && before[j] == i;
                    assert(at[j] == i);
                } else {
                    assert(at[before.len() as int] == i);
                }
            }
            assert forall|i: int, j: int| 0 <= i < j < at.len() implies #[trigger] at[i] < #[trigger] at[j] by {
                if j < before.len() {
                    assert(before[i] < before[j]);
                } else {
                    assert(0 <= before[i] < t.len());
                }
            }
            at
        } else {
            assert forall|j: int| 0 <= j < before.len() implies 0 <= #[trigger] before[j] < s.len() && s.filter(keep)[j]
                == s[before[j]] && keep(s[before[j]]) by {
                assert(t[before[j]] == s[before[j]]);
            }
            assert forall|i: int| 0 <= i < s.len() && keep(#[trigger] s[i]) implies before.contains(i) by {
                assert(t[i] == s[i]);
            }
            before
        }
    }
}

/// A filter keeps the order of what passes, and is shorter exactly if something does not pass.
pub proof fn lemma_filter_shape<A>(s: Seq<A>, keep: spec_fn(A) -> bool)
    ensures
        s.filter(keep).len() <= s.len(),
        s.filter(keep).len() < s.len() <==> exists|i: int| 0 <= i < s.len() && !keep(#[trigger] s[i]),
        forall|j: int| 0 <= j < s.filter(keep).len() ==> keep(#[trigger] s.filter(keep)[j]),
        exists|at: spec_fn(int) -> int| filtered_from(s, s.filter(keep), at),
    decreases s.len(),
{
    reveal(Seq::filter);
    let f = s.filter(keep);
    if s.len() == 0 {
        assert(filtered_from(s, f, |j: int| j));
    } else {
        let t = s.drop_last();
        let g = t.filter(keep);
        lemma_filter_shape(t, keep);
        let at = choose|at: spec_fn(int) -> int| filtered_from(t, g, at);
        let at2 = |j: int| if j < g.len() { at(j) } else { s.len() - 1 };
        assert(filtered_from(s, f, at2)) by {
            assert forall|j: int| 0 <= j < f.len() implies 0 <= #[trigger] at2(j) < s.len() && f[j] == s[at2(j)] by {
                if j < g.len() {
                    assert(0 <= at(j) < t.len());
                    assert(f[j] == g[j]);
                }
            }
            assert forall|i: int, j: int| 0 <= i < j < f.len() implies #[trigger] at2(i) < #[trigger] at2(j) by {
                assert(0 <= at(i) < t.len());
                if j < g.len() {
                    assert(at(i) < at(j));
                }
            }
        }
        if !keep(s.last()) {
            assert(!keep(s[s.len() - 1]));
        } else if g.len() < t.len() {
            let i = choose|i: int| 0 <= i < t.len() && !keep(#[trigger] t[i]);
            assert(!keep(s[i]));
        } else {
            assert forall|i: int| 0 <= i < s.len() implies keep(#[trigger] s[i]) by {
                if i < t.len() {
                    assert(keep(t[i]));
                }
            }
        }
        assert forall|j: int| 0 <= j < f.len() implies keep(#[trigger] f[j]) by {
            if j < g.len() {
                assert(f[j] == g[j]);
            }
        }
    }
}

/// Whether each entry of `f` stands in `s`, in the same order, at the places that `at` gives.
pub open spec fn filtered_from<A>(s: Seq<A>, f: Seq<A>, at: spec_fn(int) -> int) -> bool {
    &&& forall|j: int| 0 <= j < f.len() ==> 0 <= #[trigger] at(j) < s.len() && f[j] == s[at(j)]
    &&& forall|i: int, j: int| 0 <= i < j < f.len() ==> #[trigger] at(i) < #[trigger] at(j)
}

/// The items of a list that a test keeps, in their order.
pub(crate) fn keep_where<T, F: Fn(&T) -> bool>(items: Vec<T>, keep: F, Ghost(kept): Ghost<spec_fn(T) -> bool>) -> (r: Vec<T>)
    requires
        forall|t: &T| #[trigger] keep.requires((t,)),
        forall|t: &T, b: bool| #[trigger] keep.ensures((t,), b) ==> b == kept(*t),
    ensures
        r@ == items@.filter(kept),
{
    let ghost all = items@;
    let mut r: Vec<T> = Vec::new();
    assert(all.take(0).filter(kept) =~= Seq::<T>::empty()) by {
        reveal(Seq::filter);
    }
    for x in iter: items
        invariant
            forall|t: &T| #[trigger] keep.requires((t,)),
            forall|t: &T, b: bool| #[trigger] keep.ensures((t,), b) ==> b == kept(*t),
            iter.seq() == all,
            r@ == all.take(iter.index() as int).filter(kept),
    {
        proof {
            lemma_filter_next(all, iter.index() as int, kept);
        }
        if keep(&x) {
            r.push(x);
        }
    }
    assert(all.take(all.len() as int) =~= all);
    r
}

/// Whether some item of a list passes a test.
pub(crate) fn some_where<T, F: Fn(&T) -> bool>(items: &Vec<T>, test: F, Ghost(passes): Ghost<spec_fn(T) -> bool>) -> (r: bool)
    requires
        forall|t: &T| #[trigger] test.requires((t,)),
        forall|t: &T, b: bool| #[trigger] test.ensures((t,), b) ==> b == passes(*t),
    ensures
        r == exists|i: int| 0 <= i < items@.len() && passes(#[trigger] items@[i]),
{
    let mut i: usize = 0;
    while i < items.len()
        invariant
            forall|t: &T| #[trigger] test.requires((t,)),
            forall|t: &T, b: bool| #[trigger] test.ensures((t,), b) ==> b == passes(*t),
            i <= items@.len(),
            forall|k: int| 0 <= k < i ==> !passes(#[trigger] items@[k]),
        decreases items.len() - i,
    {
        if test(&items[i]) {
            return true;
        }
        i = i + 1;
    }
    false
}

/// The entries of a table whose value a test keeps.
pub(crate) fn retain_values<K: Key, V, F: Fn(&V) -> bool>(
    table: Table<K, V>,
    keep: F,
    Ghost(kept): Ghost<spec_fn(V) -> bool>,
) -> (r: Table<K, V>)
    requires
        table.wf(),
        forall|v: &V| #[trigger] keep.requires((v,)),
        forall|v: &V, b: bool| #[trigger] keep.ensures((v,), b) ==> b == kept(*v),
    ensures
        r.wf(),
        forall|k: K::Id| #[trigger] r@.contains_key(k) <==> table@.contains_key(k) && kept(table@[k]),
        forall|k: K::Id| #[trigger] r@.contains_key(k) ==> r@[k] == table@[k],
{
    let ghost all = table@;
    let mut rest = table;
    let mut r: Table<K, V> = Table::new();
    loop
        invariant
            all == table@,
            rest.wf(),
            r.wf(),
            forall|v: &V| #[trigger] keep.requires((v,)),
            forall|v: &V, b: bool| #[trigger] keep.ensures((v,), b) ==> b == kept(*v),
            forall|k: K::Id| #[trigger] rest@.contains_key(k) ==> all.contains_key(k) && rest@[k] == all[k],
            forall|k: K::Id| #[trigger]
                r@.contains_key(k) <==> all.contains_key(k) && !rest@.contains_key(k) && kept(all[k]),
            forall|k: K::Id| #[trigger] r@.contains_key(k) ==> r@[k] == all[k],
        decreases rest.ids().len(),
    {
        let ghost left = rest@;
        let ghost so_far = r@;
        match rest.pop() {
            Some((k, v)) => {
                let ghost id = k.id();
                assert(left.contains_key(id));
                if keep(&v) {
                    let _ = r.insert(k, v);
                }
                proof {
                    assert forall|x: K::Id| #[trigger] rest@.contains_key(x) implies all.contains_key(x) && rest@[x] == all[x] by {
                        assert(left.contains_key(x));
                    }
                    assert forall|x: K::Id| #[trigger]
                        r@.contains_key(x) <==> all.contains_key(x) && !rest@.contains_key(x) && kept(all[x]) by {
                        assert(so_far.contains_key(x) <==> all.contains_key(x) && !left.contains_key(x) && kept(all[x]));
                        assert(rest@.contains_key(x) <==> left.contains_key(x) && x != id);
                    }
                    assert forall|x: K::Id| #[trigger] r@.contains_key(x) implies r@[x] == all[x] by {
                        if x != id {
                            assert(so_far.contains_key(x));
                        }
                    }
                }
            },
            None => {
                return r;
            },
        }
    }
}

/// What was put in a table under a key is read back under it, until something else is or it is taken out;
/// what was there before is handed back, and nothing is read differently under another key.
pub proof fn law_table_gives_back<K: Key, V>(
    before: Table<K, V>,
    with: Table<K, V>,
    without: Table<K, V>,
    k: K,
    v: V,
    replaced: Option<V>,
    removed: Option<V>,
    asked: &K,
    at_first: Option<&V>,
    then: Option<&V>,
    at_last: Option<&V>,
    there: bool,
)
    requires
        exists|table: &mut Table<K, V>|
            *table == before && *final(table) == with && #[trigger] call_ensures(
                Table::<K, V>::insert,
                (table, k, v),
                replaced,
            ),
        exists|table: &mut Table<K, V>|
            *table == before && *final(table) == without && #[trigger] call_ensures(
                Table::<K, V>::remove,
                (table, &k),
                removed,
            ),
        call_ensures(Table::<K, V>::get, (&before, asked), at_first),
        call_ensures(Table::<K, V>::get, (&with, asked), then),
        call_ensures(Table::<K, V>::get, (&without, asked), at_last),
        call_ensures(Table::<K, V>::contains_key, (&before, asked), there),
    ensures
        there <==> at_first is Some,
        asked.id() == k.id() ==> {
            &&& then is Some && *then->Some_0 == v
            &&& at_last is None
            &&& replaced is Some <==> at_first is Some
            &&& removed is Some <==> at_first is Some
            &&& replaced matches Some(w) ==> w == *at_first->Some_0
            &&& removed matches Some(w) ==> w == *at_first->Some_0
        },
        asked.id() != k.id() ==> {
            &&& then is Some <==> at_first is Some
            &&& at_last is Some <==> at_first is Some
            &&& then matches Some(w) ==> *w == *at_first->Some_0
            &&& at_last matches Some(w) ==> *w == *at_first->Some_0
        },
{
}

/// A set holds what was put in and not taken out again; putting in says whether it was new, and taking out
/// whether it was there.
pub proof fn law_set_holds_what_was_put_in<K: Key>(
    before: KeySet<K>,
    with: KeySet<K>,
    without: KeySet<K>,
    k: K,
    new: bool,
    found: bool,
    asked: &K,
    at_first: bool,
    then: bool,
    at_last: bool,
)
    requires
        exists|set: &mut KeySet<K>|
            *set == before && *final(set) == with && #[trigger] call_ensures(KeySet::<K>::insert, (set, k), new),
        exists|set: &mut KeySet<K>|
            *set == before && *final(set) == without && #[trigger] call_ensures(KeySet::<K>::remove, (set, &k), found),
        call_ensures(KeySet::<K>::contains, (&before, asked), at_first),
        call_ensures(KeySet::<K>::contains, (&with, asked), then),
        call_ensures(KeySet::<K>::contains, (&without, asked), at_last),
    ensures
        then <==> at_first || asked.id() == k.id(),
        at_last <==> at_first && asked.id() != k.id(),
        asked.id() == k.id() ==> new == !at_first && found == at_first,
{
}

/// Of two sets, one with all of the other holds what either holds, and one without holds what the other
/// does not.
pub proof fn law_sets_together<K: Key>(
    before: KeySet<K>,
    other: &KeySet<K>,
    more: KeySet<K>,
    fewer: KeySet<K>,
    asked: &K,
    a: bool,
    b: bool,
    either: bool,
    only: bool,
)
    requires
        exists|set: &mut KeySet<K>|
            *set == before && *final(set) == more && #[trigger] call_ensures(KeySet::<K>::insert_all, (set, other), ()),
        exists|set: &mut KeySet<K>|
            *set == before && *final(set) == fewer && #[trigger] call_ensures(KeySet::<K>::remove_all, (set, other), ()),
        call_ensures(KeySet::<K>::contains, (&before, asked), a),
        call_ensures(KeySet::<K>::contains, (other, asked), b),
        call_ensures(KeySet::<K>::contains, (&more, asked), either),
        call_ensures(KeySet::<K>::contains, (&fewer, asked), only),
    ensures
        either <==> a || b,
        only <==> a && !b,
{
}

/// A set of some items holds exactly what is the same as one of them, each once; its items give it back.
pub proof fn law_set_of_items<K: Key>(items: &Vec<K>, set: KeySet<K>, asked: &K, held: bool, list: Vec<K>, n: usize, none: bool)
    requires
        call_ensures(KeySet::<K>::from_items, (items,), set),
        call_ensures(KeySet::<K>::contains, (&set, asked), held),
        call_ensures(KeySet::<K>::to_items, (&set,), list),
        call_ensures(KeySet::<K>::len, (&set,), n),
        call_ensures(KeySet::<K>::is_empty, (&set,), none),
    ensures
        held <==> exists|i: int| 0 <= i < items@.len() && (#[trigger] items@[i]).id() == asked.id(),
        held <==> exists|i: int| 0 <= i < list@.len() && (#[trigger] list@[i]).id() == asked.id(),
        forall|i: int, j: int| 0 <= i < j < list@.len() ==> (#[trigger] list@[i]).id() != (#[trigger] list@[j]).id(),
        n == list@.len(),
        none <==> items@.len() == 0,
{
    lemma_ids_occur(items@, asked.id());
    lemma_ids_occur(list@, asked.id());
    let ids = ids_of(list@);
    assert forall|i: int, j: int| 0 <= i < j < list@.len() implies (#[trigger] list@[i]).id() != (#[trigger] list@[j]).id() by {
        assert(ids[i] != ids[j]);
    }
    if items@.len() > 0 {
        assert(ids_of(items@).to_set().contains(ids_of(items@)[0])) by {
            assert(ids_of(items@).contains(ids_of(items@)[0]));
        }
    } else {
        assert(ids_of(items@).to_set() =~= Set::<K::Id>::empty());
    }
}

proof fn lemma_ids_occur<K: Key>(items: Seq<K>, id: K::Id)
    ensures
        ids_of(items).to_set().contains(id) <==> exists|i: int| 0 <= i < items.len() && (#[trigger] items[i]).id() == id,
{
    let ids = ids_of(items);
    if ids.contains(id) {
        let i = choose|i: int| 0 <= i < ids.len() && ids[i] == id;
        assert(items[i].id() == id);
    }
    if exists|i: int| 0 <= i < items.len() && (#[trigger] items[i]).id() == id {
        let i = choose|i: int| 0 <= i < items.len() && (#[trigger] items[i]).id() == id;
        assert(ids[i] == id);
    }
}

} // verus!
