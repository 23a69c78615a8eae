use vstd::prelude::*;

use dashmap::DashMap;

use crate::text::{str_eq, views};

verus! {

broadcast use vstd::seq_lib::group_seq_properties;

#[verifier::external_type_specification]
#[verifier::external_body]
#[verifier::reject_recursive_types(K)]
#[verifier::reject_recursive_types(V)]
#[verifier::reject_recursive_types(S)]
pub struct ExDashMap<K, V, S>(DashMap<K, V, S>);

/// A finite set of strings, kept as a list without repeats.
#[derive(Debug)]
pub struct StrSet {
    items: Vec<String>,
}

impl View for StrSet {
    type V = Set<Seq<char>>;

    closed spec fn view(&self) -> Set<Seq<char>> {
        views(self.items@).to_set()
    }
}

impl StrSet {
    /// The members, in the order in which they are stored.
    pub closed spec fn members(&self) -> Seq<Seq<char>> {
        views(self.items@)
    }

    pub closed spec fn wf(&self) -> bool {
        views(self.items@).no_duplicates()
    }

    pub proof fn lemma_members(&self)
        requires
            self.wf(),
        ensures
            self.members().no_duplicates(),
            self.members().to_set() == self@,
            self@.finite(),
            self@.len() == self.members().len(),
    {
        views(self.items@).unique_seq_to_set();
    }

    pub fn new() -> (r: Self)
        ensures
            r.wf(),
            r@ == Set::<Seq<char>>::empty(),
    {
        let r = StrSet { items: Vec::new() };
        assert(r@ =~= Set::<Seq<char>>::empty());
        r
    }

    fn position(&self, k: &str) -> (r: Option<usize>)
        ensures
            match r {
                Some(i) => i < self.items@.len() && views(self.items@)[i as int] == k@,
                None => !views(self.items@).contains(k@),
            },
    {
        let mut i: usize = 0;
        while i < self.items.len()
            invariant
                i <= self.items@.len(),
                forall|j: int| 0 <= j < i ==> views(self.items@)[j] != k@,
            decreases self.items@.len() - i,
        {
            if str_eq(self.items[i].as_str(), k) {
                return Some(i);
            }
            i = i + 1;
        }
        None
    }

    pub fn contains(&self, k: &str) -> (r: bool)
        ensures
            r == self@.contains(k@),
    {
        self.position(k).is_some()
    }

    pub fn len(&self) -> (r: usize)
        requires
            self.wf(),
        ensures
            r == self@.len(),
    {
        proof {
            self.lemma_members();
        }
        self.items.len()
    }

    pub fn is_empty(&self) -> (r: bool)
        requires
            self.wf(),
        ensures
            r == (self@.len() == 0),
    {
        self.len() == 0
    }

    /// Adds `k`; true when it was not a member before.
    pub fn insert(&mut self, k: String) -> (r: bool)
        requires
            old(self).wf(),
        ensures
            final(self).wf(),
            final(self)@ == old(self)@.insert(k@),
            r == !old(self)@.contains(k@),
    {
        if self.contains(k.as_str()) {
            assert(self@.insert(k@) =~= self@);
            return false;
        }
        let ghost old_items = self.items@;
        self.items.push(k);
        assert(views(self.items@) =~= views(old_items).push(k@));
        assert(self@ =~= views(old_items).to_set().insert(k@));
        true
    }

    /// Removes `k`; true when it was a member before.
    pub fn remove(&mut self, k: &str) -> (r: bool)
        requires
            old(self).wf(),
        ensures
            final(self).wf(),
            final(self)@ == old(self)@.remove(k@),
            r == old(self)@.contains(k@),
    {
        match self.position(k) {
            None => {
                assert(self@.remove(k@) =~= self@);
                false
            },
            Some(i) => {
                let ghost old_items = self.items@;
                self.items.remove(i);
                assert(views(self.items@) =~= views(old_items).remove(i as int));
                assert(self@ =~= views(old_items).to_set().remove(k@)) by {
                    assert forall|x: Seq<char>| #[trigger] self@.contains(x) == views(old_items).to_set().remove(k@).contains(x) by {
                        if views(old_items).contains(x) && x != k@ {
                            let j = choose|j: int| 0 <= j < old_items.len() && views(old_items)[j] == x;
                            if j < i {
                                assert(views(self.items@)[j] == x);
                            } else {
                                assert(views(self.items@)[j - 1] == x);
                            }
                        }
                    }
                }
                true
            },
        }
    }

    /// The members as a new list, in storage order.
    pub fn to_vec(&self) -> (r: Vec<String>)
        requires
            self.wf(),
        ensures
            views(r@) == self.members(),
    {
        let mut r: Vec<String> = Vec::new();
        let mut i: usize = 0;
        while i < self.items.len()
            invariant
                i <= self.items@.len(),
                views(r@) == views(self.items@).take(i as int),
            decreases self.items@.len() - i,
        {
            let ghost r0 = r@;
            let c = self.items[i].clone();
            assert(c@ == views(self.items@)[i as int]);
            r.push(c);
            assert(r@ == r0.push(c));
            assert(views(r@) =~= views(r0).push(c@));
            assert(views(self.items@).take(i + 1) =~= views(self.items@).take(i as int).push(views(self.items@)[i as int]));
            i = i + 1;
        }
        assert(views(self.items@).take(i as int) =~= views(self.items@));
        r
    }

    /// The member stored at position `i`.
    pub fn member_at(&self, i: usize) -> (r: &String)
        requires
            i < self.members().len(),
        ensures
            r@ == self.members()[i as int],
    {
        &self.items[i]
    }

    pub fn member_count(&self) -> (r: usize)
        ensures
            r == self.members().len(),
    {
        self.items.len()
    }
}

/// A finite map from strings, kept as two parallel lists of keys and values.
#[derive(Debug)]
pub struct StrMap<V> {
    keys: Vec<String>,
    vals: Vec<V>,
}

impl<V> View for StrMap<V> {
    type V = Map<Seq<char>, V>;

    closed spec fn view(&self) -> Map<Seq<char>, V> {
        Map::new(
            |k: Seq<char>| views(self.keys@).contains(k),
            |k: Seq<char>| self.vals@[views(self.keys@).index_of(k)],
        )
    }
}

impl<V> StrMap<V> {
    /// The keys, in storage order.
    pub closed spec fn key_seq(&self) -> Seq<Seq<char>> {
        views(self.keys@)
    }

    /// The values, in the order of `key_seq`.
    pub closed spec fn val_seq(&self) -> Seq<V> {
        self.vals@
    }

    pub closed spec fn wf(&self) -> bool {
        &&& self.keys@.len() == self.vals@.len()
        &&& views(self.keys@).no_duplicates()
    }

    /// The stored entries are exactly the map's entries.
    pub proof fn lemma_entries(&self)
        requires
            self.wf(),
        ensures
            self.key_seq().len() == self.val_seq().len(),
            self.key_seq().no_duplicates(),
            forall|i: int| 0 <= i < self.key_seq().len() ==>
                #[trigger] self@.contains_key(self.key_seq()[i]) && self@[self.key_seq()[i]] == self.val_seq()[i],
            forall|k: Seq<char>| #[trigger] self@.contains_key(k) ==> self.key_seq().contains(k),
            self@.dom() == self.key_seq().to_set(),
            self@.dom().finite(),
            self@.dom().len() == self.key_seq().len(),
    {
        assert forall|i: int| 0 <= i < self.key_seq().len() implies
            #[trigger] self@.contains_key(self.key_seq()[i]) && self@[self.key_seq()[i]] == self.val_seq()[i] by {
            let ks = views(self.keys@);
            assert(ks.contains(ks[i]));
            let j = ks.index_of(ks[i]);
            assert(ks[j] == ks[i]);
        }
        assert(self@.dom() =~= self.key_seq().to_set());
        views(self.keys@).unique_seq_to_set();
    }

    pub fn new() -> (r: Self)
        ensures
            r.wf(),
            r@ == Map::<Seq<char>, V>::empty(),
    {
        let r = StrMap { keys: Vec::new(), vals: Vec::new() };
        assert(r@ =~= Map::<Seq<char>, V>::empty());
        r
    }

    fn position(&self, k: &str) -> (r: Option<usize>)
        requires
            self.wf(),
        ensures
            match r {
                Some(i) => i < self.keys@.len() && views(self.keys@)[i as int] == k@,
                None => !self@.contains_key(k@),
            },
    {
        let mut i: usize = 0;
        while i < self.keys.len()
            invariant
                i <= self.keys@.len(),
                forall|j: int| 0 <= j < i ==> views(self.keys@)[j] != k@,
            decreases self.keys@.len() - i,
        {
            if str_eq(self.keys[i].as_str(), k) {
                return Some(i);
            }
            i = i + 1;
        }
        None
    }

    pub fn contains_key(&self, k: &str) -> (r: bool)
        requires
            self.wf(),
        ensures
            r == self@.contains_key(k@),
    {
        proof {
            self.lemma_entries();
        }
        self.position(k).is_some()
    }

    pub fn get(&self, k: &str) -> (r: Option<&V>)
        requires
            self.wf(),
        ensures
            match r {
                Some(v) => self@.contains_key(k@) && *v == self@[k@],
                None => !self@.contains_key(k@),
            },
    {
        proof {
            self.lemma_entries();
        }
        match self.position(k) {
            Some(i) => Some(&self.vals[i]),
            None => None,
        }
    }

    pub fn len(&self) -> (r: usize)
        requires
            self.wf(),
        ensures
            r == self@.len(),
    {
        proof {
            self.lemma_entries();
        }
        self.keys.len()
    }

    /// Removes the entry of `k` and returns its value.
    pub fn remove(&mut self, k: &str) -> (r: Option<V>)
        requires
            old(self).wf(),
        ensures
            final(self).wf(),
            final(self)@ == old(self)@.remove(k@),
            match r {
                Some(v) => old(self)@.contains_key(k@) && v == old(self)@[k@],
                None => !old(self)@.contains_key(k@),
            },
    {
        proof {
            self.lemma_entries();
        }
        match self.position(k) {
            None => {
                assert(self@.remove(k@) =~= self@);
                None
            },
            Some(i) => {
                let ghost old_self = *self;
                let ghost ok = views(self.keys@);
                self.keys.remove(i);
                let v = self.vals.remove(i);
                assert(views(self.keys@) =~= ok.remove(i as int));
                assert(self.wf());
                proof {
                    self.lemma_entries();
                    old_self.lemma_entries();
                    assert forall|x: Seq<char>| #[trigger] self@.contains_key(x) == old_self@.remove(k@).contains_key(x) by {
                        if old_self@.contains_key(x) && x != k@ {
                            let j = choose|j: int| 0 <= j < ok.len() && ok[j] == x;
                            if j < i {
                                assert(self.key_seq()[j] == x);
                            } else {
                                assert(self.key_seq()[j - 1] == x);
                            }
                        }
                    }
                    assert forall|x: Seq<char>| #[trigger] self@.contains_key(x) implies self@[x] == old_self@[x] by {
                        let j = choose|j: int| 0 <= j < self.key_seq().len() && self.key_seq()[j] == x;
                        if j < i {
                            assert(old_self.key_seq()[j] == x);
                        } else {
                            assert(old_self.key_seq()[j + 1] == x);
                        }
                    }
                    assert(self@ =~= old_self@.remove(k@));
                }
                Some(v)
            },
        }
    }

    /// Sets the value of `k`, adding the key when it is new.
    pub fn insert(&mut self, k: String, v: V)
        requires
            old(self).wf(),
        ensures
            final(self).wf(),
            final(self)@ == old(self)@.insert(k@, v),
    {
        let ghost old_map = self@;
        let _ = self.remove(k.as_str());
        let ghost mid = *self;
        let ghost kv = k@;
        proof {
            mid.lemma_entries();
        }
        assert(!mid@.contains_key(kv));
        assert(!mid@.dom().contains(kv));
        assert(mid.key_seq().to_set().contains(kv) == mid.key_seq().contains(kv));
        assert(!mid.key_seq().contains(kv));
        self.keys.push(k);
        self.vals.push(v);
        assert(views(self.keys@) =~= mid.key_seq().push(kv));
        assert(self.vals@ == mid.val_seq().push(v));
        assert(self.wf());
        proof {
            self.lemma_entries();
            assert forall|x: Seq<char>| #[trigger] self@.contains_key(x) == old_map.insert(kv, v).contains_key(x) by {
                if mid@.contains_key(x) {
                    let j = choose|j: int| 0 <= j < mid.key_seq().len() && mid.key_seq()[j] == x;
                    assert(self.key_seq()[j] == x);
                }
                if x == kv {
                    assert(self.key_seq()[self.key_seq().len() - 1] == x);
                }
            }
            assert forall|x: Seq<char>| #[trigger] self@.contains_key(x) implies self@[x] == old_map.insert(kv, v)[x] by {
                let j = choose|j: int| 0 <= j < self.key_seq().len() && self.key_seq()[j] == x;
                assert(self@[self.key_seq()[j]] == self.val_seq()[j]);
                if j < mid.key_seq().len() {
                    assert(mid.key_seq()[j] == x);
                    assert(mid@[mid.key_seq()[j]] == mid.val_seq()[j]);
                    assert(x != kv);
                } else {
                    assert(x == kv);
                }
            }
            assert(self@ =~= old_map.insert(kv, v));
        }
    }

    /// The keys as a new list, in storage order.
    pub fn keys_vec(&self) -> (r: Vec<String>)
        ensures
            views(r@) == self.key_seq(),
    {
        let mut r: Vec<String> = Vec::new();
        let mut i: usize = 0;
        while i < self.keys.len()
            invariant
                i <= self.keys@.len(),
                views(r@) == views(self.keys@).take(i as int),
            decreases self.keys@.len() - i,
        {
            let ghost r0 = r@;
            let c = self.keys[i].clone();
            assert(c@ == views(self.keys@)[i as int]);
            r.push(c);
            assert(r@ == r0.push(c));
            assert(views(r@) =~= views(r0).push(c@));
            assert(views(self.keys@).take(i + 1) =~= views(self.keys@).take(i as int).push(views(self.keys@)[i as int]));
            i = i + 1;
        }
        assert(views(self.keys@).take(i as int) =~= views(self.keys@));
        r
    }

    pub fn entry_count(&self) -> (r: usize)
        ensures
            r == self.key_seq().len(),
    {
        self.keys.len()
    }

    /// The entry stored at position `i`.
    pub fn entry_at(&self, i: usize) -> (r: (&String, &V))
        requires
            self.wf(),
            i < self.key_seq().len(),
        ensures
            r.0@ == self.key_seq()[i as int],
            *r.1 == self.val_seq()[i as int],
    {
        (&self.keys[i], &self.vals[i])
    }
}

} // verus!
