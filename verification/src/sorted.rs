use vstd::prelude::*;

use crate::text::{lemma_seq_lt_irreflexive, lemma_seq_lt_total, lemma_seq_lt_transitive, seq_lt, str_eq, str_lt};

verus! {

/// The entries of a parameter list as texts.
pub open spec fn entry_views(es: Seq<(String, String)>) -> Seq<(Seq<char>, Seq<char>)> {
    es.map_values(|e: (String, String)| (e.0@, e.1@))
}

/// The keys strictly increase from one entry to the next, so no key occurs twice.
pub open spec fn keys_increasing(es: Seq<(Seq<char>, Seq<char>)>) -> bool {
    forall|i: int, j: int| 0 <= i < j < es.len() ==> seq_lt(#[trigger] es[i].0, #[trigger] es[j].0)
}

/// Some entry has the key `k`.
pub open spec fn has_key(es: Seq<(Seq<char>, Seq<char>)>, k: Seq<char>) -> bool {
    exists|i: int| 0 <= i < es.len() && #[trigger] es[i].0 == k
}

/// A position of the key `k`.
pub open spec fn key_index(es: Seq<(Seq<char>, Seq<char>)>, k: Seq<char>) -> int {
    choose|i: int| 0 <= i < es.len() && #[trigger] es[i].0 == k
}

/// The map that a list of entries with distinct keys stands for.
pub open spec fn entries_map(es: Seq<(Seq<char>, Seq<char>)>) -> Map<Seq<char>, Seq<char>> {
    Map::new(
        |k: Seq<char>| has_key(es, k),
        |k: Seq<char>| es[key_index(es, k)].1,
    )
}

/// A map from texts to texts that keeps its entries in increasing order of their keys,
/// as a `BTreeMap<String, String>` keeps and walks them. It holds the query parameters
/// of an HTTP request, and the members of a JSON object in the order `serde_json` writes them.
#[derive(Debug)]
pub struct SortedStrMap {
    entries: Vec<(String, String)>,
}

impl View for SortedStrMap {
    type V = Map<Seq<char>, Seq<char>>;

    open spec fn view(&self) -> Map<Seq<char>, Seq<char>> {
        entries_map(self.entries())
    }
}

proof fn lemma_distinct(es: Seq<(Seq<char>, Seq<char>)>, i: int, j: int)
    requires
        keys_increasing(es),
        0 <= i < es.len(),
        0 <= j < es.len(),
        i != j,
    ensures
        es[i].0 != es[j].0,
{
    if i < j {
        assert(seq_lt(es[i].0, es[j].0));
        lemma_seq_lt_irreflexive(es[i].0);
    } else {
        assert(seq_lt(es[j].0, es[i].0));
        lemma_seq_lt_irreflexive(es[j].0);
    }
}

/// In a list with distinct keys, the entry at `i` gives the value of its key.
pub proof fn lemma_entry_value(es: Seq<(Seq<char>, Seq<char>)>, i: int)
    requires
        keys_increasing(es),
        0 <= i < es.len(),
    ensures
        entries_map(es).contains_key(es[i].0),
        entries_map(es)[es[i].0] == es[i].1,
{
    let k = es[i].0;
    assert(has_key(es, k));
    let j = key_index(es, k);
    if j != i {
        lemma_distinct(es, i, j);
    }
    assert(entries_map(es).contains_key(k));
    assert(entries_map(es)[k] == es[j].1);
}

impl SortedStrMap {
    /// The entries, in the order in which they are kept.
    pub closed spec fn entries(&self) -> Seq<(Seq<char>, Seq<char>)> {
        entry_views(self.entries@)
    }

    pub open spec fn wf(&self) -> bool {
        keys_increasing(self.entries())
    }

    pub fn new() -> (r: Self)
        ensures
            r.wf(),
            r.entries() == Seq::<(Seq<char>, Seq<char>)>::empty(),
            r@ == Map::<Seq<char>, Seq<char>>::empty(),
    {
        let r = SortedStrMap { entries: Vec::new() };
        assert(r.entries() =~= Seq::<(Seq<char>, Seq<char>)>::empty());
        assert(r@ =~= Map::<Seq<char>, Seq<char>>::empty());
        r
    }

    /// The number of parameters.
    pub fn len(&self) -> (r: usize)
        ensures
            r == self.entries().len(),
    {
        self.entries.len()
    }

    /// The parameter at position `i` in key order.
    pub fn entry_at(&self, i: usize) -> (r: (&String, &String))
        requires
            i < self.entries().len(),
        ensures
            (r.0@, r.1@) == self.entries()[i as int],
    {
        let e = &self.entries[i];
        (&e.0, &e.1)
    }

    /// The first position whose key does not come before `k`.
    fn lower_bound(&self, k: &str) -> (r: usize)
        requires
            self.wf(),
        ensures
            r <= self.entries().len(),
            forall|j: int| 0 <= j < r ==> seq_lt(#[trigger] self.entries()[j].0, k@),
            r < self.entries().len() ==> !seq_lt(self.entries()[r as int].0, k@),
    {
        let mut i: usize = 0;
        while i < self.entries.len()
            invariant
                i <= self.entries@.len(),
                forall|j: int| 0 <= j < i ==> seq_lt(#[trigger] self.entries()[j].0, k@),
            decreases self.entries@.len() - i,
        {
            if !str_lt(self.entries[i].0.as_str(), k) {
                return i;
            }
            i = i + 1;
        }
        i
    }

    /// The value of `k`, if it is present.
    pub fn get(&self, k: &str) -> (r: Option<&String>)
        requires
            self.wf(),
        ensures
            match r {
                Some(v) => self@.contains_key(k@) && v@ == self@[k@],
                None => !self@.contains_key(k@),
            },
    {
        let i = self.lower_bound(k);
        if i < self.entries.len() && str_eq(self.entries[i].0.as_str(), k) {
            proof {
                lemma_entry_value(self.entries(), i as int);
            }
            Some(&self.entries[i].1)
        } else {
            proof {
                if self@.contains_key(k@) {
                    let es = self.entries();
                    let j = choose|j: int| 0 <= j < es.len() && #[trigger] es[j].0 == k@;
                    lemma_seq_lt_irreflexive(k@);
                    if j > i {
                        lemma_seq_lt_total(es[i as int].0, k@);
                        lemma_seq_lt_transitive(k@, es[i as int].0, es[j].0);
                        assert(seq_lt(es[i as int].0, es[j].0));
                    }
                }
            }
            None
        }
    }

    /// Sets the value of `k`, keeping the keys in order.
    pub fn insert(&mut self, k: String, v: String)
        requires
            old(self).wf(),
        ensures
            final(self).wf(),
            final(self)@ == old(self)@.insert(k@, v@),
    {
        let ghost old_es = self.entries();
        let ghost kv = k@;
        let i = self.lower_bound(k.as_str());
        let replace = i < self.entries.len() && str_eq(self.entries[i].0.as_str(), k.as_str());
        if replace {
            self.entries.remove(i);
        }
        let ghost mid = self.entries();
        proof {
            if replace {
                assert(mid =~= old_es.remove(i as int));
            } else {
                assert(mid =~= old_es);
            }
        }
        self.entries.insert(i, (k, v));
        let ghost es = self.entries();
        assert(es =~= mid.insert(i as int, (kv, v@)));
        proof {
            // the new key lies strictly between its neighbours
            assert forall|a: int, b: int| 0 <= a < b < es.len() implies seq_lt(#[trigger] es[a].0, #[trigger] es[b].0) by {
                let ia = i as int;
                if b == ia {
                    assert(es[a] == old_es[a]);
                } else if a == ia {
                    let ob = if replace { b } else { b - 1 };
                    assert(es[b] == old_es[ob]);
                    if replace {
                        assert(seq_lt(old_es[ia].0, old_es[ob].0));
                    } else {
                        lemma_seq_lt_total(old_es[ia].0, kv);
                        if ob > ia {
                            lemma_seq_lt_transitive(kv, old_es[ia].0, old_es[ob].0);
                        }
                    }
                } else {
                    let oa = if a < ia || replace { a } else { a - 1 };
                    let ob = if b < ia || replace { b } else { b - 1 };
                    assert(es[a] == old_es[oa]);
                    assert(es[b] == old_es[ob]);
                }
            }
            assert forall|x: Seq<char>| #[trigger] self@.contains_key(x) == old_es_map_insert(old_es, kv, v@).contains_key(x) by {
                if has_key(old_es, x) && x != kv {
                    let j = choose|j: int| 0 <= j < old_es.len() && #[trigger] old_es[j].0 == x;
                    let nj = if j < i as int || replace { j } else { j + 1 };
                    assert(es[nj].0 == x);
                }
                if x == kv {
                    assert(es[i as int].0 == x);
                }
                if has_key(es, x) && x != kv {
                    let j = choose|j: int| 0 <= j < es.len() && #[trigger] es[j].0 == x;
                    let oj = if j < i as int || replace { j } else { j - 1 };
                    assert(old_es[oj].0 == x);
                }
            }
            assert forall|x: Seq<char>| #[trigger] self@.contains_key(x) implies self@[x] == old_es_map_insert(old_es, kv, v@)[x] by {
                let j = choose|j: int| 0 <= j < es.len() && #[trigger] es[j].0 == x;
                lemma_entry_value(es, j);
                if x != kv {
                    let oj = if j < i as int || replace { j } else { j - 1 };
                    assert(es[j] == old_es[oj]);
                    lemma_entry_value(old_es, oj);
                } else if j != i as int {
                    lemma_distinct(es, i as int, j);
                }
            }
            assert(self@ =~= old_es_map_insert(old_es, kv, v@));
        }
    }
}

/// The map that a list of pairs builds when each pair is inserted in turn.
pub open spec fn list_map(ps: Seq<(Seq<char>, Seq<char>)>) -> Map<Seq<char>, Seq<char>>
    decreases ps.len(),
{
    if ps.len() == 0 {
        Map::empty()
    } else {
        list_map(ps.drop_last()).insert(ps.last().0, ps.last().1)
    }
}

/// The pairs of a list as texts.
pub open spec fn pair_views(ps: Seq<(&String, &String)>) -> Seq<(Seq<char>, Seq<char>)> {
    ps.map_values(|p: (&String, &String)| (p.0@, p.1@))
}

/// A sorted map holding the given pairs; a later pair wins over an earlier one with the same key.
pub fn sorted_from_pairs(ps: &Vec<(&String, &String)>) -> (r: SortedStrMap)
    ensures
        r.wf(),
        r@ == list_map(pair_views(ps@)),
{
    let mut r = SortedStrMap::new();
    let mut i: usize = 0;
    while i < ps.len()
        invariant
            i <= ps@.len(),
            r.wf(),
            r@ == list_map(pair_views(ps@).take(i as int)),
        decreases ps@.len() - i,
    {
        let (k, v) = ps[i];
        r.insert(k.clone(), v.clone());
        assert(pair_views(ps@).take(i + 1).drop_last() =~= pair_views(ps@).take(i as int));
        i = i + 1;
    }
    assert(pair_views(ps@).take(i as int) =~= pair_views(ps@));
    r
}

/// The listing of a map in increasing key order: the one list with increasing keys
/// that stands for the map.
pub open spec fn sorted_listing(m: Map<Seq<char>, Seq<char>>) -> Seq<(Seq<char>, Seq<char>)> {
    choose|es: Seq<(Seq<char>, Seq<char>)>| keys_increasing(es) && entries_map(es) == m
}

/// In a list with increasing keys, the first key comes before every other key.
proof fn lemma_first_least(es: Seq<(Seq<char>, Seq<char>)>, k: Seq<char>)
    requires
        keys_increasing(es),
        es.len() > 0,
        has_key(es, k),
        k != es[0].0,
    ensures
        seq_lt(es[0].0, k),
{
    let j = choose|j: int| 0 <= j < es.len() && #[trigger] es[j].0 == k;
    assert(j != 0);
    assert(seq_lt(es[0].0, es[j].0));
}

/// Dropping the first entry of a list with increasing keys drops its key from the map.
proof fn lemma_drop_first_map(es: Seq<(Seq<char>, Seq<char>)>)
    requires
        keys_increasing(es),
        es.len() > 0,
    ensures
        keys_increasing(es.drop_first()),
        entries_map(es.drop_first()) == entries_map(es).remove(es[0].0),
{
    let t = es.drop_first();
    assert forall|i: int, j: int| 0 <= i < j < t.len() implies seq_lt(#[trigger] t[i].0, #[trigger] t[j].0) by {
        assert(t[i] == es[i + 1] && t[j] == es[j + 1]);
    }
    assert forall|x: Seq<char>| #[trigger] entries_map(t).contains_key(x) == entries_map(es).remove(es[0].0).contains_key(x) by {
        if has_key(t, x) {
            let j = choose|j: int| 0 <= j < t.len() && #[trigger] t[j].0 == x;
            assert(es[j + 1].0 == x);
            lemma_distinct(es, 0, j + 1);
        }
        if has_key(es, x) && x != es[0].0 {
            let j = choose|j: int| 0 <= j < es.len() && #[trigger] es[j].0 == x;
            assert(t[j - 1].0 == x);
        }
    }
    assert forall|x: Seq<char>| #[trigger] entries_map(t).contains_key(x) implies entries_map(t)[x] == entries_map(es)[x] by {
        let j = choose|j: int| 0 <= j < t.len() && #[trigger] t[j].0 == x;
        lemma_entry_value(t, j);
        assert(t[j] == es[j + 1]);
        lemma_entry_value(es, j + 1);
    }
    assert(entries_map(t) =~= entries_map(es).remove(es[0].0));
}

/// Two lists with increasing keys that stand for the same map are the same list.
pub proof fn lemma_listing_unique(a: Seq<(Seq<char>, Seq<char>)>, b: Seq<(Seq<char>, Seq<char>)>)
    requires
        keys_increasing(a),
        keys_increasing(b),
        entries_map(a) == entries_map(b),
    ensures
        a == b,
    decreases a.len(),
{
    if a.len() == 0 {
        if b.len() > 0 {
            lemma_entry_value(b, 0);
        }
        assert(a =~= b);
    } else {
        lemma_entry_value(a, 0);
        if b.len() == 0 {
            assert(false);
        }
        lemma_entry_value(b, 0);
        let ka = a[0].0;
        let kb = b[0].0;
        if ka != kb {
            lemma_first_least(a, kb);
            lemma_first_least(b, ka);
            lemma_seq_lt_total(ka, kb);
        }
        lemma_drop_first_map(a);
        lemma_drop_first_map(b);
        lemma_listing_unique(a.drop_first(), b.drop_first());
        assert(a =~= seq![a[0]] + a.drop_first());
        assert(b =~= seq![b[0]] + b.drop_first());
    }
}

impl SortedStrMap {
    /// The entries are the map's listing in key order.
    pub proof fn lemma_sorted_listing(&self)
        requires
            self.wf(),
        ensures
            self.entries() == sorted_listing(self@),
    {
        let es = choose|es: Seq<(Seq<char>, Seq<char>)>| keys_increasing(es) && entries_map(es) == self@;
        assert(keys_increasing(self.entries()) && entries_map(self.entries()) == self@);
        lemma_listing_unique(self.entries(), es);
    }
}

/// A sorted map of keys without repeats, each with the value at its place.
pub fn sorted_from_lists(ks: &Vec<String>, vs: &Vec<String>) -> (r: SortedStrMap)
    requires
        ks@.len() == vs@.len(),
        crate::text::views(ks@).no_duplicates(),
    ensures
        r.wf(),
        forall|i: int| 0 <= i < ks@.len() ==> #[trigger] r@.contains_key(ks@[i]@) && r@[ks@[i]@] == vs@[i]@,
        forall|k: Seq<char>| #[trigger] r@.contains_key(k) ==> crate::text::views(ks@).contains(k),
{
    let ghost kv = crate::text::views(ks@);
    let mut r = SortedStrMap::new();
    let mut i: usize = 0;
    while i < ks.len()
        invariant
            i <= ks@.len(),
            ks@.len() == vs@.len(),
            kv == crate::text::views(ks@),
            kv.no_duplicates(),
            r.wf(),
            forall|j: int| 0 <= j < i ==> #[trigger] r@.contains_key(ks@[j]@) && r@[ks@[j]@] == vs@[j]@,
            forall|k: Seq<char>| #[trigger] r@.contains_key(k) ==> kv.take(i as int).contains(k),
        decreases ks@.len() - i,
    {
        let ghost before = r@;
        r.insert(ks[i].clone(), vs[i].clone());
        proof {
            assert forall|j: int| 0 <= j < i + 1 implies #[trigger] r@.contains_key(ks@[j]@) && r@[ks@[j]@] == vs@[j]@ by {
                if j < i {
                    assert(kv[j] != kv[i as int]);
                    assert(before.contains_key(ks@[j]@));
                }
            }
            assert forall|k: Seq<char>| #[trigger] r@.contains_key(k) implies kv.take(i + 1).contains(k) by {
                crate::text::lemma_take_one_more(kv, i as int, k);
                if k != kv[i as int] {
                    assert(before.contains_key(k));
                }
            }
        }
        i = i + 1;
    }
    proof {
        assert(kv.take(i as int) =~= kv);
    }
    r
}

spec fn old_es_map_insert(es: Seq<(Seq<char>, Seq<char>)>, k: Seq<char>, v: Seq<char>) -> Map<Seq<char>, Seq<char>> {
    entries_map(es).insert(k, v)
}

} // verus!
