use vstd::prelude::*;

use crate::json::{jview, lemma_object_view, object_view, JsonNumber, JsonValue, JsonView, NumberView};
use crate::text::{seq_lt, str_eq, str_lt};

verus! {

/// The member named `k`, the first one.
pub open spec fn member(lm: Seq<(Seq<char>, JsonView)>, k: Seq<char>) -> Option<JsonView>
    decreases lm.len(),
{
    if lm.len() == 0 {
        None
    } else if lm[0].0 == k {
        Some(lm[0].1)
    } else {
        member(lm.drop_first(), k)
    }
}

/// The members with `k` set to `v`, as a `BTreeMap`-backed object does it: the member of
/// that name replaced where it is, or, when there is none, a member inserted before the
/// first member whose name comes after `k`.
pub open spec fn set_member(lm: Seq<(Seq<char>, JsonView)>, k: Seq<char>, v: JsonView) -> Seq<(Seq<char>, JsonView)> {
    if member(lm, k) is Some { replace_first(lm, k, v) } else { insert_sorted(lm, k, v) }
}

/// The first member named `k` given the value `v`.
pub open spec fn replace_first(lm: Seq<(Seq<char>, JsonView)>, k: Seq<char>, v: JsonView) -> Seq<(Seq<char>, JsonView)>
    decreases lm.len(),
{
    if lm.len() == 0 {
        lm
    } else if lm[0].0 == k {
        seq![(k, v)] + lm.drop_first()
    } else {
        seq![lm[0]] + replace_first(lm.drop_first(), k, v)
    }
}

/// `(k, v)` inserted before the first member whose name comes after `k`, or at the end.
pub open spec fn insert_sorted(lm: Seq<(Seq<char>, JsonView)>, k: Seq<char>, v: JsonView) -> Seq<(Seq<char>, JsonView)>
    decreases lm.len(),
{
    if lm.len() == 0 {
        seq![(k, v)]
    } else if seq_lt(k, lm[0].0) {
        seq![(k, v)] + lm
    } else {
        seq![lm[0]] + insert_sorted(lm.drop_first(), k, v)
    }
}

/// A value read as an `i64`, as `serde_json`'s `as_i64` reads it.
pub open spec fn as_i64(v: JsonView) -> Option<i64> {
    match v {
        JsonView::Number(NumberView::PosInt(u)) => if u <= i64::MAX { Some(u as i64) } else { None },
        JsonView::Number(NumberView::NegInt(i)) => Some(i),
        _ => None,
    }
}

/// The JSON number of an `i64`.
pub open spec fn int_view(n: i64) -> JsonView {
    if n < 0 { JsonView::Number(NumberView::NegInt(n)) } else { JsonView::Number(NumberView::PosInt(n as u64)) }
}

/// Remote counters merged into local ones: both objects, each remote member folded in by
/// `merge_member`; anything else leaves the local value.
pub open spec fn merge(l: JsonView, r: JsonView) -> JsonView
    decreases r, 0nat,
{
    match l {
        JsonView::Object(lm) => match r {
            JsonView::Object(rm) => JsonView::Object(merge_fold(lm, rm, rm.len() as nat)),
            _ => l,
        },
        _ => l,
    }
}

/// The first `n` remote members folded into the local members.
pub open spec fn merge_fold(lm: Seq<(Seq<char>, JsonView)>, rm: Seq<(Seq<char>, JsonView)>, n: nat) -> Seq<(Seq<char>, JsonView)>
    decreases rm, n,
{
    if n == 0 || n > rm.len() {
        lm
    } else {
        merge_member(merge_fold(lm, rm, (n - 1) as nat), rm[n - 1].0, rm[n - 1].1)
    }
}

/// One remote member folded in: `apps` merges app by app (each app's object created empty
/// when missing); an integer adds to a local integer (wrapping); another number is added
/// when the name is missing; anything else changes nothing.
pub open spec fn merge_member(lm: Seq<(Seq<char>, JsonView)>, key: Seq<char>, rv: JsonView) -> Seq<(Seq<char>, JsonView)>
    decreases rv, 1nat,
{
    if key == "apps"@ {
        let lm1 = if member(lm, key) is Some { lm } else { set_member(lm, key, JsonView::Object(Seq::empty())) };
        match member(lm1, key) {
            Some(JsonView::Object(lam)) => match rv {
                JsonView::Object(ram) => set_member(lm1, key, JsonView::Object(apps_fold(lam, ram, ram.len() as nat))),
                _ => lm1,
            },
            _ => lm1,
        }
    } else if member(lm, key) is Some && as_i64(rv) is Some {
        match as_i64(member(lm, key)->0) {
            Some(a) => set_member(lm, key, int_view(a.wrapping_add(as_i64(rv)->0))),
            None => lm,
        }
    } else if rv is Number {
        if member(lm, key) is Some { lm } else { set_member(lm, key, rv) }
    } else {
        lm
    }
}

/// The first `n` remote apps merged into the local apps.
pub open spec fn apps_fold(lam: Seq<(Seq<char>, JsonView)>, ram: Seq<(Seq<char>, JsonView)>, n: nat) -> Seq<(Seq<char>, JsonView)>
    decreases ram, n,
{
    if n == 0 || n > ram.len() {
        lam
    } else {
        let acc = apps_fold(lam, ram, (n - 1) as nat);
        let l_app = match member(acc, ram[n - 1].0) {
            Some(a) => a,
            None => JsonView::Object(Seq::empty()),
        };
        set_member(acc, ram[n - 1].0, merge(l_app, ram[n - 1].1))
    }
}


/// Where `k` first occurs, it is found, and setting it replaces that member.
proof fn lemma_first_member(lm: Seq<(Seq<char>, JsonView)>, k: Seq<char>, v: JsonView, idx: int)
    requires
        0 <= idx < lm.len(),
        lm[idx].0 == k,
        forall|j: int| 0 <= j < idx ==> (#[trigger] lm[j]).0 != k,
    ensures
        replace_first(lm, k, v) == lm.update(idx, (k, v)),
        member(lm, k) == Some(lm[idx].1),
    decreases idx,
{
    if idx == 0 {
        assert(seq![(k, v)] + lm.drop_first() =~= lm.update(0, (k, v)));
    } else {
        let t = lm.drop_first();
        assert forall|j: int| 0 <= j < idx - 1 implies (#[trigger] t[j]).0 != k by {
            assert(t[j] == lm[j + 1]);
        }
        assert(lm[0].0 != k);
        lemma_first_member(t, k, v, idx - 1);
        assert(seq![lm[0]] + t.update(idx - 1, (k, v)) =~= lm.update(idx, (k, v)));
    }
}

/// A name that no member has is not found.
proof fn lemma_no_member(lm: Seq<(Seq<char>, JsonView)>, k: Seq<char>)
    requires
        forall|j: int| 0 <= j < lm.len() ==> (#[trigger] lm[j]).0 != k,
    ensures
        member(lm, k) is None,
    decreases lm.len(),
{
    if lm.len() > 0 {
        let t = lm.drop_first();
        assert forall|j: int| 0 <= j < t.len() implies (#[trigger] t[j]).0 != k by {
            assert(t[j] == lm[j + 1]);
        }
        assert(lm[0].0 != k);
        lemma_no_member(t, k);
    }
}

proof fn lemma_view_update(ms: Seq<(String, JsonValue)>, i: int, e: (String, JsonValue))
    requires
        0 <= i < ms.len(),
    ensures
        object_view(ms.update(i, e)) == object_view(ms).update(i, (e.0@, jview(e.1))),
{
    lemma_object_view(ms);
    lemma_object_view(ms.update(i, e));
    assert(object_view(ms.update(i, e)) =~= object_view(ms).update(i, (e.0@, jview(e.1))));
}

proof fn lemma_view_insert(ms: Seq<(String, JsonValue)>, i: int, e: (String, JsonValue))
    requires
        0 <= i <= ms.len(),
    ensures
        object_view(ms.insert(i, e)) == object_view(ms).insert(i, (e.0@, jview(e.1))),
{
    lemma_object_view(ms);
    lemma_object_view(ms.insert(i, e));
    assert(object_view(ms.insert(i, e)) =~= object_view(ms).insert(i, (e.0@, jview(e.1))));
}

/// The first position of the member named `k`.
fn find_member(ms: &Vec<(String, JsonValue)>, k: &str) -> (r: Option<usize>)
    ensures
        match r {
            Some(i) => i < ms@.len() && ms@[i as int].0@ == k@
                && (forall|j: int| 0 <= j < i ==> (#[trigger] ms@[j]).0@ != k@)
                && member(object_view(ms@), k@) == Some(jview(ms@[i as int].1)),
            None => member(object_view(ms@), k@) is None && (forall|j: int| 0 <= j < ms@.len() ==> (#[trigger] ms@[j]).0@ != k@),
        },
{
    let ghost ov = object_view(ms@);
    proof {
        lemma_object_view(ms@);
    }
    let mut i: usize = 0;
    while i < ms.len()
        invariant
            i <= ms@.len(),
            ov == object_view(ms@),
            ov == Seq::new(ms@.len(), |j: int| (ms@[j].0@, jview(ms@[j].1))),
            forall|j: int| 0 <= j < i ==> (#[trigger] ms@[j]).0@ != k@,
        decreases ms@.len() - i,
    {
        if str_eq(ms[i].0.as_str(), k) {
            proof {
                assert forall|j: int| 0 <= j < i implies (#[trigger] ov[j]).0 != k@ by {
                    assert(ov[j].0 == ms@[j].0@);
                }
                lemma_first_member(ov, k@, JsonView::Null, i as int);
            }
            return Some(i);
        }
        i = i + 1;
    }
    proof {
        assert forall|j: int| 0 <= j < ov.len() implies (#[trigger] ov[j]).0 != k@ by {
            assert(ov[j].0 == ms@[j].0@);
        }
        lemma_no_member(ov, k@);
    }
    None
}

/// Sets the member `k` to `v`, as `set_member` says.
fn set_member_exec(ms: &mut Vec<(String, JsonValue)>, k: String, v: JsonValue)
    ensures
        object_view(final(ms)@) == set_member(object_view(old(ms)@), k@, jview(v)),
{
    let ghost l = object_view(ms@);
    let ghost kv = k@;
    let ghost vv = jview(v);
    proof {
        lemma_object_view(ms@);
    }
    match find_member(ms, k.as_str()) {
        Some(i) => {
            let ghost before = ms@;
            let _ = ms.remove(i);
            ms.insert(i, (k, v));
            proof {
                assert(ms@ =~= before.update(i as int, ms@[i as int]));
                lemma_view_update(before, i as int, ms@[i as int]);
                assert forall|j: int| 0 <= j < i implies (#[trigger] l[j]).0 != kv by {
                    assert(l[j].0 == before[j].0@);
                }
                lemma_first_member(l, kv, vv, i as int);
            }
            return;
        },
        None => {},
    }
    proof {
        assert(l.skip(0) =~= l);
        assert(l.take(0) + insert_sorted(l.skip(0), kv, vv) =~= insert_sorted(l, kv, vv));
    }
    let mut i: usize = 0;
    while i < ms.len()
        invariant
            i <= ms@.len(),
            ms@.len() == l.len(),
            l == object_view(ms@),
            l == Seq::new(ms@.len(), |j: int| (ms@[j].0@, jview(ms@[j].1))),
            insert_sorted(l, kv, vv) == l.take(i as int) + insert_sorted(l.skip(i as int), kv, vv),
            member(l, kv) is None,
            l == object_view(old(ms)@),
            kv == k@,
            vv == jview(v),
        decreases ms@.len() - i,
    {
        let ghost rest = l.skip(i as int);
        assert(rest[0] == l[i as int]);
        if str_lt(k.as_str(), ms[i].0.as_str()) {
            let ghost before = ms@;
            ms.insert(i, (k, v));
            proof {
                assert(ms@ =~= before.insert(i as int, ms@[i as int]));
                lemma_view_insert(before, i as int, ms@[i as int]);
                assert(insert_sorted(rest, kv, vv) =~= seq![(kv, vv)] + rest);
                assert(l.take(i as int) + (seq![(kv, vv)] + rest) =~= l.insert(i as int, (kv, vv)));
            }
            return;
        }
        proof {
            assert(insert_sorted(rest, kv, vv) == seq![rest[0]] + insert_sorted(rest.drop_first(), kv, vv));
            assert(rest.drop_first() =~= l.skip(i + 1));
            assert(l.take(i + 1) =~= l.take(i as int) + seq![rest[0]]);
        }
        i = i + 1;
    }
    let ghost before = ms@;
    ms.push((k, v));
    proof {
        assert(ms@ =~= before.insert(before.len() as int, ms@[before.len() as int]));
        lemma_view_insert(before, before.len() as int, ms@[before.len() as int]);
        assert(l.skip(l.len() as int) =~= Seq::<(Seq<char>, JsonView)>::empty());
        assert(l.take(l.len() as int) =~= l);
        assert(l + seq![(kv, vv)] =~= l.insert(l.len() as int, (kv, vv)));
    }
}


/// Setting a missing member and then setting it again is setting it once.
proof fn lemma_set_twice(lm: Seq<(Seq<char>, JsonView)>, k: Seq<char>, v1: JsonView, v2: JsonView)
    requires
        member(lm, k) is None,
    ensures
        member(insert_sorted(lm, k, v1), k) == Some(v1),
        replace_first(insert_sorted(lm, k, v1), k, v2) == insert_sorted(lm, k, v2),
    decreases lm.len(),
{
    if lm.len() > 0 {
        if seq_lt(k, lm[0].0) {
            assert((seq![(k, v1)] + lm)[0].0 == k);
            assert((seq![(k, v1)] + lm).drop_first() =~= lm);
        } else {
            lemma_set_twice(lm.drop_first(), k, v1, v2);
            let t = seq![lm[0]] + insert_sorted(lm.drop_first(), k, v1);
            assert(t[0] == lm[0]);
            assert(t.drop_first() =~= insert_sorted(lm.drop_first(), k, v1));
        }
    } else {
        assert(seq![(k, v1)].drop_first() =~= Seq::<(Seq<char>, JsonView)>::empty());
    }
}

fn copy_number(n: &JsonNumber) -> (r: JsonNumber)
    ensures
        crate::json::number_view(r) == crate::json::number_view(*n),
{
    match n {
        JsonNumber::PosInt(u) => JsonNumber::PosInt(*u),
        JsonNumber::NegInt(i) => JsonNumber::NegInt(*i),
        JsonNumber::Float(t) => JsonNumber::Float(t.clone()),
    }
}

fn as_i64_exec(v: &JsonValue) -> (r: Option<i64>)
    ensures
        r == as_i64(jview(*v)),
{
    match v {
        JsonValue::Number(JsonNumber::PosInt(u)) => if *u <= 9223372036854775807u64 { Some(*u as i64) } else { None },
        JsonValue::Number(JsonNumber::NegInt(i)) => Some(*i),
        _ => None,
    }
}

fn int_value(n: i64) -> (r: JsonValue)
    ensures
        jview(r) == int_view(n),
{
    if n < 0 {
        JsonValue::Number(JsonNumber::NegInt(n))
    } else {
        JsonValue::Number(JsonNumber::PosInt(n as u64))
    }
}

/// The empty object.
fn empty_object() -> (r: JsonValue)
    ensures
        jview(r) == JsonView::Object(Seq::empty()),
{
    let v: Vec<(String, JsonValue)> = Vec::new();
    let r = JsonValue::Object(v);
    assert(crate::json::members_view(v@, 0) =~= Seq::<(Seq<char>, JsonView)>::empty());
    r
}

/// Merges counters reported by another node into this node's counters: objects member by
/// member, integers added up, the `apps` object app by app (see `merge`).
pub fn merge_metrics(local: JsonValue, remote: &JsonValue) -> (r: JsonValue)
    ensures
        jview(r) == merge(jview(local), jview(*remote)),
    decreases remote, 0nat,
{
    match local {
        JsonValue::Object(lm) => match remote {
            JsonValue::Object(rm) => {
                let mut lm = lm;
                let ghost lm0 = object_view(lm@);
                let ghost rmv = object_view(rm@);
                proof {
                    lemma_object_view(rm@);
                }
                let mut i: usize = 0;
                while i < rm.len()
                    invariant
                        i <= rm@.len(),
                        rmv == object_view(rm@),
                        rmv == Seq::new(rm@.len(), |j: int| (rm@[j].0@, jview(rm@[j].1))),
                        *remote == JsonValue::Object(*rm),
                        object_view(lm@) == merge_fold(lm0, rmv, i as nat),
                    decreases rm@.len() - i,
                {
                    proof {
                        vstd::std_specs::vec::axiom_vec_index_decreases(*rm, i as int);
                        assert(decreases_to!(*remote => (*remote)->Object_0));
                        assert(decreases_to!(rm[i as int] => rm[i as int].1));
                    }
                    merge_member_exec(&mut lm, &rm[i].0, &rm[i].1);
                    i = i + 1;
                }
                JsonValue::Object(lm)
            },
            _ => JsonValue::Object(lm),
        },
        other => other,
    }
}

/// Folds one remote member into the local members, as `merge_member` says.
fn merge_member_exec(lm: &mut Vec<(String, JsonValue)>, key: &String, rv: &JsonValue)
    ensures
        object_view(final(lm)@) == merge_member(object_view(old(lm)@), key@, jview(*rv)),
    decreases rv, 1nat,
{
    let ghost l = object_view(lm@);
    proof {
        lemma_object_view(lm@);
    }
    if str_eq(key.as_str(), "apps") {
        match find_member(lm, "apps") {
            None => {
                match rv {
                    JsonValue::Object(ram) => {
                        proof {
                            assert(decreases_to!(*rv => (*rv)->Object_0));
                            lemma_object_view(ram@);
                        }
                        let none: Vec<(String, JsonValue)> = Vec::new();
                        assert(object_view(none@) =~= Seq::<(Seq<char>, JsonView)>::empty());
                        let merged = apps_fold_exec(none, ram);
                        proof {
                            lemma_set_twice(l, key@, JsonView::Object(Seq::empty()), JsonView::Object(object_view(merged@)));
                        }
                        set_member_exec(lm, key.clone(), JsonValue::Object(merged));
                        assert(object_view(lm@) == merge_member(l, key@, jview(*rv)));
                    },
                    _ => {
                        set_member_exec(lm, key.clone(), empty_object());
                        proof {
                            lemma_set_twice(l, key@, JsonView::Object(Seq::empty()), JsonView::Null);
                        }
                        assert(object_view(lm@) == merge_member(l, key@, jview(*rv)));
                    },
                }
            },
            Some(i) => {
                match rv {
                    JsonValue::Object(ram) => {
                        let ghost before = lm@;
                        let (k, val) = lm.remove(i);
                        match val {
                            JsonValue::Object(lam) => {
                                proof {
                                    assert(decreases_to!(*rv => (*rv)->Object_0));
                                    lemma_object_view(ram@);
                                }
                                let merged = apps_fold_exec(lam, ram);
                                lm.insert(i, (k, JsonValue::Object(merged)));
                                proof {
                                    assert(lm@ =~= before.update(i as int, lm@[i as int]));
                                    lemma_view_update(before, i as int, lm@[i as int]);
                                    assert forall|j: int| 0 <= j < i implies (#[trigger] l[j]).0 != key@ by {
                                        assert(l[j].0 == before[j].0@);
                                    }
                                    lemma_first_member(l, key@, JsonView::Object(object_view(merged@)), i as int);
                                }
                                assert(object_view(lm@) == merge_member(l, key@, jview(*rv)));
                            },
                            other => {
                                lm.insert(i, (k, other));
                                proof {
                                    assert(lm@ =~= before);
                                }
                            },
                        }
                    },
                    _ => {},
                }
            },
        }
    } else {
        let found = find_member(lm, key.as_str());
        let r = as_i64_exec(rv);
        match found {
            Some(i) => {
                match r {
                    Some(b) => {
                        match as_i64_exec(&lm[i].1) {
                            Some(a) => {
                                let sum = a.wrapping_add(b);
                                set_member_exec(lm, key.clone(), int_value(sum));
                                assert(object_view(lm@) == merge_member(l, key@, jview(*rv)));
                            },
                            None => {},
                        }
                    },
                    None => {},
                }
            },
            None => {
                match rv {
                    JsonValue::Number(n) => {
                        set_member_exec(lm, key.clone(), JsonValue::Number(copy_number(n)));
                        assert(object_view(lm@) == merge_member(l, key@, jview(*rv)));
                    },
                    _ => {},
                }
            },
        }
    }
}

/// Merges the remote apps into the local apps, as `apps_fold` says.
fn apps_fold_exec(lam: Vec<(String, JsonValue)>, ram: &Vec<(String, JsonValue)>) -> (r: Vec<(String, JsonValue)>)
    ensures
        object_view(r@) == apps_fold(object_view(lam@), object_view(ram@), ram@.len() as nat),
    decreases ram, 2nat,
{
    let ghost l0 = object_view(lam@);
    let ghost rv = object_view(ram@);
    proof {
        lemma_object_view(ram@);
    }
    let mut acc = lam;
    let mut i: usize = 0;
    while i < ram.len()
        invariant
            i <= ram@.len(),
            rv == object_view(ram@),
            rv == Seq::new(ram@.len(), |j: int| (ram@[j].0@, jview(ram@[j].1))),
            object_view(acc@) == apps_fold(l0, rv, i as nat),
        decreases ram@.len() - i,
    {
        let ghost a = object_view(acc@);
        proof {
            lemma_object_view(acc@);
            vstd::std_specs::vec::axiom_vec_index_decreases(*ram, i as int);
            assert(decreases_to!(ram[i as int] => ram[i as int].1));
        }
        let id = &ram[i].0;
        match find_member(&acc, id.as_str()) {
            Some(j) => {
                let ghost before = acc@;
                let (k, l_app) = acc.remove(j);
                let merged = merge_metrics(l_app, &ram[i].1);
                acc.insert(j, (k, merged));
                proof {
                    assert(acc@ =~= before.update(j as int, acc@[j as int]));
                    lemma_view_update(before, j as int, acc@[j as int]);
                    assert forall|x: int| 0 <= x < j implies (#[trigger] a[x]).0 != id@ by {
                        assert(a[x].0 == before[x].0@);
                    }
                    lemma_first_member(a, id@, jview(merged), j as int);
                }
            },
            None => {
                let merged = merge_metrics(empty_object(), &ram[i].1);
                set_member_exec(&mut acc, id.clone(), merged);
            },
        }
        i = i + 1;
    }
    acc
}


/// The local counters with the counters of the first `n` peers merged in, in order.
pub open spec fn merge_all(local: JsonView, remotes: Seq<JsonView>, n: nat) -> JsonView
    decreases n,
{
    if n == 0 || n > remotes.len() {
        local
    } else {
        merge(merge_all(local, remotes, (n - 1) as nat), remotes[n - 1])
    }
}

/// The counters of the whole cluster: this node's with every peer's merged in.
pub fn aggregate_metrics(local: JsonValue, remotes: &Vec<JsonValue>) -> (r: JsonValue)
    ensures
        jview(r) == merge_all(jview(local), remotes@.map_values(|v: JsonValue| jview(v)), remotes@.len() as nat),
{
    let ghost rs = remotes@.map_values(|v: JsonValue| jview(v));
    let mut acc = local;
    let ghost l0 = jview(acc);
    let mut i: usize = 0;
    while i < remotes.len()
        invariant
            i <= remotes@.len(),
            rs == remotes@.map_values(|v: JsonValue| jview(v)),
            jview(acc) == merge_all(l0, rs, i as nat),
        decreases remotes@.len() - i,
    {
        acc = merge_metrics(acc, &remotes[i]);
        i = i + 1;
    }
    acc
}

} // verus!
