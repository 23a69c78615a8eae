use vstd::prelude::*;

use md5::{Digest, Md5};

use crate::auth::{hex_encode, http_request_message, lemma_hex_len, sign_http_request, spec_hex_lower, spec_sign};
use crate::sorted::{entries_map, has_key, keys_increasing, lemma_entry_value, lemma_listing_unique, SortedStrMap};
use crate::text::seq_lt;
use crate::text::{append, str_eq};

verus! {

/// The MD5 digest of a byte string.
pub uninterp spec fn spec_md5(data: Seq<u8>) -> Seq<u8>;

/// `md5::Md5::digest` (RustCrypto `md-5`): the 16-byte MD5 digest of `data`.
#[verifier::external_body]
fn md5_digest(data: &[u8]) -> (r: Vec<u8>)
    ensures
        r@ == spec_md5(data@),
        r@.len() == 16,
{
    <Md5 as Digest>::digest(data).to_vec()
}

/// The `k=v` texts of the entries that are signed: all but `auth_signature`.
pub open spec fn signed_pairs(es: Seq<(Seq<char>, Seq<char>)>) -> Seq<Seq<char>>
    decreases es.len(),
{
    if es.len() == 0 {
        Seq::empty()
    } else {
        let rest = signed_pairs(es.drop_last());
        let e = es.last();
        if e.0 == "auth_signature"@ {
            rest
        } else {
            rest.push(e.0 + "="@ + e.1)
        }
    }
}

/// Texts joined with `&` between them.
pub open spec fn join_amp(parts: Seq<Seq<char>>) -> Seq<char>
    decreases parts.len(),
{
    if parts.len() == 0 {
        Seq::empty()
    } else if parts.len() == 1 {
        parts[0]
    } else {
        join_amp(parts.drop_last()) + "&"@ + parts.last()
    }
}

/// The query string that a request signs: its parameters but `auth_signature`, in key
/// order, as `k=v` joined with `&`.
pub open spec fn signed_query(es: Seq<(Seq<char>, Seq<char>)>) -> Seq<char> {
    join_amp(signed_pairs(es))
}

/// The query string that a request with these parameters signs.
pub fn signing_query(params: &SortedStrMap) -> (r: String)
    ensures
        r@ == signed_query(params.entries()),
{
    let ghost es = params.entries();
    let mut q = String::new();
    let mut any = false;
    let n = params.len();
    let mut i: usize = 0;
    assert(es.take(0) =~= Seq::<(Seq<char>, Seq<char>)>::empty());
    while i < n
        invariant
            n == es.len(),
            es == params.entries(),
            i <= n,
            q@ == join_amp(signed_pairs(es.take(i as int))),
            any == (signed_pairs(es.take(i as int)).len() > 0),
        decreases n - i,
    {
        let (k, v) = params.entry_at(i);
        let ghost before = signed_pairs(es.take(i as int));
        assert(es.take(i + 1).drop_last() =~= es.take(i as int));
        if !str_eq(k.as_str(), "auth_signature") {
            if any {
                append(&mut q, "&");
            }
            append(&mut q, k.as_str());
            append(&mut q, "=");
            append(&mut q, v.as_str());
            proof {
                let part = k@ + "="@ + v@;
                assert(before.push(part).drop_last() =~= before);
                assert(q@ =~= if before.len() == 0 { part } else { join_amp(before) + "&"@ + part });
            }
            any = true;
        }
        i = i + 1;
    }
    assert(es.take(n as int) =~= es);
    q
}

/// Verify a Pusher HTTP API request signature: the hex HMAC-SHA256, under the app
/// secret, of `METHOD\npath\nquery`, where the query holds the parameters but
/// `auth_signature`, sorted by key, as `k=v` joined with `&`.
pub fn verify_http_signature(
    secret: &str,
    method: &str,
    path: &str,
    query_params: &SortedStrMap,
    auth_signature: &str,
) -> (r: bool)
    ensures
        r == (spec_sign(secret@, http_request_message(method@, path@, signed_query(query_params.entries())))
            == auth_signature@),
{
    let query_string = signing_query(query_params);
    let expected = sign_http_request(secret, method, path, query_string.as_str());
    str_eq(expected.as_str(), auth_signature)
}

/// The MD5 digest of a body, as lower-case hex.
pub fn body_md5(body: &[u8]) -> (r: String)
    ensures
        r@ == spec_hex_lower(spec_md5(body@)),
        r@.len() == 32,
{
    let digest = md5_digest(body);
    let r = hex_encode(digest.as_slice());
    proof {
        lemma_hex_len(digest@);
    }
    r
}

} // verus!

verus! {

/// The entries of a list but those named `auth_signature`.
pub open spec fn without_signature(es: Seq<(Seq<char>, Seq<char>)>) -> Seq<(Seq<char>, Seq<char>)>
    decreases es.len(),
{
    if es.len() == 0 {
        es
    } else if es.last().0 == "auth_signature"@ {
        without_signature(es.drop_last())
    } else {
        without_signature(es.drop_last()).push(es.last())
    }
}

proof fn lemma_signed_pairs_without(es: Seq<(Seq<char>, Seq<char>)>)
    ensures
        signed_pairs(es) == signed_pairs(without_signature(es)),
    decreases es.len(),
{
    if es.len() > 0 {
        lemma_signed_pairs_without(es.drop_last());
        let w = without_signature(es.drop_last());
        if es.last().0 != "auth_signature"@ {
            assert(w.push(es.last()).drop_last() =~= w);
        }
    }
}

proof fn lemma_without_from(es: Seq<(Seq<char>, Seq<char>)>)
    ensures
        forall|i: int| 0 <= i < without_signature(es).len() ==> es.contains(#[trigger] without_signature(es)[i]),
        forall|i: int| 0 <= i < without_signature(es).len() ==> (#[trigger] without_signature(es)[i]).0 != "auth_signature"@,
    decreases es.len(),
{
    if es.len() > 0 {
        let p = es.drop_last();
        lemma_without_from(p);
        let w = without_signature(p);
        assert forall|i: int| 0 <= i < without_signature(es).len() implies es.contains(#[trigger] without_signature(es)[i]) by {
            if i < w.len() {
                assert(without_signature(es)[i] == w[i]);
                assert(p.contains(w[i]));
                let j = choose|j: int| 0 <= j < p.len() && p[j] == w[i];
                assert(es[j] == p[j]);
            } else {
                assert(es[es.len() - 1] == without_signature(es)[i]);
            }
        }
    }
}

proof fn lemma_without_to(es: Seq<(Seq<char>, Seq<char>)>)
    ensures
        forall|j: int| 0 <= j < es.len() && (#[trigger] es[j]).0 != "auth_signature"@ ==> without_signature(es).contains(es[j]),
    decreases es.len(),
{
    if es.len() > 0 {
        let p = es.drop_last();
        lemma_without_to(p);
        let w = without_signature(p);
        assert forall|j: int| 0 <= j < es.len() && (#[trigger] es[j]).0 != "auth_signature"@ implies without_signature(es).contains(es[j]) by {
            if j < es.len() - 1 {
                assert(p[j] == es[j]);
                assert(w.contains(p[j]));
                let i = choose|i: int| 0 <= i < w.len() && w[i] == p[j];
                assert(without_signature(es)[i] == w[i]);
            } else {
                assert(without_signature(es)[w.len() as int] == es[j]);
            }
        }
    }
}

proof fn lemma_without_sorted(es: Seq<(Seq<char>, Seq<char>)>)
    requires
        keys_increasing(es),
    ensures
        keys_increasing(without_signature(es)),
    decreases es.len(),
{
    if es.len() > 0 {
        let p = es.drop_last();
        assert forall|a: int, b: int| 0 <= a < b < p.len() implies seq_lt(#[trigger] p[a].0, #[trigger] p[b].0) by {
            assert(p[a] == es[a] && p[b] == es[b]);
        }
        lemma_without_sorted(p);
        lemma_without_from(p);
        let w = without_signature(p);
        if es.last().0 != "auth_signature"@ {
            let t = without_signature(es);
            assert forall|a: int, b: int| 0 <= a < b < t.len() implies seq_lt(#[trigger] t[a].0, #[trigger] t[b].0) by {
                if b < w.len() {
                    assert(t[a] == w[a] && t[b] == w[b]);
                } else {
                    assert(t[a] == w[a]);
                    assert(p.contains(w[a]));
                    let j = choose|j: int| 0 <= j < p.len() && p[j] == w[a];
                    assert(es[j] == p[j]);
                    assert(seq_lt(es[j].0, es[es.len() - 1].0));
                }
            }
        }
    }
}

/// The filtered list stands for the map without `auth_signature`.
#[verifier::rlimit(30)]
proof fn lemma_without_map(es: Seq<(Seq<char>, Seq<char>)>)
    requires
        keys_increasing(es),
    ensures
        keys_increasing(without_signature(es)),
        entries_map(without_signature(es)) == entries_map(es).remove("auth_signature"@),
{
    lemma_without_from(es);
    lemma_without_to(es);
    lemma_without_sorted(es);
    let w = without_signature(es);
    let k = "auth_signature"@;
    assert forall|x: Seq<char>| #[trigger] entries_map(w).contains_key(x) == entries_map(es).remove(k).contains_key(x) by {
        if has_key(w, x) {
            let i = choose|i: int| 0 <= i < w.len() && #[trigger] w[i].0 == x;
            assert(es.contains(w[i]));
            let j = choose|j: int| 0 <= j < es.len() && es[j] == w[i];
            assert(es[j].0 == x);
            assert(has_key(es, x));
        }
        if has_key(es, x) && x != k {
            let j = choose|j: int| 0 <= j < es.len() && #[trigger] es[j].0 == x;
            assert(w.contains(es[j]));
            let i = choose|i: int| 0 <= i < w.len() && w[i] == es[j];
            assert(w[i].0 == x);
            assert(has_key(w, x));
        }
    }
    assert forall|x: Seq<char>| #[trigger] entries_map(w).contains_key(x) implies entries_map(w)[x] == entries_map(es)[x] by {
        let i = choose|i: int| 0 <= i < w.len() && #[trigger] w[i].0 == x;
        assert(es.contains(w[i]));
        let j = choose|j: int| 0 <= j < es.len() && es[j] == w[i];
        lemma_entry_value(w, i);
        lemma_entry_value(es, j);
    }
    assert(entries_map(w) =~= entries_map(es).remove(k));
}

/// A request's signature does not cover its `auth_signature` parameter: two parameter
/// lists that differ only there sign the same query string.
pub proof fn law_auth_signature_not_signed(p1: SortedStrMap, p2: SortedStrMap)
    requires
        p1.wf(),
        p2.wf(),
        p1@.remove("auth_signature"@) == p2@.remove("auth_signature"@),
    ensures
        signed_query(p1.entries()) == signed_query(p2.entries()),
{
    lemma_without_map(p1.entries());
    lemma_without_map(p2.entries());
    lemma_listing_unique(without_signature(p1.entries()), without_signature(p2.entries()));
    lemma_signed_pairs_without(p1.entries());
    lemma_signed_pairs_without(p2.entries());
}

} // verus!
