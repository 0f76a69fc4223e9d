//! An in-memory model of the collaborating key-value store: the committed
//! map the bridge's operations are specified against, with snapshot reads
//! and staged transactions applied on commit. Keys are kept in lexicographic
//! order, as the store scans them.

use vstd::prelude::*;
use crate::order::lex_lt;
use crate::order::key_lt;
use crate::order::bytes_eq;
use crate::order::copy_bytes;
use crate::order::lemma_lex_lt_trans;
use crate::order::lemma_lex_lt_irrefl;
use crate::order::lemma_lex_trichotomy;
use crate::range::BoundRange;
use crate::range::in_range;
use crate::range::range_contains;

verus! {

/// An ordered pair of a binary key and a binary value.
#[derive(Debug, PartialEq, Eq)]
pub struct KvPair {
    pub key: Vec<u8>,
    pub value: Vec<u8>,
}

/// The byte contents of a sequence of pairs.
pub open spec fn pair_views(pairs: Seq<KvPair>) -> Seq<(Seq<u8>, Seq<u8>)> {
    pairs.map(|i: int, p: KvPair| (p.key@, p.value@))
}

/// The byte contents of a sequence of keys.
pub open spec fn key_views(keys: Seq<Vec<u8>>) -> Seq<Seq<u8>> {
    keys.map(|i: int, k: Vec<u8>| k@)
}

/// Keys strictly ascend: the store's pairs are sorted and no key repeats.
pub open spec fn sorted_keys(s: Seq<(Seq<u8>, Seq<u8>)>) -> bool {
    forall|i: int, j: int| 0 <= i < j < s.len() ==> lex_lt(s[i].0, s[j].0)
}

/// The value stored under `k`: the first pair holding `k`, if any.
pub open spec fn lookup(s: Seq<(Seq<u8>, Seq<u8>)>, k: Seq<u8>) -> Option<Seq<u8>>
    decreases s.len(),
{
    if s.len() == 0 {
        None
    } else if s[0].0 == k {
        Some(s[0].1)
    } else {
        lookup(s.skip(1), k)
    }
}

/// Binding `k` to `v`: replaces the pair holding `k`, or places a new pair
/// at its ordered position.
pub open spec fn kv_insert(s: Seq<(Seq<u8>, Seq<u8>)>, k: Seq<u8>, v: Seq<u8>) -> Seq<
    (Seq<u8>, Seq<u8>),
>
    decreases s.len(),
{
    if s.len() == 0 {
        seq![(k, v)]
    } else if lex_lt(k, s[0].0) {
        seq![(k, v)] + s
    } else if k == s[0].0 {
        seq![(k, v)] + s.skip(1)
    } else {
        seq![s[0]] + kv_insert(s.skip(1), k, v)
    }
}

/// Unbinding `k`: drops the first pair holding `k`, if any.
pub open spec fn kv_remove(s: Seq<(Seq<u8>, Seq<u8>)>, k: Seq<u8>) -> Seq<(Seq<u8>, Seq<u8>)>
    decreases s.len(),
{
    if s.len() == 0 {
        s
    } else if s[0].0 == k {
        s.skip(1)
    } else {
        seq![s[0]] + kv_remove(s.skip(1), k)
    }
}

/// Whether some pair holds `k`.
pub open spec fn has_key(s: Seq<(Seq<u8>, Seq<u8>)>, k: Seq<u8>) -> bool {
    exists|u: int| 0 <= u < s.len() && s[u].0 == k
}

/// Skipping pairs that do not hold `k` leaves the lookup unchanged.
proof fn lemma_lookup_skip(s: Seq<(Seq<u8>, Seq<u8>)>, k: Seq<u8>, i: int)
    requires
        0 <= i <= s.len(),
        forall|j: int| 0 <= j < i ==> s[j].0 != k,
    ensures
        lookup(s, k) == lookup(s.skip(i), k),
    decreases i,
{
    if i == 0 {
        assert(s.skip(0) =~= s);
    } else {
        lemma_lookup_skip(s.skip(1), k, i - 1);
        assert(s.skip(1).skip(i - 1) =~= s.skip(i));
    }
}

/// A lookup among pairs that never hold `k` finds nothing.
proof fn lemma_lookup_absent(s: Seq<(Seq<u8>, Seq<u8>)>, k: Seq<u8>)
    requires
        forall|u: int| 0 <= u < s.len() ==> s[u].0 != k,
    ensures
        lookup(s, k) is None,
    decreases s.len(),
{
    if s.len() > 0 {
        lemma_lookup_absent(s.skip(1), k);
    }
}

/// Looking up nothing and holding `k` nowhere are the same.
pub proof fn lemma_lookup_none(s: Seq<(Seq<u8>, Seq<u8>)>, k: Seq<u8>)
    ensures
        (lookup(s, k) is None) == !has_key(s, k),
    decreases s.len(),
{
    if s.len() > 0 {
        lemma_lookup_none(s.skip(1), k);
        if s[0].0 != k {
            if has_key(s, k) {
                let u = choose|u: int| 0 <= u < s.len() && s[u].0 == k;
                assert(s.skip(1)[u - 1].0 == k);
            }
            if has_key(s.skip(1), k) {
                let u = choose|u: int| 0 <= u < s.skip(1).len() && s.skip(1)[u].0 == k;
                assert(s[u + 1].0 == k);
            }
        }
    }
}

/// In a sorted sequence, the pair at any index holding `k` is what lookup
/// finds.
pub proof fn lemma_lookup_at_index(s: Seq<(Seq<u8>, Seq<u8>)>, k: Seq<u8>, v: Seq<u8>, u: int)
    requires
        sorted_keys(s),
        0 <= u < s.len(),
        s[u] == (k, v),
    ensures
        lookup(s, k) == Some(v),
    decreases s.len(),
{
    if s[0].0 == k {
        if u > 0 {
            assert(lex_lt(s[0].0, s[u].0));
            assert(s[u].0 == k);
            lemma_lex_lt_irrefl(k);
        }
        assert(u == 0);
    } else {
        assert(u > 0);
        assert(sorted_keys(s.skip(1))) by {
            assert forall|i: int, j: int|
                0 <= i < j < s.skip(1).len() implies lex_lt(s.skip(1)[i].0, s.skip(1)[j].0) by {
                assert(s.skip(1)[i] == s[i + 1]);
                assert(s.skip(1)[j] == s[j + 1]);
            }
        }
        assert(s.skip(1)[u - 1] == (k, v));
        lemma_lookup_at_index(s.skip(1), k, v, u - 1);
    }
}

/// What binding `k` to `v` does to every lookup: `k` now finds `v`, other
/// keys find what they found.
pub proof fn lemma_kv_insert_lookup(s: Seq<(Seq<u8>, Seq<u8>)>, k: Seq<u8>, v: Seq<u8>, q: Seq<u8>)
    ensures
        lookup(kv_insert(s, k, v), q) == if q == k {
            Some(v)
        } else {
            lookup(s, q)
        },
    decreases s.len(),
{
    let out = kv_insert(s, k, v);
    if s.len() == 0 {
        assert(out.len() == 1 && out[0] == (k, v));
        if q != k {
            assert(out.skip(1) =~= Seq::<(Seq<u8>, Seq<u8>)>::empty());
            assert(lookup(out, q) == lookup(out.skip(1), q));
            assert(lookup(out.skip(1), q) is None);
        }
    } else if lex_lt(k, s[0].0) {
        assert(out[0] == (k, v));
        assert(out.skip(1) =~= s);
    } else if k == s[0].0 {
        assert(out[0] == (k, v));
        if q != k {
            assert(out.skip(1) =~= s.skip(1));
            assert(lookup(out, q) == lookup(s.skip(1), q));
            assert(lookup(s, q) == lookup(s.skip(1), q));
        }
    } else {
        lemma_kv_insert_lookup(s.skip(1), k, v, q);
        assert(out.len() > 0 && out[0] == s[0]);
        assert(out.skip(1) =~= kv_insert(s.skip(1), k, v));
        assert(lookup(out, q) == if q == s[0].0 {
            Some(s[0].1)
        } else {
            lookup(kv_insert(s.skip(1), k, v), q)
        });
    }
}

/// What unbinding `k` does to every lookup in a sorted sequence: `k` finds
/// nothing, other keys find what they found.
pub proof fn lemma_kv_remove_lookup(s: Seq<(Seq<u8>, Seq<u8>)>, k: Seq<u8>, q: Seq<u8>)
    requires
        sorted_keys(s),
    ensures
        lookup(kv_remove(s, k), q) == if q == k {
            None::<Seq<u8>>
        } else {
            lookup(s, q)
        },
    decreases s.len(),
{
    let out = kv_remove(s, k);
    assert(s.len() > 0 ==> sorted_keys(s.skip(1))) by {
        if s.len() > 0 {
            assert forall|i: int, j: int|
                0 <= i < j < s.skip(1).len() implies lex_lt(s.skip(1)[i].0, s.skip(1)[j].0) by {
                assert(s.skip(1)[i] == s[i + 1]);
                assert(s.skip(1)[j] == s[j + 1]);
            }
        }
    }
    if s.len() == 0 {
    } else if s[0].0 == k {
        if q == k {
            assert forall|u: int| 0 <= u < s.skip(1).len() implies s.skip(1)[u].0 != k by {
                assert(lex_lt(s[0].0, s[u + 1].0));
                lemma_lex_lt_irrefl(k);
            }
            lemma_lookup_absent(s.skip(1), k);
        }
    } else {
        lemma_kv_remove_lookup(s.skip(1), k, q);
        assert(out[0] == s[0]);
        assert(out.skip(1) =~= kv_remove(s.skip(1), k));
    }
}

/// Every key of the bound sequence is `k` or a key of the original.
proof fn lemma_kv_insert_keys(s: Seq<(Seq<u8>, Seq<u8>)>, k: Seq<u8>, v: Seq<u8>)
    ensures
        forall|t: int|
            0 <= t < kv_insert(s, k, v).len() ==> (#[trigger] kv_insert(s, k, v)[t].0 == k
                || has_key(s, kv_insert(s, k, v)[t].0)),
        kv_insert(s, k, v).len() <= s.len() + 1,
    decreases s.len(),
{
    let out = kv_insert(s, k, v);
    if s.len() == 0 {
    } else if lex_lt(k, s[0].0) {
        assert forall|t: int| 0 <= t < out.len() implies (out[t].0 == k || has_key(s, out[t].0)) by {
            if t > 0 {
                assert(out[t] == s[t - 1]);
            }
        }
    } else if k == s[0].0 {
        assert forall|t: int| 0 <= t < out.len() implies (out[t].0 == k || has_key(s, out[t].0)) by {
            if t > 0 {
                assert(out[t] == s[t]);
            }
        }
    } else {
        lemma_kv_insert_keys(s.skip(1), k, v);
        assert forall|t: int| 0 <= t < out.len() implies (out[t].0 == k || has_key(s, out[t].0)) by {
            if t > 0 {
                let rec = kv_insert(s.skip(1), k, v);
                assert(out[t] == rec[t - 1]);
                if rec[t - 1].0 != k {
                    let u = choose|u: int| 0 <= u < s.skip(1).len() && s.skip(1)[u].0 == rec[t
                        - 1].0;
                    assert(s[u + 1].0 == rec[t - 1].0);
                }
            }
        }
    }
}

/// Binding a key keeps the keys strictly ascending.
pub proof fn lemma_kv_insert_sorted(s: Seq<(Seq<u8>, Seq<u8>)>, k: Seq<u8>, v: Seq<u8>)
    requires
        sorted_keys(s),
    ensures
        sorted_keys(kv_insert(s, k, v)),
    decreases s.len(),
{
    let out = kv_insert(s, k, v);
    if s.len() == 0 {
    } else if lex_lt(k, s[0].0) {
        assert forall|i: int, j: int| 0 <= i < j < out.len() implies lex_lt(out[i].0, out[j].0) by {
            if i == 0 {
                assert(out[j] == s[j - 1]);
                if j > 1 {
                    lemma_lex_lt_trans(k, s[0].0, s[j - 1].0);
                }
            } else {
                assert(out[i] == s[i - 1]);
                assert(out[j] == s[j - 1]);
            }
        }
    } else if k == s[0].0 {
        assert forall|i: int, j: int| 0 <= i < j < out.len() implies lex_lt(out[i].0, out[j].0) by {
            if i > 0 {
                assert(out[i] == s[i]);
            }
            assert(out[j] == s[j]);
        }
    } else {
        lemma_lex_trichotomy(k, s[0].0);
        assert(sorted_keys(s.skip(1))) by {
            assert forall|i: int, j: int|
                0 <= i < j < s.skip(1).len() implies lex_lt(s.skip(1)[i].0, s.skip(1)[j].0) by {
                assert(s.skip(1)[i] == s[i + 1]);
                assert(s.skip(1)[j] == s[j + 1]);
            }
        }
        lemma_kv_insert_sorted(s.skip(1), k, v);
        lemma_kv_insert_keys(s.skip(1), k, v);
        let rec = kv_insert(s.skip(1), k, v);
        assert forall|i: int, j: int| 0 <= i < j < out.len() implies lex_lt(out[i].0, out[j].0) by {
            if i == 0 {
                assert(out[j] == rec[j - 1]);
                if rec[j - 1].0 == k {
                    assert(lex_lt(s[0].0, k));
                } else {
                    let u = choose|u: int|
                        0 <= u < s.skip(1).len() && s.skip(1)[u].0 == rec[j - 1].0;
                    assert(s[u + 1].0 == rec[j - 1].0);
                    assert(lex_lt(s[0].0, s[u + 1].0));
                }
            } else {
                assert(out[i] == rec[i - 1]);
                assert(out[j] == rec[j - 1]);
            }
        }
    }
}

/// Unbinding a key keeps the keys strictly ascending.
pub proof fn lemma_kv_remove_sorted(s: Seq<(Seq<u8>, Seq<u8>)>, k: Seq<u8>)
    requires
        sorted_keys(s),
    ensures
        sorted_keys(kv_remove(s, k)),
        kv_remove(s, k).len() <= s.len(),
        forall|t: int|
            0 <= t < kv_remove(s, k).len() ==> has_key(s, #[trigger] kv_remove(s, k)[t].0),
    decreases s.len(),
{
    let out = kv_remove(s, k);
    assert(s.len() > 0 ==> sorted_keys(s.skip(1))) by {
        if s.len() > 0 {
            assert forall|i: int, j: int|
                0 <= i < j < s.skip(1).len() implies lex_lt(s.skip(1)[i].0, s.skip(1)[j].0) by {
                assert(s.skip(1)[i] == s[i + 1]);
                assert(s.skip(1)[j] == s[j + 1]);
            }
        }
    }
    if s.len() == 0 {
    } else if s[0].0 == k {
        assert forall|t: int| 0 <= t < out.len() implies has_key(s, out[t].0) by {
            assert(out[t] == s[t + 1]);
        }
    } else {
        lemma_kv_remove_sorted(s.skip(1), k);
        let rec = kv_remove(s.skip(1), k);
        assert forall|t: int| 0 <= t < out.len() implies has_key(s, out[t].0) by {
            if t > 0 {
                assert(out[t] == rec[t - 1]);
                let u = choose|u: int| 0 <= u < s.skip(1).len() && s.skip(1)[u].0 == rec[t - 1].0;
                assert(s[u + 1].0 == rec[t - 1].0);
            }
        }
        assert forall|i: int, j: int| 0 <= i < j < out.len() implies lex_lt(out[i].0, out[j].0) by {
            if i == 0 {
                assert(out[j] == rec[j - 1]);
                let u = choose|u: int| 0 <= u < s.skip(1).len() && s.skip(1)[u].0 == rec[j - 1].0;
                assert(s[u + 1].0 == rec[j - 1].0);
                assert(lex_lt(s[0].0, s[u + 1].0));
            } else {
                assert(out[i] == rec[i - 1]);
                assert(out[j] == rec[j - 1]);
            }
        }
    }
}

/// One staged mutation's contents: the key, and the value it binds, or
/// `None` for a deletion.
pub open spec fn apply_one(
    s: Seq<(Seq<u8>, Seq<u8>)>,
    m: (Seq<u8>, Option<Seq<u8>>),
) -> Seq<(Seq<u8>, Seq<u8>)> {
    match m.1 {
        Some(v) => kv_insert(s, m.0, v),
        None => kv_remove(s, m.0),
    }
}

/// Staged mutations applied in order, first to last.
pub open spec fn apply_muts(
    s: Seq<(Seq<u8>, Seq<u8>)>,
    ms: Seq<(Seq<u8>, Option<Seq<u8>>)>,
) -> Seq<(Seq<u8>, Seq<u8>)>
    decreases ms.len(),
{
    if ms.len() == 0 {
        s
    } else {
        apply_one(apply_muts(s, ms.drop_last()), ms.last())
    }
}

/// What the staged mutations alone say about `k`: the latest staged binding
/// or deletion of `k`, if any.
pub open spec fn staged_effect(ms: Seq<(Seq<u8>, Option<Seq<u8>>)>, k: Seq<u8>) -> Option<
    Option<Seq<u8>>,
>
    decreases ms.len(),
{
    if ms.len() == 0 {
        None
    } else if ms.last().0 == k {
        Some(ms.last().1)
    } else {
        staged_effect(ms.drop_last(), k)
    }
}

/// A read through a transaction: its own latest staged write wins, else the
/// committed value.
pub open spec fn effective_lookup(
    s: Seq<(Seq<u8>, Seq<u8>)>,
    ms: Seq<(Seq<u8>, Option<Seq<u8>>)>,
    k: Seq<u8>,
) -> Option<Seq<u8>> {
    match staged_effect(ms, k) {
        Some(e) => e,
        None => lookup(s, k),
    }
}

/// Applying staged mutations keeps the keys strictly ascending.
pub proof fn lemma_apply_muts_sorted(
    s: Seq<(Seq<u8>, Seq<u8>)>,
    ms: Seq<(Seq<u8>, Option<Seq<u8>>)>,
)
    requires
        sorted_keys(s),
    ensures
        sorted_keys(apply_muts(s, ms)),
    decreases ms.len(),
{
    if ms.len() > 0 {
        lemma_apply_muts_sorted(s, ms.drop_last());
        match ms.last().1 {
            Some(v) => lemma_kv_insert_sorted(apply_muts(s, ms.drop_last()), ms.last().0, v),
            None => lemma_kv_remove_sorted(apply_muts(s, ms.drop_last()), ms.last().0),
        }
    }
}

/// Committing is consistent with reading through the transaction: looking a
/// key up after the staged mutations are applied finds what a read through
/// the open transaction found.
pub proof fn lemma_effective_lookup(
    s: Seq<(Seq<u8>, Seq<u8>)>,
    ms: Seq<(Seq<u8>, Option<Seq<u8>>)>,
    k: Seq<u8>,
)
    requires
        sorted_keys(s),
    ensures
        lookup(apply_muts(s, ms), k) == effective_lookup(s, ms, k),
    decreases ms.len(),
{
    if ms.len() > 0 {
        let base = apply_muts(s, ms.drop_last());
        lemma_apply_muts_sorted(s, ms.drop_last());
        lemma_effective_lookup(s, ms.drop_last(), k);
        match ms.last().1 {
            Some(v) => lemma_kv_insert_lookup(base, ms.last().0, v, k),
            None => lemma_kv_remove_lookup(base, ms.last().0, k),
        }
    }
}

/// Pairs kept by a filter stay strictly ascending.
pub proof fn lemma_filter_sorted(s: Seq<(Seq<u8>, Seq<u8>)>, pred: spec_fn((Seq<u8>, Seq<u8>)) -> bool)
    requires
        sorted_keys(s),
    ensures
        sorted_keys(s.filter(pred)),
    decreases s.len(),
{
    reveal(Seq::filter);
    if s.len() > 0 {
        let dl = s.drop_last();
        assert(sorted_keys(dl)) by {
            assert forall|i: int, j: int|
                0 <= i < j < dl.len() implies lex_lt(dl[i].0, dl[j].0) by {
                assert(dl[i] == s[i]);
                assert(dl[j] == s[j]);
            }
        }
        lemma_filter_sorted(dl, pred);
        let sub = dl.filter(pred);
        if pred(s.last()) {
            let out = sub.push(s.last());
            assert forall|i: int, j: int|
                0 <= i < j < out.len() implies lex_lt(out[i].0, out[j].0) by {
                if j < out.len() - 1 {
                    assert(out[i] == sub[i]);
                    assert(out[j] == sub[j]);
                } else {
                    assert(out[i] == sub[i]);
                    Seq::lemma_filter_contains_rev(dl, pred, sub[i]);
                    let u = choose|u: int| 0 <= u < dl.len() && dl[u] == sub[i];
                    assert(s[u] == sub[i]);
                    assert(lex_lt(s[u].0, s[s.len() - 1].0));
                }
            }
        }
    }
}

/// The pairs a scan keeps: those whose key lies in the range.
pub open spec fn range_pred(r: BoundRange) -> spec_fn((Seq<u8>, Seq<u8>)) -> bool {
    |p: (Seq<u8>, Seq<u8>)| in_range(r, p.0)
}

/// The pairs a range deletion keeps: those whose key lies outside the range.
pub open spec fn keep_pred(r: BoundRange) -> spec_fn((Seq<u8>, Seq<u8>)) -> bool {
    |p: (Seq<u8>, Seq<u8>)| !in_range(r, p.0)
}

/// After pairs in a range are deleted, a key in the range finds nothing and
/// a key outside it finds what it found.
pub proof fn lemma_delete_range_lookup(s: Seq<(Seq<u8>, Seq<u8>)>, r: BoundRange, k: Seq<u8>)
    requires
        sorted_keys(s),
    ensures
        lookup(s.filter(keep_pred(r)), k) == if in_range(r, k) {
            None::<Seq<u8>>
        } else {
            lookup(s, k)
        },
{
    let pred = keep_pred(r);
    let out = s.filter(pred);
    lemma_filter_sorted(s, pred);
    if in_range(r, k) {
        assert forall|u: int| 0 <= u < out.len() implies out[u].0 != k by {
            Seq::lemma_filter_pred(s, pred, u);
        }
        lemma_lookup_absent(out, k);
    } else {
        lemma_lookup_none(s, k);
        lemma_lookup_none(out, k);
        match lookup(s, k) {
            Some(v) => {
                let u = choose|u: int| 0 <= u < s.len() && s[u].0 == k;
                lemma_lookup_at_index(s, k, s[u].1, u);
                assert(lookup(s, k) == Some(s[u].1));
                assert(pred(s[u]));
                Seq::lemma_filter_contains(s, pred, u);
                assert(out.contains(s[u]));
                let t = choose|t: int| 0 <= t < out.len() && out[t] == s[u];
                lemma_lookup_at_index(out, k, s[u].1, t);
            },
            None => {
                assert forall|u: int| 0 <= u < out.len() implies out[u].0 != k by {
                    Seq::lemma_filter_contains_rev(s, pred, out[u]);
                    let w = choose|w: int| 0 <= w < s.len() && s[w] == out[u];
                }
                lemma_lookup_absent(out, k);
            },
        }
    }
}

/// The pairs a scan yields: the in-range pairs, in key order, the first
/// `limit` of them.
pub open spec fn scan_spec(s: Seq<(Seq<u8>, Seq<u8>)>, r: BoundRange, limit: int) -> Seq<
    (Seq<u8>, Seq<u8>),
> {
    let matched = s.filter(range_pred(r));
    if limit < matched.len() {
        matched.take(limit)
    } else {
        matched
    }
}

/// What a scan yields is itself in strictly ascending key order.
pub proof fn lemma_scan_sorted(s: Seq<(Seq<u8>, Seq<u8>)>, r: BoundRange, limit: int)
    requires
        sorted_keys(s),
        0 <= limit,
    ensures
        sorted_keys(scan_spec(s, r, limit)),
{
    lemma_filter_sorted(s, range_pred(r));
    let matched = s.filter(range_pred(r));
    let out = scan_spec(s, r, limit);
    if limit < matched.len() {
        assert(out =~= matched.take(limit));
        assert forall|i: int, j: int| 0 <= i < j < out.len() implies lex_lt(out[i].0, out[j].0) by {
            assert(out.len() == limit);
            assert(out[i] == matched[i]);
            assert(out[j] == matched[j]);
        }
    }
}

/// The pairs a batch read yields: one pair per present key, in the order
/// the keys were given; absent keys are omitted, not errors.
pub open spec fn batch_get_spec(s: Seq<(Seq<u8>, Seq<u8>)>, ks: Seq<Seq<u8>>) -> Seq<
    (Seq<u8>, Seq<u8>),
>
    decreases ks.len(),
{
    if ks.len() == 0 {
        Seq::empty()
    } else {
        batch_get_spec(s, ks.drop_last()) + match lookup(s, ks.last()) {
            Some(v) => seq![(ks.last(), v)],
            None => Seq::empty(),
        }
    }
}

/// The same, read through a transaction's staged mutations.
pub open spec fn effective_batch(
    s: Seq<(Seq<u8>, Seq<u8>)>,
    ms: Seq<(Seq<u8>, Option<Seq<u8>>)>,
    ks: Seq<Seq<u8>>,
) -> Seq<(Seq<u8>, Seq<u8>)>
    decreases ks.len(),
{
    if ks.len() == 0 {
        Seq::empty()
    } else {
        effective_batch(s, ms, ks.drop_last()) + match effective_lookup(s, ms, ks.last()) {
            Some(v) => seq![(ks.last(), v)],
            None => Seq::empty(),
        }
    }
}

} // verus!

verus! {

/// Where binding lands: at `idx`, the first position not below `k`, either
/// replacing the pair there or making room.
proof fn lemma_kv_insert_at(s: Seq<(Seq<u8>, Seq<u8>)>, k: Seq<u8>, v: Seq<u8>, idx: int)
    requires
        0 <= idx <= s.len(),
        forall|j: int| 0 <= j < idx ==> lex_lt(s[j].0, k),
        idx < s.len() ==> !lex_lt(s[idx].0, k),
    ensures
        (idx < s.len() && s[idx].0 == k) ==> kv_insert(s, k, v) =~= s.update(idx, (k, v)),
        !(idx < s.len() && s[idx].0 == k) ==> kv_insert(s, k, v) =~= s.insert(idx, (k, v)),
    decreases idx,
{
    if idx == 0 {
        if s.len() == 0 {
            assert(kv_insert(s, k, v) =~= s.insert(0, (k, v)));
        } else {
            lemma_lex_trichotomy(k, s[0].0);
            if lex_lt(k, s[0].0) {
                assert(kv_insert(s, k, v) =~= s.insert(0, (k, v)));
            } else {
                assert(k =~= s[0].0);
                assert(kv_insert(s, k, v) == seq![(k, v)] + s.skip(1));
                assert(kv_insert(s, k, v) =~= s.update(0, (k, v)));
            }
        }
    } else {
        assert(lex_lt(s[0].0, k));
        lemma_lex_trichotomy(k, s[0].0);
        assert(!lex_lt(k, s[0].0) && k != s[0].0);
        let rest = s.skip(1);
        assert(forall|j: int| 0 <= j < idx - 1 ==> lex_lt(#[trigger] rest[j].0, k));
        assert(idx - 1 < rest.len() ==> rest[idx - 1] == s[idx]);
        lemma_kv_insert_at(rest, k, v, idx - 1);
        if idx < s.len() && s[idx].0 == k {
            assert(kv_insert(s, k, v) =~= seq![s[0]] + rest.update(idx - 1, (k, v)));
            assert(seq![s[0]] + rest.update(idx - 1, (k, v)) =~= s.update(idx, (k, v)));
        } else {
            assert(kv_insert(s, k, v) =~= seq![s[0]] + rest.insert(idx - 1, (k, v)));
            assert(seq![s[0]] + rest.insert(idx - 1, (k, v)) =~= s.insert(idx, (k, v)));
        }
    }
}

/// Where unbinding lands: dropping the pair at the first position holding
/// `k`.
proof fn lemma_kv_remove_at(s: Seq<(Seq<u8>, Seq<u8>)>, k: Seq<u8>, idx: int)
    requires
        0 <= idx < s.len(),
        forall|j: int| 0 <= j < idx ==> s[j].0 != k,
        s[idx].0 == k,
    ensures
        kv_remove(s, k) =~= s.remove(idx),
    decreases idx,
{
    if idx == 0 {
        assert(kv_remove(s, k) =~= s.remove(0));
    } else {
        let rest = s.skip(1);
        assert(forall|j: int| 0 <= j < idx - 1 ==> #[trigger] rest[j].0 != k);
        assert(rest[idx - 1] == s[idx]);
        lemma_kv_remove_at(rest, k, idx - 1);
        assert(kv_remove(s, k) =~= seq![s[0]] + rest.remove(idx - 1));
        assert(seq![s[0]] + rest.remove(idx - 1) =~= s.remove(idx));
    }
}

/// Unbinding a key held nowhere changes nothing.
proof fn lemma_kv_remove_absent(s: Seq<(Seq<u8>, Seq<u8>)>, k: Seq<u8>)
    requires
        forall|u: int| 0 <= u < s.len() ==> s[u].0 != k,
    ensures
        kv_remove(s, k) =~= s,
    decreases s.len(),
{
    if s.len() > 0 {
        let rest = s.skip(1);
        assert(forall|u: int| 0 <= u < rest.len() ==> #[trigger] rest[u].0 != k);
        lemma_kv_remove_absent(rest, k);
        assert(kv_remove(s, k) =~= seq![s[0]] + rest);
        assert(seq![s[0]] + rest =~= s);
    }
}

/// The byte contents of an optional value.
pub open spec fn opt_bytes(r: Option<Vec<u8>>) -> Option<Seq<u8>> {
    match r {
        Some(v) => Some(v@),
        None => None,
    }
}

/// Reads the value stored under `key`, copied out.
fn pairs_lookup(pairs: &Vec<KvPair>, key: &Vec<u8>) -> (r: Option<Vec<u8>>)
    ensures
        opt_bytes(r) == lookup(pair_views(pairs@), key@),
{
    let ghost s = pair_views(pairs@);
    let mut j: usize = 0;
    while j < pairs.len()
        invariant
            j <= pairs@.len(),
            s == pair_views(pairs@),
            forall|jj: int| 0 <= jj < j ==> s[jj].0 != key@,
        decreases pairs@.len() - j,
    {
        if bytes_eq(&pairs[j].key, key) {
            let value = copy_bytes(&pairs[j].value);
            proof {
                lemma_lookup_skip(s, key@, j as int);
                assert(s.skip(j as int)[0] == s[j as int]);
            }
            return Some(value);
        }
        j = j + 1;
    }
    proof {
        lemma_lookup_absent(s, key@);
    }
    None
}

/// Binds `key` to `value` among sorted pairs, keeping them sorted.
fn pairs_put(pairs: &mut Vec<KvPair>, key: Vec<u8>, value: Vec<u8>)
    requires
        sorted_keys(pair_views(old(pairs)@)),
    ensures
        pair_views(final(pairs)@) =~= kv_insert(pair_views(old(pairs)@), key@, value@),
        sorted_keys(pair_views(final(pairs)@)),
{
    let ghost s = pair_views(pairs@);
    let mut idx: usize = 0;
    while idx < pairs.len() && key_lt(&pairs[idx].key, &key)
        invariant
            idx <= pairs@.len(),
            s == pair_views(pairs@),
            forall|j: int| 0 <= j < idx ==> lex_lt(s[j].0, key@),
        decreases pairs@.len() - idx,
    {
        idx = idx + 1;
    }
    proof {
        lemma_kv_insert_at(s, key@, value@, idx as int);
        lemma_kv_insert_sorted(s, key@, value@);
    }
    if idx < pairs.len() && bytes_eq(&pairs[idx].key, &key) {
        pairs.remove(idx);
        pairs.insert(idx, KvPair { key, value });
        proof {
            assert(pair_views(pairs@) =~= s.update(idx as int, (key@, value@)));
        }
    } else {
        pairs.insert(idx, KvPair { key, value });
        proof {
            assert(pair_views(pairs@) =~= s.insert(idx as int, (key@, value@)));
        }
    }
}

/// Unbinds `key` among sorted pairs, keeping them sorted.
#[verifier::loop_isolation(false)]
fn pairs_remove_key(pairs: &mut Vec<KvPair>, key: &Vec<u8>)
    requires
        sorted_keys(pair_views(old(pairs)@)),
    ensures
        pair_views(final(pairs)@) =~= kv_remove(pair_views(old(pairs)@), key@),
        sorted_keys(pair_views(final(pairs)@)),
{
    let ghost s = pair_views(pairs@);
    proof {
        lemma_kv_remove_sorted(s, key@);
    }
    let mut j: usize = 0;
    while j < pairs.len()
        invariant
            j <= pairs@.len(),
            s == pair_views(pairs@),
            forall|jj: int| 0 <= jj < j ==> s[jj].0 != key@,
        decreases pairs@.len() - j,
    {
        if bytes_eq(&pairs[j].key, key) {
            pairs.remove(j);
            proof {
                lemma_kv_remove_at(s, key@, j as int);
                assert(pair_views(pairs@) =~= s.remove(j as int));
            }
            return ;
        }
        j = j + 1;
    }
    proof {
        lemma_kv_remove_absent(s, key@);
        assert(pair_views(pairs@) =~= s);
    }
}

/// Copies pairs, byte for byte.
fn clone_pairs(pairs: &Vec<KvPair>) -> (r: Vec<KvPair>)
    ensures
        pair_views(r@) =~= pair_views(pairs@),
{
    let mut r: Vec<KvPair> = Vec::new();
    let mut i: usize = 0;
    while i < pairs.len()
        invariant
            i <= pairs@.len(),
            pair_views(r@) =~= pair_views(pairs@).take(i as int),
        decreases pairs@.len() - i,
    {
        let p = KvPair { key: copy_bytes(&pairs[i].key), value: copy_bytes(&pairs[i].value) };
        let ghost px = p;
        let ghost prev = r@;
        r.push(p);
        proof {
            assert(r@ == prev.push(px));
            assert(pair_views(prev).len() == prev.len());
            assert(pair_views(prev).len() == i as int);
            assert(r@.len() == prev.len() + 1);
            assert(pair_views(r@).len() == r@.len());
            assert(pair_views(r@).len() == i + 1);
            assert forall|t: int|
                0 <= t < i + 1 implies pair_views(r@)[t] == pair_views(pairs@).take(i + 1)[t] by {
                if t < i {
                    assert(r@[t] == prev[t]);
                    assert(pair_views(r@)[t] == pair_views(prev)[t]);
                } else {
                    assert(r@[t] == px);
                    assert(px.key@ == pairs@[t].key@ && px.value@ == pairs@[t].value@);
                }
            }
            assert(pair_views(r@) =~~= pair_views(pairs@).take(i + 1));
        }
        i = i + 1;
    }
    proof {
        assert(pair_views(pairs@).take(pairs@.len() as int) =~= pair_views(pairs@));
    }
    r
}

/// Scans sorted pairs: the in-range ones, in key order, at most `limit` of
/// them, copied out.
fn pairs_scan(pairs: &Vec<KvPair>, range: &BoundRange, limit: u32) -> (r: Vec<KvPair>)
    requires
        sorted_keys(pair_views(pairs@)),
    ensures
        pair_views(r@) =~= scan_spec(pair_views(pairs@), *range, limit as int),
{
    let ghost s = pair_views(pairs@);
    let ghost pred = range_pred(*range);
    let lim: usize = limit as usize;
    let mut out: Vec<KvPair> = Vec::new();
    let mut i: usize = 0;
    while i < pairs.len() && out.len() < lim
        invariant
            i <= pairs@.len(),
            s == pair_views(pairs@),
            pred == range_pred(*range),
            out@.len() <= lim,
            pair_views(out@) =~= s.take(i as int).filter(pred),
        decreases pairs@.len() - i,
    {
        let p = &pairs[i];
        proof {
            assert(s.take(i + 1) =~= s.take(i as int).push(s[i as int]));
            Seq::lemma_filter_push(s.take(i as int), s[i as int], pred);
        }
        if range_contains(range, &p.key) {
            let copy = KvPair { key: copy_bytes(&p.key), value: copy_bytes(&p.value) };
            out.push(copy);
            proof {
                assert(pair_views(out@) =~~= s.take(i + 1).filter(pred));
            }
        } else {
            proof {
                assert(pair_views(out@) =~= s.take(i + 1).filter(pred));
            }
        }
        i = i + 1;
    }
    proof {
        let matched = s.filter(pred);
        if i == pairs@.len() {
            assert(s.take(i as int) =~= s);
            assert(pair_views(out@) =~= matched);
            assert(matched.len() <= limit as int);
        } else {
            assert(out@.len() == lim);
            assert(s =~= s.take(i as int) + s.skip(i as int));
            Seq::filter_distributes_over_add(s.take(i as int), s.skip(i as int), pred);
            assert(matched == s.take(i as int).filter(pred) + s.skip(i as int).filter(pred));
            assert(pair_views(out@).len() == lim);
            assert(limit as int <= matched.len());
            assert(pair_views(out@) =~~= matched.take(limit as int));
        }
    }
    out
}

/// Reads one value per present key, in the order the keys are given.
fn pairs_batch_get(pairs: &Vec<KvPair>, keys: &Vec<Vec<u8>>) -> (r: Vec<KvPair>)
    ensures
        pair_views(r@) =~= batch_get_spec(pair_views(pairs@), key_views(keys@)),
{
    let ghost s = pair_views(pairs@);
    let ghost ks = key_views(keys@);
    let mut out: Vec<KvPair> = Vec::new();
    let mut i: usize = 0;
    while i < keys.len()
        invariant
            i <= keys@.len(),
            s == pair_views(pairs@),
            ks == key_views(keys@),
            pair_views(out@) =~= batch_get_spec(s, ks.take(i as int)),
        decreases keys@.len() - i,
    {
        proof {
            assert(ks.take(i + 1).drop_last() =~= ks.take(i as int));
            assert(ks.take(i + 1).last() == ks[i as int]);
        }
        match pairs_lookup(pairs, &keys[i]) {
            Some(v) => {
                out.push(KvPair { key: copy_bytes(&keys[i]), value: v });
                proof {
                    assert(pair_views(out@) =~~= batch_get_spec(s, ks.take(i + 1)));
                }
            },
            None => {
                proof {
                    assert(pair_views(out@) =~= batch_get_spec(s, ks.take(i + 1)));
                }
            },
        }
        i = i + 1;
    }
    proof {
        assert(ks.take(keys@.len() as int) =~= ks);
    }
    out
}

} // verus!

verus! {

/// Bindings applied in order, first to last.
pub open spec fn puts_applied(
    s: Seq<(Seq<u8>, Seq<u8>)>,
    ps: Seq<(Seq<u8>, Seq<u8>)>,
) -> Seq<(Seq<u8>, Seq<u8>)>
    decreases ps.len(),
{
    if ps.len() == 0 {
        s
    } else {
        kv_insert(puts_applied(s, ps.drop_last()), ps.last().0, ps.last().1)
    }
}

/// Unbindings applied in order, first to last.
pub open spec fn deletes_applied(s: Seq<(Seq<u8>, Seq<u8>)>, ks: Seq<Seq<u8>>) -> Seq<
    (Seq<u8>, Seq<u8>),
>
    decreases ks.len(),
{
    if ks.len() == 0 {
        s
    } else {
        kv_remove(deletes_applied(s, ks.drop_last()), ks.last())
    }
}

/// The keys of a sequence of pairs.
pub open spec fn firsts(s: Seq<(Seq<u8>, Seq<u8>)>) -> Seq<Seq<u8>> {
    s.map(|i: int, p: (Seq<u8>, Seq<u8>)| p.0)
}

/// Pushing a pair pushes its contents.
proof fn lemma_pair_views_push(ps: Seq<KvPair>, p: KvPair)
    ensures
        pair_views(ps.push(p)) =~= pair_views(ps).push((p.key@, p.value@)),
{
    assert(pair_views(ps.push(p)).len() == ps.len() + 1);
    assert forall|t: int|
        0 <= t < ps.len() + 1 implies pair_views(ps.push(p))[t] == pair_views(ps).push(
        (p.key@, p.value@),
    )[t] by {
        if t < ps.len() {
            assert(ps.push(p)[t] == ps[t]);
            assert(pair_views(ps)[t] == (ps[t].key@, ps[t].value@));
        } else {
            assert(ps.push(p)[t] == p);
        }
    }
}

/// Pushing a key pushes its contents.
proof fn lemma_key_views_push(ks: Seq<Vec<u8>>, k: Vec<u8>)
    ensures
        key_views(ks.push(k)) =~= key_views(ks).push(k@),
{
    assert(key_views(ks.push(k)).len() == ks.len() + 1);
    assert forall|t: int|
        0 <= t < ks.len() + 1 implies key_views(ks.push(k))[t] == key_views(ks).push(k@)[t] by {
        if t < ks.len() {
            assert(ks.push(k)[t] == ks[t]);
            assert(key_views(ks)[t] == ks[t]@);
        } else {
            assert(ks.push(k)[t] == k);
        }
    }
}

/// A failure the store model reports.
#[derive(Clone, Copy, Debug, PartialEq, Eq, Structural)]
pub enum StoreError {
    /// An insert found its key already bound.
    KeyExists,
}

impl StoreError {
    /// The failure's display text.
    pub fn message(&self) -> (s: &'static str)
        ensures
            s@ =~= self.message_spec(),
    {
        match self {
            StoreError::KeyExists => "key exists",
        }
    }

    /// The display text owed for each failure.
    pub open spec fn message_spec(&self) -> Seq<char> {
        match self {
            StoreError::KeyExists => "key exists"@,
        }
    }
}

/// The committed state of the modeled store: pairs sorted by key, and a
/// commit counter standing in for the store's timestamps.
pub struct Store {
    pairs: Vec<KvPair>,
    version: u64,
}

impl View for Store {
    type V = Seq<(Seq<u8>, Seq<u8>)>;

    closed spec fn view(&self) -> Seq<(Seq<u8>, Seq<u8>)> {
        pair_views(self.pairs@)
    }
}

impl Store {
    /// The store's pairs are sorted by key, no key twice.
    pub open spec fn wf(&self) -> bool {
        sorted_keys(self@)
    }

    /// The commit counter.
    pub closed spec fn spec_version(&self) -> u64 {
        self.version
    }

    /// An empty store.
    pub fn new() -> (s: Store)
        ensures
            s.wf(),
            s@ =~= Seq::<(Seq<u8>, Seq<u8>)>::empty(),
            s.spec_version() == 0,
    {
        Store { pairs: Vec::new(), version: 0 }
    }

    /// The latest timestamp the store has issued.
    pub fn current_timestamp(&self) -> (r: u64)
        ensures
            r == self.spec_version(),
    {
        self.version
    }

    /// Reads the value under `key`; absence is not an error.
    pub fn get(&self, key: &Vec<u8>) -> (r: Option<Vec<u8>>)
        ensures
            opt_bytes(r) == lookup(self@, key@),
    {
        pairs_lookup(&self.pairs, key)
    }

    /// Whether `key` is bound.
    pub fn key_exists(&self, key: &Vec<u8>) -> (r: bool)
        ensures
            r == (lookup(self@, key@) is Some),
    {
        self.get(key).is_some()
    }

    /// Binds `key` to `value`.
    pub fn put(&mut self, key: Vec<u8>, value: Vec<u8>)
        requires
            old(self).wf(),
        ensures
            final(self).wf(),
            final(self)@ == kv_insert(old(self)@, key@, value@),
            final(self).spec_version() == old(self).spec_version(),
    {
        pairs_put(&mut self.pairs, key, value);
    }

    /// Unbinds `key`; absence is not an error.
    pub fn delete(&mut self, key: &Vec<u8>)
        requires
            old(self).wf(),
        ensures
            final(self).wf(),
            final(self)@ == kv_remove(old(self)@, key@),
            final(self).spec_version() == old(self).spec_version(),
    {
        pairs_remove_key(&mut self.pairs, key);
    }

    /// Binds every given pair, in order; a later duplicate key wins.
    #[verifier::loop_isolation(false)]
    pub fn batch_put(&mut self, pairs: Vec<KvPair>)
        requires
            old(self).wf(),
        ensures
            final(self).wf(),
            final(self)@ == puts_applied(old(self)@, pair_views(pairs@)),
            final(self).spec_version() == old(self).spec_version(),
    {
        let ghost base = self@;
        let ghost ps = pair_views(pairs@);
        let mut rest = pairs;
        let mut i: usize = 0;
        while i < rest.len()
            invariant
                i <= rest@.len(),
                rest@.len() == ps.len(),
                ps == pair_views(rest@),
                self.wf(),
                self@ == puts_applied(base, ps.take(i as int)),
                self.spec_version() == old(self).spec_version(),
            decreases rest@.len() - i,
        {
            let key = copy_bytes(&rest[i].key);
            let value = copy_bytes(&rest[i].value);
            self.put(key, value);
            proof {
                assert(ps.take(i + 1).drop_last() =~= ps.take(i as int));
                assert(ps.take(i + 1).last() == ps[i as int]);
                assert(self@ == puts_applied(base, ps.take(i + 1)));
            }
            i = i + 1;
        }
        proof {
            assert(ps.take(ps.len() as int) =~= ps);
        }
    }

    /// Unbinds every given key, in order.
    #[verifier::loop_isolation(false)]
    pub fn batch_delete(&mut self, keys: Vec<Vec<u8>>)
        requires
            old(self).wf(),
        ensures
            final(self).wf(),
            final(self)@ == deletes_applied(old(self)@, key_views(keys@)),
            final(self).spec_version() == old(self).spec_version(),
    {
        let ghost base = self@;
        let ghost ks = key_views(keys@);
        let mut i: usize = 0;
        while i < keys.len()
            invariant
                i <= keys@.len(),
                self.wf(),
                self@ == deletes_applied(base, ks.take(i as int)),
                self.spec_version() == old(self).spec_version(),
            decreases keys@.len() - i,
        {
            self.delete(&keys[i]);
            proof {
                assert(ks.take(i + 1).drop_last() =~= ks.take(i as int));
                assert(ks.take(i + 1).last() == ks[i as int]);
                assert(self@ == deletes_applied(base, ks.take(i + 1)));
            }
            i = i + 1;
        }
        proof {
            assert(ks.take(ks.len() as int) =~= ks);
        }
    }

    /// Reads one pair per present key, in the order the keys are given.
    pub fn batch_get(&self, keys: &Vec<Vec<u8>>) -> (r: Vec<KvPair>)
        ensures
            pair_views(r@) =~= batch_get_spec(self@, key_views(keys@)),
    {
        pairs_batch_get(&self.pairs, keys)
    }

    /// Scans the range in key order, yielding at most `limit` pairs.
    pub fn scan(&self, range: &BoundRange, limit: u32) -> (r: Vec<KvPair>)
        requires
            self.wf(),
        ensures
            pair_views(r@) =~= scan_spec(self@, *range, limit as int),
    {
        pairs_scan(&self.pairs, range, limit)
    }

    /// Scans the range in key order, yielding at most `limit` keys.
    pub fn scan_keys(&self, range: &BoundRange, limit: u32) -> (r: Vec<Vec<u8>>)
        requires
            self.wf(),
        ensures
            key_views(r@) =~= firsts(scan_spec(self@, *range, limit as int)),
    {
        let got = pairs_scan(&self.pairs, range, limit);
        extract_keys(got)
    }

    /// Unbinds every key in the range.
    pub fn delete_range(&mut self, range: &BoundRange)
        requires
            old(self).wf(),
        ensures
            final(self).wf(),
            final(self)@ == old(self)@.filter(keep_pred(*range)),
            final(self).spec_version() == old(self).spec_version(),
    {
        let ghost s = self@;
        let ghost pred = keep_pred(*range);
        let mut kept: Vec<KvPair> = Vec::new();
        let mut i: usize = 0;
        while i < self.pairs.len()
            invariant
                i <= self.pairs@.len(),
                s == pair_views(self.pairs@),
                pred == keep_pred(*range),
                pair_views(kept@) =~= s.take(i as int).filter(pred),
            decreases self.pairs@.len() - i,
        {
            let p = &self.pairs[i];
            proof {
                assert(s.take(i + 1) =~= s.take(i as int).push(s[i as int]));
                Seq::lemma_filter_push(s.take(i as int), s[i as int], pred);
            }
            if !range_contains(range, &p.key) {
                let copy = KvPair { key: copy_bytes(&p.key), value: copy_bytes(&p.value) };
                let ghost prev = kept@;
                kept.push(copy);
                proof {
                    lemma_pair_views_push(prev, kept@.last());
                    assert(pair_views(kept@) =~~= s.take(i + 1).filter(pred));
                }
            } else {
                proof {
                    assert(pair_views(kept@) =~= s.take(i + 1).filter(pred));
                }
            }
            i = i + 1;
        }
        proof {
            assert(s.take(self.pairs@.len() as int) =~= s);
            lemma_filter_sorted(s, pred);
        }
        self.pairs = kept;
    }

    /// A read-only view of the committed state, frozen now.
    pub fn snapshot(&self) -> (r: Snapshot)
        ensures
            r@ == self@,
    {
        Snapshot { pairs: clone_pairs(&self.pairs) }
    }

    /// Opens a transaction against this store, optimistic or pessimistic.
    pub fn begin(&self, pessimistic: bool) -> (t: Transaction)
        ensures
            t@ =~= Seq::<(Seq<u8>, Option<Seq<u8>>)>::empty(),
            t.locked_keys() =~= Seq::<Seq<u8>>::empty(),
            t.is_active(),
            t.is_pessimistic() == pessimistic,
    {
        Transaction { staged: Vec::new(), locked: Vec::new(), active: true, pessimistic }
    }
}

/// Moves the keys out of scanned pairs.
fn extract_keys(pairs: Vec<KvPair>) -> (r: Vec<Vec<u8>>)
    ensures
        key_views(r@) =~= firsts(pair_views(pairs@)),
{
    let ghost orig = pair_views(pairs@);
    let mut rest = pairs;
    let mut out: Vec<Vec<u8>> = Vec::new();
    while rest.len() > 0
        invariant
            out@.len() + rest@.len() == orig.len(),
            forall|t: int| 0 <= t < out@.len() ==> (#[trigger] out@[t])@ == orig[t].0,
            forall|j: int|
                0 <= j < rest@.len() ==> (#[trigger] rest@[j].key)@ == orig[out@.len() + j].0,
        decreases rest@.len(),
    {
        let p = rest.remove(0);
        out.push(p.key);
    }
    out
}

/// A frozen read-only copy of the committed state.
pub struct Snapshot {
    pairs: Vec<KvPair>,
}

impl View for Snapshot {
    type V = Seq<(Seq<u8>, Seq<u8>)>;

    closed spec fn view(&self) -> Seq<(Seq<u8>, Seq<u8>)> {
        pair_views(self.pairs@)
    }
}

impl Snapshot {
    /// The snapshot's pairs are sorted by key, no key twice.
    pub open spec fn wf(&self) -> bool {
        sorted_keys(self@)
    }

    /// Reads the value under `key`; absence is not an error.
    pub fn get(&self, key: &Vec<u8>) -> (r: Option<Vec<u8>>)
        ensures
            opt_bytes(r) == lookup(self@, key@),
    {
        pairs_lookup(&self.pairs, key)
    }

    /// Whether `key` is bound.
    pub fn key_exists(&self, key: &Vec<u8>) -> (r: bool)
        ensures
            r == (lookup(self@, key@) is Some),
    {
        self.get(key).is_some()
    }

    /// Reads one pair per present key, in the order the keys are given.
    pub fn batch_get(&self, keys: &Vec<Vec<u8>>) -> (r: Vec<KvPair>)
        ensures
            pair_views(r@) =~= batch_get_spec(self@, key_views(keys@)),
    {
        pairs_batch_get(&self.pairs, keys)
    }

    /// Scans the range in key order, yielding at most `limit` pairs.
    pub fn scan(&self, range: &BoundRange, limit: u32) -> (r: Vec<KvPair>)
        requires
            self.wf(),
        ensures
            pair_views(r@) =~= scan_spec(self@, *range, limit as int),
    {
        pairs_scan(&self.pairs, range, limit)
    }

    /// Scans the range in key order, yielding at most `limit` keys.
    pub fn scan_keys(&self, range: &BoundRange, limit: u32) -> (r: Vec<Vec<u8>>)
        requires
            self.wf(),
        ensures
            key_views(r@) =~= firsts(scan_spec(self@, *range, limit as int)),
    {
        let got = pairs_scan(&self.pairs, range, limit);
        extract_keys(got)
    }
}

} // verus!

verus! {

/// One staged write: a binding, or a deletion.
pub enum Mutation {
    Put(KvPair),
    Delete(Vec<u8>),
}

/// The contents of one staged mutation: its key, and the value it binds or
/// `None` for a deletion.
pub open spec fn mut_view_one(m: Mutation) -> (Seq<u8>, Option<Seq<u8>>) {
    match m {
        Mutation::Put(p) => (p.key@, Some(p.value@)),
        Mutation::Delete(k) => (k@, None),
    }
}

/// The contents of staged mutations, in staging order.
pub open spec fn mut_views(ms: Seq<Mutation>) -> Seq<(Seq<u8>, Option<Seq<u8>>)> {
    ms.map(|i: int, m: Mutation| mut_view_one(m))
}

/// Pushing a mutation pushes its contents.
proof fn lemma_mut_views_push(ms: Seq<Mutation>, m: Mutation)
    ensures
        mut_views(ms.push(m)) =~= mut_views(ms).push(mut_view_one(m)),
{
    assert(mut_views(ms.push(m)).len() == ms.len() + 1);
    assert forall|t: int|
        0 <= t < ms.len() + 1 implies mut_views(ms.push(m))[t] == mut_views(ms).push(
        mut_view_one(m),
    )[t] by {
        if t < ms.len() {
            assert(ms.push(m)[t] == ms[t]);
            assert(mut_views(ms)[t] == mut_view_one(ms[t]));
        } else {
            assert(ms.push(m)[t] == m);
        }
    }
}

/// An open transaction: writes staged in order, applied to the store only on
/// commit; reads see the transaction's own staged writes first.
pub struct Transaction {
    staged: Vec<Mutation>,
    locked: Vec<Vec<u8>>,
    active: bool,
    pessimistic: bool,
}

impl View for Transaction {
    type V = Seq<(Seq<u8>, Option<Seq<u8>>)>;

    closed spec fn view(&self) -> Seq<(Seq<u8>, Option<Seq<u8>>)> {
        mut_views(self.staged@)
    }
}

impl Transaction {
    /// Whether the transaction is still open: neither committed nor rolled
    /// back.
    pub closed spec fn is_active(&self) -> bool {
        self.active
    }

    /// The keys this transaction has locked, in locking order.
    pub closed spec fn locked_keys(&self) -> Seq<Seq<u8>> {
        key_views(self.locked@)
    }

    /// Whether the transaction was opened pessimistic.
    pub closed spec fn is_pessimistic(&self) -> bool {
        self.pessimistic
    }

    /// Whether the transaction is still open, for callers that must test
    /// before staging or committing.
    pub fn active(&self) -> (r: bool)
        ensures
            r == self.is_active(),
    {
        self.active
    }

    /// Stages a binding of `key` to `value`.
    pub fn put(&mut self, key: Vec<u8>, value: Vec<u8>)
        requires
            old(self).is_active(),
        ensures
            final(self)@ =~= old(self)@.push((key@, Some(value@))),
            final(self).is_active(),
            final(self).locked_keys() == old(self).locked_keys(),
            final(self).is_pessimistic() == old(self).is_pessimistic(),
    {
        let ghost prev = self.staged@;
        let ghost kv = (key@, value@);
        self.staged.push(Mutation::Put(KvPair { key, value }));
        proof {
            lemma_mut_views_push(prev, self.staged@.last());
        }
    }

    /// Stages a deletion of `key`.
    pub fn delete(&mut self, key: Vec<u8>)
        requires
            old(self).is_active(),
        ensures
            final(self)@ =~= old(self)@.push((key@, None)),
            final(self).is_active(),
            final(self).locked_keys() == old(self).locked_keys(),
            final(self).is_pessimistic() == old(self).is_pessimistic(),
    {
        let ghost prev = self.staged@;
        self.staged.push(Mutation::Delete(key));
        proof {
            lemma_mut_views_push(prev, self.staged@.last());
        }
    }

    /// Reads `key` through the transaction: its own latest staged write
    /// wins, else the committed value.
    #[verifier::loop_isolation(false)]
    pub fn get(&self, store: &Store, key: &Vec<u8>) -> (r: Option<Vec<u8>>)
        requires
            self.is_active(),
        ensures
            opt_bytes(r) == effective_lookup(store@, self@, key@),
    {
        let ghost ms = self@;
        let mut j: usize = self.staged.len();
        proof {
            assert(ms.take(self.staged@.len() as int) =~= ms);
        }
        while j > 0
            invariant
                j <= self.staged@.len(),
                staged_effect(ms, key@) == staged_effect(ms.take(j as int), key@),
            decreases j,
        {
            j = j - 1;
            proof {
                assert(ms.take(j + 1).drop_last() =~= ms.take(j as int));
                assert(ms.take(j + 1).last() == ms[j as int]);
            }
            match &self.staged[j] {
                Mutation::Put(p) => {
                    if bytes_eq(&p.key, key) {
                        proof {
                            assert(ms[j as int] == (p.key@, Some(p.value@)));
                            assert(staged_effect(ms, key@) == Some(Some(p.value@)));
                        }
                        return Some(copy_bytes(&p.value));
                    }
                },
                Mutation::Delete(k) => {
                    if bytes_eq(k, key) {
                        proof {
                            assert(ms[j as int] == (k@, None::<Seq<u8>>));
                            assert(staged_effect(ms, key@) == Some(None::<Seq<u8>>));
                        }
                        return None;
                    }
                },
            }
            proof {
                assert(ms[j as int].0 != key@);
            }
        }
        proof {
            assert(ms.take(0) =~= Seq::<(Seq<u8>, Option<Seq<u8>>)>::empty());
            assert(staged_effect(ms, key@) is None);
        }
        store.get(key)
    }

    /// Whether `key` is bound, as a read through the transaction sees it.
    pub fn key_exists(&self, store: &Store, key: &Vec<u8>) -> (r: bool)
        requires
            self.is_active(),
        ensures
            r == (effective_lookup(store@, self@, key@) is Some),
    {
        self.get(store, key).is_some()
    }

    /// Locks `key` for update, then reads it through the transaction.
    pub fn get_for_update(&mut self, store: &Store, key: &Vec<u8>) -> (r: Option<Vec<u8>>)
        requires
            old(self).is_active(),
        ensures
            opt_bytes(r) == effective_lookup(store@, old(self)@, key@),
            final(self)@ == old(self)@,
            final(self).locked_keys() =~= old(self).locked_keys().push(key@),
            final(self).is_active(),
            final(self).is_pessimistic() == old(self).is_pessimistic(),
    {
        let ghost prev = self.locked@;
        self.locked.push(copy_bytes(key));
        proof {
            lemma_key_views_push(prev, self.locked@.last());
            assert(key_views(self.locked@) =~= key_views(prev).push(key@));
        }
        self.get(store, key)
    }

    /// Locks the given keys, in order.
    #[verifier::loop_isolation(false)]
    pub fn lock_keys(&mut self, keys: &Vec<Vec<u8>>)
        requires
            old(self).is_active(),
        ensures
            final(self).locked_keys() =~= old(self).locked_keys() + key_views(keys@),
            final(self)@ == old(self)@,
            final(self).is_active(),
            final(self).is_pessimistic() == old(self).is_pessimistic(),
    {
        let ghost ks = key_views(keys@);
        let mut i: usize = 0;
        while i < keys.len()
            invariant
                i <= keys@.len(),
                self.locked_keys() =~= old(self).locked_keys() + ks.take(i as int),
                self@ == old(self)@,
                self.is_active(),
                self.is_pessimistic() == old(self).is_pessimistic(),
            decreases keys@.len() - i,
        {
            let ghost prev = self.locked@;
            self.locked.push(copy_bytes(&keys[i]));
            proof {
                lemma_key_views_push(prev, self.locked@.last());
                assert(key_views(self.locked@) =~= old(self).locked_keys() + ks.take(i + 1));
            }
            i = i + 1;
        }
        proof {
            assert(ks.take(keys@.len() as int) =~= ks);
        }
    }

    /// Reads one pair per present key through the transaction, in the order
    /// the keys are given.
    #[verifier::loop_isolation(false)]
    pub fn batch_get(&self, store: &Store, keys: &Vec<Vec<u8>>) -> (r: Vec<KvPair>)
        requires
            self.is_active(),
        ensures
            pair_views(r@) =~= effective_batch(store@, self@, key_views(keys@)),
    {
        let ghost ks = key_views(keys@);
        let mut out: Vec<KvPair> = Vec::new();
        let mut i: usize = 0;
        while i < keys.len()
            invariant
                i <= keys@.len(),
                pair_views(out@) =~= effective_batch(store@, self@, ks.take(i as int)),
            decreases keys@.len() - i,
        {
            proof {
                assert(ks.take(i + 1).drop_last() =~= ks.take(i as int));
                assert(ks.take(i + 1).last() == ks[i as int]);
            }
            match self.get(store, &keys[i]) {
                Some(v) => {
                    let ghost prev = out@;
                    out.push(KvPair { key: copy_bytes(&keys[i]), value: v });
                    proof {
                        lemma_pair_views_push(prev, out@.last());
                        assert(pair_views(out@) =~~= effective_batch(store@, self@, ks.take(i + 1)));
                    }
                },
                None => {
                    proof {
                        assert(pair_views(out@) =~= effective_batch(store@, self@, ks.take(i + 1)));
                    }
                },
            }
            i = i + 1;
        }
        proof {
            assert(ks.take(keys@.len() as int) =~= ks);
        }
        out
    }

    /// Locks the given keys, then reads them through the transaction.
    pub fn batch_get_for_update(&mut self, store: &Store, keys: &Vec<Vec<u8>>) -> (r: Vec<KvPair>)
        requires
            old(self).is_active(),
        ensures
            pair_views(r@) =~= effective_batch(store@, old(self)@, key_views(keys@)),
            final(self)@ == old(self)@,
            final(self).locked_keys() =~= old(self).locked_keys() + key_views(keys@),
            final(self).is_active(),
            final(self).is_pessimistic() == old(self).is_pessimistic(),
    {
        self.lock_keys(keys);
        self.batch_get(store, keys)
    }

    /// Stages a binding of `key` to `value`, unless the key is already
    /// bound as a read through the transaction sees it: then nothing is
    /// staged and the insert fails.
    pub fn insert(&mut self, store: &Store, key: Vec<u8>, value: Vec<u8>) -> (r: Result<
        (),
        StoreError,
    >)
        requires
            old(self).is_active(),
        ensures
            (r is Ok) == (effective_lookup(store@, old(self)@, key@) is None),
            (r is Ok ==> final(self)@ =~= old(self)@.push((key@, Some(value@)))),
            (r is Err ==> final(self)@ == old(self)@ && r->Err_0 == StoreError::KeyExists),
            final(self).is_active(),
            final(self).locked_keys() == old(self).locked_keys(),
            final(self).is_pessimistic() == old(self).is_pessimistic(),
    {
        if self.key_exists(store, &key) {
            return Err(StoreError::KeyExists);
        }
        self.put(key, value);
        Ok(())
    }

    /// The pairs a scan through the transaction yields: the staged writes
    /// applied to the committed state, then scanned in key order.
    pub fn scan(&self, store: &Store, range: &BoundRange, limit: u32) -> (r: Vec<KvPair>)
        requires
            self.is_active(),
            store.wf(),
        ensures
            pair_views(r@) =~= scan_spec(apply_muts(store@, self@), *range, limit as int),
    {
        let merged = self.materialize(store);
        pairs_scan(&merged, range, limit)
    }

    /// The same scan, yielding only the keys.
    pub fn scan_keys(&self, store: &Store, range: &BoundRange, limit: u32) -> (r: Vec<Vec<u8>>)
        requires
            self.is_active(),
            store.wf(),
        ensures
            key_views(r@) =~= firsts(scan_spec(apply_muts(store@, self@), *range, limit as int)),
    {
        let got = self.scan(store, range, limit);
        extract_keys(got)
    }

    /// The committed state with this transaction's staged writes applied.
    #[verifier::loop_isolation(false)]
    fn materialize(&self, store: &Store) -> (m: Vec<KvPair>)
        requires
            store.wf(),
        ensures
            pair_views(m@) =~= apply_muts(store@, self@),
            sorted_keys(pair_views(m@)),
    {
        let ghost ms = self@;
        let mut m = clone_pairs(&store.pairs);
        let mut i: usize = 0;
        while i < self.staged.len()
            invariant
                i <= self.staged@.len(),
                pair_views(m@) =~= apply_muts(store@, ms.take(i as int)),
                sorted_keys(pair_views(m@)),
            decreases self.staged@.len() - i,
        {
            proof {
                assert(ms.take(i + 1).drop_last() =~= ms.take(i as int));
                assert(ms.take(i + 1).last() == ms[i as int]);
            }
            match &self.staged[i] {
                Mutation::Put(p) => {
                    let key = copy_bytes(&p.key);
                    let value = copy_bytes(&p.value);
                    pairs_put(&mut m, key, value);
                    proof {
                        assert(ms[i as int] == (p.key@, Some(p.value@)));
                        assert(pair_views(m@) =~= apply_muts(store@, ms.take(i + 1)));
                    }
                },
                Mutation::Delete(k) => {
                    pairs_remove_key(&mut m, k);
                    proof {
                        assert(ms[i as int] == (k@, None::<Seq<u8>>));
                        assert(pair_views(m@) =~= apply_muts(store@, ms.take(i + 1)));
                    }
                },
            }
            i = i + 1;
        }
        proof {
            assert(ms.take(self.staged@.len() as int) =~= ms);
        }
        m
    }

    /// Applies the staged writes to the store, in staging order, closes the
    /// transaction, and returns the commit's timestamp.
    #[verifier::loop_isolation(false)]
    pub fn commit(&mut self, store: &mut Store) -> (r: u64)
        requires
            old(self).is_active(),
            old(store).wf(),
            old(store).spec_version() < u64::MAX,
        ensures
            final(store)@ == apply_muts(old(store)@, old(self)@),
            final(store).wf(),
            !final(self).is_active(),
            final(store).spec_version() == old(store).spec_version() + 1,
            r == old(store).spec_version() + 1,
    {
        let ghost base = store@;
        let ghost ms = self@;
        let mut i: usize = 0;
        while i < self.staged.len()
            invariant
                i <= self.staged@.len(),
                store@ == apply_muts(base, ms.take(i as int)),
                store.wf(),
                store.spec_version() == old(store).spec_version(),
            decreases self.staged@.len() - i,
        {
            proof {
                assert(ms.take(i + 1).drop_last() =~= ms.take(i as int));
                assert(ms.take(i + 1).last() == ms[i as int]);
            }
            match &self.staged[i] {
                Mutation::Put(p) => {
                    let key = copy_bytes(&p.key);
                    let value = copy_bytes(&p.value);
                    store.put(key, value);
                    proof {
                        assert(ms[i as int] == (p.key@, Some(p.value@)));
                        assert(store@ == apply_muts(base, ms.take(i + 1)));
                    }
                },
                Mutation::Delete(k) => {
                    store.delete(k);
                    proof {
                        assert(ms[i as int] == (k@, None::<Seq<u8>>));
                        assert(store@ == apply_muts(base, ms.take(i + 1)));
                    }
                },
            }
            i = i + 1;
        }
        proof {
            assert(ms.take(self.staged@.len() as int) =~= ms);
        }
        self.active = false;
        store.version = store.version + 1;
        store.version
    }

    /// Discards the staged writes and closes the transaction; the store is
    /// untouched.
    pub fn rollback(&mut self)
        requires
            old(self).is_active(),
        ensures
            !final(self).is_active(),
            final(self)@ =~= Seq::<(Seq<u8>, Option<Seq<u8>>)>::empty(),
    {
        self.staged.clear();
        self.active = false;
    }
}

} // verus!
