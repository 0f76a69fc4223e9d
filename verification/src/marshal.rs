//! Conversions between host-native values and the store's binary types:
//! pure, allocation-only, and lossless where the spec owes identity.

use vstd::prelude::*;
use vstd::string::StringExecFns;
use crate::host::HostEntry;
use crate::host::HostException;
use crate::host::HostValue;
use crate::host::MarshalError;
use crate::store::KvPair;
use crate::store::pair_views;

verus! {

/// The host value a byte sequence marshals to: the same bytes, untouched.
pub open spec fn spec_to_host_bytes(bytes: Vec<u8>) -> HostValue {
    HostValue::Bytes(bytes)
}

/// The bytes a host value marshals back to, when it is a byte-string.
pub open spec fn spec_bytes_of(value: HostValue) -> Option<Vec<u8>> {
    match value {
        HostValue::Bytes(b) => Some(b),
        _ => None,
    }
}

/// Marshals a byte sequence into a host byte-string: an identity copy, no
/// transformation.
pub fn to_py_bytes(bytes: Vec<u8>) -> (r: HostValue)
    ensures
        r == spec_to_host_bytes(bytes),
{
    HostValue::Bytes(bytes)
}

/// Marshals a host byte-string back into a byte sequence; any other host
/// value is a type mismatch.
pub fn bytes_from_host(value: HostValue) -> (r: Result<Vec<u8>, MarshalError>)
    ensures
        (r is Ok) == (value is Bytes),
        (r matches Ok(b) ==> Some(b) == spec_bytes_of(value)),
        (r matches Err(e) ==> e == MarshalError::NotBytes),
{
    match value {
        HostValue::Bytes(b) => Ok(b),
        _ => Err(MarshalError::NotBytes),
    }
}

/// Marshalling a byte sequence into a host byte-string and back yields the
/// same bytes: round-trip identity.
pub proof fn lemma_bytes_round_trip(bytes: Vec<u8>)
    ensures
        spec_bytes_of(spec_to_host_bytes(bytes)) == Some(bytes),
{
}

/// Marshals an unsigned scalar by value, with no range narrowing.
pub fn to_py_int(num: u64) -> (r: HostValue)
    ensures
        r == HostValue::Int(num),
{
    HostValue::Int(num)
}

/// Projects a failure into the one host-observable exception, carrying the
/// failure's display text verbatim.
pub fn to_py_execption(msg: &str) -> (r: HostException)
    ensures
        r.message@ =~= msg@,
{
    HostException { message: String::from_str(msg) }
}

/// Marshals keys into a host list of byte-strings, one entry per key, in
/// source order.
pub fn to_py_key_list(keys: Vec<Vec<u8>>) -> (r: HostValue)
    ensures
        (r matches HostValue::List(items) ==> {
            &&& items@.len() == keys@.len()
            &&& forall|i: int| 0 <= i < items@.len() ==> items@[i] == HostValue::Bytes(keys@[i])
        }),
        r is List,
{
    let ghost orig = keys@;
    let mut rest = keys;
    let mut items: Vec<HostValue> = Vec::new();
    while rest.len() > 0
        invariant
            items@.len() + rest@.len() == orig.len(),
            forall|i: int| 0 <= i < items@.len() ==> items@[i] == HostValue::Bytes(orig[i]),
            forall|j: int| 0 <= j < rest@.len() ==> rest@[j] == orig[items@.len() + j],
        decreases rest@.len(),
    {
        let k = rest.remove(0);
        items.push(HostValue::Bytes(k));
    }
    HostValue::List(items)
}

/// What one key-value pair marshals to: a host pair of two byte-strings.
pub open spec fn is_kv_tuple(h: HostValue, p: KvPair) -> bool {
    &&& h is Tuple
    &&& h->Tuple_0@.len() == 2
    &&& h->Tuple_0@[0] == HostValue::Bytes(p.key)
    &&& h->Tuple_0@[1] == HostValue::Bytes(p.value)
}

/// Marshals key-value pairs into a host list of (key, value) byte-string
/// pairs, one entry per pair, in source order; duplicate keys are kept.
pub fn to_py_kv_list(pairs: Vec<KvPair>) -> (r: HostValue)
    ensures
        (r matches HostValue::List(items) ==> {
            &&& items@.len() == pairs@.len()
            &&& forall|i: int| 0 <= i < items@.len() ==> is_kv_tuple(items@[i], pairs@[i])
        }),
        r is List,
{
    let ghost orig = pairs@;
    let mut rest = pairs;
    let mut items: Vec<HostValue> = Vec::new();
    while rest.len() > 0
        invariant
            items@.len() + rest@.len() == orig.len(),
            forall|i: int| 0 <= i < items@.len() ==> is_kv_tuple(items@[i], orig[i]),
            forall|j: int| 0 <= j < rest@.len() ==> rest@[j] == orig[items@.len() + j],
        decreases rest@.len(),
    {
        let p = rest.remove(0);
        let mut entry: Vec<HostValue> = Vec::new();
        entry.push(HostValue::Bytes(p.key));
        entry.push(HostValue::Bytes(p.value));
        items.push(HostValue::Tuple(entry));
    }
    HostValue::List(items)
}

/// A well-formed plain dictionary entry: byte-string key, byte-string value.
pub open spec fn dict_entry_ok(e: HostEntry) -> bool {
    e.key is Bytes && e.value is Bytes
}

/// The pair a well-formed plain dictionary entry extracts to.
pub open spec fn entry_pair(e: HostEntry) -> KvPair {
    KvPair { key: e.key->Bytes_0, value: e.value->Bytes_0 }
}

/// Extracts key-value pairs from a host dictionary's entries, one pair per
/// entry, in the dictionary's insertion order. A malformed entry fails with
/// a type mismatch at the point of extraction, naming the first offender.
#[verifier::loop_isolation(false)]
pub fn from_py_dict(entries: Vec<HostEntry>) -> (r: Result<Vec<KvPair>, MarshalError>)
    ensures
        (r is Ok) == (forall|i: int| 0 <= i < entries@.len() ==> dict_entry_ok(entries@[i])),
        (r matches Ok(pairs) ==> {
            &&& pairs@.len() == entries@.len()
            &&& forall|i: int| 0 <= i < pairs@.len() ==> pairs@[i] == entry_pair(entries@[i])
        }),
        (r matches Err(e) ==> {
            &&& e is KeyNotBytes || e is ValueNotBytes
            &&& e matches MarshalError::KeyNotBytes { index } ==> {
                &&& index < entries@.len()
                &&& !(entries@[index as int].key is Bytes)
                &&& forall|j: int| 0 <= j < index ==> dict_entry_ok(entries@[j])
            }
            &&& e matches MarshalError::ValueNotBytes { index } ==> {
                &&& index < entries@.len()
                &&& entries@[index as int].key is Bytes
                &&& !(entries@[index as int].value is Bytes)
                &&& forall|j: int| 0 <= j < index ==> dict_entry_ok(entries@[j])
            }
        }),
{
    let ghost orig = entries@;
    let mut rest = entries;
    let mut pairs: Vec<KvPair> = Vec::new();
    let mut idx: usize = 0;
    while rest.len() > 0
        invariant
            idx == pairs@.len(),
            idx + rest@.len() == orig.len(),
            forall|j: int| 0 <= j < idx ==> dict_entry_ok(orig[j]),
            forall|j: int| 0 <= j < idx ==> pairs@[j] == entry_pair(orig[j]),
            forall|j: int| 0 <= j < rest@.len() ==> rest@[j] == orig[idx + j],
        decreases rest@.len(),
    {
        let e = rest.remove(0);
        match e.key {
            HostValue::Bytes(k) => match e.value {
                HostValue::Bytes(v) => {
                    pairs.push(KvPair { key: k, value: v });
                },
                _ => {
                    return Err(MarshalError::ValueNotBytes { index: idx });
                },
            },
            _ => {
                return Err(MarshalError::KeyNotBytes { index: idx });
            },
        }
        idx = pairs.len();
    }
    Ok(pairs)
}

/// A well-formed expiring dictionary entry: byte-string key, and a (value,
/// ttl) pair of a byte-string and an unsigned integer.
pub open spec fn ttl_entry_ok(e: HostEntry) -> bool {
    &&& e.key is Bytes
    &&& e.value is Tuple
    &&& e.value->Tuple_0@.len() == 2
    &&& e.value->Tuple_0@[0] is Bytes
    &&& e.value->Tuple_0@[1] is Int
}

/// The pair and expiry a well-formed expiring dictionary entry extracts to.
pub open spec fn ttl_entry_pair(e: HostEntry) -> (KvPair, u64) {
    (
        KvPair { key: e.key->Bytes_0, value: e.value->Tuple_0@[0]->Bytes_0 },
        e.value->Tuple_0@[1]->Int_0,
    )
}

/// Extracts key-value pairs, each with a time-to-live in seconds, from a
/// host dictionary mapping keys to (value, ttl) pairs. A malformed entry
/// fails with a type mismatch at the point of extraction: a non-byte-string
/// key, a value that is not a pair of two elements, a non-byte-string first
/// element, or a non-integer ttl, naming the first offender.
#[verifier::loop_isolation(false)]
pub fn from_py_dict_with_ttl(entries: Vec<HostEntry>) -> (r: Result<
    Vec<(KvPair, u64)>,
    MarshalError,
>)
    ensures
        (r is Ok) == (forall|i: int| 0 <= i < entries@.len() ==> ttl_entry_ok(entries@[i])),
        (r matches Ok(pairs) ==> {
            &&& pairs@.len() == entries@.len()
            &&& forall|i: int| 0 <= i < pairs@.len() ==> pairs@[i] == ttl_entry_pair(entries@[i])
        }),
        (r matches Err(e) ==> exists|i: usize|
            {
                &&& i < entries@.len()
                &&& !ttl_entry_ok(#[trigger] entries@[i as int])
                &&& (forall|j: int| 0 <= j < i as int ==> ttl_entry_ok(entries@[j]))
                &&& e == spec_ttl_entry_error(entries@[i as int], i)
            }),
{
    let ghost orig = entries@;
    let mut rest = entries;
    let mut pairs: Vec<(KvPair, u64)> = Vec::new();
    let mut idx: usize = 0;
    while rest.len() > 0
        invariant
            idx == pairs@.len(),
            idx + rest@.len() == orig.len(),
            forall|j: int| 0 <= j < idx ==> ttl_entry_ok(orig[j]),
            forall|j: int| 0 <= j < idx ==> pairs@[j] == ttl_entry_pair(orig[j]),
            forall|j: int| 0 <= j < rest@.len() ==> rest@[j] == orig[idx + j],
        decreases rest@.len(),
    {
        let e = rest.remove(0);
        let ghost entry = orig[idx as int];
        match e.key {
            HostValue::Bytes(k) => match e.value {
                HostValue::Tuple(parts) => {
                    if parts.len() != 2 {
                        proof {
                            assert(!ttl_entry_ok(entry));
                            assert(spec_ttl_entry_error(entry, idx) == (MarshalError::ValueNotPair {
                                index: idx,
                            }));
                        }
                        return Err(MarshalError::ValueNotPair { index: idx });
                    }
                    let mut parts = parts;
                    let second = parts.pop().unwrap();
                    let first = parts.pop().unwrap();
                    match first {
                        HostValue::Bytes(v) => match second {
                            HostValue::Int(ttl) => {
                                pairs.push((KvPair { key: k, value: v }, ttl));
                            },
                            _ => {
                                proof {
                                    assert(!ttl_entry_ok(entry));
                                    assert(spec_ttl_entry_error(entry, idx)
                                        == (MarshalError::TtlNotInt { index: idx }));
                                }
                                return Err(MarshalError::TtlNotInt { index: idx });
                            },
                        },
                        _ => {
                            proof {
                                assert(!ttl_entry_ok(entry));
                                assert(spec_ttl_entry_error(entry, idx)
                                    == (MarshalError::ValueNotBytes { index: idx }));
                            }
                            return Err(MarshalError::ValueNotBytes { index: idx });
                        },
                    }
                },
                _ => {
                    proof {
                        assert(!ttl_entry_ok(entry));
                        assert(spec_ttl_entry_error(entry, idx) == (MarshalError::ValueNotPair {
                            index: idx,
                        }));
                    }
                    return Err(MarshalError::ValueNotPair { index: idx });
                },
            },
            _ => {
                proof {
                    assert(!ttl_entry_ok(entry));
                    assert(spec_ttl_entry_error(entry, idx) == (MarshalError::KeyNotBytes {
                        index: idx,
                    }));
                }
                return Err(MarshalError::KeyNotBytes { index: idx });
            },
        }
        idx = pairs.len();
    }
    Ok(pairs)
}

/// Whether a mapping holds an entry for `k`.
pub open spec fn dict_has_key(d: Seq<(Seq<u8>, Seq<u8>)>, k: Seq<u8>) -> bool {
    exists|j: int| 0 <= j < d.len() && d[j].0 == k
}

/// The position of `k` in a mapping that holds it.
pub open spec fn dict_key_index(d: Seq<(Seq<u8>, Seq<u8>)>, k: Seq<u8>) -> int {
    choose|j: int| 0 <= j < d.len() && d[j].0 == k
}

/// Host-mapping insertion: a later insertion of a present key overwrites the
/// value in place, keeping the key's original position; a new key is
/// appended.
pub open spec fn dict_insert(d: Seq<(Seq<u8>, Seq<u8>)>, k: Seq<u8>, v: Seq<u8>) -> Seq<
    (Seq<u8>, Seq<u8>),
> {
    if dict_has_key(d, k) {
        d.update(dict_key_index(d, k), (k, v))
    } else {
        d.push((k, v))
    }
}

/// The mapping built by inserting a sequence of pairs in order.
pub open spec fn dict_of_pairs(ps: Seq<(Seq<u8>, Seq<u8>)>) -> Seq<(Seq<u8>, Seq<u8>)>
    decreases ps.len(),
{
    if ps.len() == 0 {
        Seq::empty()
    } else {
        dict_insert(dict_of_pairs(ps.drop_last()), ps.last().0, ps.last().1)
    }
}

/// No two pairs share a key.
pub open spec fn distinct_keys(ps: Seq<(Seq<u8>, Seq<u8>)>) -> bool {
    forall|i: int, j: int| 0 <= i < j < ps.len() ==> ps[i].0 != ps[j].0
}

/// Projecting pairs with distinct keys into a host mapping reproduces every
/// pair exactly once, in the source order: the mapping's entries are the
/// pairs themselves.
pub proof fn lemma_mapping_round_trip(ps: Seq<(Seq<u8>, Seq<u8>)>)
    requires
        distinct_keys(ps),
    ensures
        dict_of_pairs(ps) =~= ps,
    decreases ps.len(),
{
    if ps.len() > 0 {
        let dl = ps.drop_last();
        let last = ps.last();
        assert(distinct_keys(dl));
        lemma_mapping_round_trip(dl);
        assert(!dict_has_key(dl, last.0)) by {
            if dict_has_key(dl, last.0) {
                let j = dict_key_index(dl, last.0);
                assert(ps[j].0 == ps[ps.len() - 1].0);
            }
        }
        assert(dict_of_pairs(ps) =~= dl.push(last));
        assert(dl.push(last) =~= ps);
    }
}

/// The byte contents of a well-formed dictionary entry.
pub open spec fn entry_bytes(e: HostEntry) -> (Seq<u8>, Seq<u8>) {
    (e.key->Bytes_0@, e.value->Bytes_0@)
}

/// The byte contents of a dictionary's entries.
pub open spec fn dict_views(d: Seq<HostEntry>) -> Seq<(Seq<u8>, Seq<u8>)> {
    d.map(|i: int, e: HostEntry| entry_bytes(e))
}

/// Finds the entry holding `key`, if any.
fn dict_find(d: &Vec<HostEntry>, key: &Vec<u8>) -> (r: Option<usize>)
    requires
        forall|i: int| 0 <= i < d@.len() ==> dict_entry_ok(d@[i]),
    ensures
        (r matches Some(j) ==> j < d@.len() && dict_views(d@)[j as int].0 == key@),
        (r is None ==> !dict_has_key(dict_views(d@), key@)),
{
    let mut j: usize = 0;
    while j < d.len()
        invariant
            j <= d@.len(),
            forall|i: int| 0 <= i < d@.len() ==> dict_entry_ok(d@[i]),
            forall|jj: int| 0 <= jj < j ==> dict_views(d@)[jj].0 != key@,
        decreases d@.len() - j,
    {
        let hit = match &d[j].key {
            HostValue::Bytes(b) => crate::order::bytes_eq(b, key),
            _ => false,
        };
        if hit {
            return Some(j);
        }
        j = j + 1;
    }
    None
}

/// Projects key-value pairs into a host mapping, one entry per pair in
/// source order, a later duplicate key overwriting the earlier value in
/// place, as host-mapping insertion does.
#[verifier::loop_isolation(false)]
pub fn pairs_to_host_dict(pairs: &Vec<KvPair>) -> (d: Vec<HostEntry>)
    ensures
        forall|i: int| 0 <= i < d@.len() ==> dict_entry_ok(d@[i]),
        dict_views(d@) =~= dict_of_pairs(pair_views(pairs@)),
{
    let ghost goal = pair_views(pairs@);
    let mut d: Vec<HostEntry> = Vec::new();
    let mut i: usize = 0;
    while i < pairs.len()
        invariant
            i <= pairs@.len(),
            forall|t: int| 0 <= t < d@.len() ==> dict_entry_ok(d@[t]),
            dict_views(d@) =~= dict_of_pairs(goal.take(i as int)),
            distinct_keys(dict_views(d@)),
        decreases pairs@.len() - i,
    {
        let p = &pairs[i];
        let ghost dv = dict_views(d@);
        proof {
            assert(goal.take(i + 1).drop_last() =~= goal.take(i as int));
            assert(goal.take(i + 1).last() == (p.key@, p.value@));
        }
        match dict_find(&d, &p.key) {
            Some(j) => {
                let e = d.remove(j);
                let value = HostValue::Bytes(crate::order::copy_bytes(&p.value));
                d.insert(j, HostEntry { key: e.key, value });
                proof {
                    assert(dict_has_key(dv, p.key@));
                    let cj = dict_key_index(dv, p.key@);
                    assert(dv[cj].0 == p.key@ && dv[j as int].0 == p.key@);
                    assert(cj == j as int);
                    assert(dict_views(d@) =~= dv.update(j as int, (p.key@, p.value@)));
                    assert(dict_views(d@) =~= dict_insert(dv, p.key@, p.value@));
                    assert(distinct_keys(dict_views(d@)));
                }
            },
            None => {
                let key = HostValue::Bytes(crate::order::copy_bytes(&p.key));
                let value = HostValue::Bytes(crate::order::copy_bytes(&p.value));
                d.push(HostEntry { key, value });
                proof {
                    assert(dict_views(d@) =~= dv.push((p.key@, p.value@)));
                    assert(dict_views(d@) =~= dict_insert(dv, p.key@, p.value@));
                    assert(distinct_keys(dict_views(d@)));
                }
            },
        }
        i = i + 1;
    }
    proof {
        assert(goal.take(pairs@.len() as int) =~= goal);
    }
    d
}

/// The error owed for the first malformed expiring entry.
pub open spec fn spec_ttl_entry_error(e: HostEntry, index: usize) -> MarshalError {
    if !(e.key is Bytes) {
        MarshalError::KeyNotBytes { index }
    } else if !(e.value is Tuple) || e.value->Tuple_0@.len() != 2 {
        MarshalError::ValueNotPair { index }
    } else if !(e.value->Tuple_0@[0] is Bytes) {
        MarshalError::ValueNotBytes { index }
    } else {
        MarshalError::TtlNotInt { index }
    }
}

} // verus!
