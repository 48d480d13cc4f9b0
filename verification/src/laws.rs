//! Laws that relate the functions of this library, stated over their models.

use crate::cache::{age, swept, Stored};
use crate::codec::{
    decoded_from, decoded_name, key_of, label_chars, spliced, DecodeError, HEADER_LEN, MAX_NAME_LEN,
};
use crate::forward::{fetched_payload, Fetched};
use crate::proxy::{after_begin, after_complete, is_hit};
use vstd::prelude::*;

verus! {

/// Two queries that differ at most in their transaction ID, the first two
/// bytes, have the same cache key.
pub proof fn key_ignores_transaction_id(q1: Seq<u8>, q2: Seq<u8>)
    requires
        q1.len() >= 2,
        q1.len() == q2.len(),
        forall|i: int| 2 <= i < q1.len() ==> q1[i] == q2[i],
    ensures
        key_of(q1) == key_of(q2),
{
    assert(key_of(q1) =~= key_of(q2));
}

/// A reply opens with the transaction ID of the query it answers, and all that
/// follows is the payload, byte for byte.
pub proof fn reply_is_id_then_payload(query: Seq<u8>, payload: Seq<u8>)
    requires
        query.len() >= 2,
    ensures
        spliced(query, payload).len() == 2 + payload.len(),
        spliced(query, payload).take(2) == query.take(2),
        spliced(query, payload)[0] == query[0],
        spliced(query, payload)[1] == query[1],
        spliced(query, payload).skip(2) == payload,
{
    assert(spliced(query, payload).take(2) =~= query.take(2));
    assert(spliced(query, payload).skip(2) =~= payload);
}

/// Decoding is a function of the question bytes: two decodings of the same
/// bytes agree, in the name as in the error.
pub proof fn decoding_is_deterministic(
    question: Seq<u8>,
    first: Result<Seq<char>, DecodeError>,
    second: Result<Seq<char>, DecodeError>,
)
    requires
        first == decoded_name(question),
        second == decoded_name(question),
    ensures
        first == second,
{
}

/// An entry stored at second `t` outlives every sweep at a second `now` with
/// `t <= now < t + ttl` and none at `now >= t + ttl`: with a time-to-live of at
/// least one it is there at `t + ttl - 1` and gone at `t + ttl + 1`.
pub proof fn entry_lives_for_ttl(
    m: Map<Seq<u8>, Stored>,
    key: Seq<u8>,
    payload: Seq<u8>,
    t: u64,
    ttl: u64,
    now: u64,
)
    ensures
        t <= now < t + ttl ==> swept(m.insert(key, (t, payload)), now, ttl).contains_key(key)
            && swept(m.insert(key, (t, payload)), now, ttl)[key] == (t, payload),
        now >= t + ttl ==> !swept(m.insert(key, (t, payload)), now, ttl).contains_key(key),
        ttl >= 1 && now == t + ttl - 1 ==> swept(m.insert(key, (t, payload)), now, ttl).contains_key(
            key,
        ),
        now == t + ttl + 1 ==> !swept(m.insert(key, (t, payload)), now, ttl).contains_key(key),
{
}

/// A sweep neither adds an entry nor alters one: what it leaves is fresh and
/// was there before, unchanged.
pub proof fn sweep_keeps_only_fresh(m: Map<Seq<u8>, Stored>, now: u64, ttl: u64, key: Seq<u8>)
    requires
        swept(m, now, ttl).contains_key(key),
    ensures
        m.contains_key(key),
        swept(m, now, ttl)[key] == m[key],
        age(m[key].0, now) < ttl,
{
}

/// With a time-to-live of zero, as while caching is disabled, no entry survives
/// a sweep, so no datagram is answered from the cache: each one is forwarded.
pub proof fn zero_ttl_always_forwards(m: Map<Seq<u8>, Stored>, datagram: Seq<u8>, now: u64)
    ensures
        swept(m, now, 0) == Map::<Seq<u8>, Stored>::empty(),
        !is_hit(m, datagram, now, 0),
        datagram.len() >= HEADER_LEN ==> after_begin(m, datagram, now, 0) == Map::<
            Seq<u8>,
            Stored,
        >::empty(),
{
    assert(swept(m, now, 0) =~= Map::<Seq<u8>, Stored>::empty());
}

/// Once a forwarded query has been answered, a query with the same content and
/// any transaction ID is a hit at every second within the time-to-live, and its
/// answer is the payload that was stored.
pub proof fn answered_query_hits_within_ttl(
    m: Map<Seq<u8>, Stored>,
    first: Seq<u8>,
    second: Seq<u8>,
    fetched: Fetched,
    t: u64,
    now: u64,
    ttl: u64,
)
    requires
        first.len() >= HEADER_LEN,
        second.len() >= HEADER_LEN,
        key_of(first) == key_of(second),
        fetched_payload(fetched) is Ok,
        t <= now < t + ttl,
    ensures
        is_hit(after_complete(m, first, t, fetched), second, now, ttl),
        swept(after_complete(m, first, t, fetched), now, ttl)[key_of(second)].1 == fetched_payload(
            fetched,
        )->Ok_0,
{
}

/// A datagram shorter than a DNS header changes nothing: it is no hit, and the
/// cache after it is the cache before it.
pub proof fn short_datagram_changes_nothing(
    m: Map<Seq<u8>, Stored>,
    datagram: Seq<u8>,
    now: u64,
    ttl: u64,
    fetched: Fetched,
)
    requires
        datagram.len() < HEADER_LEN,
    ensures
        !is_hit(m, datagram, now, ttl),
        after_begin(m, datagram, now, ttl) == m,
        after_complete(m, datagram, now, fetched) == m,
{
}

/// A cycle that ends with a reply leaves the answer in the cache under the
/// query's key: after a hit, and after a forwarded query was answered.
pub proof fn replied_query_is_cached(
    m: Map<Seq<u8>, Stored>,
    datagram: Seq<u8>,
    now: u64,
    ttl: u64,
    fetched: Fetched,
)
    requires
        datagram.len() >= HEADER_LEN,
    ensures
        is_hit(m, datagram, now, ttl) ==> after_begin(m, datagram, now, ttl).contains_key(
            key_of(datagram),
        ),
        fetched_payload(fetched) is Ok ==> after_complete(m, datagram, now, fetched).contains_key(
            key_of(datagram),
        ) && after_complete(m, datagram, now, fetched)[key_of(datagram)] == (
            now,
            fetched_payload(fetched)->Ok_0,
        ),
        fetched_payload(fetched) is Err ==> after_complete(m, datagram, now, fetched) == m,
{
}

/// A query is answered from the cache whatever its transaction ID: where a
/// fresh entry is stored under the key of one query, a query of the same
/// content is a hit and is answered with that entry's payload. Where every
/// entry is fresh, the cycle leaves the cache as it was, stamps included.
pub proof fn same_content_hits_whatever_the_id(
    m: Map<Seq<u8>, Stored>,
    q1: Seq<u8>,
    q2: Seq<u8>,
    now: u64,
    ttl: u64,
)
    requires
        q1.len() >= HEADER_LEN,
        q1.len() == q2.len(),
        forall|i: int| 2 <= i < q1.len() ==> q1[i] == q2[i],
        m.contains_key(key_of(q1)),
        age(m[key_of(q1)].0, now) < ttl,
    ensures
        key_of(q2) == key_of(q1),
        is_hit(m, q2, now, ttl),
        after_begin(m, q2, now, ttl)[key_of(q2)] == m[key_of(q1)],
        (forall|k: Seq<u8>| m.contains_key(k) ==> age((#[trigger] m[k]).0, now) < ttl)
            ==> after_begin(m, q2, now, ttl) == m,
{
    key_ignores_transaction_id(q1, q2);
    if forall|k: Seq<u8>| m.contains_key(k) ==> age((#[trigger] m[k]).0, now) < ttl {
        assert(swept(m, now, ttl) =~= m);
    }
}

/// Two answered queries of the same content write one key, whatever their
/// transaction IDs: the keys grow by that key alone, and what is stored under
/// it is the second answer with the second stamp.
pub proof fn same_content_writes_one_key(
    m: Map<Seq<u8>, Stored>,
    q1: Seq<u8>,
    q2: Seq<u8>,
    first: Fetched,
    second: Fetched,
    t1: u64,
    t2: u64,
)
    requires
        q1.len() >= HEADER_LEN,
        q1.len() == q2.len(),
        forall|i: int| 2 <= i < q1.len() ==> q1[i] == q2[i],
        fetched_payload(first) is Ok,
        fetched_payload(second) is Ok,
    ensures
        after_complete(after_complete(m, q1, t1, first), q2, t2, second) == m.insert(
            key_of(q1),
            (t2, fetched_payload(second)->Ok_0),
        ),
        after_complete(after_complete(m, q1, t1, first), q2, t2, second).dom() == m.dom().insert(
            key_of(q1),
        ),
{
    key_ignores_transaction_id(q1, q2);
    let k = key_of(q1);
    let both = after_complete(after_complete(m, q1, t1, first), q2, t2, second);
    assert(both =~= m.insert(k, (t2, fetched_payload(second)->Ok_0)));
    assert(both.dom() =~= m.dom().insert(k));
}

/// A name that decodes from the length byte at `pos` has as many characters as
/// there are octets between `pos` and its terminating zero: each label gives its
/// bytes and one dot, and the terminator gives nothing.
pub proof fn name_ends_at_terminator(question: Seq<u8>, pos: int)
    requires
        0 <= pos,
        decoded_from(question, pos) is Ok,
    ensures
        pos + decoded_from(question, pos)->Ok_0.len() < question.len(),
        pos + decoded_from(question, pos)->Ok_0.len() < MAX_NAME_LEN,
        question[pos + decoded_from(question, pos)->Ok_0.len()] == 0,
    decreases question.len() - pos,
{
    if question[pos] != 0 {
        let end = pos + 1 + question[pos];
        let label = question.subrange(pos + 1, end);
        let head = label_chars(label).push('.');
        let rest = decoded_from(question, end);
        assert(rest is Ok);
        name_ends_at_terminator(question, end);
        assert(decoded_from(question, pos)->Ok_0 == head + rest->Ok_0);
        assert(head.len() == end - pos);
    }
}

} // verus!
