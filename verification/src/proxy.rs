//! One cycle of the proxy: what to do with a datagram, and with the resolver's
//! answer to it. The caller owns the socket, the HTTPS client and the clock.

use crate::cache::{invalidate_cache, swept, Cache, Stored};
use crate::codec::{decode_name, decoded_name, key_for, key_of, splice_reply, spliced, HEADER_LEN};
use crate::forward::{fetched_payload, payload_from, Fetched, ForwardError};
use vstd::prelude::*;
use vstd::slice::{slice_subrange, slice_to_vec};
use vstd::string::StringExecFns;

verus! {

/// The time-to-live that the sweeps use: the configured one while caching is
/// enabled, zero while it is not.
pub fn effective_ttl(cache_enabled: bool, cache_ttl: u64) -> (ttl: u64)
    ensures
        ttl == if cache_enabled { cache_ttl } else { 0 },
{
    if cache_enabled {
        cache_ttl
    } else {
        0
    }
}

/// The name to log for a datagram, as a sequence: the decoded question name, or
/// the empty name where there is no question section or it does not decode.
pub open spec fn observed(datagram: Seq<u8>) -> Seq<char> {
    if datagram.len() < HEADER_LEN {
        Seq::empty()
    } else {
        match decoded_name(datagram.skip(HEADER_LEN as int)) {
            Ok(s) => s,
            Err(_) => Seq::empty(),
        }
    }
}

/// The query name of `datagram` for logging. A datagram that yields no name gives
/// the empty string.
pub fn observed_name(datagram: &[u8]) -> (name: String)
    ensures
        name@ == observed(datagram@),
{
    if datagram.len() < HEADER_LEN {
        return String::new();
    }
    let question = slice_subrange(datagram, HEADER_LEN, datagram.len());
    assert(question@ =~= datagram@.skip(HEADER_LEN as int));
    match decode_name(question) {
        Ok(name) => name,
        Err(_) => String::new(),
    }
}

/// The line to log for a query name: the name, a space, and `HIT` or `MISS`.
pub fn log_line(name: &str, hit: bool) -> (line: String)
    ensures
        line@ == name@ + (if hit { " HIT"@ } else { " MISS"@ }),
{
    let mut line = String::from_str(name);
    if hit {
        line.append(" HIT");
    } else {
        line.append(" MISS");
    }
    line
}

/// What the caller does next with a datagram.
#[derive(Debug)]
pub enum Step {
    /// The datagram is shorter than a DNS header: send nothing.
    Skip,
    /// The answer was cached: send `reply` to the requester.
    Reply { reply: Vec<u8> },
    /// Nothing fresh is cached: POST `query` to the resolver, then call
    /// `complete_cycle` with what came back.
    Forward { query: Vec<u8> },
}

/// Why a cycle ends without a reply.
#[derive(Clone, Copy, Debug, PartialEq, Eq, Structural)]
pub enum CycleError {
    /// The datagram is shorter than a DNS header.
    Malformed,
    /// The resolver gave no usable answer.
    Forward(ForwardError),
}

/// The cache contents after the first half of a cycle: swept, unless the
/// datagram is malformed.
pub open spec fn after_begin(m: Map<Seq<u8>, Stored>, datagram: Seq<u8>, now: u64, ttl: u64) -> Map<
    Seq<u8>,
    Stored,
> {
    if datagram.len() < HEADER_LEN {
        m
    } else {
        swept(m, now, ttl)
    }
}

/// Whether the first half of a cycle finds the answer in the cache.
pub open spec fn is_hit(m: Map<Seq<u8>, Stored>, datagram: Seq<u8>, now: u64, ttl: u64) -> bool {
    datagram.len() >= HEADER_LEN && swept(m, now, ttl).contains_key(key_of(datagram))
}

/// First half of a cycle, for a datagram received at second `now`. A datagram
/// shorter than a header is skipped and leaves the cache alone. Otherwise the
/// cache is swept with `ttl`; a fresh entry under the query's key gives the
/// reply at once, and without one the query is to be forwarded.
pub fn begin_cycle(cache: &mut Cache, datagram: &[u8], now: u64, ttl: u64) -> (step: Step)
    ensures
        final(cache)@ == after_begin(old(cache)@, datagram@, now, ttl),
        match step {
            Step::Skip => datagram@.len() < HEADER_LEN,
            Step::Reply { reply } => is_hit(old(cache)@, datagram@, now, ttl) && reply@ == spliced(
                datagram@,
                swept(old(cache)@, now, ttl)[key_of(datagram@)].1,
            ),
            Step::Forward { query } => datagram@.len() >= HEADER_LEN && !is_hit(
                old(cache)@,
                datagram@,
                now,
                ttl,
            ) && query@ == datagram@,
        },
        ttl == 0 && datagram@.len() >= HEADER_LEN ==> step is Forward,
{
    if datagram.len() < HEADER_LEN {
        return Step::Skip;
    }
    invalidate_cache(cache, now, ttl, true);
    let key = key_for(datagram);
    match cache.get(key.as_slice()) {
        Some(entry) => Step::Reply { reply: splice_reply(datagram, entry.payload.as_slice()) },
        None => {
            Step::Forward { query: slice_to_vec(datagram) }
        },
    }
}

/// The cache contents after the second half of a cycle: the new payload stored
/// under the query's key, or no change where there is no payload to store.
pub open spec fn after_complete(
    m: Map<Seq<u8>, Stored>,
    datagram: Seq<u8>,
    now: u64,
    fetched: Fetched,
) -> Map<Seq<u8>, Stored> {
    match fetched_payload(fetched) {
        Ok(p) if datagram.len() >= HEADER_LEN => m.insert(key_of(datagram), (now, p)),
        _ => m,
    }
}

/// Second half of a cycle, for a query that was forwarded. A usable answer is
/// stored under the query's key with the stamp `now`, and the reply is built
/// from it. Any failure leaves the cache as it was and gives no reply.
pub fn complete_cycle(cache: &mut Cache, datagram: &[u8], now: u64, fetched: Fetched) -> (reply:
    Result<Vec<u8>, CycleError>)
    ensures
        final(cache)@ == after_complete(old(cache)@, datagram@, now, fetched),
        match reply {
            Ok(r) => datagram@.len() >= HEADER_LEN && final(cache)@.contains_key(key_of(datagram@))
                && fetched_payload(fetched) == Ok::<Seq<u8>, ForwardError>(
                final(cache)@[key_of(datagram@)].1,
            ) && final(cache)@[key_of(datagram@)].0 == now && r@ == spliced(
                datagram@,
                final(cache)@[key_of(datagram@)].1,
            ),
            Err(CycleError::Malformed) => datagram@.len() < HEADER_LEN,
            Err(CycleError::Forward(e)) => datagram@.len() >= HEADER_LEN && fetched_payload(fetched)
                == Err::<Seq<u8>, ForwardError>(e),
        },
{
    if datagram.len() < HEADER_LEN {
        return Err(CycleError::Malformed);
    }
    match payload_from(&fetched) {
        Err(e) => Err(CycleError::Forward(e)),
        Ok(payload) => {
            let reply = splice_reply(datagram, payload.as_slice());
            cache.insert(key_for(datagram), now, payload);
            Ok(reply)
        },
    }
}

} // verus!
