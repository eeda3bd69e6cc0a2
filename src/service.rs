//! The cache service: dispatches decoded requests against the store and
//! counts the operations it performs.
use vstd::prelude::*;
use vstd::string::StringExecFns;
use vstd::utf8::encode_utf8;
use crate::operation::{lower_of, op_of, CacheOpRequest, Operation};
use crate::reply::{
    bytes_of, generate_response, return_bad_request, Reply, STATUS_BAD_REQUEST, STATUS_OK,
};
use crate::store::{
    after_get, after_put, expiry, lemma_after_put, lookup_status, lookup_value, status_text,
    unique_keys, CacheStatus, EntryModel, ExpiringCache,
};

verus! {

/// The number of entries the service's store holds at most.
pub const CACHE_CAPACITY: usize = 1024;

/// How long, in milliseconds, a written value stays observable.
pub const PUT_TTL_MS: u64 = 5000;

/// How long, in milliseconds, the service waits for a request body.
pub const READ_TIMEOUT_MS: u64 = 1000;

pub open spec fn decode_failure_text() -> Seq<char> {
    "Problem with input data. Available fields: operation, key and data (optional)."@
}

pub open spec fn invalid_operation_text() -> Seq<char> {
    "Invalid operation."@
}

pub open spec fn missing_data_text() -> Seq<char> {
    "Content to cache is required (data field)."@
}

/// The text of a lookup reply.
pub open spec fn get_text(k: Seq<char>, v: Option<Seq<char>>, st: CacheStatus) -> Seq<char> {
    "key = "@ + k + " ; res = "@ + match v {
        Some(x) => x,
        None => "None"@,
    } + " ; cache_status = "@ + status_text(st)
}

/// The text of a write acknowledgement.
pub open spec fn put_text(k: Seq<char>) -> Seq<char> {
    "Put OK for key "@ + k
}

/// `req` is a lookup: it counts towards the lookup counter.
pub open spec fn is_counted_get(req: Option<CacheOpRequest>) -> bool {
    match req {
        Some(q) => op_of(lower_of(q.operation@)) == Some(Operation::Get),
        None => false,
    }
}

/// `req` is a write that carries data: it counts towards the write counter.
pub open spec fn is_counted_put(req: Option<CacheOpRequest>) -> bool {
    match req {
        Some(q) => op_of(lower_of(q.operation@)) == Some(Operation::Put) && q.data is Some,
        None => false,
    }
}

/// The number of lookups among `reqs`.
pub open spec fn counted_gets(reqs: Seq<Option<CacheOpRequest>>) -> nat
    decreases reqs.len(),
{
    if reqs.len() == 0 {
        0
    } else {
        counted_gets(reqs.drop_last()) + if is_counted_get(reqs.last()) {
            1nat
        } else {
            0nat
        }
    }
}

/// The number of writes with data among `reqs`.
pub open spec fn counted_puts(reqs: Seq<Option<CacheOpRequest>>) -> nat
    decreases reqs.len(),
{
    if reqs.len() == 0 {
        0
    } else {
        counted_puts(reqs.drop_last()) + if is_counted_put(reqs.last()) {
            1nat
        } else {
            0nat
        }
    }
}

/// How answering `req` moves the counters from `a` to `b`.
pub open spec fn counts_step(a: CacheApi, req: Option<CacheOpRequest>, b: CacheApi) -> bool {
    &&& b.spec_get_count() == a.spec_get_count() + if is_counted_get(req) {
        1int
    } else {
        0int
    }
    &&& b.spec_put_count() == a.spec_put_count() + if is_counted_put(req) {
        1int
    } else {
        0int
    }
}

/// The cache service: a bounded store and two operation counters.
pub struct CacheApi {
    cache: ExpiringCache,
    gets: u64,
    puts: u64,
}

impl CacheApi {
    pub closed spec fn entries(&self) -> Seq<EntryModel> {
        self.cache@
    }

    pub closed spec fn spec_capacity(&self) -> nat {
        self.cache.spec_capacity()
    }

    pub closed spec fn spec_get_count(&self) -> u64 {
        self.gets
    }

    pub closed spec fn spec_put_count(&self) -> u64 {
        self.puts
    }

    pub open spec fn wf(&self) -> bool {
        &&& 0 < self.spec_capacity()
        &&& self.entries().len() <= self.spec_capacity()
        &&& unique_keys(self.entries())
    }

    /// The store and both counters are as in `other`.
    pub open spec fn same_state(&self, other: &CacheApi) -> bool {
        &&& self.entries() == other.entries()
        &&& self.spec_capacity() == other.spec_capacity()
        &&& self.spec_get_count() == other.spec_get_count()
        &&& self.spec_put_count() == other.spec_put_count()
    }

    /// A service with an empty store of the given capacity and zeroed counters.
    pub fn new(capacity: usize) -> (r: CacheApi)
        requires
            capacity > 0,
        ensures
            r.wf(),
            r.entries() == Seq::<EntryModel>::empty(),
            r.spec_capacity() == capacity,
            r.spec_get_count() == 0,
            r.spec_put_count() == 0,
    {
        CacheApi { cache: ExpiringCache::new(capacity), gets: 0, puts: 0 }
    }

    /// The number of lookups performed.
    pub fn get_count(&self) -> (r: u64)
        ensures
            r == self.spec_get_count(),
    {
        self.gets
    }

    /// The number of writes performed.
    pub fn put_count(&self) -> (r: u64)
        ensures
            r == self.spec_put_count(),
    {
        self.puts
    }

    /// Answers one request at time `now` (milliseconds); `None` stands for a
    /// payload that did not decode. A lookup and a write with data each count
    /// once; a payload that did not decode, an unknown operation and a write
    /// without data change nothing.
    pub fn response(&mut self, req: Option<CacheOpRequest>, now: u64) -> (r: Reply)
        requires
            old(self).wf(),
            old(self).spec_get_count() < u64::MAX,
            old(self).spec_put_count() < u64::MAX,
        ensures
            final(self).wf(),
            final(self).spec_capacity() == old(self).spec_capacity(),
            counts_step(*old(self), req, *final(self)),
            match req {
                None => r.status == STATUS_BAD_REQUEST && r.body@ == encode_utf8(
                    decode_failure_text(),
                ) && final(self).same_state(old(self)),
                Some(q) => match op_of(lower_of(q.operation@)) {
                    None => r.status == STATUS_BAD_REQUEST && r.body@ == encode_utf8(
                        invalid_operation_text(),
                    ) && final(self).same_state(old(self)),
                    Some(Operation::Get) => {
                        &&& r.status == STATUS_OK
                        &&& r.body@ == encode_utf8(
                            get_text(
                                q.key@,
                                lookup_value(old(self).entries(), q.key@, now),
                                lookup_status(old(self).entries(), q.key@, now),
                            ),
                        )
                        &&& final(self).entries() == after_get(old(self).entries(), q.key@, now)
                        &&& final(self).spec_get_count() == old(self).spec_get_count() + 1
                        &&& final(self).spec_put_count() == old(self).spec_put_count()
                    },
                    Some(Operation::Put) => match q.data {
                        None => r.status == STATUS_BAD_REQUEST && r.body@ == encode_utf8(
                            missing_data_text(),
                        ) && final(self).same_state(old(self)),
                        Some(d) => {
                            &&& r.status == STATUS_OK
                            &&& r.body@ == encode_utf8(put_text(q.key@))
                            &&& final(self).entries() == after_put(
                                old(self).entries(),
                                old(self).spec_capacity(),
                                now,
                                q.key@,
                                d@,
                                expiry(now, PUT_TTL_MS),
                            )
                            &&& final(self).spec_get_count() == old(self).spec_get_count()
                            &&& final(self).spec_put_count() == old(self).spec_put_count() + 1
                        },
                    },
                },
            },
    {
        match req {
            None => return_bad_request(
                "Problem with input data. Available fields: operation, key and data (optional).",
            ),
            Some(q) => {
                let CacheOpRequest { operation, key, data } = q;
                match Operation::from_string(operation) {
                    None => return_bad_request("Invalid operation."),
                    Some(Operation::Get) => {
                        self.gets = self.gets + 1;
                        let (res, status) = self.cache.get(&key, now);
                        let mut text = String::from_str("key = ");
                        text.append(key.as_str());
                        text.append(" ; res = ");
                        match &res {
                            Some(v) => text.append(v.as_str()),
                            None => text.append("None"),
                        }
                        text.append(" ; cache_status = ");
                        text.append(status.as_str());
                        generate_response(STATUS_OK, bytes_of(text.as_str()))
                    },
                    Some(Operation::Put) => match data {
                        None => return_bad_request("Content to cache is required (data field)."),
                        Some(content) => {
                            self.puts = self.puts + 1;
                            let mut text = String::from_str("Put OK for key ");
                            text.append(key.as_str());
                            self.cache.put(key, content, PUT_TTL_MS, now);
                            generate_response(STATUS_OK, bytes_of(text.as_str()))
                        },
                    },
                }
            },
        }
    }
}

/// A write of `x` under `k` followed, before the write's time-to-live has
/// elapsed, by a lookup of `k` gives a lookup reply that names `k`, `x` and
/// a hit.
pub proof fn lemma_round_trip(
    s: Seq<EntryModel>,
    cap: nat,
    k: Seq<char>,
    x: Seq<char>,
    now: u64,
    later: u64,
)
    requires
        0 < cap,
        s.len() <= cap,
        unique_keys(s),
        now <= later,
        later < expiry(now, PUT_TTL_MS),
    ensures
        ({
            let t = after_put(s, cap, now, k, x, expiry(now, PUT_TTL_MS));
            get_text(k, lookup_value(t, k, later), lookup_status(t, k, later)) == "key = "@ + k
                + " ; res = "@ + x + " ; cache_status = "@ + "Hit"@
        }),
{
    lemma_after_put(s, cap, now, k, x, expiry(now, PUT_TTL_MS));
}

/// Answering the requests `reqs` one after another, from state `states[i]`
/// to `states[i + 1]`, raises the lookup counter by exactly the number of
/// lookups and the write counter by exactly the number of writes with data;
/// every other request raises neither.
pub proof fn lemma_counters(states: Seq<CacheApi>, reqs: Seq<Option<CacheOpRequest>>)
    requires
        states.len() == reqs.len() + 1,
        forall|i: int|
            0 <= i < reqs.len() ==> counts_step(#[trigger] states[i], reqs[i], states[i + 1]),
    ensures
        states.last().spec_get_count() == states[0].spec_get_count() + counted_gets(reqs),
        states.last().spec_put_count() == states[0].spec_put_count() + counted_puts(reqs),
    decreases reqs.len(),
{
    if reqs.len() > 0 {
        let n = reqs.len() - 1;
        let states0 = states.drop_last();
        let reqs0 = reqs.drop_last();
        assert forall|i: int| 0 <= i < reqs0.len() implies counts_step(
            #[trigger] states0[i],
            reqs0[i],
            states0[i + 1],
        ) by {
            assert(counts_step(states[i], reqs[i], states[i + 1]));
        }
        lemma_counters(states0, reqs0);
        assert(counts_step(states[n], reqs[n], states[n + 1]));
    }
}

} // verus!
