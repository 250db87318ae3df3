//! Status codes and buffer protocol of the C-compatible engine handle.
//!
//! Buffers are caller-owned: a call either fits its result into the
//! caller's capacity or reports that it did not. A finished enrollment is
//! kept serialised so that a size query followed by a fetch both see the
//! same profile.

use vstd::prelude::*;

verus! {

/// Success.
pub const VC_OK: i32 = 0;
/// A required pointer argument was null.
pub const VC_ERR_NULL: i32 = -1;
/// The configuration was rejected.
pub const VC_ERR_CONFIG: i32 = -2;
/// The provided output buffer was too small.
pub const VC_ERR_BUFFER: i32 = -3;
/// The engine was not in the expected state (e.g. not enrolling).
pub const VC_ERR_STATE: i32 = -4;

/// Samples handed to a caller buffer of `cap` out of `total` available.
pub open spec fn delivered_count(total: nat, cap: nat) -> nat {
    if total <= cap {
        total
    } else {
        cap
    }
}

/// Whether a process call can hand over its output: everything available
/// fits, or the buffer holds at least as many samples as were fed in (which
/// the output never outgrows over time, so the rest waits for the next call).
pub open spec fn output_accepted(total: nat, in_len: nat, cap: nat) -> bool {
    total <= cap || in_len <= cap
}

/// Cleaned output that did not fit into the caller's buffer yet. Samples
/// are carried as the bit patterns of their `f32` values, in order.
pub struct OutputQueue {
    pending: Vec<u32>,
}

/// The result of one process call: its status and the samples to copy.
pub struct Delivery {
    pub status: i32,
    pub samples: Vec<u32>,
}

impl OutputQueue {
    /// Samples waiting for the next call, oldest first.
    pub closed spec fn pending(&self) -> Seq<u32> {
        self.pending@
    }

    /// Nothing waiting.
    pub fn new() -> (q: OutputQueue)
        ensures
            q.pending() == Seq::<u32>::empty(),
    {
        OutputQueue { pending: Vec::new() }
    }

    /// How many samples are waiting.
    pub fn pending_len(&self) -> (n: usize)
        ensures
            n == self.pending().len(),
    {
        self.pending.len()
    }

    /// Hands over the output of a call that fed `in_len` input samples and
    /// produced `produced`, for a caller buffer of `cap` samples. Waiting
    /// samples go first. When accepted, as many samples as fit are delivered
    /// (`VC_OK`) and the rest wait, nothing lost or reordered; otherwise
    /// (`VC_ERR_BUFFER`) nothing is delivered and this call's output is
    /// dropped, while what was already waiting keeps waiting.
    pub fn deliver(&mut self, produced: Vec<u32>, in_len: usize, cap: usize) -> (d: Delivery)
        requires
            old(self).pending().len() + produced@.len() <= usize::MAX,
        ensures
            ({
                let total = old(self).pending() + produced@;
                if output_accepted(total.len(), in_len as nat, cap as nat) {
                    &&& d.status == VC_OK
                    &&& d.samples@ == total.take(delivered_count(total.len(), cap as nat) as int)
                    &&& final(self).pending() == total.skip(
                        delivered_count(total.len(), cap as nat) as int,
                    )
                } else {
                    &&& d.status == VC_ERR_BUFFER
                    &&& d.samples@ == Seq::<u32>::empty()
                    &&& final(self).pending() == old(self).pending()
                }
            }),
            d.status == VC_OK ==> d.samples@ + final(self).pending() == old(self).pending()
                + produced@,
            d.samples@.len() <= cap,
            in_len <= cap ==> d.status == VC_OK,
    {
        let n = self.pending.len() + produced.len();
        if !(n <= cap || in_len <= cap) {
            return Delivery { status: VC_ERR_BUFFER, samples: Vec::new() };
        }
        let mut total: Vec<u32> = Vec::new();
        let mut i: usize = 0;
        while i < self.pending.len()
            invariant
                i <= self.pending@.len(),
                total@ == self.pending@.take(i as int),
            decreases self.pending@.len() - i,
        {
            total.push(self.pending[i]);
            i = i + 1;
            proof {
                assert(total@ =~= self.pending@.take(i as int));
            }
        }
        let ghost first = total@;
        let mut j: usize = 0;
        while j < produced.len()
            invariant
                j <= produced@.len(),
                first.len() + produced@.len() <= usize::MAX,
                total@ == first + produced@.take(j as int),
            decreases produced@.len() - j,
        {
            total.push(produced[j]);
            j = j + 1;
            proof {
                assert(total@ =~= first + produced@.take(j as int));
            }
        }
        proof {
            assert(self.pending@.take(self.pending@.len() as int) =~= self.pending@);
            assert(produced@.take(produced@.len() as int) =~= produced@);
        }
        let k = if n <= cap { n } else { cap };
        let mut out: Vec<u32> = Vec::new();
        let mut rest: Vec<u32> = Vec::new();
        let mut t: usize = 0;
        while t < n
            invariant
                n == total@.len(),
                k <= n,
                t <= n,
                out@ == total@.take(if t <= k { t as int } else { k as int }),
                rest@ == if t <= k { Seq::<u32>::empty() } else { total@.subrange(k as int, t as int) },
            decreases n - t,
        {
            if t < k {
                out.push(total[t]);
            } else {
                rest.push(total[t]);
            }
            t = t + 1;
            proof {
                assert(out@ =~= total@.take(if t <= k { t as int } else { k as int }));
                assert(rest@ =~= if t <= k { Seq::<u32>::empty() } else { total@.subrange(k as int, t as int) });
            }
        }
        proof {
            assert(rest@ =~= total@.skip(k as int));
            assert(out@ + rest@ =~= total@);
        }
        self.pending = rest;
        Delivery { status: VC_OK, samples: out }
    }
}

/// Status of installing a profile blob that did (`true`) or did not parse.
pub fn profile_status(parsed: bool) -> (status: i32)
    ensures
        status == if parsed {
            VC_OK
        } else {
            VC_ERR_STATE
        },
{
    if parsed {
        VC_OK
    } else {
        VC_ERR_STATE
    }
}

/// The reply to a finish-enrollment call.
pub struct FinishReply {
    /// The status code returned to the caller.
    pub status: i32,
    /// The profile length reported to the caller, when one is known.
    pub len: Option<usize>,
    /// Whether the profile bytes are copied into the caller's buffer.
    pub copy: bool,
}

/// Which profile is cached after a finish call: a fresh one replaces the
/// cache, otherwise the cache is kept.
pub open spec fn cache_after(cache: Option<Seq<u8>>, fresh: Option<Seq<u8>>) -> Option<Seq<u8>> {
    match fresh {
        Some(b) => Some(b),
        None => cache,
    }
}

/// The status of a finish call once the cache is updated: no profile is a
/// state error; a null or zero-capacity buffer is a size query; otherwise
/// the profile must fit.
pub open spec fn finish_status(cache: Option<Seq<u8>>, out_is_null: bool, capacity: nat) -> i32 {
    match cache {
        None => VC_ERR_STATE,
        Some(b) => if out_is_null || capacity == 0 {
            VC_OK
        } else if b.len() > capacity {
            VC_ERR_BUFFER
        } else {
            VC_OK
        },
    }
}

/// The serialised profile of the most recently finished enrollment.
pub struct ProfileCache {
    last: Option<Vec<u8>>,
}

impl ProfileCache {
    /// The cached bytes, if any.
    pub closed spec fn cached(&self) -> Option<Seq<u8>> {
        match self.last {
            Some(b) => Some(b@),
            None => None,
        }
    }

    /// An empty cache.
    pub fn new() -> (c: ProfileCache)
        ensures
            c.cached() is None,
    {
        ProfileCache { last: None }
    }

    /// Takes the result of finishing enrollment (`fresh`, serialised, when
    /// enrollment was running) and answers the call for a caller buffer of
    /// `capacity` bytes (`out_is_null` for a size query).
    pub fn finish(&mut self, fresh: Option<Vec<u8>>, out_is_null: bool, capacity: usize) -> (reply:
        FinishReply)
        ensures
            final(self).cached() == cache_after(
                old(self).cached(),
                match fresh {
                    Some(b) => Some(b@),
                    None => None,
                },
            ),
            reply.status == finish_status(final(self).cached(), out_is_null, capacity as nat),
            reply.len == match final(self).cached() {
                Some(b) => Some(b.len() as usize),
                None => None::<usize>,
            },
            reply.copy <==> (final(self).cached() is Some && reply.status == VC_OK && !out_is_null
                && capacity != 0),
            final(self).cached() is None ==> reply.status == VC_ERR_STATE && !reply.copy,
            final(self).cached() is Some && (out_is_null || capacity == 0) ==> reply.status == VC_OK
                && !reply.copy,
            final(self).cached() is Some && !out_is_null && capacity != 0 ==> (reply.status
                == VC_OK <==> final(self).cached().unwrap().len() <= capacity) && (reply.status == VC_OK || reply.status
                == VC_ERR_BUFFER) && reply.copy == (reply.status == VC_OK),
    {
        if let Some(b) = fresh {
            self.last = Some(b);
        }
        match &self.last {
            None => FinishReply { status: VC_ERR_STATE, len: None, copy: false },
            Some(b) => {
                let len = b.len();
                if out_is_null || capacity == 0 {
                    FinishReply { status: VC_OK, len: Some(len), copy: false }
                } else if len > capacity {
                    FinishReply { status: VC_ERR_BUFFER, len: Some(len), copy: false }
                } else {
                    FinishReply { status: VC_OK, len: Some(len), copy: true }
                }
            },
        }
    }

    /// The cached bytes, for copying into the caller's buffer.
    pub fn bytes(&self) -> (b: Option<&Vec<u8>>)
        ensures
            match b {
                Some(v) => self.cached() == Some(v@),
                None => self.cached() is None,
            },
    {
        match &self.last {
            Some(v) => Some(v),
            None => None,
        }
    }
}

/// Size query, then fetch: once an enrollment has finished (whatever the
/// first call asked), a later call that finds no new enrollment and brings a
/// buffer large enough gets the very same bytes, with success.
pub proof fn lemma_query_then_fetch(
    cache: Option<Seq<u8>>,
    profile: Seq<u8>,
    first_null: bool,
    first_capacity: nat,
    capacity: nat,
)
    requires
        capacity >= profile.len(),
        capacity > 0,
    ensures
        ({
            let after_first = cache_after(cache, Some(profile));
            let after_second = cache_after(after_first, None);
            &&& after_second == Some(profile)
            &&& finish_status(after_first, first_null, first_capacity) != VC_ERR_STATE
            &&& finish_status(after_second, false, capacity) == VC_OK
        }),
{
}

/// A finish call with a null buffer or a zero capacity is a size query: with
/// a profile cached it succeeds and reports the length, copying nothing; a
/// real buffer succeeds exactly when the profile fits.
pub proof fn lemma_size_query(cache: Option<Seq<u8>>, out_is_null: bool, capacity: nat)
    ensures
        cache is Some && (out_is_null || capacity == 0) ==> finish_status(cache, out_is_null, capacity)
            == VC_OK,
        cache is Some && !out_is_null && capacity > 0 ==> (finish_status(
            cache,
            out_is_null,
            capacity,
        ) == VC_OK <==> cache.unwrap().len() <= capacity),
        cache is None ==> finish_status(cache, out_is_null, capacity) == VC_ERR_STATE,
{
}

} // verus!
