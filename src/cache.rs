//! Per-field response caches: a slot that is filled on the first read and
//! emptied once a mutating request has succeeded.
use vstd::prelude::*;
use crate::error::Error;
use vstd::string::StringExecFns;

verus! {

/// One cached response. The lock that serialises fetches is the caller's.
pub struct CachedField<T> {
    pub slot: Option<T>,
}

/// A call that touches a cached field.
pub enum CacheEvent<T> {
    /// A read; on a miss, the fetch returns the given value.
    Read(T),
    /// A mutating request that the device acknowledged.
    MutationSucceeded,
    /// A mutating request that failed.
    MutationFailed,
}

/// The slot after one call.
pub open spec fn cache_step<T>(slot: Option<T>, e: CacheEvent<T>) -> Option<T> {
    match e {
        CacheEvent::Read(fetched) => match slot {
            Some(v) => Some(v),
            None => Some(fetched),
        },
        CacheEvent::MutationSucceeded => None,
        CacheEvent::MutationFailed => slot,
    }
}

/// The slot after a sequence of calls.
pub open spec fn cache_run<T>(slot: Option<T>, events: Seq<CacheEvent<T>>) -> Option<T>
    decreases events.len(),
{
    if events.len() == 0 {
        slot
    } else {
        cache_step(cache_run(slot, events.drop_last()), events.last())
    }
}

/// What a read returns: the cached value, or on a miss what the fetch gave.
pub open spec fn read_result<T>(slot: Option<T>, fetched: T) -> T {
    match slot {
        Some(v) => v,
        None => fetched,
    }
}

/// After any history of calls, the first read that follows a successful
/// mutation returns what a fresh fetch gives, never an earlier value; a
/// failed mutation leaves the cached value as it was.
pub proof fn lemma_fresh_after_mutation<T>(start: Option<T>, history: Seq<CacheEvent<T>>, fetched: T)
    ensures
        read_result(cache_step(cache_run(start, history), CacheEvent::MutationSucceeded), fetched) == fetched,
        cache_step(cache_run(start, history), CacheEvent::MutationFailed) == cache_run(start, history),
{
}

impl<T> CachedField<T> {
    pub fn new() -> (r: Self)
        ensures
            r.slot is None,
    {
        CachedField { slot: None }
    }

    /// The cached value, if the slot is filled.
    pub fn cached(&self) -> (r: Option<&T>)
        ensures
            r matches Some(v) ==> self.slot == Some(*v),
            r is None <==> self.slot is None,
    {
        match &self.slot {
            Some(v) => Some(v),
            None => None,
        }
    }

    /// Whether a read has to fetch.
    pub fn needs_fetch(&self) -> (r: bool)
        ensures
            r == self.slot is None,
    {
        self.slot.is_none()
    }

    /// Stores what a fetch returned.
    pub fn fill(&mut self, v: T)
        ensures
            final(self).slot == Some(v),
    {
        self.slot = Some(v);
    }

    /// Empties the slot.
    pub fn invalidate(&mut self)
        ensures
            final(self).slot is None,
    {
        self.slot = None;
    }

    /// Records the outcome of a mutating request: the slot is emptied only
    /// where the request succeeded.
    pub fn after_mutation<E>(&mut self, outcome: &Result<(), E>)
        ensures
            outcome is Ok ==> final(self).slot is None,
            outcome is Err ==> final(self).slot == old(self).slot,
    {
        if outcome.is_ok() {
            self.slot = None;
        }
    }
}

/// How the status of a cached fetch is reported: a success is kept, 401 is
/// "unauthorized", anything else a failed request.
pub open spec fn fetch_status_result(status: u16) -> Result<(), Error> {
    if 200 <= status < 300 {
        Ok(())
    } else if status == 401 {
        Err(Error::Unauthorized)
    } else {
        Err(Error::HttpRequestFailed)
    }
}

/// Classifies the HTTP status of a fetch that fills a cached field.
pub fn fetch_status(status: u16) -> (r: Result<(), Error>)
    ensures
        r == fetch_status_result(status),
{
    if 200 <= status && status < 300 {
        Ok(())
    } else if status == 401 {
        Err(Error::Unauthorized)
    } else {
        Err(Error::HttpRequestFailed)
    }
}

/// The outcome of a reboot request: the device drops the connection while
/// restarting, so a failed request is the success, and a completed answer
/// means that the reboot did not take effect.
pub fn reboot_outcome(request_failed: bool) -> (r: Result<(), Error>)
    ensures
        request_failed <==> r is Ok,
        !request_failed ==> (r matches Err(Error::ApiCallFailed(m)) && m@ == "Reboot failed"@),
{
    if request_failed {
        Ok(())
    } else {
        proof {
            reveal_strlit("Reboot failed");
        }
        Err(Error::ApiCallFailed(String::from_str("Reboot failed")))
    }
}

} // verus!
