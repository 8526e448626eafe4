//! Random-sample retrieval planning: clamping the requested count,
//! truncating bulk-id requests, and the probabilistic response cache.

use vstd::prelude::*;
use rand::Rng;

verus! {

/// Most documents a single retrieval request may ask the store for.
pub const MAX_LEN: usize = 20;

/// The requested sample size, clamped to `[0, MAX_LEN]`.
pub open spec fn clamped_len(len: usize) -> usize {
    if len < MAX_LEN {
        len
    } else {
        MAX_LEN
    }
}

/// Clamps a requested sample size to at most `MAX_LEN`.
pub fn clamp_len(len: usize) -> (r: usize)
    ensures
        r == clamped_len(len),
        r <= MAX_LEN,
        len == 0 ==> r == 0,
{
    if len < MAX_LEN {
        len
    } else {
        MAX_LEN
    }
}

/// Truncates a client-submitted identifier list to the first `MAX_LEN`
/// entries, keeping their order.
pub fn truncate_ids(ids: &mut Vec<String>)
    ensures
        final(ids)@.len() == vstd::math::min(old(ids)@.len() as int, MAX_LEN as int),
        final(ids)@ == old(ids)@.take(final(ids)@.len() as int),
{
    ids.truncate(MAX_LEN);
    proof {
        if old(ids)@.len() >= MAX_LEN {
            assert(ids@ == old(ids)@.subrange(0, MAX_LEN as int));
        } else {
            assert(ids@ =~= old(ids)@.take(old(ids)@.len() as int));
        }
    }
}

/// How a sample request is served: either the cached previous response
/// verbatim, or a fresh store query of the clamped size (whose result
/// then overwrites the cache).
pub enum SamplePlan {
    ServeCached { body: String },
    QueryStore { size: usize },
}

/// The cache decision for one sample request, taking the coin toss as
/// an argument: the cached body is served exactly when the coin came up
/// true and a cached value exists; otherwise the store is queried for
/// the clamped size.
pub fn plan_sample(len: usize, coin: bool, cached: Option<String>) -> (r: SamplePlan)
    ensures
        coin && cached is Some ==> (r matches SamplePlan::ServeCached { body } && body == cached->0),
        !(coin && cached is Some) ==> (r matches SamplePlan::QueryStore { size } && size == clamped_len(len)),
{
    if coin {
        match cached {
            Some(body) => SamplePlan::ServeCached { body },
            None => SamplePlan::QueryStore { size: clamp_len(len) },
        }
    } else {
        SamplePlan::QueryStore { size: clamp_len(len) }
    }
}

/// Relies on rand's `Rng::gen_ratio` on the thread-local generator: a
/// Bernoulli draw that is true with probability `num / den`; it panics
/// only when `den == 0` or `num > den`, and nothing is promised of any
/// single outcome.
#[verifier::external_body]
fn random_ratio(num: u32, den: u32) -> bool
    requires
        0 < den,
        num <= den,
{
    rand::thread_rng().gen_ratio(num, den)
}

/// Decides one sample request: with probability three in four the
/// cached previous response is served if one exists; in every other
/// outcome the store is queried for the clamped size. Whatever the
/// coin, a served body is exactly the cached one, and a query size is
/// exactly the clamp of the request.
pub fn sample_decision(len: usize, cached: Option<String>) -> (r: SamplePlan)
    ensures
        r matches SamplePlan::ServeCached { body } ==> cached is Some && body == cached->0,
        r matches SamplePlan::QueryStore { size } ==> size == clamped_len(len),
        cached is None ==> r is QueryStore,
{
    let coin = random_ratio(3, 4);
    plan_sample(len, coin, cached)
}

} // verus!
