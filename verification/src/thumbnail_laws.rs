use vstd::prelude::*;
use crate::thumbnail_key::{ThumbnailKey, ThumbnailPriority, ThumbnailStatus, ThumbnailRequest, ThumbnailJob, priority_rank};
use crate::thumbnail_pipeline::{ThumbnailPipeline, THUMBNAIL_MAX_FAILURES, is_next_job, job_order_le, status_in, count_in};
use crate::thumbnail_service::{ThumbnailState, wrapping_next};

verus! {

/// A request for a key that is already queued adds no job: the queue keeps its
/// length, and the key stays queued at the higher of the two priorities.
pub proof fn law_request_deduplicates_and_promotes(
    prev: ThumbnailPipeline,
    next: ThumbnailPipeline,
    request: ThumbnailRequest,
    priority: ThumbnailPriority,
)
    requires
        prev.wf(),
        next.is_request_of(&prev, request, priority),
        prev.spec_status(request.spec_key()) is Queued,
    ensures
        next.queue().len() == prev.queue().len(),
        ({
            let existing = prev.spec_status(request.spec_key())->priority;
            next.spec_status(request.spec_key()) == (ThumbnailStatus::Queued {
                priority: if priority_rank(priority) > priority_rank(existing) {
                    priority
                } else {
                    existing
                },
            })
        }),
{
}

/// A request for a key with no status queues one job for it at the requested
/// priority, numbered with the pipeline's request order.
pub proof fn law_request_queues_unknown_key(
    prev: ThumbnailPipeline,
    next: ThumbnailPipeline,
    request: ThumbnailRequest,
    priority: ThumbnailPriority,
)
    requires
        prev.wf(),
        next.is_request_of(&prev, request, priority),
        prev.spec_status(request.spec_key()) is Missing,
    ensures
        next.queue() == prev.queue().push(
            ThumbnailJob { request, priority, requested_at: prev.next_order() },
        ),
        next.spec_status(request.spec_key()) == (ThumbnailStatus::Queued { priority }),
{
}

/// Requests neither restart a thumbnail in progress nor redo a ready one.
pub proof fn law_request_keeps_started_and_ready(
    prev: ThumbnailPipeline,
    next: ThumbnailPipeline,
    request: ThumbnailRequest,
    priority: ThumbnailPriority,
)
    requires
        prev.wf(),
        next.is_request_of(&prev, request, priority),
        prev.spec_status(request.spec_key()) is InProgress || prev.spec_status(request.spec_key()) is Ready,
    ensures
        next.same_as(&prev),
{
}

/// A failed thumbnail is queued again by a request while it has failed fewer
/// than `THUMBNAIL_MAX_FAILURES` times; after that, requests leave it failed.
pub proof fn law_failed_retry_until_threshold(
    prev: ThumbnailPipeline,
    next: ThumbnailPipeline,
    request: ThumbnailRequest,
    priority: ThumbnailPriority,
)
    requires
        prev.wf(),
        next.is_request_of(&prev, request, priority),
        prev.spec_status(request.spec_key()) is Failed,
    ensures
        prev.spec_failure_count(request.spec_key()) < THUMBNAIL_MAX_FAILURES ==> next.queue().len()
            == prev.queue().len() + 1 && next.spec_status(request.spec_key()) == (ThumbnailStatus::Queued {
            priority,
        }),
        prev.spec_failure_count(request.spec_key()) >= THUMBNAIL_MAX_FAILURES ==> next.same_as(&prev)
            && next.spec_status(request.spec_key()) == prev.spec_status(request.spec_key()),
{
}

/// The job that `start_next` picks has the highest priority in the queue, and
/// among the jobs of that priority it was requested first.
pub proof fn law_start_next_picks_highest_priority(q: Seq<ThumbnailJob>, i: int)
    requires
        is_next_job(q, i),
    ensures
        forall|j: int| 0 <= j < q.len() ==> priority_rank(#[trigger] q[j].priority) <= priority_rank(q[i].priority),
        forall|j: int|
            0 <= j < q.len() && priority_rank(#[trigger] q[j].priority) == priority_rank(q[i].priority)
                ==> q[i].requested_at <= q[j].requested_at,
{
    assert forall|j: int| 0 <= j < q.len() implies priority_rank(#[trigger] q[j].priority) <= priority_rank(
        q[i].priority,
    ) by {
        assert(job_order_le(q[j], q[i]));
    }
    assert forall|j: int|
        0 <= j < q.len() && priority_rank(#[trigger] q[j].priority) == priority_rank(q[i].priority)
            implies q[i].requested_at <= q[j].requested_at by {
        assert(job_order_le(q[j], q[i]));
    }
}

/// Only a thumbnail in progress can be completed or failed; on any other key
/// both leave the pipeline as it was.
pub proof fn law_settle_requires_in_progress(
    prev: ThumbnailPipeline,
    completed: ThumbnailPipeline,
    failed: ThumbnailPipeline,
    key: ThumbnailKey,
    message: String,
    r_complete: bool,
    r_fail: bool,
)
    requires
        prev.wf(),
        completed.is_completion_of(&prev, key, r_complete),
        failed.is_failure_of(&prev, key, message, r_fail),
        !(prev.spec_status(key) is InProgress),
    ensures
        !r_complete && completed.same_as(&prev),
        !r_fail && failed.same_as(&prev),
{
}

/// Completing a thumbnail makes it ready and resets its failure count to zero.
pub proof fn law_complete_resets_failures(
    prev: ThumbnailPipeline,
    next: ThumbnailPipeline,
    key: ThumbnailKey,
)
    requires
        prev.wf(),
        next.is_completion_of(&prev, key, true),
    ensures
        next.spec_status(key) == ThumbnailStatus::Ready,
        next.spec_failure_count(key) == 0,
{
}

/// Failing a thumbnail in progress records the message and counts one more
/// failure.
pub proof fn law_fail_counts_one_more(
    prev: ThumbnailPipeline,
    next: ThumbnailPipeline,
    key: ThumbnailKey,
    message: String,
)
    requires
        prev.wf(),
        next.is_failure_of(&prev, key, message, true),
        prev.spec_failure_count(key) < 255,
    ensures
        next.spec_status(key) == (ThumbnailStatus::Failed { message }),
        next.spec_failure_count(key) == prev.spec_failure_count(key) + 1,
{
}

/// After `clear(key)` nothing is known of `key`: it is `Missing`, has no
/// failures and no queued job; every other key keeps its status.
pub proof fn law_clear_forgets_key(prev: ThumbnailPipeline, next: ThumbnailPipeline, key: ThumbnailKey)
    requires
        prev.wf(),
        next.is_clear_of(&prev, key),
    ensures
        next.spec_status(key) == ThumbnailStatus::Missing,
        next.spec_failure_count(key) == 0,
        forall|i: int| 0 <= i < next.queue().len() ==> (#[trigger] next.queue()[i]).spec_key() != key,
        forall|k: ThumbnailKey| k != key ==> #[trigger] next.spec_status(k) == prev.spec_status(k),
{
    let pred = |j: ThumbnailJob| j.spec_key() != key;
    assert forall|i: int| 0 <= i < next.queue().len() implies (#[trigger] next.queue()[i]).spec_key() != key by {
        prev.queue().lemma_filter_pred(pred, i);
    }
}

/// A job that was cleared while in progress cannot be completed afterwards.
pub proof fn law_clear_prevents_stale_completion(
    prev: ThumbnailPipeline,
    cleared: ThumbnailPipeline,
    next: ThumbnailPipeline,
    key: ThumbnailKey,
    r: bool,
)
    requires
        prev.wf(),
        cleared.is_clear_of(&prev, key),
        next.is_completion_of(&cleared, key, r),
    ensures
        !r,
        next.spec_status(key) == ThumbnailStatus::Missing,
{
}

/// After the render settings change, a result generated under the earlier
/// settings is stale: its cache epoch is no longer the current one, and no
/// thumbnail is in progress any more, so the result is neither written to the
/// disk cache nor recorded.
pub proof fn law_settings_change_voids_earlier_results<T>(
    prev: ThumbnailState<T>,
    next: ThumbnailState<T>,
    key: ThumbnailKey,
)
    requires
        next.is_fresh_pipeline(),
        next.epoch() == wrapping_next(prev.epoch()),
    ensures
        next.epoch() != prev.epoch(),
        next.pipeline().spec_status(key) == ThumbnailStatus::Missing,
{
}

/// Priorities are ordered `Low < Normal < High`.
pub proof fn law_priority_order()
    ensures
        priority_rank(ThumbnailPriority::Low) < priority_rank(ThumbnailPriority::Normal),
        priority_rank(ThumbnailPriority::Normal) < priority_rank(ThumbnailPriority::High),
{
}

/// The job that starts next is never of a lower priority than another
/// queued job: while a `High` job waits, a `High` job starts, and while a
/// `Normal` or `High` job waits, no `Low` job starts.
pub proof fn law_start_next_prefers_higher_priority(
    prev: ThumbnailPipeline,
    next: ThumbnailPipeline,
    job: ThumbnailJob,
    j: int,
)
    requires
        next.is_start_of(&prev, Some(job)),
        0 <= j < prev.queue().len(),
    ensures
        prev.queue()[j].priority == ThumbnailPriority::High ==> job.priority == ThumbnailPriority::High,
        prev.queue()[j].priority != ThumbnailPriority::Low ==> job.priority != ThumbnailPriority::Low,
{
    let i = choose|i: int|
        is_next_job(prev.queue(), i) && Some(job) == Some(prev.queue()[i]) && next.queue()
            == prev.queue().remove(i) && next.status_map() == prev.status_map().insert(
            prev.queue()[i].spec_key(),
            ThumbnailStatus::InProgress,
        ) && next.failure_map() == prev.failure_map() && next.next_order() == prev.next_order();
    assert(job_order_le(prev.queue()[j], prev.queue()[i]));
}

/// The higher of two priorities in the order `Low < Normal < High`.
pub open spec fn higher_priority(a: ThumbnailPriority, b: ThumbnailPriority) -> ThumbnailPriority {
    match (a, b) {
        (ThumbnailPriority::High, _) => ThumbnailPriority::High,
        (_, ThumbnailPriority::High) => ThumbnailPriority::High,
        (ThumbnailPriority::Normal, _) => ThumbnailPriority::Normal,
        (_, ThumbnailPriority::Normal) => ThumbnailPriority::Normal,
        _ => ThumbnailPriority::Low,
    }
}

/// A request for a queued key leaves it queued at the higher of its old and
/// the requested priority: a request can promote a job, never demote it.
pub proof fn law_request_never_demotes(
    prev: ThumbnailPipeline,
    next: ThumbnailPipeline,
    request: ThumbnailRequest,
    priority: ThumbnailPriority,
    existing: ThumbnailPriority,
)
    requires
        prev.spec_status(request.spec_key()) == (ThumbnailStatus::Queued { priority: existing }),
        next.is_request_of(&prev, request, priority),
    ensures
        next.spec_status(request.spec_key()) == (ThumbnailStatus::Queued {
            priority: higher_priority(existing, priority),
        }),
{
}

} // verus!
