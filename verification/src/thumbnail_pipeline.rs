use vstd::prelude::*;
use crate::keyed_list::{keys_unique, has_key, entries_map, lemma_entries_map_at, find_key, upsert, remove_key, get_value};
use crate::thumbnail_key::{ThumbnailKey, ThumbnailPriority, ThumbnailStatus, ThumbnailRequest, ThumbnailJob, priority_rank};

verus! {

/// How many failed attempts a thumbnail may have before requests stop
/// re-queueing it.
pub const THUMBNAIL_MAX_FAILURES: u8 = 3;

/// The stored queue, statuses and failure counts behind a `ThumbnailPipeline`.
pub(crate) struct PipelineBook {
    queued: Vec<ThumbnailJob>,
    statuses: Vec<(ThumbnailKey, ThumbnailStatus)>,
    failure_counts: Vec<(ThumbnailKey, u8)>,
    next_request_order: u64,
}

/// `a` comes no later than `b` in the order in which jobs are started: lower
/// priority first, and among equal priorities the later request first.
pub open spec fn job_order_le(a: ThumbnailJob, b: ThumbnailJob) -> bool {
    priority_rank(a.priority) < priority_rank(b.priority) || (priority_rank(a.priority)
        == priority_rank(b.priority) && a.requested_at >= b.requested_at)
}

/// Index `i` holds the job that `start_next` picks from `q`: a greatest job in
/// the start order, and the last one of those.
pub open spec fn is_next_job(q: Seq<ThumbnailJob>, i: int) -> bool {
    &&& 0 <= i < q.len()
    &&& forall|j: int| 0 <= j < q.len() ==> job_order_le(#[trigger] q[j], q[i])
    &&& forall|j: int| i < j < q.len() ==> !job_order_le(q[i], #[trigger] q[j])
}

/// The status a key has in a status map: `Missing` where the map has no entry.
pub open spec fn status_in(m: Map<ThumbnailKey, ThumbnailStatus>, k: ThumbnailKey) -> ThumbnailStatus {
    if m.contains_key(k) {
        m[k]
    } else {
        ThumbnailStatus::Missing
    }
}

/// The failure count a key has in a count map: zero where the map has no entry.
pub open spec fn count_in(m: Map<ThumbnailKey, u8>, k: ThumbnailKey) -> u8 {
    if m.contains_key(k) {
        m[k]
    } else {
        0
    }
}

impl PipelineBook {
    /// The pipeline that holds this book.
    pub(crate) closed spec fn lift(self) -> ThumbnailPipeline {
        ThumbnailPipeline { book: self }
    }

    /// The queued jobs, in the order they were queued.
    pub(crate) closed spec fn queue(&self) -> Seq<ThumbnailJob> {
        self.queued@
    }

    /// The recorded status of each key that has one.
    pub(crate) closed spec fn status_map(&self) -> Map<ThumbnailKey, ThumbnailStatus> {
        entries_map(self.statuses@)
    }

    /// The recorded failure count of each key that has one.
    pub(crate) closed spec fn failure_map(&self) -> Map<ThumbnailKey, u8> {
        entries_map(self.failure_counts@)
    }

    /// The request order that the next queued job receives.
    pub(crate) closed spec fn next_order(&self) -> u64 {
        self.next_request_order
    }

    pub(crate) open spec fn spec_status(&self, k: ThumbnailKey) -> ThumbnailStatus {
        status_in(self.status_map(), k)
    }

    pub(crate) open spec fn spec_failure_count(&self, k: ThumbnailKey) -> u8 {
        count_in(self.failure_map(), k)
    }

    /// Well-formedness: each queued job is the only one with its key and its
    /// key has status `Queued` with the job's priority; each `Queued` status
    /// has a queued job; only keys with a status have a failure count.
    pub(crate) closed spec fn wf(&self) -> bool {
        &&& keys_unique(self.statuses@)
        &&& keys_unique(self.failure_counts@)
        &&& forall|i: int, j: int|
            0 <= i < self.queued@.len() && 0 <= j < self.queued@.len() && i != j
                ==> #[trigger] self.queued@[i].spec_key() != #[trigger] self.queued@[j].spec_key()
        &&& forall|i: int|
            #![trigger self.queued@[i]] 0 <= i < self.queued@.len() ==> self.status_map().contains_key(
                self.queued@[i].spec_key(),
            ) && self.status_map()[self.queued@[i].spec_key()] == (ThumbnailStatus::Queued {
                priority: self.queued@[i].priority,
            })
        &&& forall|k: ThumbnailKey| #[trigger]
            self.status_map().contains_key(k) && self.status_map()[k] is Queued ==> exists|i: int|
                0 <= i < self.queued@.len() && #[trigger] self.queued@[i].spec_key() == k
        &&& forall|k: ThumbnailKey| #[trigger]
            self.failure_map().contains_key(k) ==> self.status_map().contains_key(k)
    }

    /// An empty pipeline.
    pub(crate) fn new() -> (r: PipelineBook)
        ensures
            r.wf(),
            r.queue() == Seq::<ThumbnailJob>::empty(),
            r.status_map() == Map::<ThumbnailKey, ThumbnailStatus>::empty(),
            r.failure_map() == Map::<ThumbnailKey, u8>::empty(),
            r.next_order() == 0,
    {
        let r = PipelineBook {
            queued: Vec::new(),
            statuses: Vec::new(),
            failure_counts: Vec::new(),
            next_request_order: 0,
        };
        proof {
            assert(r.status_map() =~= Map::<ThumbnailKey, ThumbnailStatus>::empty());
            assert(r.failure_map() =~= Map::<ThumbnailKey, u8>::empty());
        }
        r
    }

    /// The status of `key`; `Missing` when nothing is known of it.
    pub(crate) fn status(&self, key: ThumbnailKey) -> (r: ThumbnailStatus)
        requires
            self.wf(),
        ensures
            r == self.spec_status(key),
    {
        match find_key(&self.statuses, key) {
            Some(i) => {
                proof {
                    lemma_entries_map_at(self.statuses@, i as int);
                }
                self.statuses[i].1.duplicate()
            },
            None => ThumbnailStatus::Missing,
        }
    }

    /// How often the generation of `key` has failed since it last succeeded.
    pub(crate) fn failure_count(&self, key: ThumbnailKey) -> (r: u8)
        requires
            self.wf(),
        ensures
            r == self.spec_failure_count(key),
    {
        match get_value(&self.failure_counts, key) {
            Some(c) => c,
            None => 0,
        }
    }

    /// The number of queued jobs.
    pub(crate) fn queued_len(&self) -> (r: usize)
        ensures
            r == self.queue().len(),
    {
        self.queued.len()
    }

    fn enqueue(&mut self, request: ThumbnailRequest, priority: ThumbnailPriority)
        requires
            old(self).wf(),
            !(old(self).spec_status(request.spec_key()) is Queued),
        ensures
            final(self).wf(),
            final(self).lift().is_enqueue_of(&old(self).lift(), request, priority),
    {
        let ghost prev = *self;
        let key = request.key();
        proof {
            assert forall|i: int| 0 <= i < self.queued@.len() implies #[trigger] self.queued@[i].spec_key() != key by {
                assert(self.status_map().contains_key(self.queued@[i].spec_key()));
            }
        }
        let order = self.next_request_order;
        self.queued.push(ThumbnailJob { request, priority, requested_at: order });
        if self.next_request_order < u64::MAX {
            self.next_request_order = self.next_request_order + 1;
        }
        upsert(&mut self.statuses, key, ThumbnailStatus::Queued { priority });
        proof {
            let q = self.queued@;
            let n = prev.queued@.len();
            assert(q[n as int].spec_key() == key);
            assert forall|i: int, j: int|
                0 <= i < q.len() && 0 <= j < q.len() && i != j implies #[trigger] q[i].spec_key()
                != #[trigger] q[j].spec_key() by {
                if i < n && j < n {
                    assert(q[i] == prev.queued@[i]);
                    assert(q[j] == prev.queued@[j]);
                } else if i < n {
                    assert(q[i] == prev.queued@[i]);
                } else {
                    assert(q[j] == prev.queued@[j]);
                }
            }
            assert forall|i: int| #![trigger q[i]] 0 <= i < q.len() implies self.status_map().contains_key(
                q[i].spec_key(),
            ) && self.status_map()[q[i].spec_key()] == (ThumbnailStatus::Queued {
                priority: q[i].priority,
            }) by {
                if i < n {
                    assert(q[i] == prev.queued@[i]);
                    assert(prev.status_map().contains_key(prev.queued@[i].spec_key()));
                }
            }
            assert forall|k: ThumbnailKey| #[trigger]
                self.status_map().contains_key(k) && self.status_map()[k] is Queued implies exists|i: int|
                    0 <= i < q.len() && #[trigger] q[i].spec_key() == k by {
                if k == key {
                    assert(q[n as int].spec_key() == k);
                } else {
                    let i = choose|i: int|
                        0 <= i < prev.queued@.len() && #[trigger] prev.queued@[i].spec_key() == k;
                    assert(q[i] == prev.queued@[i]);
                }
            }
            assert forall|k: ThumbnailKey| #[trigger]
                self.failure_map().contains_key(k) implies self.status_map().contains_key(k) by {
                assert(prev.failure_map().contains_key(k));
            }
            assert(self.wf());
        }
    }

    /// Asks for the thumbnail of `request` at `priority` and returns its status
    /// afterwards.
    #[verifier::spinoff_prover]
    pub(crate) fn request(&mut self, request: ThumbnailRequest, priority: ThumbnailPriority) -> (r:
        ThumbnailStatus)
        requires
            old(self).wf(),
        ensures
            final(self).wf(),
            final(self).lift().is_request_of(&old(self).lift(), request, priority),
            r == final(self).spec_status(request.spec_key()),
    {
        let ghost prev = *self;
        let key = request.key();
        let status = self.status(key);
        match status {
            ThumbnailStatus::Queued { priority: existing } => {
                if priority.is_higher_than(existing) {
                    let ghost jobs = self.queued@;
                    proof {
                        assert(self.status_map().contains_key(key));
                    }
                    let mut i: usize = 0;
                    while i < self.queued.len()
                        invariant
                            prev.wf(),
                            self.statuses == prev.statuses,
                            self.failure_counts == prev.failure_counts,
                            self.next_request_order == prev.next_request_order,
                            i <= self.queued@.len(),
                            self.queued@.len() == jobs.len(),
                            jobs == prev.queued@,
                            forall|j: int|
                                0 <= j < jobs.len() ==> #[trigger] self.queued@[j] == (if j < i
                                    && jobs[j].spec_key() == key {
                                    ThumbnailJob {
                                        request: jobs[j].request,
                                        priority,
                                        requested_at: jobs[j].requested_at,
                                    }
                                } else {
                                    jobs[j]
                                }),
                        decreases jobs.len() - i,
                    {
                        if self.queued[i].key() == key {
                            let job = &self.queued[i];
                            let updated = ThumbnailJob {
                                request: job.request.duplicate(),
                                priority,
                                requested_at: job.requested_at,
                            };
                            self.queued[i] = updated;
                        }
                        i = i + 1;
                    }
                    upsert(&mut self.statuses, key, ThumbnailStatus::Queued { priority });
                    proof {
                        lemma_promote_keeps_wf(prev, *self, key, priority);
                    }
                }
            },
            ThumbnailStatus::InProgress => {},
            ThumbnailStatus::Ready => {},
            ThumbnailStatus::Failed { .. } => {
                if self.failure_count(key) < THUMBNAIL_MAX_FAILURES {
                    self.enqueue(request, priority);
                }
            },
            ThumbnailStatus::Missing => {
                self.enqueue(request, priority);
            },
        }
        self.status(key)
    }
}

/// Which keys a clearing operation removes.
pub enum KeySelection {
    /// Exactly this key.
    Exactly(ThumbnailKey),
    /// Every version of `asset_id` other than `keep_version`.
    OtherVersions { asset_id: u128, keep_version: u64 },
}

impl KeySelection {
    pub open spec fn selects(&self, k: ThumbnailKey) -> bool {
        match self {
            KeySelection::Exactly(key) => k == *key,
            KeySelection::OtherVersions { asset_id, keep_version } => k.asset_id == *asset_id
                && k.source_version != *keep_version,
        }
    }

    pub fn test(&self, k: ThumbnailKey) -> (r: bool)
        ensures
            r == self.selects(k),
    {
        match self {
            KeySelection::Exactly(key) => k == *key,
            KeySelection::OtherVersions { asset_id, keep_version } => k.asset_id == *asset_id
                && k.source_version != *keep_version,
        }
    }
}

/// The map `m` without the keys that `sel` selects.
pub open spec fn without_selected<V>(m: Map<ThumbnailKey, V>, sel: KeySelection) -> Map<ThumbnailKey, V> {
    m.restrict(m.dom().filter(|k: ThumbnailKey| !sel.selects(k)))
}

pub(crate) fn drop_selected_entries<V>(s: &mut Vec<(ThumbnailKey, V)>, sel: &KeySelection)
    requires
        keys_unique(old(s)@),
    ensures
        keys_unique(final(s)@),
        entries_map(final(s)@) == without_selected(entries_map(old(s)@), *sel),
{
    let ghost s0 = s@;
    let mut kept: Vec<(ThumbnailKey, V)> = Vec::new();
    let ghost mut origin: Seq<int> = Seq::empty();
    while s.len() > 0
        invariant
            keys_unique(s0),
            s@.len() <= s0.len(),
            forall|t: int| 0 <= t < s@.len() ==> #[trigger] s@[t] == s0[s0.len() - s@.len() + t],
            origin.len() == kept@.len(),
            forall|t: int| 0 <= t < kept@.len() ==> 0 <= #[trigger] origin[t] < s0.len() - s@.len()
                && kept@[t] == s0[origin[t]] && !sel.selects(kept@[t].0),
            forall|t: int, u: int| 0 <= t < u < kept@.len() ==> #[trigger] origin[t] < #[trigger] origin[u],
            forall|j: int| 0 <= j < s0.len() - s@.len() && !sel.selects(#[trigger] s0[j].0) ==> exists|t: int|
                0 <= t < kept@.len() && origin[t] == j,
        decreases s@.len(),
    {
        let ghost before = s@;
        let ghost old_origin = origin;
        let ghost old_len = kept@.len();
        let entry = s.remove(0);
        let ghost j = s0.len() - before.len();
        proof {
            assert(entry == before[0]);
            assert(entry == s0[j]);
            assert forall|t: int| 0 <= t < s@.len() implies #[trigger] s@[t] == s0[s0.len() - s@.len() + t] by {
                assert(s@[t] == before[t + 1]);
            }
        }
        if !sel.test(entry.0) {
            kept.push(entry);
            proof {
                origin = origin.push(j);
            }
        }
        proof {
            assert forall|j2: int| 0 <= j2 < s0.len() - s@.len() && !sel.selects(#[trigger] s0[j2].0) implies exists|t: int|
                0 <= t < kept@.len() && origin[t] == j2 by {
                if j2 == j {
                    assert(origin[kept@.len() - 1] == j);
                } else {
                    assert(0 <= j2 < s0.len() - before.len());
                    let t = choose|t: int| 0 <= t < old_len && old_origin[t] == j2;
                    assert(origin[t] == old_origin[t]);
                }
            }
        }
    }
    proof {
        let k = kept@;
        assert forall|a: int, b: int|
            0 <= a < k.len() && 0 <= b < k.len() && a != b implies #[trigger] k[a].0 != #[trigger] k[b].0 by {
            assert(origin[a] != origin[b]) by {
                if a < b { assert(origin[a] < origin[b]); } else { assert(origin[b] < origin[a]); }
            }
        }
        let m0 = entries_map(s0);
        let m1 = entries_map(k);
        let w = without_selected(m0, *sel);
        assert forall|key: ThumbnailKey| m1.contains_key(key) == w.contains_key(key) by {
            if has_key(k, key) {
                let t = choose|t: int| 0 <= t < k.len() && #[trigger] k[t].0 == key;
                lemma_entries_map_at(s0, origin[t]);
            }
            if w.contains_key(key) {
                let j = choose|j: int| 0 <= j < s0.len() && #[trigger] s0[j].0 == key;
                let t = choose|t: int| 0 <= t < k.len() && origin[t] == j;
                assert(k[t].0 == key);
            }
        }
        assert forall|key: ThumbnailKey| #[trigger] m1.contains_key(key) implies m1[key] == w[key] by {
            let t = choose|t: int| 0 <= t < k.len() && #[trigger] k[t].0 == key;
            lemma_entries_map_at(k, t);
            lemma_entries_map_at(s0, origin[t]);
        }
        assert(m1 =~= w);
    }
    *s = kept;
}

impl PipelineBook {
    /// Starts the queued job of highest priority, the earliest requested among
    /// equals, marking its key `InProgress`; `None` when nothing is queued.
    pub(crate) fn start_next(&mut self) -> (r: Option<ThumbnailJob>)
        requires
            old(self).wf(),
        ensures
            final(self).wf(),
            final(self).lift().is_start_of(&old(self).lift(), r),
    {
        let ghost prev = *self;
        let n = self.queued.len();
        if n == 0 {
            return None;
        }
        let mut best: usize = 0;
        let mut i: usize = 1;
        while i < n
            invariant
                n == self.queued@.len(),
                self.queued == prev.queued,
                1 <= i <= n,
                best < i,
                forall|j: int| 0 <= j < i ==> job_order_le(#[trigger] self.queued@[j], self.queued@[best as int]),
                forall|j: int| best < j < i ==> !job_order_le(self.queued@[best as int], #[trigger] self.queued@[j]),
            decreases n - i,
        {
            let b = &self.queued[best];
            let c = &self.queued[i];
            let br = b.priority.rank();
            let cr = c.priority.rank();
            if br < cr || (br == cr && b.requested_at >= c.requested_at) {
                best = i;
            }
            i = i + 1;
        }
        let job = self.queued.remove(best);
        let key = job.key();
        upsert(&mut self.statuses, key, ThumbnailStatus::InProgress);
        proof {
            lemma_start_keeps_wf(prev, *self, best as int);
            assert(is_next_job(prev.queued@, best as int));
        }
        Some(job)
    }

    /// Marks the in-progress thumbnail `key` ready and forgets its failures;
    /// returns whether `key` was in progress (nothing changes otherwise).
    pub(crate) fn complete(&mut self, key: ThumbnailKey) -> (r: bool)
        requires
            old(self).wf(),
        ensures
            final(self).wf(),
            final(self).lift().is_completion_of(&old(self).lift(), key, r),
    {
        let ghost prev = *self;
        let status = self.status(key);
        if !matches!(status, ThumbnailStatus::InProgress) {
            return false;
        }
        remove_key(&mut self.failure_counts, key);
        upsert(&mut self.statuses, key, ThumbnailStatus::Ready);
        proof {
            lemma_settle_keeps_wf(prev, *self, key, ThumbnailStatus::Ready);
        }
        true
    }

    /// Marks the in-progress thumbnail `key` failed with `message` and counts
    /// the failure (the count stops at 255); returns whether `key` was in
    /// progress (nothing changes otherwise).
    pub(crate) fn fail(&mut self, key: ThumbnailKey, message: String) -> (r: bool)
        requires
            old(self).wf(),
        ensures
            final(self).wf(),
            final(self).lift().is_failure_of(&old(self).lift(), key, message, r),
    {
        let ghost prev = *self;
        let status = self.status(key);
        if !matches!(status, ThumbnailStatus::InProgress) {
            return false;
        }
        let ghost failed = ThumbnailStatus::Failed { message };
        let count = self.failure_count(key);
        let next = if count < 255 { count + 1 } else { count };
        upsert(&mut self.failure_counts, key, next);
        upsert(&mut self.statuses, key, ThumbnailStatus::Failed { message });
        proof {
            lemma_settle_keeps_wf(prev, *self, key, failed);
        }
        true
    }

    fn drop_selected(&mut self, sel: &KeySelection)
        requires
            old(self).wf(),
        ensures
            final(self).wf(),
            final(self).queue() == old(self).queue().filter(|j: ThumbnailJob| !sel.selects(j.spec_key())),
            final(self).status_map() == without_selected(old(self).status_map(), *sel),
            final(self).failure_map() == without_selected(old(self).failure_map(), *sel),
            final(self).next_order() == old(self).next_order(),
    {
        let ghost prev = *self;
        let ghost pred = |j: ThumbnailJob| !sel.selects(j.spec_key());
        let mut kept: Vec<ThumbnailJob> = Vec::new();
        let ghost mut origin: Seq<int> = Seq::empty();
        let mut i: usize = 0;
        let n = self.queued.len();
        while i < n
            invariant
                n == self.queued@.len(),
                self.queued == prev.queued,
                i <= n,
                kept@ == self.queued@.take(i as int).filter(pred),
                pred == (|j: ThumbnailJob| !sel.selects(j.spec_key())),
                origin.len() == kept@.len(),
                forall|t: int| 0 <= t < kept@.len() ==> 0 <= #[trigger] origin[t] < i
                    && kept@[t] == self.queued@[origin[t]],
                forall|t: int, u: int| 0 <= t < u < kept@.len() ==> #[trigger] origin[t] < #[trigger] origin[u],
                forall|j: int| 0 <= j < i && !sel.selects(#[trigger] self.queued@[j].spec_key()) ==> exists|t: int|
                    0 <= t < kept@.len() && origin[t] == j,
            decreases n - i,
        {
            proof {
                self.queued@.take(i as int).lemma_filter_push(self.queued@[i as int], pred);
                assert(self.queued@.take(i as int + 1) == self.queued@.take(i as int).push(self.queued@[i as int]));
            }
            let ghost old_origin = origin;
            let ghost old_len = kept@.len();
            let k = self.queued[i].key();
            if !sel.test(k) {
                let job = &self.queued[i];
                let copy = ThumbnailJob {
                    request: job.request.duplicate(),
                    priority: job.priority,
                    requested_at: job.requested_at,
                };
                kept.push(copy);
                proof {
                    origin = origin.push(i as int);
                }
            }
            proof {
                assert forall|j: int| 0 <= j < i + 1 && !sel.selects(#[trigger] self.queued@[j].spec_key()) implies exists|t: int|
                    0 <= t < kept@.len() && origin[t] == j by {
                    if j == i {
                        assert(origin[kept@.len() - 1] == j);
                    } else {
                        let t = choose|t: int| 0 <= t < old_len && old_origin[t] == j;
                        assert(origin[t] == old_origin[t]);
                    }
                }
            }
            i = i + 1;
        }
        proof {
            assert(self.queued@.take(n as int) == self.queued@);
        }
        self.queued = kept;
        drop_selected_entries(&mut self.statuses, sel);
        drop_selected_entries(&mut self.failure_counts, sel);
        proof {
            lemma_drop_keeps_wf(prev, *self, *sel, origin);
        }
    }

    /// Forgets everything about `key`: its queued job, status and failures.
    pub(crate) fn clear(&mut self, key: ThumbnailKey)
        requires
            old(self).wf(),
        ensures
            final(self).wf(),
            final(self).lift().is_clear_of(&old(self).lift(), key),
    {
        let sel = KeySelection::Exactly(key);
        self.drop_selected(&sel);
        proof {
            let f = |j: ThumbnailJob| !sel.selects(j.spec_key());
            let g = |j: ThumbnailJob| j.spec_key() != key;
            assert(f =~= g);
            assert(old(self).queue().filter(f) == old(self).queue().filter(g));
            assert(without_selected(old(self).status_map(), sel) =~= old(self).status_map().remove(key));
            assert(without_selected(old(self).failure_map(), sel) =~= old(self).failure_map().remove(key));
        }
    }

    /// Forgets every version of `asset_id` other than `source_version`.
    pub(crate) fn clear_asset_versions_except(&mut self, asset_id: u128, source_version: u64)
        requires
            old(self).wf(),
        ensures
            final(self).wf(),
            final(self).lift().is_version_clear_of(&old(self).lift(), asset_id, source_version),
    {
        let sel = KeySelection::OtherVersions { asset_id, keep_version: source_version };
        self.drop_selected(&sel);
        proof {
            let f = |j: ThumbnailJob| !sel.selects(j.spec_key());
            let g = |j: ThumbnailJob| !stale_version(j.spec_key(), asset_id, source_version);
            assert(f =~= g);
            assert(old(self).queue().filter(f) == old(self).queue().filter(g));
            assert(without_selected(old(self).status_map(), sel) =~= old(self).status_map().restrict(
                old(self).status_map().dom().filter(|k: ThumbnailKey| !stale_version(k, asset_id, source_version)),
            ));
            assert(without_selected(old(self).failure_map(), sel) =~= old(self).failure_map().restrict(
                old(self).failure_map().dom().filter(|k: ThumbnailKey| !stale_version(k, asset_id, source_version)),
            ));
        }
    }
}

/// `k` is a version of `asset_id` other than `keep_version`.
pub open spec fn stale_version(k: ThumbnailKey, asset_id: u128, keep_version: u64) -> bool {
    k.asset_id == asset_id && k.source_version != keep_version
}

/// The successor of `n`, staying at 255.
pub open spec fn saturating_next_u8(n: u8) -> u8 {
    if n < 255 {
        (n + 1) as u8
    } else {
        n
    }
}

proof fn lemma_wf_intro(p: PipelineBook)
    requires
        keys_unique(p.statuses@),
        keys_unique(p.failure_counts@),
        forall|i: int, j: int|
            0 <= i < p.queued@.len() && 0 <= j < p.queued@.len() && i != j
                ==> #[trigger] p.queued@[i].spec_key() != #[trigger] p.queued@[j].spec_key(),
        forall|i: int|
            #![trigger p.queued@[i]] 0 <= i < p.queued@.len() ==> p.status_map().contains_key(
                p.queued@[i].spec_key(),
            ) && p.status_map()[p.queued@[i].spec_key()] == (ThumbnailStatus::Queued {
                priority: p.queued@[i].priority,
            }),
        forall|k: ThumbnailKey| #[trigger]
            p.status_map().contains_key(k) && p.status_map()[k] is Queued ==> exists|i: int|
                0 <= i < p.queued@.len() && #[trigger] p.queued@[i].spec_key() == k,
        forall|k: ThumbnailKey| #[trigger]
            p.failure_map().contains_key(k) ==> p.status_map().contains_key(k),
    ensures
        p.wf(),
{
}

proof fn lemma_promote_keeps_wf(
    prev: PipelineBook,
    next: PipelineBook,
    key: ThumbnailKey,
    priority: ThumbnailPriority,
)
    requires
        prev.wf(),
        prev.spec_status(key) is Queued,
        keys_unique(next.statuses@),
        next.status_map() == prev.status_map().insert(key, ThumbnailStatus::Queued { priority }),
        next.failure_counts == prev.failure_counts,
        next.queued@.len() == prev.queued@.len(),
        forall|j: int|
            0 <= j < prev.queued@.len() ==> #[trigger] next.queued@[j] == (if prev.queued@[j].spec_key()
                == key {
                ThumbnailJob {
                    request: prev.queued@[j].request,
                    priority,
                    requested_at: prev.queued@[j].requested_at,
                }
            } else {
                prev.queued@[j]
            }),
    ensures
        next.wf(),
{
    assert forall|a: int| 0 <= a < next.queued@.len() implies #[trigger] next.queued@[a].spec_key() == prev.queued@[a].spec_key()
        && (prev.queued@[a].spec_key() != key ==> next.queued@[a] == prev.queued@[a]) && (prev.queued@[a].spec_key() == key
        ==> next.queued@[a].priority == priority) by {}
    assert forall|a: int, b: int|
        0 <= a < next.queued@.len() && 0 <= b < next.queued@.len() && a != b implies #[trigger] next.queued@[a].spec_key()
        != #[trigger] next.queued@[b].spec_key() by {
        assert(next.queued@[a].spec_key() == prev.queued@[a].spec_key());
        assert(next.queued@[b].spec_key() == prev.queued@[b].spec_key());
    }
    assert forall|a: int| #![trigger next.queued@[a]] 0 <= a < next.queued@.len() implies next.status_map().contains_key(
        next.queued@[a].spec_key(),
    ) && next.status_map()[next.queued@[a].spec_key()] == (ThumbnailStatus::Queued {
        priority: next.queued@[a].priority,
    }) by {
        assert(next.queued@[a].spec_key() == prev.queued@[a].spec_key());
        assert(prev.status_map().contains_key(prev.queued@[a].spec_key()));
    }
    assert forall|k: ThumbnailKey| #[trigger]
        next.status_map().contains_key(k) && next.status_map()[k] is Queued implies exists|a: int|
            0 <= a < next.queued@.len() && #[trigger] next.queued@[a].spec_key() == k by {
        let a = choose|a: int| 0 <= a < prev.queued@.len() && #[trigger] prev.queued@[a].spec_key() == k;
        assert(next.queued@[a].spec_key() == prev.queued@[a].spec_key());
    }
    assert forall|k: ThumbnailKey| #[trigger]
        next.failure_map().contains_key(k) implies next.status_map().contains_key(k) by {
        assert(prev.failure_map().contains_key(k));
    }
    lemma_wf_intro(next);
}

proof fn lemma_start_keeps_wf(prev: PipelineBook, next: PipelineBook, best: int)
    requires
        prev.wf(),
        0 <= best < prev.queued@.len(),
        next.queued@ == prev.queued@.remove(best),
        keys_unique(next.statuses@),
        next.status_map() == prev.status_map().insert(
            prev.queued@[best].spec_key(),
            ThumbnailStatus::InProgress,
        ),
        next.failure_counts == prev.failure_counts,
    ensures
        next.wf(),
{
    let k = prev.queued@[best].spec_key();
    assert forall|a: int| 0 <= a < next.queued@.len() implies #[trigger] next.queued@[a] == prev.queued@[if a
        < best {
        a
    } else {
        a + 1
    }] by {}
    assert forall|a: int, b: int|
        0 <= a < next.queued@.len() && 0 <= b < next.queued@.len() && a != b implies #[trigger] next.queued@[a].spec_key()
        != #[trigger] next.queued@[b].spec_key() by {
        let a0 = if a < best { a } else { a + 1 };
        let b0 = if b < best { b } else { b + 1 };
        assert(next.queued@[a] == prev.queued@[a0]);
        assert(next.queued@[b] == prev.queued@[b0]);
    }
    assert forall|a: int| #![trigger next.queued@[a]] 0 <= a < next.queued@.len() implies next.status_map().contains_key(
        next.queued@[a].spec_key(),
    ) && next.status_map()[next.queued@[a].spec_key()] == (ThumbnailStatus::Queued {
        priority: next.queued@[a].priority,
    }) by {
        let a0 = if a < best { a } else { a + 1 };
        assert(next.queued@[a] == prev.queued@[a0]);
        assert(prev.queued@[a0].spec_key() != k);
        assert(prev.status_map().contains_key(prev.queued@[a0].spec_key()));
    }
    assert forall|key: ThumbnailKey| #[trigger]
        next.status_map().contains_key(key) && next.status_map()[key] is Queued implies exists|a: int|
            0 <= a < next.queued@.len() && #[trigger] next.queued@[a].spec_key() == key by {
        let j = choose|j: int| 0 <= j < prev.queued@.len() && #[trigger] prev.queued@[j].spec_key() == key;
        assert(j != best);
        let a = if j < best { j } else { j - 1 };
        assert(next.queued@[a] == prev.queued@[j]);
    }
    assert forall|key: ThumbnailKey| #[trigger]
        next.failure_map().contains_key(key) implies next.status_map().contains_key(key) by {
        assert(prev.failure_map().contains_key(key));
    }
    lemma_wf_intro(next);
}

proof fn lemma_settle_keeps_wf(
    prev: PipelineBook,
    next: PipelineBook,
    key: ThumbnailKey,
    st: ThumbnailStatus,
)
    requires
        prev.wf(),
        prev.spec_status(key) is InProgress,
        !(st is Queued),
        next.queued == prev.queued,
        keys_unique(next.statuses@),
        keys_unique(next.failure_counts@),
        next.status_map() == prev.status_map().insert(key, st),
        forall|k: ThumbnailKey| #[trigger]
            next.failure_map().contains_key(k) ==> prev.failure_map().contains_key(k) || k == key,
    ensures
        next.wf(),
{
    assert forall|a: int| #![trigger next.queued@[a]] 0 <= a < next.queued@.len() implies next.status_map().contains_key(
        next.queued@[a].spec_key(),
    ) && next.status_map()[next.queued@[a].spec_key()] == (ThumbnailStatus::Queued {
        priority: next.queued@[a].priority,
    }) by {
        assert(prev.status_map().contains_key(prev.queued@[a].spec_key()));
    }
    assert forall|k: ThumbnailKey| #[trigger]
        next.status_map().contains_key(k) && next.status_map()[k] is Queued implies exists|a: int|
            0 <= a < next.queued@.len() && #[trigger] next.queued@[a].spec_key() == k by {
        assert(k != key);
    }
    assert forall|k: ThumbnailKey| #[trigger]
        next.failure_map().contains_key(k) implies next.status_map().contains_key(k) by {
        if k != key {
            assert(prev.failure_map().contains_key(k));
        }
    }
    lemma_wf_intro(next);
}

proof fn lemma_drop_keeps_wf(
    prev: PipelineBook,
    next: PipelineBook,
    sel: KeySelection,
    origin: Seq<int>,
)
    requires
        prev.wf(),
        keys_unique(next.statuses@),
        keys_unique(next.failure_counts@),
        next.status_map() == without_selected(prev.status_map(), sel),
        next.failure_map() == without_selected(prev.failure_map(), sel),
        origin.len() == next.queued@.len(),
        forall|t: int| 0 <= t < next.queued@.len() ==> 0 <= #[trigger] origin[t] < prev.queued@.len()
            && next.queued@[t] == prev.queued@[origin[t]] && !sel.selects(next.queued@[t].spec_key()),
        forall|t: int, u: int| 0 <= t < u < next.queued@.len() ==> #[trigger] origin[t] < #[trigger] origin[u],
        forall|j: int| 0 <= j < prev.queued@.len() && !sel.selects(#[trigger] prev.queued@[j].spec_key()) ==> exists|t: int|
            0 <= t < next.queued@.len() && origin[t] == j,
    ensures
        next.wf(),
{
    assert forall|a: int, b: int|
        0 <= a < next.queued@.len() && 0 <= b < next.queued@.len() && a != b implies #[trigger] next.queued@[a].spec_key()
        != #[trigger] next.queued@[b].spec_key() by {
        assert(origin[a] != origin[b]) by {
            if a < b { assert(origin[a] < origin[b]); } else { assert(origin[b] < origin[a]); }
        }
        assert(next.queued@[a] == prev.queued@[origin[a]]);
        assert(next.queued@[b] == prev.queued@[origin[b]]);
    }
    assert forall|a: int| #![trigger next.queued@[a]] 0 <= a < next.queued@.len() implies next.status_map().contains_key(
        next.queued@[a].spec_key(),
    ) && next.status_map()[next.queued@[a].spec_key()] == (ThumbnailStatus::Queued {
        priority: next.queued@[a].priority,
    }) by {
        assert(next.queued@[a] == prev.queued@[origin[a]]);
        assert(prev.status_map().contains_key(prev.queued@[origin[a]].spec_key()));
    }
    assert forall|k: ThumbnailKey| #[trigger]
        next.status_map().contains_key(k) && next.status_map()[k] is Queued implies exists|a: int|
            0 <= a < next.queued@.len() && #[trigger] next.queued@[a].spec_key() == k by {
        assert(prev.status_map().contains_key(k));
        let j = choose|j: int| 0 <= j < prev.queued@.len() && #[trigger] prev.queued@[j].spec_key() == k;
        let t = choose|t: int| 0 <= t < next.queued@.len() && origin[t] == j;
        assert(next.queued@[t] == prev.queued@[j]);
    }
    assert forall|k: ThumbnailKey| #[trigger]
        next.failure_map().contains_key(k) implies next.status_map().contains_key(k) by {
        assert(prev.failure_map().contains_key(k));
    }
    lemma_wf_intro(next);
}

/// The successor of `n`, staying at `u64::MAX`.
pub open spec fn saturating_next(n: u64) -> u64 {
    if n < u64::MAX {
        (n + 1) as u64
    } else {
        n
    }
}

/// Queue and status book of thumbnail generation.
pub struct ThumbnailPipeline {
    book: PipelineBook,
}

impl ThumbnailPipeline {
    /// The queued jobs, in the order they were queued.
    pub closed spec fn queue(&self) -> Seq<ThumbnailJob> {
        self.book.queue()
    }

    /// The recorded status of each key that has one.
    pub closed spec fn status_map(&self) -> Map<ThumbnailKey, ThumbnailStatus> {
        self.book.status_map()
    }

    /// The recorded failure count of each key that has one.
    pub closed spec fn failure_map(&self) -> Map<ThumbnailKey, u8> {
        self.book.failure_map()
    }

    /// The request order that the next queued job receives.
    pub closed spec fn next_order(&self) -> u64 {
        self.book.next_order()
    }

    pub open spec fn spec_status(&self, k: ThumbnailKey) -> ThumbnailStatus {
        status_in(self.status_map(), k)
    }

    pub open spec fn spec_failure_count(&self, k: ThumbnailKey) -> u8 {
        count_in(self.failure_map(), k)
    }

    /// Well-formedness: each queued job is the only one with its key and its
    /// key has status `Queued` with the job's priority; each `Queued` status
    /// has a queued job; only keys with a status have a failure count. Every
    /// pipeline that the methods below build or change is well formed.
    pub closed spec fn wf(&self) -> bool {
        self.book.wf()
    }

    #[verifier::type_invariant]
    spec fn book_well_formed(&self) -> bool {
        self.book.wf()
    }

    /// `self` is `prev` with `request` queued at `priority`.
    pub open spec fn is_enqueue_of(
        &self,
        prev: &ThumbnailPipeline,
        request: ThumbnailRequest,
        priority: ThumbnailPriority,
    ) -> bool {
        &&& self.queue() == prev.queue().push(
            ThumbnailJob { request, priority, requested_at: prev.next_order() },
        )
        &&& self.status_map() == prev.status_map().insert(
            request.spec_key(),
            ThumbnailStatus::Queued { priority },
        )
        &&& self.failure_map() == prev.failure_map()
        &&& self.next_order() == saturating_next(prev.next_order())
    }

    /// `self` holds the same jobs, statuses, counts and request order as `prev`.
    pub open spec fn same_as(&self, prev: &ThumbnailPipeline) -> bool {
        &&& self.queue() == prev.queue()
        &&& self.status_map() == prev.status_map()
        &&& self.failure_map() == prev.failure_map()
        &&& self.next_order() == prev.next_order()
    }

    /// `self` is `prev` after a request for `request` at `priority`:
    /// a queued key is promoted when the new priority is higher; an unknown key
    /// is queued; a failed key is queued again while it has failed fewer than
    /// `THUMBNAIL_MAX_FAILURES` times; anything else is left as it is.
    pub open spec fn is_request_of(
        &self,
        prev: &ThumbnailPipeline,
        request: ThumbnailRequest,
        priority: ThumbnailPriority,
    ) -> bool {
        let k = request.spec_key();
        match prev.spec_status(k) {
            ThumbnailStatus::Queued { priority: existing } => if priority_rank(priority)
                > priority_rank(existing) {
                &&& self.status_map() == prev.status_map().insert(
                    k,
                    ThumbnailStatus::Queued { priority },
                )
                &&& self.queue().len() == prev.queue().len()
                &&& forall|i: int|
                    0 <= i < prev.queue().len() ==> #[trigger] self.queue()[i] == (if prev.queue()[i].spec_key()
                        == k {
                        ThumbnailJob {
                            request: prev.queue()[i].request,
                            priority,
                            requested_at: prev.queue()[i].requested_at,
                        }
                    } else {
                        prev.queue()[i]
                    })
                &&& self.failure_map() == prev.failure_map()
                &&& self.next_order() == prev.next_order()
            } else {
                self.same_as(prev)
            },
            ThumbnailStatus::InProgress => self.same_as(prev),
            ThumbnailStatus::Ready => self.same_as(prev),
            ThumbnailStatus::Failed { .. } => if prev.spec_failure_count(k) < THUMBNAIL_MAX_FAILURES {
                self.is_enqueue_of(prev, request, priority)
            } else {
                self.same_as(prev)
            },
            ThumbnailStatus::Missing => self.is_enqueue_of(prev, request, priority),
        }
    }


    /// `self` is `prev` after `start_next` returned `r`: with nothing queued it
    /// returns `None` and changes nothing; otherwise it removes and returns the
    /// next job (`is_next_job`) and marks its key `InProgress`.
    pub open spec fn is_start_of(&self, prev: &ThumbnailPipeline, r: Option<ThumbnailJob>) -> bool {
        &&& prev.queue().len() == 0 ==> r is None && self.same_as(prev)
        &&& prev.queue().len() > 0 ==> exists|i: int|
            is_next_job(prev.queue(), i) && r == Some(prev.queue()[i]) && self.queue()
                == prev.queue().remove(i) && self.status_map() == prev.status_map().insert(
                prev.queue()[i].spec_key(),
                ThumbnailStatus::InProgress,
            ) && self.failure_map() == prev.failure_map() && self.next_order() == prev.next_order()
    }

    /// `self` is `prev` after `complete(key)` returned `r`: `r` tells whether
    /// `key` was in progress; if so it is `Ready` and its failures are
    /// forgotten, otherwise nothing changed.
    pub open spec fn is_completion_of(&self, prev: &ThumbnailPipeline, key: ThumbnailKey, r: bool) -> bool {
        &&& r == (prev.spec_status(key) is InProgress)
        &&& r ==> self.queue() == prev.queue() && self.status_map() == prev.status_map().insert(
            key,
            ThumbnailStatus::Ready,
        ) && self.failure_map() == prev.failure_map().remove(key) && self.next_order()
            == prev.next_order()
        &&& !r ==> self.same_as(prev)
    }

    /// `self` is `prev` after `fail(key, message)` returned `r`: `r` tells
    /// whether `key` was in progress; if so it is `Failed` with `message` and
    /// its failure count went up by one (staying at 255), otherwise nothing
    /// changed.
    pub open spec fn is_failure_of(
        &self,
        prev: &ThumbnailPipeline,
        key: ThumbnailKey,
        message: String,
        r: bool,
    ) -> bool {
        &&& r == (prev.spec_status(key) is InProgress)
        &&& r ==> self.queue() == prev.queue() && self.status_map() == prev.status_map().insert(
            key,
            ThumbnailStatus::Failed { message },
        ) && self.failure_map() == prev.failure_map().insert(
            key,
            saturating_next_u8(prev.spec_failure_count(key)),
        ) && self.next_order() == prev.next_order()
        &&& !r ==> self.same_as(prev)
    }

    /// `self` is `prev` after `clear(key)`: no job, status or count of `key`
    /// is left and nothing else changed.
    pub open spec fn is_clear_of(&self, prev: &ThumbnailPipeline, key: ThumbnailKey) -> bool {
        &&& self.queue() == prev.queue().filter(|j: ThumbnailJob| j.spec_key() != key)
        &&& self.status_map() == prev.status_map().remove(key)
        &&& self.failure_map() == prev.failure_map().remove(key)
        &&& self.next_order() == prev.next_order()
    }


    /// `self` is `prev` after `clear_asset_versions_except(asset_id,
    /// source_version)`: the jobs, statuses and counts of every other version
    /// of `asset_id` are gone and nothing else changed.
    pub open spec fn is_version_clear_of(&self, prev: &ThumbnailPipeline, asset_id: u128, source_version: u64) -> bool {
        &&& self.queue() == prev.queue().filter(
            |j: ThumbnailJob| !stale_version(j.spec_key(), asset_id, source_version),
        )
        &&& self.status_map() == prev.status_map().restrict(
            prev.status_map().dom().filter(|k: ThumbnailKey| !stale_version(k, asset_id, source_version)),
        )
        &&& self.failure_map() == prev.failure_map().restrict(
            prev.failure_map().dom().filter(|k: ThumbnailKey| !stale_version(k, asset_id, source_version)),
        )
        &&& self.next_order() == prev.next_order()
    }

    /// The queue and the statuses agree: a key's status is `Queued` exactly
    /// when a queued job has that key, no two queued jobs share a key, and a
    /// queued job's priority is the one its status names. Only keys with a
    /// status have a failure count.
    pub proof fn lemma_queue_agrees_with_status(&self, k: ThumbnailKey)
        requires
            self.wf(),
        ensures
            (self.spec_status(k) is Queued) <==> exists|i: int|
                0 <= i < self.queue().len() && #[trigger] self.queue()[i].spec_key() == k,
            forall|i: int, j: int|
                0 <= i < self.queue().len() && 0 <= j < self.queue().len() && i != j
                    ==> #[trigger] self.queue()[i].spec_key() != #[trigger] self.queue()[j].spec_key(),
            forall|i: int|
                0 <= i < self.queue().len() && #[trigger] self.queue()[i].spec_key() == k
                    ==> self.spec_status(k) == (ThumbnailStatus::Queued { priority: self.queue()[i].priority }),
            self.failure_map().contains_key(k) ==> self.status_map().contains_key(k),
    {
        if self.spec_status(k) is Queued {
            assert(self.status_map().contains_key(k));
        }
        if exists|i: int| 0 <= i < self.queue().len() && #[trigger] self.queue()[i].spec_key() == k {
            let i = choose|i: int| 0 <= i < self.queue().len() && #[trigger] self.queue()[i].spec_key() == k;
            assert(self.book.queued@[i].spec_key() == k);
        }
    }

    /// An empty pipeline.
    pub fn new() -> (r: ThumbnailPipeline)
        ensures
            r.wf(),
            r.queue() == Seq::<ThumbnailJob>::empty(),
            r.status_map() == Map::<ThumbnailKey, ThumbnailStatus>::empty(),
            r.failure_map() == Map::<ThumbnailKey, u8>::empty(),
            r.next_order() == 0,
    {
        ThumbnailPipeline { book: PipelineBook::new() }
    }

    /// The status of `key`; `Missing` when nothing is known of it.
    pub fn status(&self, key: ThumbnailKey) -> (r: ThumbnailStatus)
        ensures
            r == self.spec_status(key),
    {
        proof {
            use_type_invariant(self);
        }
        self.book.status(key)
    }

    /// How many times `key` has failed; zero when it never has.
    pub fn failure_count(&self, key: ThumbnailKey) -> (r: u8)
        ensures
            r == self.spec_failure_count(key),
    {
        proof {
            use_type_invariant(self);
        }
        self.book.failure_count(key)
    }

    /// The number of queued jobs.
    pub fn queued_len(&self) -> (r: usize)
        ensures
            r == self.queue().len(),
    {
        self.book.queued_len()
    }

    /// Asks for a thumbnail of `request` at `priority` (see `is_request_of`)
    /// and returns the key's status afterwards.
    pub fn request(&mut self, request: ThumbnailRequest, priority: ThumbnailPriority) -> (r: ThumbnailStatus)
        ensures
            final(self).wf(),
            final(self).is_request_of(&*old(self), request, priority),
            r == final(self).spec_status(request.spec_key()),
            (r is Queued) <==> exists|i: int|
                0 <= i < final(self).queue().len() && #[trigger] final(self).queue()[i].spec_key()
                    == request.spec_key(),
            forall|i: int, j: int|
                0 <= i < final(self).queue().len() && 0 <= j < final(self).queue().len() && i != j
                    ==> #[trigger] final(self).queue()[i].spec_key() != #[trigger] final(self).queue()[j].spec_key(),
    {
        proof {
            use_type_invariant(&*self);
        }
        let mut book = PipelineBook::new();
        std::mem::swap(&mut book, &mut self.book);
        let r = book.request(request, priority);
        self.book = book;
        proof {
            self.lemma_queue_agrees_with_status(request.spec_key());
        }
        r
    }

    /// Starts the queued job of highest priority, the earliest requested among
    /// equals, marking its key `InProgress`; `None` when nothing is queued.
    pub fn start_next(&mut self) -> (r: Option<ThumbnailJob>)
        ensures
            final(self).wf(),
            final(self).is_start_of(&*old(self), r),
    {
        proof {
            use_type_invariant(&*self);
        }
        let mut book = PipelineBook::new();
        std::mem::swap(&mut book, &mut self.book);
        let r = book.start_next();
        self.book = book;
        r
    }

    /// Marks `key` ready if it is in progress, forgetting its failures;
    /// returns whether it was.
    pub fn complete(&mut self, key: ThumbnailKey) -> (r: bool)
        ensures
            final(self).wf(),
            final(self).is_completion_of(&*old(self), key, r),
    {
        proof {
            use_type_invariant(&*self);
        }
        let mut book = PipelineBook::new();
        std::mem::swap(&mut book, &mut self.book);
        let r = book.complete(key);
        self.book = book;
        r
    }

    /// Marks `key` failed with `message` if it is in progress, counting one
    /// more failure; returns whether it was.
    pub fn fail(&mut self, key: ThumbnailKey, message: String) -> (r: bool)
        ensures
            final(self).wf(),
            final(self).is_failure_of(&*old(self), key, message, r),
    {
        proof {
            use_type_invariant(&*self);
        }
        let mut book = PipelineBook::new();
        std::mem::swap(&mut book, &mut self.book);
        let r = book.fail(key, message);
        self.book = book;
        r
    }

    /// Forgets everything about `key`.
    pub fn clear(&mut self, key: ThumbnailKey)
        ensures
            final(self).wf(),
            final(self).is_clear_of(&*old(self), key),
    {
        proof {
            use_type_invariant(&*self);
        }
        let mut book = PipelineBook::new();
        std::mem::swap(&mut book, &mut self.book);
        book.clear(key);
        self.book = book;
    }

    /// Forgets every version of `asset_id` other than `source_version`.
    pub fn clear_asset_versions_except(&mut self, asset_id: u128, source_version: u64)
        ensures
            final(self).wf(),
            final(self).is_version_clear_of(&*old(self), asset_id, source_version),
    {
        proof {
            use_type_invariant(&*self);
        }
        let mut book = PipelineBook::new();
        std::mem::swap(&mut book, &mut self.book);
        book.clear_asset_versions_except(asset_id, source_version);
        self.book = book;
    }
}

} // verus!

verus! {

impl Default for ThumbnailPipeline {
    fn default() -> (r: ThumbnailPipeline)
        ensures
            r.wf(),
            r.wf(),
            r.queue() == Seq::<ThumbnailJob>::empty(),
            r.status_map() == Map::<ThumbnailKey, ThumbnailStatus>::empty(),
            r.failure_map() == Map::<ThumbnailKey, u8>::empty(),
            r.next_order() == 0,
    {
        ThumbnailPipeline::new()
    }
}

} // verus!
